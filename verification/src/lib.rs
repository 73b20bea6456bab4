//! The logic of a thermal testing tool.
//!
//! Temperatures, loads and other measured values are integers in millionths
//! of their unit, see [`fixed`].

pub mod afterburner;
pub mod aida64;
pub mod api;
pub mod app;
pub mod big;
pub mod buttons;
pub mod bytes;
pub mod cli;
pub mod coretemp;
pub mod debug;
pub mod decimal;
pub mod diagnostics;
pub mod doubles;
pub mod engine;
pub mod fixed;
pub mod form;
pub mod frames;
pub mod gpus;
pub mod hardware;
pub mod hwinfo;
pub mod input;
pub mod inventory;
pub mod json;
pub mod layout;
pub mod lhm;
pub mod nearest;
pub mod numerals;
pub mod nvidia;
pub mod payload;
pub mod pick;
pub mod plain;
pub mod platform;
pub mod results;
pub mod screens;
pub mod sensors;
pub mod series;
pub mod settings;
pub mod setup;
pub mod stress;
pub mod submit;
pub mod summary;
pub mod temps;
pub mod text;
pub mod ui;
