//! The command line's arguments.
use vstd::prelude::*;

use crate::engine::TestKind;
use crate::text::{cat3, same};

verus! {

/// What the argument of `--test` asks for.
#[derive(Debug, Clone)]
pub enum TestArg {
    /// Nothing in particular.
    Unset,
    /// The diagnostics.
    Debug,
    Kind(TestKind),
    /// It is not valid; the message says why.
    Invalid(String),
}

/// What an argument of `--test` means.
pub open spec fn test_arg(t: Option<Seq<char>>, r: TestArg) -> bool {
    match t {
        None => r is Unset,
        Some(s) => if s == "debug"@ {
            r is Debug
        } else {
            match TestKind::named(s) {
                Some(k) => r == TestArg::Kind(k),
                None => r is Invalid && r->Invalid_0@ == "Invalid test type '"@ + s
                    + "'. Use: cpu, gpu, both or debug"@,
            }
        },
    }
}

/// Reads the argument of `--test`.
pub fn parse_test(t: Option<&str>) -> (r: TestArg)
    ensures
        test_arg(
            match t {
                Some(s) => Some(s@),
                None => None,
            },
            r,
        ),
{
    match t {
        None => TestArg::Unset,
        Some(s) => {
            if same(s, "debug") {
                return TestArg::Debug;
            }
            match TestKind::parse(s) {
                Some(k) => TestArg::Kind(k),
                None => TestArg::Invalid(
                    cat3("Invalid test type '", s, "'. Use: cpu, gpu, both or debug"),
                ),
            }
        },
    }
}

/// A cooling that the command line takes.
pub open spec fn known_cooling(s: Seq<char>) -> bool {
    s == "air"@ || s == "aio"@ || s == "custom_loop"@ || s == "stock"@ || s == "passive"@ || s
        == "other"@
}

/// Checks the argument of `--cooling-type`; the message says why it is not
/// valid.
pub fn check_cooling(s: &str) -> (r: Option<String>)
    ensures
        match r {
            None => known_cooling(s@),
            Some(m) => !known_cooling(s@) && m@ == "Invalid cooling type '"@ + s@
                + "'. Use: stock, air, aio, custom_loop, passive, or other"@,
        },
{
    if same(s, "air") || same(s, "aio") || same(s, "custom_loop") || same(s, "stock") || same(
        s,
        "passive",
    ) || same(s, "other") {
        None
    } else {
        Some(
            cat3(
                "Invalid cooling type '",
                s,
                "'. Use: stock, air, aio, custom_loop, passive, or other",
            ),
        )
    }
}

/// A duration in the range that is allowed.
pub open spec fn allowed_secs(secs: int) -> int {
    if secs < 30 {
        30
    } else if secs > 3600 {
        3600
    } else {
        secs
    }
}

/// A duration within the range stays as it is; any other becomes the nearest that
/// is within it.
pub proof fn lemma_nearest_duration(secs: int, other: int)
    requires
        30 <= other <= 3600,
    ensures
        30 <= allowed_secs(secs) <= 3600,
        30 <= secs <= 3600 ==> allowed_secs(secs) == secs,
        secs <= allowed_secs(secs) ==> secs <= other ==> allowed_secs(secs) <= other,
        secs >= allowed_secs(secs) ==> secs >= other ==> allowed_secs(secs) >= other,
{
}

/// Brings a duration into the range that is allowed.
pub fn clamp_duration(secs: u64) -> (r: u64)
    ensures
        r == allowed_secs(secs as int),
        30 <= r <= 3600,
{
    if secs < 30 {
        30
    } else if secs > 3600 {
        3600
    } else {
        secs
    }
}

} // verus!
