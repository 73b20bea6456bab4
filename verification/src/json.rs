//! Looking values up in JSON documents.
use vstd::prelude::*;

use crate::decimal::LIMIT;
use crate::numerals::{millionths, parse_millionths};
use crate::text::{chars_of, text_of};

verus! {

/// A value in a JSON document.  Numbers are kept as decimal text; of lists
/// only the length is kept, the items have places of their own.
#[derive(Debug, Clone)]
pub enum Node {
    Null,
    Flag(bool),
    Number(String),
    Text(String),
    List(usize),
    Object,
}

/// A JSON value's contents.
pub ghost enum NodeView {
    Null,
    Flag(bool),
    Number(Seq<char>),
    Text(Seq<char>),
    List(nat),
    Object,
}

impl View for Node {
    type V = NodeView;

    open spec fn view(&self) -> NodeView {
        match *self {
            Node::Null => NodeView::Null,
            Node::Flag(b) => NodeView::Flag(b),
            Node::Number(n) => NodeView::Number(n@),
            Node::Text(s) => NodeView::Text(s@),
            Node::List(n) => NodeView::List(n as nat),
            Node::Object => NodeView::Object,
        }
    }
}

/// The contents of an optional value.
pub open spec fn node_of(n: Option<Node>) -> Option<NodeView> {
    match n {
        Some(x) => Some(x@),
        None => None,
    }
}

/// What `serde_json` finds in a document at a JSON pointer.
pub uninterp spec fn json_node(doc: Seq<char>, path: Seq<char>) -> Option<NodeView>;

/// `serde_json::from_str` into a `serde_json::Value`, and of that
/// `Value::pointer`: the value at a place of a document, none where the
/// document is not JSON or has no such place.  The same document and pointer
/// always give the same value.
#[verifier::external_body]
pub(crate) fn json_at(doc: &str, path: &str) -> (r: Option<Node>)
    ensures
        node_of(r) == json_node(doc@, path@),
{
    let value: serde_json::Value = serde_json::from_str(doc).ok()?;
    Some(match value.pointer(path)? {
        serde_json::Value::Null => Node::Null,
        serde_json::Value::Bool(b) => Node::Flag(*b),
        serde_json::Value::Number(n) => Node::Number(n.to_string()),
        serde_json::Value::String(s) => Node::Text(s.clone()),
        serde_json::Value::Array(items) => Node::List(items.len()),
        serde_json::Value::Object(_) => Node::Object,
    })
}

/// The text that a value is.
pub open spec fn as_text(n: Option<NodeView>) -> Option<Seq<char>> {
    match n {
        Some(NodeView::Text(s)) => Some(s),
        _ => None,
    }
}

/// The number that a value is, in millionths.
pub open spec fn as_number(n: Option<NodeView>) -> Option<int> {
    match n {
        Some(NodeView::Number(s)) => millionths(s),
        _ => None,
    }
}

/// The length of the list that a value is.
pub open spec fn as_list(n: Option<NodeView>) -> Option<nat> {
    match n {
        Some(NodeView::List(k)) => Some(k),
        _ => None,
    }
}

/// Takes the text out of a value.
pub fn text_in(n: Option<Node>) -> (r: Option<String>)
    ensures
        text_of(r) == as_text(node_of(n)),
{
    match n {
        Some(Node::Text(s)) => Some(s),
        _ => None,
    }
}

/// Takes the number out of a value, in millionths.
pub fn number_in(n: Option<Node>) -> (r: Option<i64>)
    ensures
        r is Some <==> as_number(node_of(n)) is Some,
        r is Some ==> Some(r->0 as int) == as_number(node_of(n)),
        r is Some ==> -LIMIT <= r->0 <= LIMIT,
{
    match n {
        Some(Node::Number(s)) => parse_millionths(chars_of(s.as_str()).as_slice()),
        _ => None,
    }
}

/// Takes the length out of a value that is a list.
pub fn list_in(n: Option<Node>) -> (r: Option<usize>)
    ensures
        r is Some <==> as_list(node_of(n)) is Some,
        r is Some ==> Some(r->0 as nat) == as_list(node_of(n)),
{
    match n {
        Some(Node::List(k)) => Some(k),
        _ => None,
    }
}

} // verus!
