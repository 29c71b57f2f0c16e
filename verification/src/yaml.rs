//! The boundary to `serde_yaml`.
//!
//! YAML text is read and written by `serde_yaml`; nothing in this module is
//! proved. A `serde_yaml::Value` is opaque to the verifier. What the rest of
//! the crate knows about one comes from the uninterpreted functions below and
//! from the contracts of the five functions that hand values to `serde_yaml`
//! or take them from it.

use serde_yaml::Value;
use vstd::prelude::*;

verus! {

/// `serde_yaml::Value`, a YAML value of any shape.
#[verifier::external_type_specification]
#[verifier::external_body]
pub struct ExValue(serde_yaml::Value);

/// `serde_yaml::Error`, the error of reading or writing YAML text.
#[verifier::external_type_specification]
#[verifier::external_body]
pub struct ExError(serde_yaml::Error);

/// What a frontmatter reads of one YAML value: whether it is null, a string
/// or a sequence, and what a string or sequence holds.
pub enum Node {
    Null,
    Text(String),
    Sequence(Vec<Value>),
    Other,
}

/// The mathematical model of a `Node`.
pub enum NodeView {
    Null,
    Text(Seq<char>),
    Sequence(Seq<Value>),
    Other,
}

impl View for Node {
    type V = NodeView;

    open spec fn view(&self) -> NodeView {
        match self {
            Node::Null => NodeView::Null,
            Node::Text(text) => NodeView::Text(text@),
            Node::Sequence(items) => NodeView::Sequence(items@),
            Node::Other => NodeView::Other,
        }
    }
}

/// The variant of `value` and, for a string or a sequence, what it holds.
pub uninterp spec fn value_node(value: Value) -> NodeView;

/// The value `Value::String` of the string `text`.
pub uninterp spec fn yaml_string(text: Seq<char>) -> Value;

/// The value `Value::Sequence` of `items`.
pub uninterp spec fn yaml_sequence(items: Seq<Value>) -> Value;

/// The entries, in the order of the text, of the mapping that
/// `serde_yaml::from_str` reads from `text`; `None` where it returns an error.
pub uninterp spec fn yaml_document(text: Seq<char>) -> Option<Seq<(Value, Value)>>;

/// The text that `serde_yaml::to_string` writes for the mapping collected from
/// `entries`; `None` where it returns an error.
pub uninterp spec fn yaml_text(entries: Seq<(Value, Value)>) -> Option<Seq<char>>;

/// Calls `serde_yaml::from_str` to read `text` as one `serde_yaml::Mapping`
/// and hands out its entries in the mapping's own order.
///
/// The contract only names the outcome: the same text gives the same entries,
/// or an error each time.
#[verifier::external_body]
pub(crate) fn parse_mapping(text: &str) -> (parsed: Result<Vec<(Value, Value)>, serde_yaml::Error>)
    ensures
        match parsed {
            Ok(entries) => yaml_document(text@) == Some(entries@),
            Err(_) => yaml_document(text@) is None,
        },
{
    let mapping = serde_yaml::from_str::<serde_yaml::Mapping>(text)?;
    Ok(mapping.into_iter().collect())
}

/// Collects `entries` into a `serde_yaml::Mapping` and calls
/// `serde_yaml::to_string` on it.
///
/// The contract only names the outcome: the same entries give the same text,
/// or an error each time.
#[verifier::external_body]
pub(crate) fn emit_mapping(entries: Vec<(Value, Value)>) -> (emitted: Result<String, serde_yaml::Error>)
    ensures
        match emitted {
            Ok(text) => yaml_text(entries@) == Some(text@),
            Err(_) => yaml_text(entries@) is None,
        },
{
    let mapping: serde_yaml::Mapping = entries.into_iter().collect();
    serde_yaml::to_string(&mapping)
}

/// Tells the variants of `serde_yaml::Value` apart and moves out what a
/// string or a sequence holds. A tagged value counts as `Other`.
#[verifier::external_body]
pub(crate) fn into_node(value: Value) -> (node: Node)
    ensures
        node@ == value_node(value),
{
    match value {
        Value::Null => Node::Null,
        Value::String(text) => Node::Text(text),
        Value::Sequence(items) => Node::Sequence(items),
        Value::Bool(_) => Node::Other,
        Value::Number(_) => Node::Other,
        Value::Mapping(_) => Node::Other,
        Value::Tagged(_) => Node::Other,
    }
}

/// Builds `Value::String(text)`: a value that `into_node` reads back as the
/// same string.
#[verifier::external_body]
pub(crate) fn string_value(text: String) -> (value: Value)
    ensures
        value == yaml_string(text@),
        value_node(value) == NodeView::Text(text@),
{
    Value::String(text)
}

/// Builds `Value::Sequence(items)`: a value that `into_node` reads back as the
/// same items.
#[verifier::external_body]
pub(crate) fn sequence_value(items: Vec<Value>) -> (value: Value)
    ensures
        value == yaml_sequence(items@),
        value_node(value) == NodeView::Sequence(items@),
{
    Value::Sequence(items)
}

} // verus!
