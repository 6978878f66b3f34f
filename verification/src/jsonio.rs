//! Trusted boundary to serde_json. The parsed value is opaque to the
//! verifier; `json_view` names what it holds as a document-model tree, and
//! every item here is specified against that name.

use vstd::prelude::*;

use crate::doc::{DocNode, DocView, PathStep, StepV, doc_at, doc_set, path_view};

verus! {

/// Declares serde_json::Value: the parsed JSON document, opaque here.
#[verifier::external_type_specification]
#[verifier::external_body]
pub struct ExJsonValue(serde_json::Value);

/// The document-model tree a parsed JSON value holds: strings, booleans,
/// arrays and objects one variant each, any other scalar an opaque leaf
/// carrying its JSON text.
pub uninterp spec fn json_view(v: serde_json::Value) -> DocView;

/// What parsing a JSON text yields, when it is syntactically valid.
pub uninterp spec fn json_doc_of(s: Seq<char>) -> Option<DocView>;

/// The canonical pretty serialization of a JSON value.
pub uninterp spec fn json_pretty_of(v: serde_json::Value) -> Seq<char>;

/// Relies on serde_json::from_str: accepts exactly the syntactically valid
/// JSON documents.
#[verifier::external_body]
pub fn json_parse(text: &str) -> (r: Option<serde_json::Value>)
    ensures
        r is Some <==> json_doc_of(text@) is Some,
        r matches Some(v) ==> json_doc_of(text@) == Some(json_view(v)),
{
    serde_json::from_str::<serde_json::Value>(text).ok()
}

/// Relies on the variant-for-variant reading of a parsed JSON value into the
/// document model (a non-string scalar becomes its JSON text, via Display);
/// this conversion is what defines `json_view`.
#[verifier::external_body]
pub fn json_to_node(v: &serde_json::Value) -> (n: DocNode)
    ensures
        n@ == json_view(*v),
{
    match v {
        serde_json::Value::String(s) => DocNode::Str(s.clone()),
        serde_json::Value::Bool(b) => DocNode::Bool(*b),
        serde_json::Value::Array(items) => DocNode::Arr(
            items.iter().map(json_to_node).collect(),
        ),
        serde_json::Value::Object(map) => DocNode::Obj(
            map.iter().map(|(k, c)| (k.clone(), json_to_node(c))).collect(),
        ),
        other => DocNode::Other(other.to_string()),
    }
}

/// Relies on serde_json's value navigation (`Value::get_mut` by key and by
/// index): writes the target string over the string leaf the path reaches.
/// The path must lead to a string leaf of the value's tree.
#[verifier::external_body]
pub fn json_set_str(root: &mut serde_json::Value, path: &Vec<PathStep>, target: &str) -> (r: bool)
    requires
        doc_at(json_view(*old(root)), path_view(path@)) matches Some(leaf) && leaf is Str,
    ensures
        r,
        json_view(*final(root)) == doc_set(json_view(*old(root)), path_view(path@), target@),
{
    let mut cur: &mut serde_json::Value = root;
    for step in path.iter() {
        let next = match step {
            PathStep::Key(k) => cur.get_mut(k.as_str()),
            PathStep::Index(i) => cur.get_mut(*i),
        };
        match next { Some(child) => cur = child, None => return false }
    }
    if !cur.is_string() {
        return false;
    }
    *cur = serde_json::Value::String(target.to_string());
    true
}

/// Relies on serde_json::to_string_pretty: the canonical pretty form of the
/// value, a function of the value alone.
#[verifier::external_body]
pub fn json_to_pretty(v: &serde_json::Value) -> (r: String)
    ensures
        r@ == json_pretty_of(*v),
{
    match serde_json::to_string_pretty(v) {
        Ok(s) => s,
        Err(_) => String::new(),
    }
}

} // verus!
