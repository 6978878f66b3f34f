//! Trusted boundary to toml_edit. The parsed document is opaque to the
//! verifier and keeps the source's comments, ordering and whitespace;
//! `toml_shape` names the document-model tree it holds, and every item here
//! is specified against that name.

use vstd::prelude::*;

use crate::doc::{DocNode, DocView, PathStep, StepV, doc_at, doc_set, path_view};

verus! {

/// Declares toml_edit::DocumentMut: the format-preserving document.
#[verifier::external_type_specification]
#[verifier::external_body]
pub struct ExTomlDocument(toml_edit::DocumentMut);

/// Declares toml_edit::Item: one table entry of a document.
#[verifier::external_type_specification]
#[verifier::external_body]
pub struct ExTomlItem(toml_edit::Item);

/// Declares toml_edit::Value: one inline value of a document.
#[verifier::external_type_specification]
#[verifier::external_body]
pub struct ExTomlValue(toml_edit::Value);

/// The document-model tree a parsed TOML document holds: tables and inline
/// tables are mappings, arrays and arrays-of-tables are sequences, strings
/// are string leaves, booleans are booleans, anything else an opaque leaf
/// carrying its decorated TOML text.
pub uninterp spec fn toml_shape(d: toml_edit::DocumentMut) -> DocView;

/// What parsing a TOML text yields, when it is syntactically valid.
pub uninterp spec fn toml_doc_of(s: Seq<char>) -> Option<DocView>;

/// The current text of a format-preserving document.
pub uninterp spec fn toml_text(d: toml_edit::DocumentMut) -> Seq<char>;

/// The text of a freshly parsed document: the input text, up to toml_edit's
/// documented normalizations (the order of dotted keys, and a trailing
/// newline, which a parsed document always renders with).
pub uninterp spec fn toml_parse_text_of(s: Seq<char>) -> Seq<char>;

/// The document's text after the string leaf at a path is overwritten: the
/// old text with only that scalar's token rewritten; comments, whitespace,
/// key order and every untouched value keep their bytes.
pub uninterp spec fn toml_set_text_of(
    old_text: Seq<char>,
    path: Seq<StepV>,
    target: Seq<char>,
) -> Seq<char>;

/// Relies on toml_edit's DocumentMut parser: accepts exactly the
/// syntactically valid TOML documents.
#[verifier::external_body]
pub fn toml_parse(text: &str) -> (r: Option<toml_edit::DocumentMut>)
    ensures
        r is Some <==> toml_doc_of(text@) is Some,
        r matches Some(d) ==> toml_doc_of(text@) == Some(toml_shape(d)) && toml_text(d)
            == toml_parse_text_of(text@),
{
    text.parse::<toml_edit::DocumentMut>().ok()
}

/// Relies on the variant-for-variant reading of a parsed document into the
/// document model; this conversion is what defines `toml_shape`.
#[verifier::external_body]
pub fn toml_doc_to_node(d: &toml_edit::DocumentMut) -> (n: DocNode)
    ensures
        n@ == toml_shape(*d),
{
    toml_item_to_node(d.as_item())
}

/// The document-model tree one item holds.
pub uninterp spec fn toml_item_view(i: toml_edit::Item) -> DocView;

/// The document-model tree one value holds.
pub uninterp spec fn toml_value_view(v: toml_edit::Value) -> DocView;

/// Relies on toml_edit::Item's variants: tables become mappings and
/// arrays-of-tables become sequences of mappings.
#[verifier::external_body]
fn toml_item_to_node(item: &toml_edit::Item) -> (n: DocNode)
    ensures
        n@ == toml_item_view(*item),
{
    match item {
        toml_edit::Item::Value(v) => toml_value_to_node(v),
        toml_edit::Item::Table(t) => DocNode::Obj(
            t.iter().map(|(k, c)| (k.to_string(), toml_item_to_node(c))).collect(),
        ),
        toml_edit::Item::ArrayOfTables(a) => DocNode::Arr(
            a.iter().map(|t| DocNode::Obj(
                t.iter().map(|(k, c)| (k.to_string(), toml_item_to_node(c))).collect(),
            )).collect()),
        toml_edit::Item::None => DocNode::Other(String::new()),
    }
}

/// Relies on toml_edit::Value's variants: inline tables become mappings,
/// value arrays become sequences, and any other scalar becomes an opaque
/// leaf carrying its decorated text, via Display.
#[verifier::external_body]
fn toml_value_to_node(v: &toml_edit::Value) -> (n: DocNode)
    ensures
        n@ == toml_value_view(*v),
{
    match v {
        toml_edit::Value::String(f) => DocNode::Str(f.value().clone()),
        toml_edit::Value::Boolean(b) => DocNode::Bool(*b.value()),
        toml_edit::Value::Array(items) => DocNode::Arr(
            items.iter().map(toml_value_to_node).collect(),
        ),
        toml_edit::Value::InlineTable(t) => DocNode::Obj(
            t.iter().map(|(k, c)| (k.to_string(), toml_value_to_node(c))).collect(),
        ),
        other => DocNode::Other(other.to_string()),
    }
}

/// Relies on toml_edit's item navigation (`Item::get_mut` by key and by
/// index): writes the target string over the string leaf the path reaches,
/// leaving every other byte of the document's text untouched. The path must
/// lead to a string leaf of the document's tree.
#[verifier::external_body]
pub fn toml_set_str(
    doc: &mut toml_edit::DocumentMut,
    path: &Vec<PathStep>,
    target: &str,
) -> (r: bool)
    requires
        doc_at(toml_shape(*old(doc)), path_view(path@)) matches Some(leaf) && leaf is Str,
    ensures
        r,
        toml_shape(*final(doc)) == doc_set(toml_shape(*old(doc)), path_view(path@), target@),
        toml_text(*final(doc)) == toml_set_text_of(
            toml_text(*old(doc)),
            path_view(path@),
            target@,
        ),
{
    let mut cur: &mut toml_edit::Item = doc.as_item_mut();
    for step in path.iter() {
        let next = match step {
            PathStep::Key(k) => cur.get_mut(k.as_str()),
            PathStep::Index(i) => cur.get_mut(*i),
        };
        match next { Some(child) => cur = child, None => return false }
    }
    match cur.as_value_mut() {
        Some(v) if v.is_str() => { *v = toml_edit::Value::from(target); true },
        _ => false,
    }
}

/// Relies on DocumentMut's Display: the document's current text, a function
/// of the document alone.
#[verifier::external_body]
pub fn toml_doc_text(d: &toml_edit::DocumentMut) -> (r: String)
    ensures
        r@ == toml_text(*d),
{
    d.to_string()
}

} // verus!
