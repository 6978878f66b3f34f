//! Trusted boundary to handlebars, plus the construction of the JSON values
//! that serve as rendering contexts. A context is built only from strings,
//! booleans, arrays and objects, so its document view determines it.

use vstd::prelude::*;

use crate::doc::DocView;
use crate::jsonio::json_view;

verus! {

broadcast use vstd::seq::group_seq_axioms, vstd::map::group_map_axioms;

/// A context view made only of strings, booleans, arrays and objects: such
/// a view determines the underlying JSON value up to rendering.
pub open spec fn ctx_ok(d: DocView) -> bool
    decreases d,
{
    match d {
        DocView::Str(_) => true,
        DocView::Bool(_) => true,
        DocView::Other(_) => false,
        DocView::Arr(items) => forall|i: int|
            0 <= i < items.len() ==> ctx_ok(#[trigger] items[i]),
        DocView::Obj(m) => forall|k: Seq<char>|
            m.dom().contains(k) ==> ctx_ok(#[trigger] m[k]),
    }
}

/// Relies on serde_json::Value::String.
#[verifier::external_body]
pub fn json_str(s: &str) -> (r: serde_json::Value)
    ensures
        json_view(r) == DocView::Str(s@),
{
    serde_json::Value::String(s.to_string())
}

/// Relies on serde_json::Value::Bool.
#[verifier::external_body]
pub fn json_bool(b: bool) -> (r: serde_json::Value)
    ensures
        json_view(r) == DocView::Bool(b),
{
    serde_json::Value::Bool(b)
}

/// Relies on serde_json::Value::Array.
#[verifier::external_body]
pub fn json_arr(items: Vec<serde_json::Value>) -> (r: serde_json::Value)
    ensures
        json_view(r) == DocView::Arr(
            items@.map_values(|v: serde_json::Value| json_view(v)),
        ),
{
    serde_json::Value::Array(items)
}

/// Relies on serde_json::Value::Object over an empty map.
#[verifier::external_body]
pub fn json_obj_empty() -> (r: serde_json::Value)
    ensures
        json_view(r) == DocView::Obj(Map::empty()),
{
    serde_json::Value::Object(serde_json::Map::new())
}

/// Relies on serde_json's object map insertion.
#[verifier::external_body]
pub fn json_obj_insert(obj: &mut serde_json::Value, key: &str, val: serde_json::Value)
    requires
        json_view(*old(obj)) is Obj,
    ensures
        json_view(*final(obj)) == (match json_view(*old(obj)) {
            DocView::Obj(m) => DocView::Obj(m.insert(key@, json_view(val))),
            _ => json_view(*old(obj)),
        }),
{
    if let serde_json::Value::Object(m) = obj {
        m.insert(key.to_string(), val);
    }
}

/// What rendering a template, registered under a name, against a context
/// view yields. The registration name matters: a partial directive naming
/// the current template is rejected as self-inclusion. Meaningful only for
/// contexts whose view satisfies `ctx_ok`, which determines the value.
pub uninterp spec fn hb_render_of(name: Seq<char>, template: Seq<char>, ctx: DocView) -> Seq<char>;

/// Whether rendering a template, registered under a name, against a context
/// view succeeds.
pub uninterp spec fn hb_render_ok(name: Seq<char>, template: Seq<char>, ctx: DocView) -> bool;

/// Relies on handlebars: registers the template under the name without HTML
/// escaping and renders it against the context value.
#[verifier::external_body]
pub fn hb_render(name: &str, template: &str, ctx: &serde_json::Value) -> (r: Result<
    String,
    String,
>)
    requires
        ctx_ok(json_view(*ctx)),
    ensures
        r is Ok <==> hb_render_ok(name@, template@, json_view(*ctx)),
        r matches Ok(s) ==> s@ == hb_render_of(name@, template@, json_view(*ctx)),
{
    let mut handlebars = handlebars::Handlebars::new();
    handlebars.register_escape_fn(handlebars::no_escape);
    if let Err(e) = handlebars.register_template_string(name, template) {
        return Err(e.to_string());
    }
    match handlebars.render(name, ctx) {
        Ok(s) => Ok(s),
        Err(e) => Err(e.to_string()),
    }
}

} // verus!
