//! JSON through `serde_json`: the value type carried opaquely, and one level
//! of a parsed document read as plain values (nested values stay JSON text).
use vstd::prelude::*;

verus! {

#[verifier::external_type_specification]
#[verifier::external_body]
pub struct ExJsonValue(serde_json::Value);

/// The top level of a JSON document; an array's items and an object's member
/// values are given back as JSON text.
pub enum JsonNode {
    Null,
    Bool(bool),
    /// The number as `serde_json` writes it.
    Number(String),
    Str(String),
    Array(Vec<String>),
    /// Members in the order `serde_json`'s map keeps them.
    Object(Vec<(String, String)>),
}

/// A `JsonNode` with its strings as character sequences.
pub enum JsonNodeView {
    Null,
    Bool(bool),
    Number(Seq<char>),
    Str(Seq<char>),
    Array(Seq<Seq<char>>),
    Object(Seq<(Seq<char>, Seq<char>)>),
}

pub open spec fn member_views(ms: Seq<(String, String)>) -> Seq<(Seq<char>, Seq<char>)> {
    ms.map_values(|p: (String, String)| (p.0@, p.1@))
}

pub open spec fn string_views(v: Seq<String>) -> Seq<Seq<char>> {
    v.map_values(|s: String| s@)
}

impl View for JsonNode {
    type V = JsonNodeView;

    open spec fn view(&self) -> JsonNodeView {
        match self {
            JsonNode::Null => JsonNodeView::Null,
            JsonNode::Bool(b) => JsonNodeView::Bool(*b),
            JsonNode::Number(n) => JsonNodeView::Number(n@),
            JsonNode::Str(s) => JsonNodeView::Str(s@),
            JsonNode::Array(a) => JsonNodeView::Array(string_views(a@)),
            JsonNode::Object(m) => JsonNodeView::Object(member_views(m@)),
        }
    }
}

/// What `serde_json::from_str::<serde_json::Value>` makes of `text`, read one
/// level deep; `Err` with `serde_json`'s error message when `text` is not JSON.
pub uninterp spec fn json_node_of(text: Seq<char>) -> Result<JsonNodeView, Seq<char>>;

/// `serde_json::from_str::<serde_json::Value>`, with the top-level value
/// converted variant by variant (nested values written back with
/// `to_string`). Trusted: the result is the named one.
#[verifier::external_body]
pub fn parse_json_node(text: &str) -> (r: Result<JsonNode, String>)
    ensures
        match (r, json_node_of(text@)) {
            (Ok(n), Ok(v)) => n@ == v,
            (Err(e), Err(m)) => e@ == m,
            _ => false,
        },
{
    match serde_json::from_str(text) {
        Err(e) => Err(e.to_string()),
        Ok(v) => Ok(match v {
            serde_json::Value::Null => JsonNode::Null,
            serde_json::Value::Bool(b) => JsonNode::Bool(b),
            serde_json::Value::Number(n) => JsonNode::Number(n.to_string()),
            serde_json::Value::String(s) => JsonNode::Str(s),
            serde_json::Value::Array(a) => JsonNode::Array(a.iter().map(|x| x.to_string()).collect()),
            serde_json::Value::Object(m) => JsonNode::Object(m.iter().map(|(k, x)| (k.clone(), x.to_string())).collect()),
        }),
    }
}

/// The value text under `key` among an object's members, from position `i`
/// on (the first such member).
pub open spec fn member_from(ms: Seq<(Seq<char>, Seq<char>)>, key: Seq<char>, i: int) -> Option<Seq<char>>
    decreases ms.len() - i,
{
    if i < 0 || i >= ms.len() {
        None
    } else if ms[i].0 == key {
        Some(ms[i].1)
    } else {
        member_from(ms, key, i + 1)
    }
}

/// The value text under `key` among an object's members.
pub open spec fn member(ms: Seq<(Seq<char>, Seq<char>)>, key: Seq<char>) -> Option<Seq<char>> {
    member_from(ms, key, 0)
}

/// The string a JSON text holds, if it is a string.
pub open spec fn text_str(t: Seq<char>) -> Option<Seq<char>> {
    match json_node_of(t) {
        Ok(JsonNodeView::Str(s)) => Some(s),
        _ => None,
    }
}

/// The members of a JSON text, when it is an object.
pub open spec fn object_members(t: Seq<char>) -> Option<Seq<(Seq<char>, Seq<char>)>> {
    match json_node_of(t) {
        Ok(JsonNodeView::Object(ms)) => Some(ms),
        _ => None,
    }
}

pub open spec fn opt_seq(o: Option<String>) -> Option<Seq<char>> {
    match o {
        Some(s) => Some(s@),
        None => None,
    }
}

pub fn member_of(ms: &Vec<(String, String)>, key: &str) -> (r: Option<String>)
    ensures
        opt_seq(r) == member(member_views(ms@), key@),
{
    let ghost mv = member_views(ms@);
    let mut k: usize = 0;
    while k < ms.len()
        invariant
            k <= ms@.len() == mv.len(),
            mv == member_views(ms@),
            member(mv, key@) == member_from(mv, key@, k as int),
        decreases ms@.len() - k,
    {
        if crate::text::same_text(ms[k].0.as_str(), key) {
            return Some(ms[k].1.clone());
        }
        k += 1;
    }
    None
}

pub fn str_of_text(t: &str) -> (r: Option<String>)
    ensures
        opt_seq(r) == text_str(t@),
{
    match parse_json_node(t) {
        Ok(JsonNode::Str(s)) => Some(s),
        _ => None,
    }
}

} // verus!
