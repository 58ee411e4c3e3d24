//! Inbound JSON values.
//!
//! The remote service's wire encoding is treated as opaque beyond a few
//! fixed fields, so decoding a frame is left to the `json` crate behind a
//! trusted wrapper; what comes back is held in the library's own tree,
//! `JsonNode`, and everything read out of that tree — the authentication
//! marker, the entity path of an event, the state of a query response —
//! is verified logic.

use vstd::prelude::*;

use crate::text::str_eq;

verus! {

/// A decoded JSON value as the library holds it: numbers keep the text
/// the decoder rendered them with, and both string flavours of the
/// decoder arrive as `Str`.
#[derive(Debug, PartialEq)]
pub enum JsonNode {
    Null,
    Bool(bool),
    Num(String),
    Str(String),
    Arr(Vec<JsonNode>),
    Obj(Vec<(String, JsonNode)>),
}

/// The value under the first entry with the given key, if any.  A decoded
/// object never carries a key twice, but nothing here depends on that.
pub open spec fn obj_lookup(entries: Seq<(String, JsonNode)>, key: Seq<char>) -> Option<JsonNode>
    decreases entries.len(),
{
    if entries.len() == 0 {
        None
    } else if entries[0].0@ == key {
        Some(entries[0].1)
    } else {
        obj_lookup(entries.skip(1), key)
    }
}

/// The string at the end of a key path: each step descends into an
/// object field, and the walk ends on a string leaf.
pub open spec fn spec_traverse(n: JsonNode, path: Seq<Seq<char>>) -> Option<Seq<char>>
    decreases path.len(),
{
    if path.len() == 0 {
        match n {
            JsonNode::Str(s) => Some(s@),
            _ => None,
        }
    } else {
        match n {
            JsonNode::Obj(entries) => match obj_lookup(entries@, path[0]) {
                Some(child) => spec_traverse(child, path.skip(1)),
                None => None,
            },
            _ => None,
        }
    }
}

/// The views of a sequence of string slices.
pub open spec fn strs_view(ps: Seq<&str>) -> Seq<Seq<char>> {
    ps.map_values(|p: &str| p@)
}

/// Finds the entry with the given key in an object's fields.
fn obj_get<'a>(entries: &'a Vec<(String, JsonNode)>, key: &str) -> (r: Option<&'a JsonNode>)
    ensures
        match r {
            Some(c) => obj_lookup(entries@, key@) == Some(*c),
            None => obj_lookup(entries@, key@) is None,
        },
{
    let mut k: usize = 0;
    proof {
        assert(entries@.skip(0) =~= entries@);
    }
    while k < entries.len()
        invariant
            k <= entries@.len(),
            obj_lookup(entries@, key@) == obj_lookup(entries@.skip(k as int), key@),
        decreases entries@.len() - k,
    {
        if str_eq(entries[k].0.as_str(), key) {
            proof {
                assert(entries@.skip(k as int)[0] == entries@[k as int]);
            }
            return Some(&entries[k].1);
        }
        k += 1;
        proof {
            assert(entries@.skip(k as int - 1).skip(1) =~= entries@.skip(k as int));
            assert(entries@.skip(k as int - 1)[0] == entries@[k as int - 1]);
        }
    }
    proof {
        assert(entries@.skip(k as int).len() == 0);
    }
    None
}

/// Walks a key path down object fields and hands back the string leaf at
/// its end, exactly as `spec_traverse` describes; `None` when a step is
/// missing, a step is not an object, or the leaf is not a string.
pub fn traverse(json: &JsonNode, path: &[&str]) -> (r: Option<String>)
    ensures
        match r {
            Some(v) => spec_traverse(*json, strs_view(path@)) == Some(v@),
            None => spec_traverse(*json, strs_view(path@)) is None,
        },
{
    let ghost full = strs_view(path@);
    let mut cur: &JsonNode = json;
    let mut i: usize = 0;
    proof {
        assert(full.skip(0) =~= full);
    }
    while i < path.len()
        invariant
            i <= path@.len(),
            full == strs_view(path@),
            spec_traverse(*json, full) == spec_traverse(*cur, full.skip(i as int)),
        decreases path@.len() - i,
    {
        match cur {
            JsonNode::Obj(entries) => {
                match obj_get(entries, path[i]) {
                    Some(c) => {
                        proof {
                            assert(full.skip(i as int)[0] == full[i as int]);
                            assert(full[i as int] == path@[i as int]@);
                            assert(full.skip(i as int).skip(1) =~= full.skip(i as int + 1));
                        }
                        cur = c;
                        i += 1;
                    },
                    None => {
                        proof {
                            assert(full.skip(i as int)[0] == path@[i as int]@);
                        }
                        return None;
                    },
                }
            },
            _ => {
                return None;
            },
        }
    }
    proof {
        assert(full.skip(i as int) =~= Seq::<Seq<char>>::empty());
    }
    match cur {
        JsonNode::Str(s) => Some(s.clone()),
        _ => None,
    }
}

/// Whether a decoded frame is the authentication acknowledgment: an
/// object whose `type` field is the string `auth_ok`.
pub open spec fn is_auth_ok(n: JsonNode) -> bool {
    match n {
        JsonNode::Obj(entries) => match obj_lookup(entries@, "type"@) {
            Some(JsonNode::Str(s)) => s@ == "auth_ok"@,
            _ => false,
        },
        _ => false,
    }
}

/// Tests a decoded frame for the authentication acknowledgment.
pub fn is_auth_ok_node(n: &JsonNode) -> (r: bool)
    ensures
        r == is_auth_ok(*n),
{
    match n {
        JsonNode::Obj(entries) => {
            match obj_get(entries, "type") {
                Some(c) => match c {
                    JsonNode::Str(s) => str_eq(s.as_str(), "auth_ok"),
                    _ => false,
                },
                None => false,
            }
        },
        _ => false,
    }
}

/// The text a scalar value shows as: strings show their content bare,
/// the other scalars their JSON spelling.  A nested container shows as
/// nothing; the query endpoint answers with scalar state fields.
pub open spec fn scalar_text(n: JsonNode) -> Seq<char> {
    match n {
        JsonNode::Null => "null"@,
        JsonNode::Bool(b) => if b {
            "true"@
        } else {
            "false"@
        },
        JsonNode::Num(s) => s@,
        JsonNode::Str(s) => s@,
        JsonNode::Arr(_) => Seq::empty(),
        JsonNode::Obj(_) => Seq::empty(),
    }
}

/// The state a query response carries: the text of its `state` field,
/// with a missing field or a non-object response reading as `null`.
pub open spec fn response_state_of(n: JsonNode) -> Seq<char> {
    match n {
        JsonNode::Obj(entries) => match obj_lookup(entries@, "state"@) {
            Some(c) => scalar_text(c),
            None => "null"@,
        },
        _ => "null"@,
    }
}

/// The text of a scalar value.
fn scalar_text_exec(n: &JsonNode) -> (r: String)
    ensures
        r@ == scalar_text(*n),
{
    match n {
        JsonNode::Null => ("null").to_owned(),
        JsonNode::Bool(b) => if *b {
            ("true").to_owned()
        } else {
            ("false").to_owned()
        },
        JsonNode::Num(s) => s.clone(),
        JsonNode::Str(s) => s.clone(),
        JsonNode::Arr(_) => String::new(),
        JsonNode::Obj(_) => String::new(),
    }
}

/// Reads the tracked state out of one query response, exactly as
/// `response_state_of` describes.
pub fn response_state(n: &JsonNode) -> (r: String)
    ensures
        r@ == response_state_of(*n),
{
    match n {
        JsonNode::Obj(entries) => {
            match obj_get(entries, "state") {
                Some(c) => scalar_text_exec(c),
                None => ("null").to_owned(),
            }
        },
        _ => ("null").to_owned(),
    }
}

/// Reads the tracked state out of one query response body: nothing when
/// the body does not decode as JSON.
pub fn response_state_text(body: &str) -> (r: Option<String>)
    ensures
        match json_of(body@) {
            Some(n) => r is Some && r->Some_0@ == response_state_of(n),
            None => r is None,
        },
{
    match parse_json(body) {
        Some(n) => Some(response_state(&n)),
        None => None,
    }
}

/// The json crate's decoded value, declared so that it can cross the
/// trusted wrappers below; the library never looks inside one.
#[verifier::external_type_specification]
#[verifier::external_body]
pub struct ExJsonValue(json::JsonValue);

/// Which texts decode as JSON, and to what value: a function of the text
/// alone.
pub uninterp spec fn json_of(s: Seq<char>) -> Option<JsonNode>;

/// Relies on json::JsonValue's variants, carried over into the
/// library's tree field by field: `Short` and `String` both become
/// `Str`, and a `Number` keeps the text of the crate's own decimal
/// rendering.
#[verifier::external_body]
fn jv_to_node(v: &json::JsonValue) -> JsonNode {
    match v {
        json::JsonValue::Null => JsonNode::Null,
        json::JsonValue::Boolean(b) => JsonNode::Bool(*b),
        json::JsonValue::Number(n) => JsonNode::Num(n.to_string()),
        json::JsonValue::Short(s) => JsonNode::Str(s.to_string()),
        json::JsonValue::String(s) => JsonNode::Str(s.clone()),
        json::JsonValue::Array(a) => JsonNode::Arr(a.iter().map(jv_to_node).collect()),
        json::JsonValue::Object(o) => JsonNode::Obj(
            o.iter().map(|(k, x)| (k.to_string(), jv_to_node(x))).collect(),
        ),
    }
}

/// Relies on json::parse: whether a text decodes, and as what value,
/// depends on the text alone, so the result carries the name `json_of`.
#[verifier::external_body]
pub(crate) fn parse_json(s: &str) -> (r: Option<JsonNode>)
    ensures
        r == json_of(s@),
{
    match json::parse(s) {
        Ok(v) => Some(jv_to_node(&v)),
        Err(_) => None,
    }
}

} // verus!
