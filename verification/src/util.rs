//! The declarative binding table and outbound actions.
//!
//! A binding either shows fixed text, mirrors a tracked entity's value
//! onto a line, or ties a button to an entity with a typed comparison and
//! a pair of actions.  An action serializes to one uniquely numbered
//! request for the remote service.

use vstd::prelude::*;

use crate::jsontext::quoted;
use crate::jsontext::append_quoted;
use crate::numbers::dec_digits;
use crate::numbers::dec_eq;
use crate::numbers::dec_matches;
use crate::numbers::spec_parse_i64;
use crate::numbers::parse_i64;
use crate::numbers::u64_to_string;
use crate::store::StateStore;
use crate::text::str_eq;

verus! {

/// A typed comparison value out of the configuration.  A numeric
/// comparison arrives as text and is compared as a decimal numeral.
#[derive(Debug, Clone, PartialEq)]
pub enum CmpValue {
    Int(i64),
    Str(String),
    Float(String),
}

/// Type-aware coercion of a tracked textual value against a comparison:
/// an integer comparison holds when the text reads as exactly that
/// integer, a string comparison when the text is that string, a numeric
/// comparison when both texts are decimal numerals denoting the same
/// number.
pub open spec fn cmp_matches_spec(c: CmpValue, v: Seq<char>) -> bool {
    match c {
        CmpValue::Int(i) => spec_parse_i64(v) == Some(i),
        CmpValue::Str(s) => s@ == v,
        CmpValue::Float(d) => dec_eq(d@, v),
    }
}

/// Tests a tracked value against a comparison, exactly as
/// `cmp_matches_spec` describes.
pub fn cmp_matches(c: &CmpValue, v: &str) -> (r: bool)
    ensures
        r == cmp_matches_spec(*c, v@),
{
    match c {
        CmpValue::Int(i) => {
            match parse_i64(v) {
                Some(p) => p == *i,
                None => false,
            }
        },
        CmpValue::Str(s) => str_eq(s.as_str(), v),
        CmpValue::Float(d) => dec_matches(d.as_str(), v),
    }
}

/// An outbound command: activate a named scene, or invoke a named
/// service on a named entity.
#[derive(Debug, Clone, PartialEq)]
pub enum HAAction {
    Scene(String),
    Service { ha_id: String, service: String },
}

/// The first request identifier a process hands out.
pub const REQUEST_ID_BASE: u64 = 1024;

/// The process-wide outbound request counter: monotonically increasing
/// from a fixed base, never reset or reused within a process lifetime.
pub struct RequestIds {
    next: u64,
}

impl RequestIds {
    /// The identifier the next request will carry.
    pub closed spec fn next_id(self) -> u64 {
        self.next
    }

    /// A fresh counter, at the fixed base.
    pub fn new() -> (r: RequestIds)
        ensures
            r.next_id() == REQUEST_ID_BASE,
    {
        RequestIds { next: REQUEST_ID_BASE }
    }

    /// The identifier the next request will carry, readable.
    pub fn peek(&self) -> (r: u64)
        ensures
            r == self.next_id(),
    {
        self.next
    }

    /// Hands out the next identifier; identifiers strictly increase.
    pub fn allocate(&mut self) -> (id: u64)
        requires
            old(self).next_id() < u64::MAX,
        ensures
            id == old(self).next_id(),
            final(self).next_id() == id + 1,
    {
        let id = self.next;
        self.next = self.next + 1;
        id
    }
}

/// The serialized request an action sends, carrying the given request
/// identifier: a `call_service` object whose shape is fixed, with the
/// scene or entity and service quoted into it.
pub open spec fn action_json(a: HAAction, id: nat) -> Seq<char> {
    match a {
        HAAction::Scene(s) => (
        "{\"type\":\"call_service\",\"domain\":\"scene\",\"service\":\"turn_on\",\"target\":{\"entity_id\":"@
            + quoted(s@) + "},\"service_data\":{},\"id\":"@ + dec_digits(id) + "}"@),
        HAAction::Service { ha_id, service } => (
        "{\"type\":\"call_service\",\"domain\":\"light\",\"service\":"@ + quoted(service@)
            + ",\"target\":{\"entity_id\":"@ + quoted(ha_id@) + "},\"service_data\":{},\"id\":"@
            + dec_digits(id) + "}"@),
    }
}

impl HAAction {
    /// Serializes the action as the uniquely numbered request text,
    /// exactly as `action_json` describes.
    pub fn as_json(&self, id: u64) -> (r: String)
        ensures
            r@ == action_json(*self, id as nat),
    {
        match self {
            HAAction::Scene(s) => {
                let mut r = (
                "{\"type\":\"call_service\",\"domain\":\"scene\",\"service\":\"turn_on\",\"target\":{\"entity_id\":").to_owned();
                append_quoted(&mut r, s.as_str());
                r.append("},\"service_data\":{},\"id\":");
                let ids = u64_to_string(id);
                r.append(ids.as_str());
                r.append("}");
                proof {
                    assert(r@ =~= action_json(*self, id as nat));
                }
                r
            },
            HAAction::Service { ha_id, service } => {
                let mut r = (
                "{\"type\":\"call_service\",\"domain\":\"light\",\"service\":").to_owned();
                append_quoted(&mut r, service.as_str());
                r.append(",\"target\":{\"entity_id\":");
                append_quoted(&mut r, ha_id.as_str());
                r.append("},\"service_data\":{},\"id\":");
                let ids = u64_to_string(id);
                r.append(ids.as_str());
                r.append("}");
                proof {
                    assert(r@ =~= action_json(*self, id as nat));
                }
                r
            },
        }
    }
}

/// One declarative binding: fixed text on a line, a mirrored entity
/// value on a line, or a button tied to an entity.
#[derive(Debug, Clone, PartialEq)]
pub enum HAConnect {
    Text { line: u8, text: String, color: u16 },
    Button {
        button: u8,
        ha_id: String,
        cmp: CmpValue,
        text_on: String,
        text_off: String,
        action_on: HAAction,
        action_off: HAAction,
        color: u16,
    },
    Line { line: u8, ha_id: String, text: String, make_int: bool, color: u16 },
}

/// The identity a binding asks the State Store to track; for a fixed
/// text binding this is the text itself, which doubles as its render
/// key.
pub open spec fn connect_id(c: HAConnect) -> Seq<char> {
    match c {
        HAConnect::Text { text, .. } => text@,
        HAConnect::Button { ha_id, .. } => ha_id@,
        HAConnect::Line { ha_id, .. } => ha_id@,
    }
}

/// Whether a button binding currently reads as on: its tracked value
/// exists and matches its comparison.  Any other binding is never on.
pub open spec fn is_on_spec(c: HAConnect, m: Map<Seq<char>, Seq<char>>) -> bool {
    match c {
        HAConnect::Button { ha_id, cmp, .. } => m.contains_key(ha_id@) && cmp_matches_spec(
            cmp,
            m[ha_id@],
        ),
        _ => false,
    }
}

impl HAConnect {
    /// The identity this binding tracks, exactly as `connect_id`
    /// describes.
    pub fn ha_id(&self) -> (r: &String)
        ensures
            r@ == connect_id(*self),
    {
        match self {
            HAConnect::Text { text, .. } => text,
            HAConnect::Button { ha_id, .. } => ha_id,
            HAConnect::Line { ha_id, .. } => ha_id,
        }
    }

    /// Whether this binding currently reads as on, exactly as
    /// `is_on_spec` describes.
    pub fn is_on(&self, state: &StateStore) -> (r: bool)
        requires
            state.wf(),
        ensures
            r == is_on_spec(*self, state@),
    {
        match self {
            HAConnect::Button { ha_id, cmp, .. } => {
                match state.get(ha_id.as_str()) {
                    Some(st) => cmp_matches(cmp, st.as_str()),
                    None => false,
                }
            },
            _ => false,
        }
    }
}

} // verus!
