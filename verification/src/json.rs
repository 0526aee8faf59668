//! A JSON document as the library reads and writes it.
use vstd::prelude::*;
use crate::ids::{first_index, lemma_first_index_at, lemma_first_index_none};
use crate::text::str_eq;

verus! {

/// A JSON value; an object keeps its members in order, each key once.
#[derive(Debug)]
pub enum JsonValue {
    Null,
    Bool(bool),
    /// A number in its textual form.
    Number(String),
    String(String),
    Array(Vec<JsonValue>),
    Object(Vec<(String, JsonValue)>),
}

pub open spec fn member_keys(entries: Seq<(String, JsonValue)>) -> Seq<Seq<char>> {
    entries.map_values(|e: (String, JsonValue)| e.0@)
}

/// The member named `key` of an object; nothing for any other value.
pub open spec fn member(v: JsonValue, key: Seq<char>) -> Option<JsonValue> {
    match v {
        JsonValue::Object(entries) => match first_index(member_keys(entries@), key) {
            Some(i) => Some(entries@[i].1),
            None => None,
        },
        _ => None,
    }
}

/// The text of a string value.
pub open spec fn text_of(v: Option<JsonValue>) -> Option<Seq<char>> {
    match v {
        Some(JsonValue::String(s)) => Some(s@),
        _ => None,
    }
}

/// The elements of an array value; nothing for any other value.
pub open spec fn elements_of(v: Option<JsonValue>) -> Seq<JsonValue> {
    match v {
        Some(JsonValue::Array(items)) => items@,
        _ => Seq::empty(),
    }
}

/// The flag of a boolean value.
pub open spec fn flag_of(v: Option<JsonValue>) -> Option<bool> {
    match v {
        Some(JsonValue::Bool(b)) => Some(b),
        _ => None,
    }
}

impl JsonValue {
    /// The member named `key`, as `Value::get` finds it.
    pub fn get(&self, key: &str) -> (r: Option<&JsonValue>)
        ensures
            match r {
                Some(v) => member(*self, key@) == Some(*v),
                None => member(*self, key@) is None,
            },
    {
        match self {
            JsonValue::Object(entries) => {
                let ghost keys = member_keys(entries@);
                let mut i: usize = 0;
                while i < entries.len()
                    invariant
                        i <= entries.len(),
                        keys == member_keys(entries@),
                        *self == JsonValue::Object(*entries),
                        forall|j: int| 0 <= j < i ==> keys[j] != key@,
                    decreases entries.len() - i,
                {
                    if str_eq(entries[i].0.as_str(), key) {
                        proof {
                            assert(keys[i as int] == entries@[i as int].0@);
                            lemma_first_index_at(keys, key@, i as int);
                        }
                        return Some(&entries[i].1);
                    }
                    i = i + 1;
                }
                proof { lemma_first_index_none(keys, key@); }
                None
            },
            _ => None,
        }
    }
}

/// The text of a string value.
pub fn as_text(v: Option<&JsonValue>) -> (r: Option<&str>)
    ensures
        match v {
            Some(x) => match r {
                Some(s) => text_of(Some(*x)) == Some(s@),
                None => text_of(Some(*x)) is None,
            },
            None => r is None,
        },
{
    match v {
        Some(JsonValue::String(s)) => Some(s.as_str()),
        _ => None,
    }
}

/// The flag of a boolean value.
pub fn as_flag(v: Option<&JsonValue>) -> (r: Option<bool>)
    ensures
        match v {
            Some(x) => r == flag_of(Some(*x)),
            None => r is None,
        },
{
    match v {
        Some(JsonValue::Bool(b)) => Some(*b),
        _ => None,
    }
}

} // verus!
