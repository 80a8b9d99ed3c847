//! JSON values as the stored files hold them, for the migrations that
//! bring old files up to the current schema.

use vstd::prelude::*;
use crate::text::str_eq;

verus! {

/// A JSON number: an integer that fits in `i64`, a larger non-negative
/// integer, or any other number, kept as its JSON text.
#[derive(Debug)]
pub enum JsonNumber {
    Int(i64),
    Big(u64),
    Real(String),
}

/// A JSON value. An object is a list of entries; a key's value is that of
/// its last entry.
#[derive(Debug)]
pub enum JsonValue {
    Null,
    Bool(bool),
    Number(JsonNumber),
    String(String),
    Array(Vec<JsonValue>),
    Object(Vec<(String, JsonValue)>),
}

/// The value of `key` in an object's entries.
pub open spec fn field(o: Seq<(String, JsonValue)>, key: Seq<char>) -> Option<JsonValue>
    decreases o.len(),
{
    if o.len() == 0 {
        None
    } else if o.last().0@ == key {
        Some(o.last().1)
    } else {
        field(o.drop_last(), key)
    }
}

/// The text of `key`, where its value is a string.
pub open spec fn str_field(o: Seq<(String, JsonValue)>, key: Seq<char>) -> Option<Seq<char>> {
    match field(o, key) {
        Some(JsonValue::String(s)) => Some(s@),
        _ => None,
    }
}

/// The text of `key` where it is a string, else `default`.
pub open spec fn str_or(o: Seq<(String, JsonValue)>, key: Seq<char>, default: Seq<char>) -> Seq<char> {
    match str_field(o, key) {
        Some(s) => s,
        None => default,
    }
}

pub open spec fn has_field(o: Seq<(String, JsonValue)>, key: Seq<char>) -> bool {
    field(o, key) is Some
}

pub open spec fn is_array_field(o: Seq<(String, JsonValue)>, key: Seq<char>) -> bool {
    field(o, key) matches Some(JsonValue::Array(_))
}

/// The entries of an object; any other value counts as an empty object.
pub open spec fn entries_of(v: JsonValue) -> Seq<(String, JsonValue)> {
    match v {
        JsonValue::Object(o) => o@,
        _ => Seq::empty(),
    }
}

pub proof fn lemma_field_at(o: Seq<(String, JsonValue)>, key: Seq<char>, j: int)
    requires
        0 <= j < o.len(),
        o[j].0@ == key,
        forall|k: int| j < k < o.len() ==> (#[trigger] o[k]).0@ != key,
    ensures
        field(o, key) == Some(o[j].1),
    decreases o.len(),
{
    if j < o.len() - 1 {
        lemma_field_at(o.drop_last(), key, j);
    }
}

pub proof fn lemma_field_absent(o: Seq<(String, JsonValue)>, key: Seq<char>)
    requires
        forall|k: int| 0 <= k < o.len() ==> (#[trigger] o[k]).0@ != key,
    ensures
        field(o, key) is None,
    decreases o.len(),
{
    if o.len() > 0 {
        lemma_field_absent(o.drop_last(), key);
    }
}

/// The value of `key` in an object's entries.
pub fn get_field<'a>(o: &'a Vec<(String, JsonValue)>, key: &str) -> (r: Option<&'a JsonValue>)
    ensures
        match r {
            Some(v) => field(o@, key@) == Some(*v),
            None => field(o@, key@) is None,
        },
{
    let mut i: usize = o.len();
    while i > 0
        invariant
            i <= o@.len(),
            forall|k: int| i <= k < o@.len() ==> (#[trigger] o@[k]).0@ != key@,
        decreases i,
    {
        i = i - 1;
        if str_eq(o[i].0.as_str(), key) {
            proof {
                lemma_field_at(o@, key@, i as int);
            }
            return Some(&o[i].1);
        }
    }
    proof {
        lemma_field_absent(o@, key@);
    }
    None
}

/// Sets `key` to `value`.
pub fn set_field(o: &mut Vec<(String, JsonValue)>, key: String, value: JsonValue)
    ensures
        final(o)@ == old(o)@.push((key, value)),
        field(final(o)@, key@) == Some(value),
        forall|k: Seq<char>| k != key@ ==> #[trigger] field(final(o)@, k) == field(old(o)@, k),
{
    let ghost before = o@;
    o.push((key, value));
    assert(o@.drop_last() =~= before);
}

} // verus!
