//! The part of a JSON document that the client readers look at: objects,
//! arrays, strings and unsigned integers. The application converts parsed
//! JSON into this type.

use vstd::prelude::*;
use crate::text::{chars_of, str_equal, trim_bounds, trim_ws};

verus! {

/// A JSON value. `Number` holds the value when it is an integer that fits a
/// `u64`, and `None` for any other number. An object keeps its entries in
/// order, each key once.
#[derive(Debug)]
pub enum Json {
    Null,
    Bool(bool),
    Number(Option<u64>),
    Str(String),
    Array(Vec<Json>),
    Object(Vec<(String, Json)>),
}

/// The value of the first entry with the given key.
pub open spec fn entry_lookup(entries: Seq<(String, Json)>, key: Seq<char>) -> Option<Json>
    decreases entries.len(),
{
    if entries.len() == 0 {
        None
    } else if entries[0].0@ == key {
        Some(entries[0].1)
    } else {
        entry_lookup(entries.drop_first(), key)
    }
}

/// `Value::get`: the member of an object with the given key.
pub open spec fn json_get(v: Json, key: Seq<char>) -> Option<Json> {
    match v {
        Json::Object(entries) => entry_lookup(entries@, key),
        _ => None,
    }
}

/// `Value::as_str`: the text of a string value.
pub open spec fn json_str(v: Json) -> Option<Seq<char>> {
    match v {
        Json::Str(s) => Some(s@),
        _ => None,
    }
}

/// The text of the member `key`, when it is a string.
pub open spec fn member_str(v: Json, key: Seq<char>) -> Option<Seq<char>> {
    match json_get(v, key) {
        Some(m) => json_str(m),
        None => None,
    }
}

/// The first of `keys` whose member is a string that is not blank.
pub open spec fn pick(v: Json, keys: Seq<Seq<char>>) -> Option<Seq<char>>
    decreases keys.len(),
{
    if keys.len() == 0 {
        None
    } else {
        match member_str(v, keys[0]) {
            Some(s) => if trim_ws(s).len() > 0 { Some(s) } else { pick(v, keys.drop_first()) },
            None => pick(v, keys.drop_first()),
        }
    }
}

/// The texts of a list of string slices.
pub open spec fn key_texts(keys: Seq<&str>) -> Seq<Seq<char>> {
    keys.map_values(|k: &str| k@)
}

impl Json {
    /// The member of an object with the given key.
    pub fn get(&self, key: &str) -> (r: Option<&Json>)
        ensures
            match r {
                Some(m) => json_get(*self, key@) == Some(*m),
                None => json_get(*self, key@) is None,
            },
    {
        match self {
            Json::Object(entries) => {
                let mut i: usize = 0;
                assert(entries@.subrange(0, entries@.len() as int) =~= entries@);
                while i < entries.len()
                    invariant
                        i <= entries@.len(),
                        json_get(*self, key@) == entry_lookup(entries@, key@),
                        entry_lookup(entries@, key@) == entry_lookup(entries@.subrange(i as int, entries@.len() as int), key@),
                    decreases entries@.len() - i,
                {
                    assert(entries@.subrange(i as int, entries@.len() as int).drop_first() =~= entries@.subrange(i + 1, entries@.len() as int));
                    assert(entries@.subrange(i as int, entries@.len() as int)[0] == entries@[i as int]);
                    if str_equal(entries[i].0.as_str(), key) {
                        return Some(&entries[i].1);
                    }
                    i = i + 1;
                }
                None
            },
            _ => None,
        }
    }

    /// The text of a string value.
    pub fn as_str(&self) -> (r: Option<&str>)
        ensures
            match r {
                Some(s) => json_str(*self) == Some(s@),
                None => json_str(*self) is None,
            },
    {
        match self {
            Json::Str(s) => Some(s.as_str()),
            _ => None,
        }
    }

    /// The elements of an array value.
    pub fn as_array(&self) -> (r: Option<&Vec<Json>>)
        ensures
            match r {
                Some(a) => *self == Json::Array(*a),
                None => !(*self is Array),
            },
    {
        match self {
            Json::Array(a) => Some(a),
            _ => None,
        }
    }

    /// The value of a number that is an integer fitting a `u64`.
    pub fn as_u64(&self) -> (r: Option<u64>)
        ensures
            r == (match *self {
                Json::Number(n) => n,
                _ => None,
            }),
    {
        match self {
            Json::Number(n) => *n,
            _ => None,
        }
    }

    /// The text of member `key` when it is a string.
    pub fn member_str(&self, key: &str) -> (r: Option<&str>)
        ensures
            match r {
                Some(s) => member_str(*self, key@) == Some(s@),
                None => member_str(*self, key@) is None,
            },
    {
        match self.get(key) {
            Some(m) => m.as_str(),
            None => None,
        }
    }
}

/// Whether the text is all whitespace (or empty).
pub fn is_blank(s: &str) -> (r: bool)
    ensures
        r == (trim_ws(s@).len() == 0),
{
    let cs = chars_of(s);
    let (a, b) = trim_bounds(&cs);
    a == b
}

/// The first of `keys` whose member is a string that is not blank.
pub fn pick_str(value: &Json, keys: &[&str]) -> (r: Option<String>)
    ensures
        match r {
            Some(s) => pick(*value, key_texts(keys@)) == Some(s@),
            None => pick(*value, key_texts(keys@)) is None,
        },
{
    let ghost ks = key_texts(keys@);
    let mut i: usize = 0;
    assert(ks.subrange(0, ks.len() as int) =~= ks);
    while i < keys.len()
        invariant
            i <= keys@.len(),
            ks == key_texts(keys@),
            pick(*value, ks) == pick(*value, ks.subrange(i as int, ks.len() as int)),
        decreases keys@.len() - i,
    {
        let ghost rest = ks.subrange(i as int, ks.len() as int);
        assert(rest.drop_first() =~= ks.subrange(i + 1, ks.len() as int));
        assert(rest[0] == keys@[i as int]@);
        match value.member_str(keys[i]) {
            Some(s) => {
                if !is_blank(s) {
                    return Some(s.to_string());
                }
            },
            None => {},
        }
        i = i + 1;
    }
    None
}

} // verus!
