//! JSON values as plain data, and the lookups that read fields of a line.

use serde_json::Value;
use vstd::prelude::*;
use crate::paths::append_chars;
use crate::text::{chars_of, string_from_chars};

verus! {

#[verifier::external_type_specification]
#[verifier::external_body]
pub struct ExValue(Value);

/// A JSON value as plain data. A number keeps its decimal text; an object
/// keeps its members in the order of its keys.
pub enum JsonValue {
    Null,
    Bool(bool),
    Number(String),
    Str(String),
    Array(Vec<JsonValue>),
    Object(Vec<(String, JsonValue)>),
}

/// Why a dotted key path does not give a string.
pub enum JsonKeyError {
    /// A part of the path is not a member of the value reached so far.
    KeyNotFound(String),
    /// The value at the whole path is not a string.
    NotAString(String),
}

/// Why a line does not give a string at a key path.
pub enum JsonLineError {
    /// The line is not JSON.
    Parse,
    /// The line is JSON, but the key path does not give a string.
    Lookup(JsonKeyError),
}

/// The JSON value of a text as `serde_json` reads it, or `None` when the
/// text is not JSON.
pub uninterp spec fn json_parse(text: Seq<char>) -> Option<JsonValue>;

/// The plain form of a `serde_json` value, variant by variant: a number as
/// its decimal text, an object's members in the order of its map.
#[verifier::external_body]
fn plain_json(v: &Value) -> JsonValue {
    match v {
        Value::Null => JsonValue::Null,
        Value::Bool(b) => JsonValue::Bool(*b),
        Value::Number(n) => JsonValue::Number(n.to_string()),
        Value::String(s) => JsonValue::Str(s.clone()),
        Value::Array(a) => JsonValue::Array(a.iter().map(plain_json).collect()),
        Value::Object(o) => JsonValue::Object(o.iter().map(|(k, x)| (k.clone(), plain_json(x))).collect()),
    }
}

/// The JSON value of a line (`serde_json::from_str` into a `Value`), as
/// plain data; `None` when the line is not JSON.
#[verifier::external_body]
pub(crate) fn parse_json(line: &str) -> (r: Option<JsonValue>)
    ensures
        r == json_parse(line@),
{
    match serde_json::from_str::<Value>(line) {
        Ok(v) => Some(plain_json(&v)),
        Err(_) => None,
    }
}

/// The value of the first member with a key, among an object's members.
pub open spec fn member(entries: Seq<(String, JsonValue)>, key: Seq<char>) -> Option<JsonValue>
    decreases entries.len(),
{
    if entries.len() == 0 {
        None
    } else if entries[0].0@ == key {
        Some(entries[0].1)
    } else {
        member(entries.drop_first(), key)
    }
}

/// The member of a value under a key; `None` for a value that is not an
/// object, or an object without that key.
pub open spec fn json_get(v: JsonValue, key: Seq<char>) -> Option<JsonValue> {
    match v {
        JsonValue::Object(m) => member(m@, key),
        _ => None,
    }
}

/// The parts of a text between its dots, as `str::split('.')` gives them.
pub open spec fn split_on_dots(s: Seq<char>) -> Seq<Seq<char>>
    decreases s.len(),
{
    if s.len() == 0 {
        seq![Seq::<char>::empty()]
    } else {
        let p = split_on_dots(s.drop_last());
        if s.last() == '.' {
            p.push(Seq::<char>::empty())
        } else {
            p.update(p.len() - 1, p.last().push(s.last()))
        }
    }
}

/// The value reached by following the keys from a value, or the first key
/// that is missing.
pub open spec fn walk(v: JsonValue, keys: Seq<Seq<char>>) -> Result<JsonValue, Seq<char>>
    decreases keys.len(),
{
    if keys.len() == 0 {
        Ok(v)
    } else {
        match json_get(v, keys[0]) {
            Some(c) => walk(c, keys.drop_first()),
            None => Err(keys[0]),
        }
    }
}

/// The string at a dotted key path: the text, or the failure as a flag
/// (`true` for a missing part) with the part or the whole path.
pub open spec fn nested_lookup(v: JsonValue, key: Seq<char>) -> Result<Seq<char>, (bool, Seq<char>)> {
    match walk(v, split_on_dots(key)) {
        Err(k) => Err((true, k)),
        Ok(JsonValue::Str(s)) => Ok(s@),
        Ok(_) => Err((false, key)),
    }
}

/// The abstract form of a key path failure.
pub open spec fn key_error_view(e: JsonKeyError) -> (bool, Seq<char>) {
    match e {
        JsonKeyError::KeyNotFound(k) => (true, k@),
        JsonKeyError::NotAString(k) => (false, k@),
    }
}

/// The abstract form of a lookup's result.
pub open spec fn lookup_view(r: Result<String, JsonKeyError>) -> Result<Seq<char>, (bool, Seq<char>)> {
    match r {
        Ok(s) => Ok(s@),
        Err(e) => Err(key_error_view(e)),
    }
}

impl JsonKeyError {
    /// The message of the failure.
    pub fn message(&self) -> (res: String)
        ensures
            res@ == match self {
                JsonKeyError::KeyNotFound(k) => "Key '"@ + k@ + "' not found in JSON object"@,
                JsonKeyError::NotAString(k) => "Value at key '"@ + k@ + "' is not a string"@,
            },
    {
        match self {
            JsonKeyError::KeyNotFound(k) => {
                let mut out = String::from_str("Key '");
                append_chars(&mut out, &chars_of(k.as_str()));
                append_chars(&mut out, &chars_of("' not found in JSON object"));
                out
            },
            JsonKeyError::NotAString(k) => {
                let mut out = String::from_str("Value at key '");
                append_chars(&mut out, &chars_of(k.as_str()));
                append_chars(&mut out, &chars_of("' is not a string"));
                out
            },
        }
    }
}

pub(crate) fn same_chars(a: &Vec<char>, b: &Vec<char>) -> (res: bool)
    ensures
        res == (a@ == b@),
{
    if a.len() != b.len() {
        return false;
    }
    let mut i: usize = 0;
    while i < a.len()
        invariant
            i <= a@.len(),
            a@.len() == b@.len(),
            forall|j: int| 0 <= j < i ==> a@[j] == b@[j],
        decreases a@.len() - i,
    {
        if a[i] != b[i] {
            return false;
        }
        i = i + 1;
    }
    assert(a@ =~= b@);
    true
}

/// The member of a value under a key.
fn get_member<'a>(v: &'a JsonValue, key: &Vec<char>) -> (r: Option<&'a JsonValue>)
    ensures
        r matches Some(c) ==> json_get(*v, key@) == Some(*c),
        r is None ==> json_get(*v, key@) is None,
{
    match v {
        JsonValue::Object(m) => {
            let mut i: usize = 0;
            assert(m@.skip(0) =~= m@);
            while i < m.len()
                invariant
                    i <= m@.len(),
                    member(m@, key@) == member(m@.skip(i as int), key@),
                    *v == JsonValue::Object(*m),
                decreases m@.len() - i,
            {
                let name = chars_of(m[i].0.as_str());
                proof {
                    assert(m@.skip(i as int)[0] == m@[i as int]);
                    assert(m@.skip(i as int).drop_first() =~= m@.skip(i + 1));
                }
                if same_chars(&name, key) {
                    assert(m@.skip(i as int)[0].0@ == key@);
                    assert(member(m@.skip(i as int), key@) == Some(m@[i as int].1));
                    return Some(&m[i].1);
                }
                i = i + 1;
            }
            assert(m@.skip(i as int).len() == 0);
            None
        },
        _ => None,
    }
}

/// The parts of a key between its dots.
fn split_key(key: &str) -> (parts: Vec<Vec<char>>)
    ensures
        parts@.map_values(|p: Vec<char>| p@) == split_on_dots(key@),
{
    let cs = chars_of(key);
    let mut parts: Vec<Vec<char>> = Vec::new();
    let mut cur: Vec<char> = Vec::new();
    let mut i: usize = 0;
    assert(cs@.take(0) =~= Seq::<char>::empty());
    assert(parts@.map_values(|p: Vec<char>| p@).push(cur@) =~= seq![Seq::<char>::empty()]);
    while i < cs.len()
        invariant
            i <= cs@.len(),
            cs@ == key@,
            parts@.map_values(|p: Vec<char>| p@).push(cur@) == split_on_dots(cs@.take(i as int)),
        decreases cs@.len() - i,
    {
        let ghost before = parts@.map_values(|p: Vec<char>| p@);
        let ghost cur0 = cur@;
        proof {
            assert(cs@.take(i + 1).drop_last() =~= cs@.take(i as int));
            assert(cs@.take(i + 1).last() == cs@[i as int]);
        }
        if cs[i] == '.' {
            let done = cur;
            parts.push(done);
            cur = Vec::new();
            proof {
                assert(parts@.map_values(|p: Vec<char>| p@) =~= before.push(cur0));
                assert(parts@.map_values(|p: Vec<char>| p@).push(cur@) =~= before.push(cur0).push(
                    Seq::<char>::empty(),
                ));
            }
        } else {
            cur.push(cs[i]);
            proof {
                assert(parts@.map_values(|p: Vec<char>| p@) =~= before);
                assert(before.push(cur0).update(before.len() as int, before.push(cur0).last().push(cs@[i as int]))
                    =~= before.push(cur@));
            }
        }
        i = i + 1;
    }
    assert(cs@.take(cs@.len() as int) =~= cs@);
    let ghost before = parts@.map_values(|p: Vec<char>| p@);
    let ghost last = cur@;
    parts.push(cur);
    assert(parts@.map_values(|p: Vec<char>| p@) =~= before.push(last));
    parts
}

/// The string at a dotted key path of a JSON value: each part of the key
/// names a member of the value reached so far; the value at the end must be
/// a string.
pub fn get_nested_json_val(obj: &JsonValue, key: &str) -> (r: Result<String, JsonKeyError>)
    ensures
        lookup_view(r) == nested_lookup(*obj, key@),
{
    let parts = split_key(key);
    let ghost keys = parts@.map_values(|p: Vec<char>| p@);
    let mut current: &JsonValue = obj;
    let mut j: usize = 0;
    assert(keys.skip(0) =~= keys);
    while j < parts.len()
        invariant
            j <= parts@.len(),
            keys == parts@.map_values(|p: Vec<char>| p@),
            keys == split_on_dots(key@),
            walk(*obj, keys) == walk(*current, keys.skip(j as int)),
        decreases parts@.len() - j,
    {
        proof {
            assert(keys.skip(j as int)[0] == keys[j as int]);
            assert(keys.skip(j as int).drop_first() =~= keys.skip(j + 1));
        }
        match get_member(current, &parts[j]) {
            Some(c) => {
                current = c;
            },
            None => {
                let n = parts[j].len();
                let missing = string_from_chars(&parts[j], 0, n);
                assert(parts[j as int]@.subrange(0, n as int) =~= parts[j as int]@);
                return Err(JsonKeyError::KeyNotFound(missing));
            },
        }
        j = j + 1;
    }
    assert(keys.skip(j as int).len() == 0);
    match current {
        JsonValue::Str(s) => Ok(String::from_str(s.as_str())),
        _ => Err(JsonKeyError::NotAString(String::from_str(key))),
    }
}

/// The abstract form of a line lookup's result; a line that is not JSON
/// has no place in it.
pub open spec fn line_lookup_view(r: Result<String, JsonLineError>) -> Result<Seq<char>, (bool, Seq<char>)> {
    match r {
        Ok(s) => Ok(s@),
        Err(JsonLineError::Lookup(e)) => Err(key_error_view(e)),
        Err(JsonLineError::Parse) => Err((false, Seq::empty())),
    }
}

/// The string at a dotted key path of a JSON line: `Err(Parse)` exactly
/// when the line is not JSON, else the lookup of the key in its value.
pub fn content_of_line(line: &str, key: &str) -> (r: Result<String, JsonLineError>)
    ensures
        json_parse(line@) is None <==> r matches Err(JsonLineError::Parse),
        json_parse(line@) matches Some(v) ==> line_lookup_view(r) == nested_lookup(v, key@),
{
    match parse_json(line) {
        None => Err(JsonLineError::Parse),
        Some(v) => match get_nested_json_val(&v, key) {
            Ok(s) => Ok(s),
            Err(e) => Err(JsonLineError::Lookup(e)),
        },
    }
}

/// Whether a character is a decimal digit.
pub open spec fn is_digit(c: char) -> bool {
    48 <= c as u32 <= 57
}

/// Whether a text is made of decimal digits only.
pub open spec fn all_digits(s: Seq<char>) -> bool {
    forall|i: int| 0 <= i < s.len() ==> is_digit(#[trigger] s[i])
}

/// The number that decimal digits write.
pub open spec fn digits_value(s: Seq<char>) -> nat
    decreases s.len(),
{
    if s.len() == 0 {
        0
    } else {
        digits_value(s.drop_last()) * 10 + (s.last() as u32 - 48) as nat
    }
}

/// The unsigned number that the text of a JSON number writes: `serde_json`
/// prints a non-negative integer as its plain digits, a negative one with
/// `-` and a fraction with `.` or `e`, so the text is all digits exactly
/// for an integer that `as_u64` gives.
pub open spec fn number_u64(s: Seq<char>) -> Option<u64> {
    if s.len() > 0 && all_digits(s) && digits_value(s) <= u64::MAX {
        Some(digits_value(s) as u64)
    } else {
        None
    }
}

/// A string member of a value.
pub open spec fn str_field(v: JsonValue, key: Seq<char>) -> Option<Seq<char>> {
    match json_get(v, key) {
        Some(JsonValue::Str(s)) => Some(s@),
        _ => None,
    }
}

/// A non-negative integer member of a value.
pub open spec fn u64_field(v: JsonValue, key: Seq<char>) -> Option<u64> {
    match json_get(v, key) {
        Some(JsonValue::Number(n)) => number_u64(n@),
        _ => None,
    }
}

/// A boolean member of a value.
pub open spec fn bool_field(v: JsonValue, key: Seq<char>) -> Option<bool> {
    match json_get(v, key) {
        Some(JsonValue::Bool(b)) => Some(b),
        _ => None,
    }
}

proof fn lemma_digits_grow(s: Seq<char>, k: int)
    requires
        all_digits(s),
        0 <= k <= s.len(),
    ensures
        digits_value(s) >= digits_value(s.take(k)),
    decreases s.len(),
{
    if k < s.len() {
        assert(s.take(k) =~= s.drop_last().take(k));
        lemma_digits_grow(s.drop_last(), k);
    } else {
        assert(s.take(k) =~= s);
    }
}

/// The unsigned number that a text of digits writes.
fn digits_to_u64(s: &str) -> (r: Option<u64>)
    ensures
        r == number_u64(s@),
{
    let cs = chars_of(s);
    if cs.len() == 0 {
        return None;
    }
    let mut acc: u64 = 0;
    let mut i: usize = 0;
    assert(cs@.take(0) =~= Seq::<char>::empty());
    while i < cs.len()
        invariant
            i <= cs@.len(),
            cs@ == s@,
            cs@.len() > 0,
            all_digits(cs@.take(i as int)),
            acc == digits_value(cs@.take(i as int)),
        decreases cs@.len() - i,
    {
        let u = cs[i] as u32;
        proof {
            assert(cs@.take(i + 1).drop_last() =~= cs@.take(i as int));
        }
        if u < 48 || u > 57 {
            return None;
        }
        let d = (u - 48) as u64;
        let next = match acc.checked_mul(10) {
            Some(m) => m.checked_add(d),
            None => None,
        };
        match next {
            Some(n) => {
                acc = n;
            },
            None => {
                proof {
                    if all_digits(s@) {
                        lemma_digits_grow(s@, i + 1);
                    }
                }
                return None;
            },
        }
        i = i + 1;
    }
    assert(cs@.take(cs@.len() as int) =~= cs@);
    Some(acc)
}

/// The member of a value under a key given as text.
fn field<'a>(v: &'a JsonValue, key: &str) -> (r: Option<&'a JsonValue>)
    ensures
        r matches Some(c) ==> json_get(*v, key@) == Some(*c),
        r is None ==> json_get(*v, key@) is None,
{
    let k = chars_of(key);
    get_member(v, &k)
}

/// The string member of a value under a key.
pub fn str_member(v: &JsonValue, key: &str) -> (r: Option<String>)
    ensures
        match r {
            Some(s) => str_field(*v, key@) == Some(s@),
            None => str_field(*v, key@) is None,
        },
{
    match field(v, key) {
        Some(JsonValue::Str(s)) => Some(String::from_str(s.as_str())),
        _ => None,
    }
}

/// The non-negative integer member of a value under a key.
pub fn u64_member(v: &JsonValue, key: &str) -> (r: Option<u64>)
    ensures
        r == u64_field(*v, key@),
{
    match field(v, key) {
        Some(JsonValue::Number(n)) => digits_to_u64(n.as_str()),
        _ => None,
    }
}

/// The boolean member of a value under a key.
pub fn bool_member(v: &JsonValue, key: &str) -> (r: Option<bool>)
    ensures
        r == bool_field(*v, key@),
{
    match field(v, key) {
        Some(JsonValue::Bool(b)) => Some(*b),
        _ => None,
    }
}

/// Whether a value has a member under a key.
pub fn has_member(v: &JsonValue, key: &str) -> (r: bool)
    ensures
        r == json_get(*v, key@) is Some,
{
    field(v, key).is_some()
}

} // verus!
