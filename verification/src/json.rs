//! A JSON document as plain values, with the read accessors the logic uses
//! (`v["key"]`, `as_str`, `as_i64`, ...), following `serde_json::Value`'s
//! semantics: indexing a missing key or a non-object gives `null`.

use vstd::prelude::*;

verus! {

/// A JSON number, as `serde_json` stores it: a non-negative integer, a
/// negative integer, or a float (whose value the logic never reads).
#[derive(Debug, Clone, Copy)]
pub enum JsonNumber {
    PosInt(u64),
    NegInt(i64),
    Float,
}

/// A JSON value. Object members keep the order in which the document lists
/// them (sorted by key for values coming from `serde_json`).
#[derive(Debug)]
pub enum Json {
    Null,
    Bool(bool),
    Number(JsonNumber),
    Str(String),
    Array(Vec<Json>),
    Object(Vec<(String, Json)>),
}

/// The value of the first member named `key`, or `null`.
pub open spec fn lookup(members: Seq<(String, Json)>, key: Seq<char>) -> Json
    decreases members.len(),
{
    if members.len() == 0 {
        Json::Null
    } else if members[0].0@ == key {
        members[0].1
    } else {
        lookup(members.drop_first(), key)
    }
}

/// `v[key]`: the member of an object, `null` when absent or when `v` is not
/// an object.
pub open spec fn index(v: Json, key: Seq<char>) -> Json {
    match v {
        Json::Object(members) => lookup(members@, key),
        _ => Json::Null,
    }
}

/// `v[k1][k2]`.
pub open spec fn index2(v: Json, k1: Seq<char>, k2: Seq<char>) -> Json {
    index(index(v, k1), k2)
}

/// `v[k1][k2][k3]`.
pub open spec fn index3(v: Json, k1: Seq<char>, k2: Seq<char>, k3: Seq<char>) -> Json {
    index(index2(v, k1, k2), k3)
}

/// `as_str()`.
pub open spec fn str_of(v: Json) -> Option<Seq<char>> {
    match v {
        Json::Str(s) => Some(s@),
        _ => None,
    }
}

/// `as_bool()`.
pub open spec fn bool_of(v: Json) -> Option<bool> {
    match v {
        Json::Bool(b) => Some(b),
        _ => None,
    }
}

/// `as_i64()`.
pub open spec fn i64_of(v: Json) -> Option<i64> {
    match v {
        Json::Number(JsonNumber::PosInt(n)) => if n <= i64::MAX {
            Some(n as i64)
        } else {
            None
        },
        Json::Number(JsonNumber::NegInt(n)) => Some(n),
        _ => None,
    }
}

/// `as_u64()`.
pub open spec fn u64_of(v: Json) -> Option<u64> {
    match v {
        Json::Number(JsonNumber::PosInt(n)) => Some(n),
        Json::Number(JsonNumber::NegInt(n)) => if n >= 0 {
            Some(n as u64)
        } else {
            None
        },
        _ => None,
    }
}

/// `as_array()`.
pub open spec fn array_of(v: Json) -> Option<Seq<Json>> {
    match v {
        Json::Array(items) => Some(items@),
        _ => None,
    }
}

/// A reference that stands for `null` when absent.
pub open spec fn or_null(v: Option<&Json>) -> Json {
    match v {
        Some(x) => *x,
        None => Json::Null,
    }
}

/// The view of an optional string slice.
pub open spec fn opt_view(v: Option<&str>) -> Option<Seq<char>> {
    match v {
        Some(s) => Some(s@),
        None => None,
    }
}

fn lookup_exec<'a>(members: &'a Vec<(String, Json)>, key: &str) -> (r: Option<&'a Json>)
    ensures
        or_null(r) == lookup(members@, key@),
{
    let mut i: usize = 0;
    assert(members@.skip(0) =~= members@);
    while i < members.len()
        invariant
            i <= members@.len(),
            lookup(members@, key@) == lookup(members@.skip(i as int), key@),
        decreases members@.len() - i,
    {
        assert(members@.skip(i as int).drop_first() =~= members@.skip(i + 1));
        if crate::text::str_eq(members[i].0.as_str(), key) {
            return Some(&members[i].1);
        }
        i = i + 1;
    }
    None
}

/// `v[key]`, where `None` stands for `null`.
pub fn at<'a>(v: Option<&'a Json>, key: &str) -> (r: Option<&'a Json>)
    ensures
        or_null(r) == index(or_null(v), key@),
{
    match v {
        Some(Json::Object(members)) => lookup_exec(members, key),
        _ => None,
    }
}

/// `v[k1][k2]`.
pub fn at2<'a>(v: Option<&'a Json>, k1: &str, k2: &str) -> (r: Option<&'a Json>)
    ensures
        or_null(r) == index2(or_null(v), k1@, k2@),
{
    at(at(v, k1), k2)
}

/// `v[k1][k2][k3]`.
pub fn at3<'a>(v: Option<&'a Json>, k1: &str, k2: &str, k3: &str) -> (r: Option<&'a Json>)
    ensures
        or_null(r) == index3(or_null(v), k1@, k2@, k3@),
{
    at(at2(v, k1, k2), k3)
}

/// `as_str()`.
pub fn as_str<'a>(v: Option<&'a Json>) -> (r: Option<&'a str>)
    ensures
        opt_view(r) == str_of(or_null(v)),
{
    match v {
        Some(Json::Str(s)) => Some(s.as_str()),
        _ => None,
    }
}

/// `as_bool()`.
pub fn as_bool(v: Option<&Json>) -> (r: Option<bool>)
    ensures
        r == bool_of(or_null(v)),
{
    match v {
        Some(Json::Bool(b)) => Some(*b),
        _ => None,
    }
}

/// `as_i64()`.
pub fn as_i64(v: Option<&Json>) -> (r: Option<i64>)
    ensures
        r == i64_of(or_null(v)),
{
    match v {
        Some(Json::Number(JsonNumber::PosInt(n))) => if *n <= 9223372036854775807u64 {
            Some(*n as i64)
        } else {
            None
        },
        Some(Json::Number(JsonNumber::NegInt(n))) => Some(*n),
        _ => None,
    }
}

/// `as_u64()`.
pub fn as_u64(v: Option<&Json>) -> (r: Option<u64>)
    ensures
        r == u64_of(or_null(v)),
{
    match v {
        Some(Json::Number(JsonNumber::PosInt(n))) => Some(*n),
        Some(Json::Number(JsonNumber::NegInt(n))) => if *n >= 0 {
            Some(*n as u64)
        } else {
            None
        },
        _ => None,
    }
}

/// `as_array()`.
pub fn as_array<'a>(v: Option<&'a Json>) -> (r: Option<&'a Vec<Json>>)
    ensures
        r is Some <==> array_of(or_null(v)) is Some,
        r matches Some(a) ==> a@ == array_of(or_null(v))->0,
{
    match v {
        Some(Json::Array(items)) => Some(items),
        _ => None,
    }
}

#[verifier::external_type_specification]
#[verifier::external_body]
pub struct ExSerdeJsonValue(serde_json::Value);

/// What `serde_json::from_str::<serde_json::Value>` makes of a text, as a
/// `Json` (`None` when the text is not a JSON document).
pub uninterp spec fn parsed_text(text: Seq<char>) -> Option<Json>;

/// What `serde_json::from_slice::<serde_json::Value>` makes of a byte
/// sequence, as a `Json` (`None` when the bytes are not a JSON document).
pub uninterp spec fn parsed_bytes(bytes: Seq<u8>) -> Option<Json>;

/// Changes a `serde_json::Value` into the same value as a `Json`, variant for
/// variant; used only by the two parse wrappers below.
#[verifier::external_body]
fn from_serde(v: serde_json::Value) -> Json {
    match v {
        serde_json::Value::Null => Json::Null,
        serde_json::Value::Bool(b) => Json::Bool(b),
        serde_json::Value::Number(n) => Json::Number(match (n.as_u64(), n.as_i64()) {
            (Some(u), _) => JsonNumber::PosInt(u),
            (None, Some(i)) => JsonNumber::NegInt(i),
            _ => JsonNumber::Float,
        }),
        serde_json::Value::String(s) => Json::Str(s),
        serde_json::Value::Array(a) => Json::Array(a.into_iter().map(from_serde).collect()),
        serde_json::Value::Object(m) => Json::Object(m.into_iter().map(|(k, v)| (k, from_serde(v))).collect()),
    }
}

/// `serde_json::from_str::<serde_json::Value>(text).ok()`: the contract only
/// names the result; the JSON grammar is serde_json's.
#[verifier::external_body]
pub(crate) fn parse_text(text: &str) -> (r: Option<Json>)
    ensures
        r == parsed_text(text@),
{
    serde_json::from_str::<serde_json::Value>(text).ok().map(from_serde)
}

/// `serde_json::from_slice::<serde_json::Value>(bytes).ok()`: the contract
/// only names the result; the JSON grammar is serde_json's.
#[verifier::external_body]
pub(crate) fn parse_bytes(bytes: &[u8]) -> (r: Option<Json>)
    ensures
        r == parsed_bytes(bytes@),
{
    serde_json::from_slice::<serde_json::Value>(bytes).ok().map(from_serde)
}


/// The value of the first member named `key`, if there is one.
pub open spec fn find_member(members: Seq<(String, Json)>, key: Seq<char>) -> Option<Json>
    decreases members.len(),
{
    if members.len() == 0 {
        None
    } else if members[0].0@ == key {
        Some(members[0].1)
    } else {
        find_member(members.drop_first(), key)
    }
}

/// `v.get(key)`: the member of an object, `None` when absent or when `v` is
/// not an object.
pub open spec fn member(v: Json, key: Seq<char>) -> Option<Json> {
    match v {
        Json::Object(members) => find_member(members@, key),
        _ => None,
    }
}

/// `v.get(key)`.
pub fn get_member<'a>(v: &'a Json, key: &str) -> (r: Option<&'a Json>)
    ensures
        match r {
            Some(x) => member(*v, key@) == Some(*x),
            None => member(*v, key@) is None,
        },
{
    match v {
        Json::Object(members) => {
            let mut i: usize = 0;
            assert(members@.skip(0) =~= members@);
            while i < members.len()
                invariant
                    i <= members@.len(),
                    member(*v, key@) == find_member(members@, key@),
                    find_member(members@, key@) == find_member(members@.skip(i as int), key@),
                decreases members@.len() - i,
            {
                assert(members@.skip(i as int).drop_first() =~= members@.skip(i + 1));
                assert(members@.skip(i as int)[0] == members@[i as int]);
                if crate::text::str_eq(members[i].0.as_str(), key) {
                    return Some(&members[i].1);
                }
                i = i + 1;
            }
            None
        },
        _ => None,
    }
}

/// The texts among a list of values (`filter_map(as_str)`), in order.
pub open spec fn strings_in(items: Seq<Json>) -> Seq<Seq<char>>
    decreases items.len(),
{
    if items.len() == 0 {
        Seq::empty()
    } else {
        let r = strings_in(items.drop_last());
        match str_of(items.last()) {
            Some(t) => r.push(t),
            None => r,
        }
    }
}

/// The texts of an array value (`as_array().map(filter_map(as_str))`,
/// empty when not an array).
pub open spec fn string_list(v: Json) -> Seq<Seq<char>> {
    match array_of(v) {
        Some(items) => strings_in(items),
        None => Seq::empty(),
    }
}

/// The texts of an array value.
pub fn string_list_exec(v: Option<&Json>) -> (r: Vec<String>)
    ensures
        crate::models::texts(r@) == string_list(or_null(v)),
{
    let mut r: Vec<String> = Vec::new();
    match as_array(v) {
        Some(items) => {
            let mut i: usize = 0;
            assert(crate::models::texts(r@) =~= strings_in(items@.take(0)));
            while i < items.len()
                invariant
                    i <= items@.len(),
                    crate::models::texts(r@) == strings_in(items@.take(i as int)),
                decreases items@.len() - i,
            {
                assert(items@.take(i + 1).drop_last() =~= items@.take(i as int));
                match &items[i] {
                    Json::Str(t) => {
                        let ghost before = crate::models::texts(r@);
                        r.push(t.clone());
                        assert(crate::models::texts(r@) =~= before.push(t@));
                    },
                    _ => {},
                }
                i = i + 1;
            }
            assert(items@.take(i as int) =~= items@);
        },
        None => {
            assert(crate::models::texts(r@) =~= Seq::<Seq<char>>::empty());
        },
    }
    r
}

} // verus!
