//! A JSON value the library builds, and its mathematical view.
use vstd::prelude::*;

use crate::text::{all_digits, digits_value, is_digit, parse_unsigned_range, str_eq};
use vstd::utf8::encode_utf8;

verus! {

/// A JSON value. Object members keep the order they were added in.
#[derive(Debug)]
pub enum Json {
    Null,
    Bool(bool),
    Num(u64),
    /// A number read from JSON text, as serde_json writes it.
    NumText(String),
    Str(String),
    Arr(Vec<Json>),
    Obj(Vec<(String, Json)>),
}

/// The mathematical reading of a [`Json`] value.
pub enum JsonView {
    Null,
    Bool(bool),
    Num(u64),
    NumText(Seq<char>),
    Str(Seq<char>),
    Arr(Seq<JsonView>),
    Obj(Seq<(Seq<char>, JsonView)>),
}

pub open spec fn json_view(j: Json) -> JsonView
    decreases j,
{
    match j {
        Json::Null => JsonView::Null,
        Json::Bool(b) => JsonView::Bool(b),
        Json::Num(n) => JsonView::Num(n),
        Json::NumText(t) => JsonView::NumText(t@),
        Json::Str(s) => JsonView::Str(s@),
        Json::Arr(v) => JsonView::Arr(
            Seq::new(
                v.len() as nat,
                |i: int|
                    if 0 <= i < v.len() {
                        json_view(v[i])
                    } else {
                        JsonView::Null
                    },
            ),
        ),
        Json::Obj(m) => JsonView::Obj(
            Seq::new(
                m.len() as nat,
                |i: int|
                    if 0 <= i < m.len() {
                        (m[i].0@, json_view(m[i].1))
                    } else {
                        (Seq::empty(), JsonView::Null)
                    },
            ),
        ),
    }
}

impl View for Json {
    type V = JsonView;

    open spec fn view(&self) -> JsonView {
        json_view(*self)
    }
}

/// The views of a list of values.
pub open spec fn json_views(v: Seq<Json>) -> Seq<JsonView> {
    v.map_values(|x: Json| x@)
}

/// The views of a list of members.
pub open spec fn member_views(m: Seq<(String, Json)>) -> Seq<(Seq<char>, JsonView)> {
    m.map_values(|p: (String, Json)| (p.0@, p.1@))
}

/// A string value.
pub open spec fn js(s: Seq<char>) -> JsonView {
    JsonView::Str(s)
}

/// An array value.
pub open spec fn ja(items: Seq<JsonView>) -> JsonView {
    JsonView::Arr(items)
}

/// An object value.
pub open spec fn jo(members: Seq<(Seq<char>, JsonView)>) -> JsonView {
    JsonView::Obj(members)
}

/// The strings as JSON strings.
pub open spec fn js_all(v: Seq<Seq<char>>) -> Seq<JsonView> {
    v.map_values(|s: Seq<char>| js(s))
}

impl Json {
    pub fn str(s: &str) -> (r: Json)
        ensures
            r@ == js(s@),
    {
        Json::Str(s.to_owned())
    }

    pub fn arr(v: Vec<Json>) -> (r: Json)
        ensures
            r@ == ja(json_views(v@)),
    {
        let ghost vv = v@;
        let r = Json::Arr(v);
        proof {
            let inner = match json_view(r) {
                JsonView::Arr(x) => x,
                _ => Seq::empty(),
            };
            assert(inner =~= json_views(vv));
        }
        r
    }

    pub fn obj(m: Vec<(String, Json)>) -> (r: Json)
        ensures
            r@ == jo(member_views(m@)),
    {
        let ghost mv = m@;
        let r = Json::Obj(m);
        proof {
            let inner = match json_view(r) {
                JsonView::Obj(x) => x,
                _ => Seq::empty(),
            };
            assert(inner =~= member_views(mv));
        }
        r
    }
}

/// A member with the given key.
pub fn member(k: &str, v: Json) -> (r: (String, Json))
    ensures
        r.0@ == k@,
        r.1@ == v@,
{
    (k.to_owned(), v)
}

/// Appends a member.
pub fn add_member(m: &mut Vec<(String, Json)>, k: &str, v: Json)
    ensures
        member_views(final(m)@) == member_views(old(m)@).push((k@, v@)),
{
    let ghost before = member_views(m@);
    m.push(member(k, v));
    assert(member_views(m@) =~= before.push((k@, v@)));
}

/// Appends a value.
pub fn add_item(v: &mut Vec<Json>, x: Json)
    ensures
        json_views(final(v)@) == json_views(old(v)@).push(x@),
{
    let ghost before = json_views(v@);
    let ghost xv = x@;
    v.push(x);
    assert(json_views(v@) =~= before.push(xv));
}

/// The strings as JSON strings.
pub fn str_values(v: &Vec<String>) -> (r: Vec<Json>)
    ensures
        json_views(r@) == js_all(crate::models::strings_view(v@)),
{
    let mut out: Vec<Json> = Vec::new();
    let mut i: usize = 0;
    while i < v.len()
        invariant
            i <= v@.len(),
            json_views(out@) == js_all(crate::models::strings_view(v@.take(i as int))),
        decreases v@.len() - i,
    {
        add_item(&mut out, Json::str(v[i].as_str()));
        assert(js_all(crate::models::strings_view(v@.take(i + 1))) =~= js_all(
            crate::models::strings_view(v@.take(i as int)),
        ).push(js(v@[i as int]@)));
        i = i + 1;
    }
    assert(v@.take(v@.len() as int) =~= v@);
    out
}

// ---------------------------------------------------------------------------
// Reading JSON text
// ---------------------------------------------------------------------------

#[verifier::external_type_specification]
#[verifier::external_body]
pub struct ExJsonValue(serde_json::Value);

/// The value of a parse of JSON text by serde_json, read variant for
/// variant as a [`JsonView`] (a number as the text serde_json writes for
/// it), or `None` when the bytes are not JSON.
pub uninterp spec fn json_text_value(text: Seq<u8>) -> Option<JsonView>;

pub open spec fn opt_json_view(j: Option<Json>) -> Option<JsonView> {
    match j {
        Some(x) => Some(x@),
        None => None,
    }
}

/// serde_json's value as a [`Json`], one variant for another: a number
/// becomes the text serde_json writes for it, arrays and objects keep
/// their order.
#[verifier::external_body]
fn json_of_value(v: serde_json::Value) -> (r: Json) {
    match v {
        serde_json::Value::Null => Json::Null,
        serde_json::Value::Bool(b) => Json::Bool(b),
        serde_json::Value::Number(n) => Json::NumText(n.to_string()),
        serde_json::Value::String(t) => Json::Str(t),
        serde_json::Value::Array(a) => Json::Arr(a.into_iter().map(json_of_value).collect()),
        serde_json::Value::Object(m) => Json::Obj(m.into_iter().map(|(k, x)| (k, json_of_value(x))).collect()),
    }
}

/// `serde_json::from_slice::<serde_json::Value>`: the value the bytes
/// hold, or `None` when they are not JSON. The result is named by
/// [`json_text_value`]; nothing more is stated of serde_json's parser.
#[verifier::external_body]
pub(crate) fn json_from_slice(b: &[u8]) -> (r: Option<Json>)
    ensures
        opt_json_view(r) == json_text_value(b@),
{
    match serde_json::from_slice::<serde_json::Value>(b) {
        Ok(v) => Some(json_of_value(v)),
        Err(_) => None,
    }
}

/// The value of the first member called `key`.
pub open spec fn member_value(ms: Seq<(Seq<char>, JsonView)>, key: Seq<char>) -> Option<JsonView>
    decreases ms.len(),
{
    if ms.len() == 0 {
        None
    } else if ms[0].0 == key {
        Some(ms[0].1)
    } else {
        member_value(ms.skip(1), key)
    }
}

/// `Value::get` with a key: the member's value of an object, `None` for
/// anything else.
pub open spec fn json_get(v: JsonView, key: Seq<char>) -> Option<JsonView> {
    match v {
        JsonView::Obj(ms) => member_value(ms, key),
        _ => None,
    }
}

/// `Value::as_str`.
pub open spec fn json_as_str(v: JsonView) -> Option<Seq<char>> {
    match v {
        JsonView::Str(t) => Some(t),
        _ => None,
    }
}

/// `Value::as_array`.
pub open spec fn json_as_array(v: JsonView) -> Option<Seq<JsonView>> {
    match v {
        JsonView::Arr(items) => Some(items),
        _ => None,
    }
}

/// `Value::as_u64`: serde_json writes a number that fits a `u64` as its
/// decimal digits, and any other number with a sign, a point or an
/// exponent.
pub open spec fn json_as_u64(v: JsonView) -> Option<u64> {
    match v {
        JsonView::Num(n) => Some(n),
        JsonView::NumText(t) => {
            let d = encode_utf8(t);
            if d.len() > 0 && all_digits(d) && digits_value(d) <= 18446744073709551615 {
                Some(digits_value(d) as u64)
            } else {
                None
            }
        },
        _ => None,
    }
}

/// The member `key` of an object.
pub fn get<'a>(j: &'a Json, key: &str) -> (r: Option<&'a Json>)
    ensures
        match r {
            Some(x) => json_get(j@, key@) == Some(x@),
            None => json_get(j@, key@) is None,
        },
{
    match j {
        Json::Obj(m) => {
            let ghost ms = member_views(m@);
            assert(ms =~= match j@ {
                JsonView::Obj(x) => x,
                _ => Seq::empty(),
            });
            assert(j@ == JsonView::Obj(ms));
            let mut i: usize = 0;
            assert(ms.skip(0) =~= ms);
            while i < m.len()
                invariant
                    i <= m@.len(),
                    ms == member_views(m@),
                    j@ == JsonView::Obj(ms),
                    member_value(ms, key@) == member_value(ms.skip(i as int), key@),
                decreases m@.len() - i,
            {
                assert(ms.skip(i as int)[0] == (m@[i as int].0@, m@[i as int].1@));
                if str_eq(m[i].0.as_str(), key) {
                    assert(member_value(ms.skip(i as int), key@) == Some(m@[i as int].1@));
                    return Some(&m[i].1);
                }
                assert(ms.skip(i as int).skip(1) =~= ms.skip(i + 1));
                i = i + 1;
            }
            None
        },
        _ => None,
    }
}

/// The text of a string value.
pub fn as_str<'a>(j: &'a Json) -> (r: Option<&'a str>)
    ensures
        match r {
            Some(t) => json_as_str(j@) == Some(t@),
            None => json_as_str(j@) is None,
        },
{
    match j {
        Json::Str(t) => Some(t.as_str()),
        _ => None,
    }
}

/// The items of an array value.
pub fn as_array<'a>(j: &'a Json) -> (r: Option<&'a Vec<Json>>)
    ensures
        match r {
            Some(v) => json_as_array(j@) == Some(json_views(v@)),
            None => json_as_array(j@) is None,
        },
{
    match j {
        Json::Arr(v) => {
            proof {
                let inner = match j@ {
                    JsonView::Arr(x) => x,
                    _ => Seq::empty(),
                };
                assert(inner =~= json_views(v@));
            }
            Some(v)
        },
        _ => None,
    }
}

/// A number that fits a `u64`.
pub fn as_u64(j: &Json) -> (r: Option<u64>)
    ensures
        r == json_as_u64(j@),
{
    match j {
        Json::Num(n) => Some(*n),
        Json::NumText(t) => {
            assert(j@ == JsonView::NumText(t@));
            let b = t.as_str().as_bytes();
            let mut i: usize = 0;
            while i < b.len()
                invariant
                    i <= b@.len(),
                    j@ == JsonView::NumText(t@),
                    b@ == encode_utf8(t@),
                    forall|k: int| 0 <= k < i ==> is_digit(#[trigger] b@[k]),
                decreases b@.len() - i,
            {
                if b[i] < 48 || b[i] > 57 {
                    assert(!is_digit(b@[i as int]));
                    assert(!all_digits(b@));
                    return None;
                }
                i = i + 1;
            }
            if b.len() == 0 {
                return None;
            }
            assert(b@.subrange(0, b@.len() as int) =~= b@);
            match parse_unsigned_range(b, 0, b.len(), 18446744073709551615) {
                Some(n) => Some(n),
                None => None,
            }
        },
        _ => None,
    }
}

/// The text serde_json's pretty printer writes for a value (object
/// members as serde_json's map holds them).
pub uninterp spec fn json_pretty_text(v: JsonView) -> Seq<char>;

/// A [`Json`] as serde_json's value, one variant for another (a number
/// text as the number it writes).
#[verifier::external_body]
fn value_of_json(j: &Json) -> (r: serde_json::Value) {
    match j {
        Json::Null => serde_json::Value::Null,
        Json::Bool(b) => serde_json::Value::Bool(*b),
        Json::Num(n) => serde_json::Value::from(*n),
        Json::NumText(t) => t.parse::<serde_json::Number>().map_or(serde_json::Value::Null, serde_json::Value::Number),
        Json::Str(t) => serde_json::Value::String(t.clone()),
        Json::Arr(v) => serde_json::Value::Array(v.iter().map(value_of_json).collect()),
        Json::Obj(m) => serde_json::Value::Object(m.iter().map(|(k, x)| (k.clone(), value_of_json(x))).collect()),
    }
}

/// `serde_json::to_string_pretty` of the value: its text, named by
/// [`json_pretty_text`]. (Printing a value with string keys does not fail;
/// the error arm is never taken.)
#[verifier::external_body]
pub(crate) fn json_to_pretty_text(j: &Json) -> (r: String)
    ensures
        r@ == json_pretty_text(j@),
{
    match serde_json::to_string_pretty(&value_of_json(j)) {
        Ok(t) => t,
        Err(_) => String::new(),
    }
}

} // verus!
