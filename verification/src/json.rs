//! JSON values of `serde_json`, and what the library takes as known of them.

use serde_json::Value;
use vstd::prelude::*;

verus! {

/// A JSON value. What it holds is `json_view`.
#[verifier::external_type_specification]
#[verifier::external_body]
pub struct ExValue(serde_json::Value);

/// Why a text is no JSON value.
#[verifier::external_type_specification]
#[verifier::external_body]
pub struct ExJsonError(serde_json::Error);

/// What a JSON value holds.
pub enum JsonView {
    Null,
    Bool(bool),
    /// A number that is held as an integer of 64 bits, with or without sign.
    Integer(int),
    /// Any other number, by the shortest decimal text that stands for it.
    Real(Seq<char>),
    Text(Seq<char>),
    Array(Seq<JsonView>),
    Object(Map<Seq<char>, JsonView>),
}

/// The contents of a JSON value.
pub uninterp spec fn json_view(v: serde_json::Value) -> JsonView;

/// The contents of each of a sequence of JSON values.
pub open spec fn json_views(items: Seq<Value>) -> Seq<JsonView> {
    items.map_values(|v: Value| json_view(v))
}

/// The compact text of a JSON value.
pub uninterp spec fn json_text(v: JsonView) -> Seq<char>;

/// The JSON value that the bytes of a text write, `None` where they are no JSON.
pub uninterp spec fn json_parse(text: Seq<u8>) -> Option<JsonView>;

/// Whether `a` comes before `b` in the order of strings.
pub open spec fn text_before(a: Seq<char>, b: Seq<char>) -> bool {
    exists|i: int|
        0 <= i <= a.len() && i < b.len() && #[trigger] a.take(i) == b.take(i) && (i == a.len()
            || a[i] < b[i])
}

/// Whether the first member of an object, by the order of the names, has the name that
/// `serde_json` keeps for itself.
pub open spec fn reserved_first(members: Map<Seq<char>, JsonView>) -> bool {
    &&& members.contains_key("$serde_json::private::RawValue"@)
    &&& forall|k: Seq<char>| #[trigger]
        members.contains_key(k) ==> !text_before(k, "$serde_json::private::RawValue"@)
}

/// Whether the text of a value gives back that value when it is read: at most `depth` arrays and
/// objects lie inside one another, and no object begins with the name that `serde_json` keeps for
/// itself.
pub open spec fn reads_back(v: JsonView, depth: nat) -> bool
    decreases depth,
{
    match v {
        JsonView::Array(items) => depth > 0 && forall|i: int|
            0 <= i < items.len() ==> #[trigger] reads_back(items[i], (depth - 1) as nat),
        JsonView::Object(members) => depth > 0 && !reserved_first(members) && forall|k: Seq<char>|
            members.contains_key(k) ==> #[trigger] reads_back(members[k], (depth - 1) as nat),
        _ => true,
    }
}

/// How deep arrays and objects may lie inside one another in a text that `serde_json` reads.
pub open spec fn depth_limit() -> nat {
    127
}

/// `Value::as_str`: the text of a string, `None` for any other value.
pub assume_specification[ serde_json::Value::as_str ](v: &Value) -> (r: Option<&str>)
    ensures
        match r {
            Some(s) => json_view(*v) == JsonView::Text(s@),
            None => !(json_view(*v) is Text),
        },
;

/// `Value::as_array`: the items of an array in order, `None` for any other value.
pub assume_specification[ serde_json::Value::as_array ](v: &Value) -> (r: Option<&Vec<Value>>)
    ensures
        match r {
            Some(items) => json_view(*v) == JsonView::Array(json_views(items@)),
            None => !(json_view(*v) is Array),
        },
;

/// `Value::as_i64`: an integer that fits in an `i64`, `None` for any other value.
pub assume_specification[ serde_json::Value::as_i64 ](v: &Value) -> (r: Option<i64>)
    ensures
        match r {
            Some(n) => json_view(*v) == JsonView::Integer(n as int),
            None => match json_view(*v) {
                JsonView::Integer(n) => n < i64::MIN || n > i64::MAX,
                _ => true,
            },
        },
;

/// `Value::is_number`: whether the value is a number, integer or not.
pub assume_specification[ serde_json::Value::is_number ](v: &Value) -> (r: bool)
    ensures
        r == (json_view(*v) is Integer || json_view(*v) is Real),
;

/// `Value::is_object`: whether the value is an object.
pub assume_specification[ serde_json::Value::is_object ](v: &Value) -> (r: bool)
    ensures
        r == (json_view(*v) is Object),
;

/// `Value::get` with a string: the member of that name, `None` where the value is no object or
/// has no such member.
#[verifier::external_body]
pub(crate) fn member<'a>(v: &'a Value, name: &str) -> (r: Option<&'a Value>)
    ensures
        match r {
            Some(x) => member_view(json_view(*v), name@) == Some(json_view(*x)),
            None => member_view(json_view(*v), name@) is None,
        },
{
    v.get(name)
}

/// The member of that name, where the value is an object that has it.
pub open spec fn member_view(v: JsonView, name: Seq<char>) -> Option<JsonView> {
    match v {
        JsonView::Object(members) => if members.contains_key(name) {
            Some(members[name])
        } else {
            None
        },
        _ => None,
    }
}

/// `Display` of `Value`: the compact text, which depends on the contents alone. Reading that
/// text gives the contents back where `reads_back` holds, real numbers among them, since the
/// feature `float_roundtrip` reads each text as the number nearest to it. Of a value without
/// `reads_back` the contract does not say what reading gives: `serde_json` refuses deeper texts,
/// and takes an object that begins with its own name for something else.
#[verifier::external_body]
pub(crate) fn value_text(v: &Value) -> (r: String)
    ensures
        r@ == json_text(json_view(*v)),
        reads_back(json_view(*v), depth_limit()) ==> json_parse(
            vstd::utf8::encode_utf8(r@),
        ) == Some(json_view(*v)),
{
    v.to_string()
}

/// `serde_json::from_slice` to a `Value`: whether the bytes are JSON and what it holds depends on
/// the bytes alone.
#[verifier::external_body]
pub(crate) fn parse_value(text: &[u8]) -> (r: Result<Value, serde_json::Error>)
    ensures
        match r {
            Ok(v) => json_parse(text@) == Some(json_view(v)),
            Err(_) => json_parse(text@) is None,
        },
{
    serde_json::from_slice(text)
}

/// `Map::insert` and `Value::from` on a list of strings: an object with one member, the array
/// of the strings in order.
#[verifier::external_body]
pub(crate) fn strings_object(name: &str, items: &Vec<String>) -> (r: Value)
    ensures
        json_view(r) == strings_object_view(name@, crate::text::texts(items@)),
{
    let mut members = serde_json::Map::new();
    members.insert(name.to_string(), Value::from(items.clone()));
    Value::Object(members)
}

/// An object with one member, an array of strings.
pub open spec fn strings_object_view(name: Seq<char>, items: Seq<Seq<char>>) -> JsonView {
    JsonView::Object(
        map![name => JsonView::Array(items.map_values(|s: Seq<char>| JsonView::Text(s)))],
    )
}

/// The text of an object with one member, an array of strings; it reads back.
pub(crate) fn strings_text(name: &str, items: &Vec<String>) -> (r: String)
    requires
        name@ != "$serde_json::private::RawValue"@,
    ensures
        r@ == json_text(strings_object_view(name@, crate::text::texts(items@))),
        json_parse(vstd::utf8::encode_utf8(r@)) == Some(
            strings_object_view(name@, crate::text::texts(items@)),
        ),
{
    let v: Value = strings_object(name, items);
    proof {
        reveal_with_fuel(reads_back, 3);
        assert(reads_back(
            strings_object_view(name@, crate::text::texts(items@)),
            depth_limit(),
        ));
    }
    value_text(&v)
}

/// An object with one member has that member and no other, an array of the strings in order.
pub proof fn law_strings_object_holds_the_strings(name: Seq<char>, items: Seq<Seq<char>>)
    ensures
        strings_object_view(name, items) matches JsonView::Object(members) && {
            &&& members.dom() == set![name]
            &&& members[name] matches JsonView::Array(values)
            &&& values.len() == items.len()
            &&& forall|i: int| 0 <= i < items.len() ==> #[trigger] values[i] == JsonView::Text(
                items[i],
            )
        },
{
    assert(map![name => JsonView::Array(items.map_values(|s: Seq<char>| JsonView::Text(s)))].dom()
        =~= set![name]);
}

/// The contents of values are those of each, in order.
pub proof fn law_contents_follow_the_values(items: Seq<Value>)
    ensures
        json_views(items).len() == items.len(),
        forall|i: int| 0 <= i < items.len() ==> #[trigger] json_views(items)[i] == json_view(items[i]),
{
}

} // verus!
