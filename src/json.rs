//! JSON values as the card logic reads them. Parsing and printing are
//! serde_json's; this module carries its results in a type of the library.

use vstd::prelude::*;

verus! {

#[verifier::external_type_specification]
#[verifier::external_body]
pub struct ExValue(serde_json::Value);

#[verifier::external_type_specification]
#[verifier::external_body]
pub struct ExNumber(serde_json::Number);

/// A JSON value. Object members keep the order in which the parser gave them.
#[derive(Debug)]
pub enum Json {
    Null,
    Bool(bool),
    Number(serde_json::Number),
    Str(String),
    Array(Vec<Json>),
    Object(Vec<(String, Json)>),
}

/// The value that serde_json parses from `text`, if `text` is one JSON value.
pub uninterp spec fn json_parsed(text: Seq<char>) -> Option<Json>;

/// The text that serde_json prints for `j`, pretty, with three-space indent.
pub uninterp spec fn json_rendered(j: Json) -> Seq<char>;

/// `text` re-printed pretty with three-space indent, if it starts with a JSON
/// value.
pub uninterp spec fn pretty_of(text: Seq<char>) -> Option<Seq<char>>;

/// The conversion step of `parse_json`: carries a serde_json value over,
/// variant for variant, moving every field.
#[verifier::external_body]
fn json_of_value(v: serde_json::Value) -> Json {
    match v {
        serde_json::Value::Null => Json::Null,
        serde_json::Value::Bool(b) => Json::Bool(b),
        serde_json::Value::Number(n) => Json::Number(n),
        serde_json::Value::String(s) => Json::Str(s),
        serde_json::Value::Array(a) => Json::Array(a.into_iter().map(json_of_value).collect()),
        serde_json::Value::Object(m) => Json::Object(
            m.into_iter().map(|(k, x)| (k, json_of_value(x))).collect(),
        ),
    }
}

/// The conversion step of `render_json_text`: carries a value back to
/// serde_json, variant for variant.
#[verifier::external_body]
fn value_of_json(j: &Json) -> serde_json::Value {
    match j {
        Json::Null => serde_json::Value::Null,
        Json::Bool(b) => serde_json::Value::Bool(*b),
        Json::Number(n) => serde_json::Value::Number(n.clone()),
        Json::Str(s) => serde_json::Value::String(s.clone()),
        Json::Array(a) => serde_json::Value::Array(a.iter().map(value_of_json).collect()),
        Json::Object(m) => serde_json::Value::Object(
            m.iter().map(|(k, x)| (k.clone(), value_of_json(x))).collect(),
        ),
    }
}

/// Relies on serde_json::from_str into a `Value`: `Ok` exactly when the whole
/// text is one JSON value; empty text ends before any value.
#[verifier::external_body]
pub(crate) fn parse_json(text: &str) -> (r: Option<Json>)
    ensures
        r == json_parsed(text@),
        text@.len() == 0 ==> r is None,
{
    serde_json::from_str::<serde_json::Value>(text).ok().map(json_of_value)
}

/// Relies on serde_json's pretty serializer, fed by serde_transcode: printing
/// a value that serde_json parsed and parsing the print gives that value back.
/// Strings, integers and maps print exactly; floats come back identical
/// because the crate is built with serde_json's `float_roundtrip` feature.
#[verifier::external_body]
pub(crate) fn render_json_text(j: &Json) -> (r: String)
    ensures
        r@ == json_rendered(*j),
        (exists|t: Seq<char>| json_parsed(t) == Some(*j)) ==> json_parsed(r@) == Some(*j),
{
    let mut buf: Vec<u8> = Vec::new();
    let fmt = serde_json::ser::PrettyFormatter::with_indent(b"   ");
    let mut ser = serde_json::Serializer::with_formatter(&mut buf, fmt);
    let _ = serde_transcode::transcode(value_of_json(j), &mut ser);
    String::from_utf8(buf).unwrap_or_default()
}

/// Relies on serde_transcode::transcode from serde_json's text deserializer
/// to its pretty serializer with a three-space indent. Where the whole text is
/// one JSON value, transcoding succeeds, since a `Vec` writer cannot fail and
/// serde_json writes UTF-8, and the print parses to the same value (floats
/// included, under `float_roundtrip`). Empty text ends before any value.
#[verifier::external_body]
fn transcode_pretty(text: &str) -> (r: Option<String>)
    ensures
        text@.len() == 0 ==> r is None,
        json_parsed(text@) is Some ==> r is Some,
        match r {
            Some(s) => pretty_of(text@) == Some(s@),
            None => pretty_of(text@) is None,
        },
        r matches Some(s) ==> (json_parsed(text@) is Some ==> json_parsed(s@) == json_parsed(
            text@,
        )),
{
    let mut de = serde_json::Deserializer::from_str(text);
    let mut buf: Vec<u8> = Vec::new();
    let fmt = serde_json::ser::PrettyFormatter::with_indent(b"   ");
    let mut ser = serde_json::Serializer::with_formatter(&mut buf, fmt);
    match serde_transcode::transcode(&mut de, &mut ser) {
        Ok(()) => String::from_utf8(buf).ok(),
        Err(_) => None,
    }
}

/// `text` pretty-printed where it holds JSON, else `text` itself. JSON text
/// reads back as the same value.
pub fn pretty_json(text: &str) -> (r: String)
    ensures
        r@ == match pretty_of(text@) {
            Some(p) => p,
            None => text@,
        },
        json_parsed(text@) is Some ==> json_parsed(r@) == json_parsed(text@),
        text@.len() == 0 ==> r@.len() == 0,
        json_parsed(text@) is Some ==> pretty_of(text@) is Some && r@ == pretty_of(text@)->Some_0,
{
    match transcode_pretty(text) {
        Some(p) => p,
        None => text.to_owned(),
    }
}

/// The first member of an object under `key`, from index `i` on.
pub open spec fn lookup_from(fields: Seq<(String, Json)>, key: Seq<char>, i: int) -> Option<Json>
    decreases fields.len() - i,
{
    if i < 0 || i >= fields.len() {
        None
    } else if fields[i].0@ == key {
        Some(fields[i].1)
    } else {
        lookup_from(fields, key, i + 1)
    }
}

/// The member of `j` under `key`: the first one, if `j` is an object.
pub open spec fn member(j: Json, key: Seq<char>) -> Option<Json> {
    match j {
        Json::Object(m) => lookup_from(m@, key, 0),
        _ => None,
    }
}

/// The first member of `fields` under `key`.
pub fn lookup<'a>(fields: &'a Vec<(String, Json)>, key: &str) -> (r: Option<&'a Json>)
    ensures
        match r {
            Some(v) => lookup_from(fields@, key@, 0) == Some(*v),
            None => lookup_from(fields@, key@, 0) is None,
        },
{
    let k = key.to_owned();
    let mut i: usize = 0;
    while i < fields.len()
        invariant
            i <= fields@.len(),
            k@ == key@,
            lookup_from(fields@, key@, 0) == lookup_from(fields@, key@, i as int),
        decreases fields@.len() - i,
    {
        if fields[i].0 == k {
            return Some(&fields[i].1);
        }
        i += 1;
    }
    None
}

} // verus!
