use crate::json::{Json, JsonNumber, JsonObject, JsonValue};
use serde_json::Value;
use vstd::prelude::*;

verus! {

/// `serde_json::Value`, a JSON document as `serde_json` holds it. Nothing is
/// known of what is inside; it is only handed on.
#[verifier::external_type_specification]
#[verifier::external_body]
pub struct ExValue(Value);

/// `serde_json::Error`, what `serde_json` reports for a text that it cannot
/// read. Nothing is known of what is inside.
#[verifier::external_type_specification]
#[verifier::external_body]
pub struct ExError(serde_json::Error);

/// The compact JSON text that `serde_json::Value::to_string` writes for a
/// value: without white space, the members of an object in the order of
/// their names.
pub uninterp spec fn json_text(value: JsonValue) -> Seq<char>;

/// The value that `serde_json::from_str` reads from a text, or `None` where
/// it reports an error: the text is no JSON document, or is nested too deep.
pub uninterp spec fn json_parse(text: Seq<char>) -> Option<JsonValue>;

/// The text that `lz_str::compress_to_encoded_uri_component` makes of a text:
/// its LZ-string compression in the alphabet that is safe in a URI.
pub uninterp spec fn lz_uri(text: Seq<char>) -> Seq<char>;

/// The longest text, in characters, that is handed to the compressor. A
/// character is at most two UTF-16 units, and at twice this number of units
/// the compressor's dictionary still fits its thirty-two bit codes.
pub const MAX_COMPRESS_CHARS: usize = 0x3fff_ffff;

/// Whether a character has the Unicode property `White_Space`.
pub open spec fn is_white_space(c: char) -> bool {
    let n = c as u32;
    ||| 0x09 <= n <= 0x0d
    ||| n == 0x20
    ||| n == 0x85
    ||| n == 0xa0
    ||| n == 0x1680
    ||| 0x2000 <= n <= 0x200a
    ||| n == 0x2028
    ||| n == 0x2029
    ||| n == 0x202f
    ||| n == 0x205f
    ||| n == 0x3000
}

/// A text without the white space at its start.
pub open spec fn trim_start(text: Seq<char>) -> Seq<char>
    decreases text.len(),
{
    if text.len() > 0 && is_white_space(text.first()) {
        trim_start(text.drop_first())
    } else {
        text
    }
}

/// A text without the white space at its end.
pub open spec fn trim_end(text: Seq<char>) -> Seq<char>
    decreases text.len(),
{
    if text.len() > 0 && is_white_space(text.last()) {
        trim_end(text.drop_last())
    } else {
        text
    }
}

/// A text without the white space at either end.
pub open spec fn trimmed(text: Seq<char>) -> Seq<char> {
    trim_end(trim_start(text))
}

/// Copies a `serde_json::Value`, variant by variant, into a document. Of a
/// number it hands on what `Number::as_u64`, `Number::as_i64` and its
/// `Display` give.
#[verifier::external_body]
fn from_outside(value: &Value) -> Json {
    match value {
        Value::Null => Json::Null,
        Value::Bool(b) => Json::Bool(*b),
        Value::Number(n) => Json::Number(
            JsonNumber::from_parts(n.as_u64(), n.as_i64(), n.to_string()),
        ),
        Value::String(s) => Json::String(s.clone()),
        Value::Array(items) => Json::Array(items.iter().map(from_outside).collect()),
        Value::Object(map) => Json::Object(
            JsonObject { members: map.iter().map(|(k, v)| (k.clone(), from_outside(v))).collect() },
        ),
    }
}

/// Copies a document, variant by variant, into a `serde_json::Value`. The
/// members of an object enter its map in their order, so the last of a name
/// stays. The decimal text of a number is read by `serde_json::from_str`, and
/// a text that it does not read as a number becomes `null`.
#[verifier::external_body]
fn to_outside(value: &Json) -> Value {
    match value {
        Json::Null => Value::Null,
        Json::Bool(b) => Value::Bool(*b),
        Json::Number(JsonNumber::PosInt(n)) => Value::from(*n),
        Json::Number(JsonNumber::NegInt(n)) => Value::from(*n),
        Json::Number(JsonNumber::Float(text)) => serde_json::from_str::<serde_json::Number>(text)
            .map_or(Value::Null, Value::Number),
        Json::String(s) => Value::String(s.clone()),
        Json::Array(items) => Value::Array(items.iter().map(to_outside).collect()),
        Json::Object(object) => Value::Object(
            object.members.iter().map(|(k, v)| (k.clone(), to_outside(v))).collect(),
        ),
    }
}

/// `serde_json::from_str`, read as a `serde_json::Value`: the document that a
/// text spells, or the error that `serde_json` reports for it. What it returns
/// depends on the text alone.
#[verifier::external_body]
pub(crate) fn parse_value(text: &str) -> (r: Result<Json, serde_json::Error>)
    ensures
        match r {
            Ok(value) => json_parse(text@) == Some(value@),
            Err(_) => json_parse(text@) is None,
        },
{
    match serde_json::from_str::<Value>(text) {
        Ok(value) => Ok(from_outside(&value)),
        Err(e) => Err(e),
    }
}

/// `serde_json::Value::to_string`: the compact text of a document, which
/// depends on its value alone.
#[verifier::external_body]
pub(crate) fn value_text(value: &Json) -> (r: String)
    ensures
        r@ == json_text(value@),
{
    to_outside(value).to_string()
}

/// `lz_str::compress_to_encoded_uri_component`: the compressed form of a text,
/// which depends on the text alone. The compressor numbers its dictionary
/// entries, at most two for each UTF-16 unit of the text, in thirty-two bits
/// and stops the program where they do not fit; texts of that length are left
/// out.
#[verifier::external_body]
pub(crate) fn compress_uri(text: &str) -> (r: String)
    requires
        text@.len() <= MAX_COMPRESS_CHARS,
    ensures
        r@ == lz_uri(text@),
{
    lz_str::compress_to_encoded_uri_component(text)
}

/// `str::trim`: the text without leading and trailing white space, which is
/// every character with the Unicode property `White_Space`.
#[verifier::external_body]
pub(crate) fn trim(text: &str) -> (r: &str)
    ensures
        r@ == trimmed(text@),
{
    text.trim()
}

impl Json {
    /// Reads a JSON text.
    pub fn parse(text: &str) -> (r: Option<Json>)
        ensures
            match r {
                Some(value) => json_parse(text@) == Some(value@),
                None => json_parse(text@) is None,
            },
    {
        match parse_value(text) {
            Ok(value) => Some(value),
            Err(_) => None,
        }
    }

    /// Writes the compact JSON text of the document.
    pub fn to_text(&self) -> (r: String)
        ensures
            r@ == json_text(self@),
    {
        value_text(self)
    }
}

} // verus!
