//! JSON values, by way of `serde_json`.

use vstd::prelude::*;

verus! {

/// What a JSON value is: `null`, a string, or any other value, by its JSON text without
/// whitespace between its parts.
pub enum JsonValue {
    Null,
    Text(Seq<char>),
    Other(Seq<char>),
}

impl JsonValue {
    /// A string as the text it holds, any other value as its JSON text.
    pub open spec fn plain_text(self) -> Seq<char> {
        match self {
            JsonValue::Null => "null"@,
            JsonValue::Text(s) => s,
            JsonValue::Other(s) => s,
        }
    }

    /// The JSON text of the value, without whitespace between its parts.
    pub open spec fn json_text(self) -> Seq<char> {
        match self {
            JsonValue::Null => "null"@,
            JsonValue::Text(s) => seq!['"'] + escaped(s) + seq!['"'],
            JsonValue::Other(s) => s,
        }
    }
}

/// The digit in base sixteen with the value `d`, in lower case.
pub open spec fn hex_digit(d: u32) -> char {
    if d < 10 {
        ('0' as u32 + d) as char
    } else {
        ('a' as u32 + d - 10) as char
    }
}

/// A character of a JSON string: quotes, backslashes and control characters are escaped.
pub open spec fn escaped_char(c: char) -> Seq<char> {
    let u = c as u32;
    if c == '"' || c == '\\' {
        seq!['\\', c]
    } else if u == 0x08 {
        seq!['\\', 'b']
    } else if c == '\t' {
        seq!['\\', 't']
    } else if c == '\n' {
        seq!['\\', 'n']
    } else if u == 0x0C {
        seq!['\\', 'f']
    } else if c == '\r' {
        seq!['\\', 'r']
    } else if u < 0x20 {
        seq!['\\', 'u', '0', '0', hex_digit(u / 16), hex_digit(u % 16)]
    } else {
        seq![c]
    }
}

/// The characters of a JSON string, between its quotes.
pub open spec fn escaped(s: Seq<char>) -> Seq<char>
    decreases s.len(),
{
    if s.len() == 0 {
        Seq::empty()
    } else {
        escaped_char(s[0]) + escaped(s.drop_first())
    }
}

/// `serde_json::Value`, any JSON value.
#[verifier::external_type_specification]
#[verifier::external_body]
pub struct ExJsonValue(serde_json::Value);

/// `serde_json::Error`, why a value cannot be written.
#[verifier::external_type_specification]
#[verifier::external_body]
pub struct ExJsonError(serde_json::Error);

/// What a `serde_json::Value` holds.
pub uninterp spec fn json_content(value: serde_json::Value) -> JsonValue;

/// A JSON value with its strings told apart.
pub enum TextOrJson {
    Text(String),
    Json(serde_json::Value),
}

/// `serde_json::Value::String`: the value is a string with this text.
#[verifier::external_body]
pub(crate) fn json_string(s: String) -> (v: serde_json::Value)
    ensures
        json_content(v) == JsonValue::Text(s@),
{
    serde_json::Value::String(s)
}

/// The variant of a `serde_json::Value`: a string gives its text, and any other value is handed
/// back as it is.
#[verifier::external_body]
pub(crate) fn text_or_json(v: serde_json::Value) -> (r: TextOrJson)
    ensures
        match (r, json_content(v)) {
            (TextOrJson::Text(s), JsonValue::Text(t)) => s@ == t,
            (TextOrJson::Json(w), JsonValue::Null) => w == v,
            (TextOrJson::Json(w), JsonValue::Other(_)) => w == v,
            _ => false,
        },
{
    match v {
        serde_json::Value::String(s) => TextOrJson::Text(s),
        other => TextOrJson::Json(other),
    }
}

/// `to_string` of a `serde_json::Value` that is no string: the JSON text of the value, without
/// whitespace between its parts.
#[verifier::external_body]
pub(crate) fn json_to_text(v: &serde_json::Value) -> (s: String)
    requires
        !(json_content(*v) is Text),
    ensures
        s@ == json_content(*v).plain_text(),
{
    v.to_string()
}

/// `serde_json::to_string` of a `serde_json::Value`: the JSON text of the value, without whitespace
/// between its parts. A line feed in a string is written as an escape, so the text has none.
/// Writing never fails: the keys of an object are strings, a number that is not finite is written
/// as `null`, and the text goes to memory.
#[verifier::external_body]
pub(crate) fn json_to_line(v: &serde_json::Value) -> (r: Result<String, serde_json::Error>)
    ensures
        match r {
            Ok(s) => s@ == json_content(*v).json_text(),
            Err(_) => false,
        },
        r matches Ok(s) ==> forall|i: int| 0 <= i < s@.len() ==> #[trigger] s@[i] != '\n',
{
    serde_json::to_string(v)
}

/// `to_string` of a `serde_json::Error`: the wording of the error, of which nothing is said.
#[verifier::external_body]
pub(crate) fn json_error_text(e: &serde_json::Error) -> (s: String)
{
    e.to_string()
}

} // verus!
