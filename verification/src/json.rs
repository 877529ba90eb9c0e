//! JSON documents, as parsed by `serde_json`.
//!
//! Parsing is left to `serde_json`. The parsed document is copied, node for
//! node, into [`JsonValue`], which the verified code reads. What the parser
//! makes of a given text is not described here: it has a name,
//! [`json_document`], and the contracts that depend on it speak of that name.
//! Where the parser reports an error, the name gives the error's message.

use vstd::prelude::*;

verus! {

/// A JSON value. Numbers are kept as the text that `serde_json` prints for
/// them; the fields of an object are kept in the order in which
/// `serde_json` holds them, which is the order of the document.
#[derive(Debug)]
pub enum JsonValue {
    Null,
    Bool(bool),
    Number(String),
    Text(String),
    Array(Vec<JsonValue>),
    Object(Vec<(String, JsonValue)>),
}

/// The document type of `serde_json`.
#[verifier::external_type_specification]
#[verifier::external_body]
pub struct ExSerdeValue(serde_json::Value);

/// The error type of `serde_json`.
#[verifier::external_type_specification]
#[verifier::external_body]
pub struct ExSerdeError(serde_json::Error);

/// What `serde_json::from_str` makes of a text: the document, or, where it
/// reports an error, the message of that error.
pub uninterp spec fn json_document(text: Seq<char>) -> Result<JsonValue, Seq<char>>;

/// The content of a `serde_json::Value`, node for node.
pub uninterp spec fn json_tree(value: serde_json::Value) -> JsonValue;

/// The message of a `serde_json::Error`: what its `Display` prints.
pub uninterp spec fn json_error_text(error: serde_json::Error) -> Seq<char>;

/// Calls `serde_json::from_str` for a `serde_json::Value`. The contract only
/// names the outcome: a document whose content is `json_document` of the
/// text, or an error whose message is `json_document` of the text.
#[verifier::external_body]
fn parse_value(text: &str) -> (r: Result<serde_json::Value, serde_json::Error>)
    ensures
        match r {
            Ok(value) => json_document(text@) == Ok::<JsonValue, Seq<char>>(json_tree(value)),
            Err(error) => json_document(text@) == Err::<JsonValue, Seq<char>>(json_error_text(error)),
        },
{
    serde_json::from_str::<serde_json::Value>(text)
}

/// Copies a `serde_json::Value` into a [`JsonValue`]: one variant for each
/// of its variants, a number as `serde_json::Number` prints it, the entries
/// of an object in the order in which `serde_json::Map` yields them. The
/// contract names the copy as the content of the value.
#[verifier::external_body]
fn export_value(value: &serde_json::Value) -> (r: JsonValue)
    ensures
        r == json_tree(*value),
{
    match value {
        serde_json::Value::Null => JsonValue::Null,
        serde_json::Value::Bool(b) => JsonValue::Bool(*b),
        serde_json::Value::Number(n) => JsonValue::Number(n.to_string()),
        serde_json::Value::String(s) => JsonValue::Text(s.clone()),
        serde_json::Value::Array(items) => JsonValue::Array(items.iter().map(export_value).collect()),
        serde_json::Value::Object(map) => JsonValue::Object(
            map.iter().map(|(k, v)| (k.clone(), export_value(v))).collect(),
        ),
    }
}

/// The message of a `serde_json::Error`, as its `Display` prints it through
/// `to_string`. The contract only names the text.
#[verifier::external_body]
fn error_text(error: &serde_json::Error) -> (r: String)
    ensures
        r@ == json_error_text(*error),
{
    error.to_string()
}

/// Parses a JSON text. The result is the document that `json_document`
/// names for the text; where there is none, it is the parser's message,
/// which `json_document` names too.
pub fn parse_document(text: &str) -> (r: Result<JsonValue, String>)
    ensures
        match r {
            Ok(document) => json_document(text@) == Ok::<JsonValue, Seq<char>>(document),
            Err(message) => json_document(text@) == Err::<JsonValue, Seq<char>>(message@),
        },
{
    match parse_value(text) {
        Ok(value) => Ok(export_value(&value)),
        Err(error) => Err(error_text(&error)),
    }
}

impl JsonValue {
    /// Whether the value is a string, a number or a boolean.
    pub open spec fn is_scalar(self) -> bool {
        self is Text || self is Number || self is Bool
    }

    /// The text of a scalar: a string's content, a number as printed,
    /// `true` or `false`.
    pub open spec fn scalar_text(self) -> Seq<char> {
        match self {
            JsonValue::Text(s) => s@,
            JsonValue::Number(s) => s@,
            JsonValue::Bool(b) => if b {
                seq!['t', 'r', 'u', 'e']
            } else {
                seq!['f', 'a', 'l', 's', 'e']
            },
            _ => Seq::empty(),
        }
    }

    pub fn has_scalar(&self) -> (r: bool)
        ensures
            r == self.is_scalar(),
    {
        match self {
            JsonValue::Text(_) => true,
            JsonValue::Number(_) => true,
            JsonValue::Bool(_) => true,
            _ => false,
        }
    }

    /// The text of a scalar value; the empty text for any other value.
    pub fn scalar_string(&self) -> (r: String)
        ensures
            r@ == self.scalar_text(),
    {
        match self {
            JsonValue::Text(s) => s.clone(),
            JsonValue::Number(s) => s.clone(),
            JsonValue::Bool(b) => {
                let mut out = String::new();
                if *b {
                    out.push('t');
                    out.push('r');
                    out.push('u');
                    out.push('e');
                } else {
                    out.push('f');
                    out.push('a');
                    out.push('l');
                    out.push('s');
                    out.push('e');
                }
                assert(out@ =~= self.scalar_text());
                out
            },
            _ => String::new(),
        }
    }
}

} // verus!
