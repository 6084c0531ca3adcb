//! JSON values, held as their compact text.
//!
//! What a text means as JSON is `serde_json`'s to say.

use serde_json::Value;

use crate::text::join;
use vstd::prelude::*;

verus! {

/// A JSON value: the text that `serde_json` writes for it.
#[derive(Debug, PartialEq, Eq)]
pub struct Json {
    pub text: String,
}

/// The compact text of the JSON document that `text` is; `None` where it is none.
pub uninterp spec fn json_document(text: Seq<char>) -> Option<Seq<char>>;

/// The characters of the JSON string that `text` is; `None` for anything else.
pub uninterp spec fn json_string(text: Seq<char>) -> Option<Seq<char>>;

/// The compact texts of the elements of the JSON array that `text` is; `None`
/// for anything else.
pub uninterp spec fn json_elements(text: Seq<char>) -> Option<Seq<Seq<char>>>;

/// The compact text of what an RFC 6901 pointer addresses in a JSON document.
pub uninterp spec fn json_at(text: Seq<char>, pointer: Seq<char>) -> Option<Seq<char>>;

/// Whether two texts are equal as JSON values.
pub uninterp spec fn json_equal(a: Seq<char>, b: Seq<char>) -> bool;

/// The compact text of a string as a JSON value.
pub uninterp spec fn json_quoted(s: Seq<char>) -> Seq<char>;

/// `serde_json::from_str` into a `Value`, written back by `Value`'s `Display`.
/// Claimed: the result is a function of the text.
#[verifier::external_body]
pub(crate) fn parse_document(text: &str) -> (r: Option<String>)
    ensures
        match r {
            Some(s) => json_document(text@) == Some(s@),
            None => json_document(text@) is None,
        },
{
    serde_json::from_str::<Value>(text).ok().map(|v| v.to_string())
}

/// `serde_json::from_str` into a `Value`, taken as a string. Claimed: the
/// result is a function of the text.
#[verifier::external_body]
pub(crate) fn parse_string(text: &str) -> (r: Option<String>)
    ensures
        match r {
            Some(s) => json_string(text@) == Some(s@),
            None => json_string(text@) is None,
        },
{
    match serde_json::from_str::<Value>(text).ok()? {
        Value::String(s) => Some(s),
        _ => None,
    }
}

/// `serde_json::from_str` into a `Vec<Value>`, each element written back by
/// `Value`'s `Display`. Claimed: the result is a function of the text.
#[verifier::external_body]
pub(crate) fn parse_elements(text: &str) -> (r: Option<Vec<String>>)
    ensures
        match r {
            Some(v) => json_elements(text@) == Some(crate::text::texts(v@)),
            None => json_elements(text@) is None,
        },
{
    let items = serde_json::from_str::<Vec<Value>>(text).ok()?;
    Some(items.iter().map(|v| v.to_string()).collect())
}

/// `serde_json::from_str` into a `Value` and `Value::pointer`. Claimed: the
/// result is a function of the text and the pointer.
#[verifier::external_body]
pub(crate) fn resolve_pointer(text: &str, pointer: &str) -> (r: Option<String>)
    ensures
        match r {
            Some(s) => json_at(text@, pointer@) == Some(s@),
            None => json_at(text@, pointer@) is None,
        },
{
    let document = serde_json::from_str::<Value>(text).ok()?;
    document.pointer(pointer).map(|v| v.to_string())
}

/// Equality of `serde_json::Value`s read by `serde_json::from_str`. Claimed:
/// the result is a function of the two texts.
#[verifier::external_body]
pub(crate) fn equal_values(a: &str, b: &str) -> (r: bool)
    ensures
        r == json_equal(a@, b@),
{
    serde_json::from_str::<Value>(a).ok() == serde_json::from_str::<Value>(b).ok()
}

/// `serde_json::Value::String` written by `Value`'s `Display`. Claimed: the
/// result is a function of the string, and reads back as the string.
#[verifier::external_body]
pub(crate) fn quote(s: &str) -> (r: String)
    ensures
        r@ == json_quoted(s@),
        json_string(r@) == Some(s@),
{
    Value::String(s.to_string()).to_string()
}

impl Json {
    /// A string as a JSON value. People read it as the string.
    pub fn of_string(s: &str) -> (r: Json)
        ensures
            r.text@ == json_quoted(s@),
            Json::plain_spec(r.text@) == s@,
    {
        Json { text: quote(s) }
    }

    /// A JSON document; `None` where the text is none.
    pub fn parse(text: &str) -> (r: Option<Json>)
        ensures
            match json_document(text@) {
                Some(t) => r matches Some(j) && j.text@ == t,
                None => r is None,
            },
    {
        match parse_document(text) {
            Some(text) => Some(Json { text }),
            None => None,
        }
    }

    /// A value as people read it: a string without its quotes, anything else as
    /// compact JSON.
    pub open spec fn plain_spec(text: Seq<char>) -> Seq<char> {
        match json_string(text) {
            Some(s) => s,
            None => text,
        }
    }

    /// A value as people read it: a string without its quotes, anything else as
    /// compact JSON.
    pub fn plain(&self) -> (r: String)
        ensures
            r@ == Json::plain_spec(self.text@),
    {
        match parse_string(self.text.as_str()) {
            Some(s) => s,
            None => self.text.clone(),
        }
    }

    /// Whether two values are equal.
    pub fn equals(&self, other: &Json) -> (r: bool)
        ensures
            r == json_equal(self.text@, other.text@),
    {
        equal_values(self.text.as_str(), other.text.as_str())
    }
}

impl Clone for Json {
    fn clone(&self) -> (r: Self)
        ensures
            r == *self,
    {
        Json { text: self.text.clone() }
    }
}

/// Texts in brackets, with a separator between.
pub open spec fn bracketed(items: Seq<Seq<char>>, separator: Seq<char>) -> Seq<char> {
    seq!['['] + crate::text::joined(items, separator) + seq![']']
}

/// Puts texts in brackets, with a separator between.
pub fn in_brackets(items: &Vec<String>, separator: &str) -> (r: String)
    ensures
        r@ == bracketed(crate::text::texts(items@), separator@),
{
    let mut out = String::new();
    out.push('[');
    assert(out@ =~= seq!['[']);
    let inner = join(items, separator);
    out.append(inner.as_str());
    out.push(']');
    assert(out@ =~= bracketed(crate::text::texts(items@), separator@));
    out
}

} // verus!
