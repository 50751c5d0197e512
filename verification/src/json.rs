//! The few `serde_json` operations the library calls. A parsed value is
//! carried as a [`JsonAt`]: the value together with the bytes it was
//! parsed from and the path of object members that leads to it, so that
//! what the accessors answer can be named as a function of those bytes.
use vstd::prelude::*;

use crate::text::opt_view;

verus! {

/// The JSON string literal `serde_json` writes for some text (quoted, with
/// escapes).
pub uninterp spec fn json_quoted(text: Seq<char>) -> Seq<char>;

/// Whether `serde_json::from_slice` parses the bytes as a JSON value.
pub uninterp spec fn json_bytes_parse(bytes: Seq<u8>) -> bool;

/// Whether `serde_json::Value::is_object` holds of the value reached by
/// following the member names `path` from the value parsed from `source`.
pub uninterp spec fn json_object_at(source: Seq<u8>, path: Seq<Seq<char>>) -> bool;

/// Whether `serde_json::Value::get(key)` finds a member of the value at
/// `path` in the value parsed from `source`.
pub uninterp spec fn json_member_at(source: Seq<u8>, path: Seq<Seq<char>>, key: Seq<char>) -> bool;

/// What `serde_json::Value::as_str` gives for the value at `path` in the
/// value parsed from `source`.
pub uninterp spec fn json_string_at(source: Seq<u8>, path: Seq<Seq<char>>) -> Option<Seq<char>>;

/// Whether `serde_json::Value::is_null` holds of the value at `path` in the
/// value parsed from `source`.
pub uninterp spec fn json_null_at(source: Seq<u8>, path: Seq<Seq<char>>) -> bool;

/// A JSON value read by the library: the value parsed from `source`, found
/// by following the member names `path`. Only this module builds one, from
/// a parse or a member lookup, so the two ghost fields always say where the
/// value came from.
pub struct JsonAt {
    value: serde_json::Value,
    source: Ghost<Seq<u8>>,
    path: Ghost<Seq<Seq<char>>>,
}

impl JsonAt {
    /// The bytes the value was parsed from.
    pub closed spec fn source(&self) -> Seq<u8> {
        self.source@
    }

    /// The member names leading from the parsed value to this one.
    pub closed spec fn path(&self) -> Seq<Seq<char>> {
        self.path@
    }

    /// The value itself, for deserializing.
    pub fn into_value(self) -> serde_json::Value {
        self.value
    }
}

/// Parses bytes with `serde_json::from_slice`.
///
/// Trusted: it succeeds exactly on the bytes the name says parse.
#[verifier::external_body]
fn parse_slice(bytes: &[u8]) -> (r: Result<serde_json::Value, serde_json::Error>)
    ensures
        r is Ok <==> json_bytes_parse(bytes@),
{
    serde_json::from_slice(bytes)
}

/// Parses bytes as a JSON value, keeping the parse error.
pub(crate) fn json_parse(bytes: &[u8]) -> (r: Result<JsonAt, serde_json::Error>)
    ensures
        r is Ok <==> json_bytes_parse(bytes@),
        r matches Ok(j) ==> j.source() == bytes@ && j.path() == Seq::<Seq<char>>::empty(),
{
    match parse_slice(bytes) {
        Ok(value) => Ok(JsonAt { value, source: Ghost(bytes@), path: Ghost(Seq::empty()) }),
        Err(e) => Err(e),
    }
}

/// Whether the value is an object, with `serde_json::Value::is_object`.
///
/// Trusted: the answer is the named one for where the value came from.
#[verifier::external_body]
pub(crate) fn json_is_object(j: &JsonAt) -> (r: bool)
    ensures
        r == json_object_at(j.source(), j.path()),
{
    j.value.is_object()
}

/// Whether the value is `null`, with `serde_json::Value::is_null`.
///
/// Trusted: the answer is the named one for where the value came from.
#[verifier::external_body]
pub(crate) fn json_is_null(j: &JsonAt) -> (r: bool)
    ensures
        r == json_null_at(j.source(), j.path()),
{
    j.value.is_null()
}

/// Member `key` of the value, with `serde_json::Value::get` (a copy of it).
///
/// Trusted: a member is found exactly when the name says so.
#[verifier::external_body]
fn member_of(j: &JsonAt, key: &str) -> (r: Option<serde_json::Value>)
    ensures
        r is Some <==> json_member_at(j.source(), j.path(), key@),
{
    j.value.get(key).cloned()
}

/// Member `key` of the value, when it has one.
pub(crate) fn json_get(j: &JsonAt, key: &str) -> (r: Option<JsonAt>)
    ensures
        r is Some <==> json_member_at(j.source(), j.path(), key@),
        r matches Some(m) ==> m.source() == j.source() && m.path() == j.path().push(key@),
{
    match member_of(j, key) {
        Some(value) => Some(JsonAt { value, source: Ghost(j.source@), path: Ghost(j.path@.push(key@)) }),
        None => None,
    }
}

/// The text of a JSON string, with `serde_json::Value::as_str`.
///
/// Trusted: the answer is the named one for where the value came from.
#[verifier::external_body]
pub(crate) fn json_as_string(j: &JsonAt) -> (r: Option<String>)
    ensures
        opt_view(r) == json_string_at(j.source(), j.path()),
{
    j.value.as_str().map(|s| s.to_string())
}

/// Writes text as a JSON string literal with `serde_json::to_string`.
///
/// Trusted: the result is the named literal of the text, and it is always
/// there: serializing a `str` writes into a `Vec`, which cannot fail.
#[verifier::external_body]
pub(crate) fn json_string_literal(text: &str) -> (r: Option<String>)
    ensures
        r is Some,
        r matches Some(s) ==> s@ == json_quoted(text@),
{
    serde_json::to_string(text).ok()
}

} // verus!
