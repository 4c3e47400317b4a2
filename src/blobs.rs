use vstd::prelude::*;

use crate::text::opt_view;

verus! {

/// The string stored under `key` at the top level of the JSON document `doc`, if
/// `doc` parses as JSON and the value there is a string.
pub uninterp spec fn json_string_field(doc: Seq<u8>, key: Seq<char>) -> Option<Seq<char>>;

/// Relies on `serde_json::from_slice` to parse the document and on `Value::get` to
/// look the key up; a value that is not `Value::String` counts as absent.
#[verifier::external_body]
fn string_field(doc: &[u8], key: &str) -> (r: Option<String>)
    ensures
        opt_view(r) == json_string_field(doc@, key@),
{
    let v: serde_json::Value = serde_json::from_slice(doc).ok()?;
    match v.get(key) {
        Some(serde_json::Value::String(s)) => Some(s.clone()),
        _ => None,
    }
}

/// Why a blob does not yield the field asked for.
#[derive(Clone, Copy, Debug, PartialEq, Eq, Structural)]
pub enum BlobError {
    /// The blob is not JSON, or the field is absent or not a string.
    MissingField,
}

/// The `title` string of a JSON blob.
pub fn extract_title(raw: &[u8]) -> (r: Result<String, BlobError>)
    ensures
        match r {
            Ok(t) => json_string_field(raw@, "title"@) == Some(t@),
            Err(e) => json_string_field(raw@, "title"@) is None && e == BlobError::MissingField,
        },
{
    match string_field(raw, "title") {
        Some(t) => Ok(t),
        None => Err(BlobError::MissingField),
    }
}

/// The `owner_id` string of a JSON blob.
pub fn extract_owner_id(raw: &[u8]) -> (r: Result<String, BlobError>)
    ensures
        match r {
            Ok(t) => json_string_field(raw@, "owner_id"@) == Some(t@),
            Err(e) => json_string_field(raw@, "owner_id"@) is None && e == BlobError::MissingField,
        },
{
    match string_field(raw, "owner_id") {
        Some(t) => Ok(t),
        None => Err(BlobError::MissingField),
    }
}

} // verus!
