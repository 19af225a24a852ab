//! Decoding a response body into the rows of a payload.

use crate::parser::rows_text;
use vstd::prelude::*;

verus! {

/// The error with which `serde_json` rejects a text.
#[verifier::external_type_specification]
#[verifier::external_body]
pub struct ExJsonError(serde_json::Error);

/// The rows that a response body decodes to: `Some` where the body is a JSON
/// array of arrays, with every value of a row given as its compact JSON text
/// (a string between its quotes, a number bare), and `None` for every other
/// body.
pub uninterp spec fn decoded_rows(body: Seq<char>) -> Option<Seq<Seq<Seq<char>>>>;

/// Decodes a body with `serde_json::from_str` as a list of lists of JSON
/// values, and renders each value with `serde_json::Value`'s `Display`, which
/// writes compact JSON. Both depend on the text alone, so the result is the
/// named value [`decoded_rows`] of the body; the error is the decoder's own.
#[verifier::external_body]
pub(crate) fn decode_rows(body: &str) -> (r: Result<Vec<Vec<String>>, serde_json::Error>)
    ensures
        r matches Ok(rows) ==> decoded_rows(body@) == Some(rows_text(rows@)),
        r is Err ==> decoded_rows(body@) is None,
{
    let rows: Vec<Vec<serde_json::Value>> = serde_json::from_str(body)?;
    Ok(rows.into_iter().map(|row| row.into_iter().map(|v| v.to_string()).collect()).collect())
}

/// The decoder's description of its error, from `serde_json::Error`'s
/// `Display`. Nothing is claimed of the text.
#[verifier::external_body]
pub(crate) fn decode_error_text(error: &serde_json::Error) -> String {
    error.to_string()
}

} // verus!
