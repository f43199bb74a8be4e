//! Reading the answer of the embedding helper process, and what is sent to it.

use vstd::prelude::*;

use crate::json::{json_of_bytes, json_string_field, parse_json_bytes, string_field};
use crate::text::{clip, clip_chars};

verus! {

/// The fields of the JSON object that the embedding helper prints, as `serde_json`
/// reads them from `stdout`: the text of `"error"` and of `"b64"` (each when present
/// and a string), or the message of the parse error.
pub open spec fn embedder_reply_fields(stdout: Seq<u8>) -> Result<
    (Option<Seq<char>>, Option<Seq<char>>),
    Seq<char>,
> {
    match json_of_bytes(stdout) {
        Ok(j) => Ok((json_string_field(j, "error"@), json_string_field(j, "b64"@))),
        Err(m) => Err(m),
    }
}

/// The bytes that the `base64` crate's `STANDARD` engine decodes from `text`, or
/// the message of its decode error.
pub uninterp spec fn base64_standard_decode(text: Seq<char>) -> Result<Seq<u8>, Seq<char>>;

pub open spec fn opt_view(o: Option<String>) -> Option<Seq<char>> {
    match o {
        Some(s) => Some(s@),
        None => None,
    }
}

/// The `"error"` and `"b64"` strings of the helper's JSON answer, or the parser's error.
fn parse_embedder_reply(stdout: &[u8]) -> (r: Result<(Option<String>, Option<String>), String>)
    ensures
        match r {
            Ok((e, b)) => embedder_reply_fields(stdout@) == Ok::<_, Seq<char>>((opt_view(e), opt_view(b))),
            Err(m) => embedder_reply_fields(stdout@) == Err::<(Option<Seq<char>>, Option<Seq<char>>), _>(m@),
        },
{
    match parse_json_bytes(stdout) {
        Ok(j) => Ok((string_field(&j, "error"), string_field(&j, "b64"))),
        Err(m) => Err(m),
    }
}

/// `base64::engine::general_purpose::STANDARD.decode(text)`, the error as its
/// message. The contract names the result.
#[verifier::external_body]
fn decode_base64_standard(text: &str) -> (r: Result<Vec<u8>, String>)
    ensures
        match r {
            Ok(b) => base64_standard_decode(text@) == Ok::<_, Seq<char>>(b@),
            Err(m) => base64_standard_decode(text@) == Err::<Seq<u8>, _>(m@),
        },
{
    match base64::Engine::decode(&base64::engine::general_purpose::STANDARD, text) {
        Ok(b) => Ok(b),
        Err(e) => Err(e.to_string()),
    }
}

/// What the helper's answer amounts to: the embedding bytes, or the error to report.
pub open spec fn embedding_outcome(fields: Result<(Option<Seq<char>>, Option<Seq<char>>), Seq<char>>) -> Result<Seq<u8>, Seq<char>> {
    match fields {
        Err(e) => Err("embedder JSON: "@ + e),
        Ok((Some(e), _)) => Err(e),
        Ok((None, None)) => Err("embedder 応答に b64 がありません"@),
        Ok((None, Some(b))) => match base64_standard_decode(b) {
            Ok(bytes) => Ok(bytes),
            Err(e) => Err("base64: "@ + e),
        },
    }
}

/// The embedding in the helper's answer: an `"error"` string is reported as it is,
/// a missing `"b64"` or bad JSON or base64 as an error.
pub fn embedding_from_reply(stdout: &[u8]) -> (r: Result<Vec<u8>, String>)
    ensures
        match r {
            Ok(b) => embedding_outcome(embedder_reply_fields(stdout@)) == Ok::<_, Seq<char>>(b@),
            Err(m) => embedding_outcome(embedder_reply_fields(stdout@)) == Err::<Seq<u8>, _>(m@),
        },
{
    match parse_embedder_reply(stdout) {
        Err(e) => {
            let mut m = String::from_str("embedder JSON: ");
            m.append(e.as_str());
            Err(m)
        },
        Ok((Some(e), _)) => Err(e),
        Ok((None, None)) => Err(String::from_str("embedder 応答に b64 がありません")),
        Ok((None, Some(b))) => match decode_base64_standard(b.as_str()) {
            Ok(bytes) => Ok(bytes),
            Err(e) => {
                let mut m = String::from_str("base64: ");
                m.append(e.as_str());
                Err(m)
            },
        },
    }
}

/// Longest page text sent for embedding, in characters.
pub const EMBED_MAX_CHARS: usize = 16_000;

/// The part of a page that is embedded: its first 16000 characters.
pub fn embedding_input(latex: &str) -> (r: String)
    ensures
        r@ == clip(latex@, 16000),
{
    clip_chars(latex, EMBED_MAX_CHARS)
}

} // verus!
