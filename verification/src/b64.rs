//! Base64 transport encoding of inner protocol records, through the
//! `base64` crate's standard-alphabet engine.

use base64::Engine;
use vstd::prelude::*;

verus! {

/// The base64 text of a string's bytes. The engine is deterministic, so the
/// result is a function of the input alone; its exact text is not modelled.
pub uninterp spec fn b64_of(s: Seq<char>) -> Seq<char>;

pub open spec fn is_b64_char(c: char) -> bool {
    ('A' <= c && c <= 'Z') || ('a' <= c && c <= 'z') || ('0' <= c && c <= '9') || c == '+' || c
        == '/' || c == '='
}

pub open spec fn is_b64_text(s: Seq<char>) -> bool {
    forall|i: int| 0 <= i < s.len() ==> is_b64_char(#[trigger] s[i])
}

/// Relies on base64's `Engine::encode` with the standard engine: the output
/// is a function of the input bytes alone, uses only the standard alphabet
/// plus `=` padding, and an empty input gives an empty output.
#[verifier::external_body]
pub fn b64_encode(s: &str) -> (r: String)
    ensures
        r@ == b64_of(s@),
        is_b64_text(r@),
        s@.len() == 0 ==> r@.len() == 0,
{
    base64::engine::general_purpose::STANDARD.encode(s.as_bytes())
}

/// Relies on base64's `Engine::decode` with the standard engine being the
/// inverse of `Engine::encode` (and on UTF-8 round-tripping through bytes):
/// whenever the input is the encoding of some string, decoding returns
/// exactly that string.
#[verifier::external_body]
pub fn b64_decode(s: &str) -> (r: Option<String>)
    ensures
        match r {
            Some(t) => forall|j: Seq<char>| s@ == #[trigger] b64_of(j) ==> t@ == j,
            None => forall|j: Seq<char>| s@ != #[trigger] b64_of(j),
        },
{
    match base64::engine::general_purpose::STANDARD.decode(s.as_bytes()) {
        Ok(bytes) => match String::from_utf8(bytes) {
            Ok(t) => Some(t),
            Err(_) => None,
        },
        Err(_) => None,
    }
}

} // verus!
