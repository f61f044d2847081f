//! Calls into outside crates and into parts of std that vstd gives no
//! specification. Each item here is trusted: Verus believes its contract
//! without reading its body.

use vstd::prelude::*;
use vstd::utf8::valid_utf8;
use vstd::utf8::encode_utf8;

verus! {

/// What stripping ANSI escape sequences from a byte stream leaves. The
/// result depends on the bytes alone.
pub uninterp spec fn ansi_stripped(b: Seq<u8>) -> Seq<u8>;

/// Relies on strip_ansi_escapes::strip: filters the bytes through a terminal
/// escape-sequence parser, keeping only printable output; the result is a
/// function of the input bytes alone.
#[verifier::external_body]
pub fn strip_escapes(b: &Vec<u8>) -> (r: Vec<u8>)
    ensures
        r@ == ansi_stripped(b@),
{
    strip_ansi_escapes::strip(b)
}

/// Relies on std's str::from_utf8: returns Ok exactly when the bytes are
/// valid UTF-8 (vstd's `valid_utf8`).
#[verifier::external_body]
pub fn bytes_are_utf8(b: &Vec<u8>) -> (r: bool)
    ensures
        r == valid_utf8(b@),
{
    core::str::from_utf8(b.as_slice()).is_ok()
}

/// What lossy UTF-8 decoding yields: a function of the bytes alone.
pub uninterp spec fn lossy_of(b: Seq<u8>) -> Seq<char>;

/// Relies on std's String::from_utf8_lossy: decodes the bytes, replacing
/// invalid sequences with the replacement character; on valid UTF-8 it
/// returns the decoded string unchanged.
#[verifier::external_body]
pub fn bytes_to_string_lossy(b: &Vec<u8>) -> (r: String)
    ensures
        r@ == lossy_of(b@),
        valid_utf8(b@) ==> encode_utf8(r@) == b@,
{
    String::from_utf8_lossy(b.as_slice()).to_string()
}

/// What evaluating a string as an arithmetic expression yields: `None` when
/// the string is no such expression, otherwise the printed value. The
/// result is a function of the string alone.
pub uninterp spec fn math_eval(s: Seq<char>) -> Option<Seq<char>>;

/// Relies on meval::eval_str: parses and evaluates an arithmetic expression;
/// the result depends on the string alone.
#[verifier::external_body]
pub fn eval_math(s: &str) -> (r: Option<String>)
    ensures
        r is Some <==> math_eval(s@) is Some,
        r matches Some(v) ==> (math_eval(s@) matches Some(m) && v@ == m),
{
    match meval::eval_str(s) {
        Ok(value) => Some(format!("{}", value)),
        Err(_) => None,
    }
}

/// What Unicode lowercasing yields: a function of the characters alone.
pub uninterp spec fn lower_of(s: Seq<char>) -> Seq<char>;

/// Relies on std's str::to_lowercase: the result depends on the characters
/// alone; an empty string stays empty.
#[verifier::external_body]
pub fn lower_str(s: &str) -> (r: String)
    ensures
        r@ == lower_of(s@),
        s@.len() == 0 ==> r@.len() == 0,
{
    s.to_lowercase()
}

} // verus!
