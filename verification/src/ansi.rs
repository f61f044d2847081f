//! Stripping ANSI escape sequences from text, modelled as a pure function
//! over characters: a control sequence or operating-system command runs
//! from ESC `[` or ESC `]` to its terminating letter or bell, any other
//! escape covers exactly one following character, and a lone trailing ESC
//! stays.

use vstd::prelude::*;
use vstd::utf8::encode_utf8;

use crate::outside::bytes_to_string_lossy;
use crate::outside::lossy_of;
use crate::strutil::chars_of;
use crate::strutil::string_from_chars;

verus! {

/// The escape character.
pub open spec fn esc() -> char {
    '\u{1b}'
}

/// A character that terminates a bracketed escape sequence.
pub open spec fn is_term_char(c: char) -> bool {
    ('a' <= c <= 'z') || ('A' <= c <= 'Z') || c == '\u{7}'
}

/// The text from position `i` on, with escape sequences removed.
pub open spec fn strip_from(s: Seq<char>, i: int) -> Seq<char>
    decreases s.len() - i, 1int,
{
    if i >= s.len() {
        Seq::empty()
    } else if s[i] != esc() {
        seq![s[i]] + strip_from(s, i + 1)
    } else if i + 1 >= s.len() {
        seq![s[i]]
    } else if s[i + 1] == '[' || s[i + 1] == ']' {
        strip_in_seq(s, i + 2)
    } else {
        strip_from(s, i + 2)
    }
}

/// Inside a bracketed sequence: skip to the terminator, then continue;
/// an unterminated sequence swallows the rest.
pub open spec fn strip_in_seq(s: Seq<char>, j: int) -> Seq<char>
    decreases s.len() - j, 0int,
{
    if j >= s.len() {
        Seq::empty()
    } else if is_term_char(s[j]) {
        strip_from(s, j + 1)
    } else {
        strip_in_seq(s, j + 1)
    }
}

/// What stripping a whole text yields.
pub open spec fn spec_ansi_strip(s: Seq<char>) -> Seq<char> {
    strip_from(s, 0)
}

fn is_term(c: char) -> (r: bool)
    ensures
        r == is_term_char(c),
{
    ('a' <= c && c <= 'z') || ('A' <= c && c <= 'Z') || c == '\u{7}'
}

/// Strip ANSI escape sequences from a string.
#[verifier::loop_isolation(false)]
pub fn strip_str(input: &str) -> (r: String)
    ensures
        r@ == spec_ansi_strip(input@),
{
    let chars = chars_of(input);
    let len = chars.len();
    let mut out: Vec<char> = Vec::new();
    let mut i: usize = 0;
    proof {
        assert(out@ + strip_from(input@, 0) =~= strip_from(input@, 0));
    }
    while i < len
        invariant
            i <= len,
            out@ + strip_from(input@, i as int) == strip_from(input@, 0),
        decreases len - i,
    {
        let c = chars[i];
        if c != '\u{1b}' {
            out.push(c);
            proof {
                assert(out@ + strip_from(input@, i + 1) =~= strip_from(input@, 0));
            }
            i += 1;
        } else if i + 1 >= len {
            out.push(c);
            proof {
                assert(strip_from(input@, i as int) =~= seq![input@[i as int]]);
                assert(out@ + Seq::<char>::empty() =~= out@);
                assert(out@ + strip_from(input@, len as int) =~= strip_from(input@, 0));
            }
            i = len;
        } else if chars[i + 1] == '[' || chars[i + 1] == ']' {
            let mut j = i + 2;
            proof {
                assert(strip_from(input@, i as int) == strip_in_seq(input@, i + 2));
            }
            while j < len && !is_term(chars[j])
                invariant
                    i + 2 <= j <= len,
                    strip_in_seq(input@, j as int) == strip_in_seq(input@, i + 2),
                decreases len - j,
            {
                j += 1;
            }
            if j < len {
                proof {
                    assert(strip_in_seq(input@, j as int) == strip_from(input@, j + 1));
                }
                i = j + 1;
            } else {
                proof {
                    assert(strip_in_seq(input@, j as int) =~= Seq::<char>::empty());
                    assert(out@ + Seq::<char>::empty() =~= out@);
                }
                i = len;
            }
            proof {
                assert(out@ + strip_from(input@, i as int) =~= strip_from(input@, 0));
            }
        } else {
            proof {
                assert(strip_from(input@, i as int) == strip_from(input@, i + 2));
            }
            i += 2;
        }
    }
    proof {
        assert(strip_from(input@, len as int) =~= Seq::<char>::empty());
        assert(out@ =~= strip_from(input@, 0));
    }
    string_from_chars(&out)
}

/// Strip bytes of ANSI escape codes: decode leniently, strip, re-encode.
pub fn strip(input: Vec<u8>) -> (r: Vec<u8>)
    ensures
        r@ == encode_utf8(spec_ansi_strip(lossy_of(input@))),
{
    let text = bytes_to_string_lossy(&input);
    let stripped = strip_str(text.as_str());
    vstd::string::StrSliceExecFns::as_bytes_vec(stripped.as_str())
}

} // verus!
