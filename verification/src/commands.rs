//! Built-in commands: the result type they report, their registry order,
//! and the built-ins whose work is pure computation over byte buffers.

use vstd::prelude::*;
use vstd::string::StringExecFns;

verus! {

/// Result from a built-in command.
///
/// Reports actions for the shell to take, such as updating the theme or
/// exiting.
#[derive(Debug)]
pub enum CommandResult {
    /// Default state: the command executed and nothing more needs doing.
    Lovely,
    /// The command was `exit`: the shell should close.
    Exit,
    /// The command requests a theme change to the carried index.
    UpdateTheme(usize),
    /// The keyword is no built-in command.
    NotACommand,
}


/// The built-in names, in registry order (the order also used for keyword
/// autocompletion).
pub open spec fn spec_builtin_names() -> Seq<Seq<char>> {
    seq![
        "ls"@,
        "cd"@,
        "pwd"@,
        "echo"@,
        "column"@,
        "cls"@,
        "cat"@,
        "cp"@,
        "mv"@,
        "rm"@,
        "help"@,
        "mkdir"@,
        "theme"@,
        "copy"@,
        "exit"@,
    ]
}

/// The built-in names, in registry order.
pub fn builtin_names() -> (r: Vec<String>)
    ensures
        crate::pipeline::strs(r@) == spec_builtin_names(),
{
    let mut r: Vec<String> = Vec::new();
    push_name(&mut r, "ls");
    push_name(&mut r, "cd");
    push_name(&mut r, "pwd");
    push_name(&mut r, "echo");
    push_name(&mut r, "column");
    push_name(&mut r, "cls");
    push_name(&mut r, "cat");
    push_name(&mut r, "cp");
    push_name(&mut r, "mv");
    push_name(&mut r, "rm");
    push_name(&mut r, "help");
    push_name(&mut r, "mkdir");
    push_name(&mut r, "theme");
    push_name(&mut r, "copy");
    push_name(&mut r, "exit");
    proof {
        assert(crate::pipeline::strs(r@) =~= spec_builtin_names());
    }
    r
}

fn push_name(v: &mut Vec<String>, name: &str)
    ensures
        final(v)@.len() == old(v)@.len() + 1,
        crate::pipeline::strs(final(v)@) == crate::pipeline::strs(old(v)@).push(name@),
{
    let mut s = String::new();
    s.append(name);
    v.push(s);
    proof {
        assert(crate::pipeline::strs(v@) =~= crate::pipeline::strs(old(v)@).push(name@));
    }
}

/// The echo hex-decoding state: output so far, whether the last byte was a
/// backslash, and the hex digits being collected after a `\x`.
#[verifier::ext_equal]
pub ghost struct EchoState {
    pub out: Seq<u8>,
    pub lwb: bool,
    pub hex: Option<Seq<u8>>,
}

/// A hexadecimal digit byte.
pub open spec fn is_hex_digit(b: u8) -> bool {
    (0x30 <= b <= 0x39) || (0x61 <= b <= 0x66) || (0x41 <= b <= 0x46)
}

/// The value of a hexadecimal digit byte.
pub open spec fn hex_val(b: u8) -> u8 {
    if 0x30 <= b <= 0x39 {
        (b - 0x30) as u8
    } else if 0x61 <= b <= 0x66 {
        (b - 0x61 + 10) as u8
    } else if 0x41 <= b <= 0x46 {
        (b - 0x41 + 10) as u8
    } else {
        0
    }
}

/// One step of echo's `\xNN` decoding over a byte.
pub open spec fn echo_step(st: EchoState, c: u8) -> EchoState {
    if c == 0x5c {
        EchoState { out: st.out.push(c), lwb: true, hex: st.hex }
    } else if c == 0x78 && st.lwb {
        EchoState { out: st.out.push(c), lwb: st.lwb, hex: Some(Seq::empty()) }
    } else if st.hex is Some {
        let v = st.hex->0;
        if c >= 0x80 {
            EchoState { out: st.out, lwb: st.lwb, hex: None }
        } else {
            let v2 = v.push(c);
            if v2.len() >= 2 {
                if is_hex_digit(v2[0]) && is_hex_digit(v2[1]) && st.out.len() >= 2 {
                    EchoState {
                        out: st.out.drop_last().drop_last().push(
                            (hex_val(v2[0]) * 16 + hex_val(v2[1])) as u8,
                        ),
                        lwb: st.lwb,
                        hex: None,
                    }
                } else {
                    EchoState { out: st.out + v2, lwb: st.lwb, hex: None }
                }
            } else {
                EchoState { out: st.out, lwb: st.lwb, hex: Some(v2) }
            }
        }
    } else {
        EchoState { out: st.out.push(c), lwb: false, hex: st.hex }
    }
}

/// Echo's `\xNN` decoding over a whole argument.
pub open spec fn spec_echo_fold(bytes: Seq<u8>, st: EchoState) -> EchoState
    decreases bytes.len(),
{
    if bytes.len() == 0 {
        st
    } else {
        spec_echo_fold(bytes.skip(1), echo_step(st, bytes[0]))
    }
}

/// What echoing one argument emits.
pub open spec fn spec_echo_arg(bytes: Seq<u8>) -> Seq<u8> {
    spec_echo_fold(bytes, EchoState { out: Seq::empty(), lwb: false, hex: None }).out
}

/// Decode the `\xNN` escapes of one argument's bytes.
pub fn echo_decode_arg(bytes: &Vec<u8>) -> (r: Vec<u8>)
    ensures
        r@ == spec_echo_arg(bytes@),
{
    let mut out: Vec<u8> = Vec::new();
    let mut lwb: bool = false;
    let mut hex: Option<Vec<u8>> = None;
    let ghost init = EchoState { out: Seq::empty(), lwb: false, hex: None };
    let mut i: usize = 0;
    proof {
        assert(bytes@.skip(0) =~= bytes@);
        assert(out@ =~= init.out);
    }
    while i < bytes.len()
        invariant
            i <= bytes@.len(),
            spec_echo_fold(
                bytes@.skip(i as int),
                EchoState {
                    out: out@,
                    lwb: lwb,
                    hex: match &hex {
                        Some(v) => Some(v@),
                        None => None,
                    },
                },
            ) == spec_echo_fold(bytes@, init),
        decreases bytes@.len() - i,
    {
        let ghost pre = EchoState {
            out: out@,
            lwb: lwb,
            hex: match &hex {
                Some(v) => Some(v@),
                None => None,
            },
        };
        let ghost rest = bytes@.skip(i as int);
        proof {
            assert(rest[0] == bytes@[i as int]);
            assert(rest.skip(1) =~= bytes@.skip(i + 1));
        }
        let c = bytes[i];
        if c == 0x5c {
            out.push(c);
            lwb = true;
        } else if c == 0x78 && lwb {
            out.push(c);
            hex = Some(Vec::new());
        } else {
            let hex_taken = match &hex {
                Some(v) => Some(crate::strutil::clone_bytes(v)),
                None => None,
            };
            match hex_taken {
                Some(v) => {
                    if c >= 0x80 {
                        hex = None;
                    } else {
                        let mut v2 = v;
                        v2.push(c);
                        if v2.len() >= 2 {
                            let d0 = v2[0];
                            let d1 = v2[1];
                            let hex_ok = ((0x30 <= d0 && d0 <= 0x39) || (0x61 <= d0 && d0 <= 0x66)
                                || (0x41 <= d0 && d0 <= 0x46)) && ((0x30 <= d1 && d1 <= 0x39) || (
                            0x61 <= d1 && d1 <= 0x66) || (0x41 <= d1 && d1 <= 0x46));
                            if hex_ok && out.len() >= 2 {
                                let h0 = if d0 <= 0x39 {
                                    d0 - 0x30
                                } else if d0 >= 0x61 {
                                    d0 - 0x61 + 10
                                } else {
                                    d0 - 0x41 + 10
                                };
                                let h1 = if d1 <= 0x39 {
                                    d1 - 0x30
                                } else if d1 >= 0x61 {
                                    d1 - 0x61 + 10
                                } else {
                                    d1 - 0x41 + 10
                                };
                                out.pop();
                                out.pop();
                                out.push(h0 * 16 + h1);
                                hex = None;
                                proof {
                                    let ghost v2g = pre.hex->0.push(rest[0]);
                                    assert(out@ =~= pre.out.drop_last().drop_last().push(
                                        (hex_val(v2g[0]) * 16 + hex_val(v2g[1])) as u8,
                                    ));
                                }
                            } else {
                                let mut j: usize = 0;
                                let ghost pre_out = out@;
                                while j < v2.len()
                                    invariant
                                        j <= v2@.len(),
                                        out@ == pre_out + v2@.subrange(0, j as int),
                                    decreases v2@.len() - j,
                                {
                                    out.push(v2[j]);
                                    proof {
                                        assert(out@ =~= pre_out + v2@.subrange(0, j + 1 as int));
                                    }
                                    j += 1;
                                }
                                proof {
                                    assert(v2@.subrange(0, v2@.len() as int) =~= v2@);
                                }
                                hex = None;
                            }
                        } else {
                            hex = Some(v2);
                        }
                    }
                },
                None => {
                    out.push(c);
                    lwb = false;
                },
            }
        }
        proof {
            assert(EchoState {
                out: out@,
                lwb: lwb,
                hex: match &hex {
                    Some(v) => Some(v@),
                    None => None,
                },
            } =~~= echo_step(pre, rest[0]));
        }
        i += 1;
    }
    proof {
        assert(bytes@.skip(bytes@.len() as int) =~= Seq::<u8>::empty());
    }
    out
}

/// An argument that suppresses echo's trailing newline.
pub open spec fn is_no_newline_flag(a: Seq<char>) -> bool {
    a == "-n"@ || a == "--no-newline"@
}

/// What echo emits: with stdin present, stdin untouched; otherwise each
/// non-flag argument hex-decoded, each followed by a newline unless a
/// `-n`/`--no-newline` flag is among the arguments.
pub open spec fn spec_echo(args: Seq<Seq<char>>, stdin: Seq<u8>) -> Seq<u8> {
    if stdin.len() > 0 {
        stdin
    } else {
        let newline = !(exists|i: int| 0 <= i < args.len() && is_no_newline_flag(#[trigger] args[i]));
        spec_echo_args(args, newline)
    }
}

/// The concatenated outputs of echoing each non-flag argument.
pub open spec fn spec_echo_args(args: Seq<Seq<char>>, newline: bool) -> Seq<u8>
    decreases args.len(),
{
    if args.len() == 0 {
        Seq::empty()
    } else if is_no_newline_flag(args[0]) {
        spec_echo_args(args.skip(1), newline)
    } else {
        let one = spec_echo_arg(vstd::utf8::encode_utf8(args[0])) + (if newline {
            seq![0x0au8]
        } else {
            Seq::<u8>::empty()
        });
        one + spec_echo_args(args.skip(1), newline)
    }
}

/// The echo built-in over plain buffers.
pub fn echo(args: &Vec<String>, stdin: &Vec<u8>) -> (r: Vec<u8>)
    ensures
        r@ == spec_echo(crate::pipeline::strs(args@), stdin@),
{
    if stdin.len() > 0 {
        return crate::strutil::clone_bytes(stdin);
    }
    proof {
        reveal_strlit("-n");
        reveal_strlit("--no-newline");
    }
    let mut newline: bool = true;
    let mut i: usize = 0;
    while i < args.len()
        invariant
            i <= args@.len(),
            newline == !(exists|j: int|
                0 <= j < i && is_no_newline_flag(#[trigger] crate::pipeline::strs(args@)[j])),
        decreases args@.len() - i,
    {
        if crate::strutil::str_eq(args[i].as_str(), "-n") || crate::strutil::str_eq(
            args[i].as_str(),
            "--no-newline",
        ) {
            newline = false;
            proof {
                assert(is_no_newline_flag(crate::pipeline::strs(args@)[i as int]));
            }
        }
        i += 1;
    }
    let ghost all = crate::pipeline::strs(args@);
    let mut out: Vec<u8> = Vec::new();
    let mut k: usize = 0;
    proof {
        assert(all.skip(0) =~= all);
        assert(out@ + spec_echo_args(all, newline) =~= spec_echo_args(all, newline));
    }
    while k < args.len()
        invariant
            k <= args@.len(),
            all == crate::pipeline::strs(args@),
            out@ + spec_echo_args(all.skip(k as int), newline) == spec_echo_args(all, newline),
        decreases args@.len() - k,
    {
        let ghost pre = all.skip(k as int);
        let ghost pre_out = out@;
        proof {
            assert(pre[0] == args@[k as int]@);
            assert(pre.skip(1) =~= all.skip(k + 1));
            reveal_strlit("-n");
            reveal_strlit("--no-newline");
        }
        let is_flag = crate::strutil::str_eq(args[k].as_str(), "-n") || crate::strutil::str_eq(
            args[k].as_str(),
            "--no-newline",
        );
        if !is_flag {
            let bytes = vstd::string::StrSliceExecFns::as_bytes_vec(args[k].as_str());
            let decoded = echo_decode_arg(&bytes);
            let mut j: usize = 0;
            while j < decoded.len()
                invariant
                    j <= decoded@.len(),
                    out@ == pre_out + decoded@.subrange(0, j as int),
                decreases decoded@.len() - j,
            {
                out.push(decoded[j]);
                proof {
                    assert(out@ =~= pre_out + decoded@.subrange(0, j + 1 as int));
                }
                j += 1;
            }
            proof {
                assert(decoded@.subrange(0, decoded@.len() as int) =~= decoded@);
            }
            if newline {
                out.push(0x0a);
            }
            proof {
                assert(out@ + spec_echo_args(all.skip(k + 1), newline) =~= spec_echo_args(
                    all,
                    newline,
                ));
            }
        } else {
            proof {
                assert(out@ + spec_echo_args(all.skip(k + 1), newline) =~= spec_echo_args(
                    all,
                    newline,
                ));
            }
        }
        k += 1;
    }
    proof {
        assert(all.skip(args@.len() as int) =~= Seq::<Seq<char>>::empty());
        assert(out@ + Seq::<u8>::empty() =~= out@);
    }
    out
}

/// The index of the first `*` of a pattern.
pub open spec fn first_star(s: Seq<char>) -> Option<int>
    decreases s.len(),
{
    if s.len() == 0 {
        None
    } else if s[0] == '*' {
        Some(0)
    } else {
        match first_star(s.skip(1)) {
            Some(i) => Some(i + 1),
            None => None,
        }
    }
}

/// The first entry equal to the pattern, alone; or nothing.
pub open spec fn spec_first_equal(es: Seq<Seq<char>>, pat: Seq<char>) -> Seq<Seq<char>>
    decreases es.len(),
{
    if es.len() == 0 {
        Seq::empty()
    } else if es[0] == pat {
        seq![es[0]]
    } else {
        spec_first_equal(es.skip(1), pat)
    }
}

/// The entries that match `prefix*suffix`.
pub open spec fn spec_star_matches(
    es: Seq<Seq<char>>,
    before: Seq<char>,
    after: Seq<char>,
) -> Seq<Seq<char>>
    decreases es.len(),
{
    if es.len() == 0 {
        Seq::empty()
    } else {
        let rest = spec_star_matches(es.skip(1), before, after);
        if crate::strutil::is_prefix(es[0], before) && crate::strutil::is_suffix(es[0], after) {
            seq![es[0]] + rest
        } else {
            rest
        }
    }
}

/// What matching a wildcard pattern against entries yields: with a `*`,
/// every entry with the pattern's prefix and suffix; without one, the
/// first exactly equal entry.
pub open spec fn spec_match_pattern(es: Seq<Seq<char>>, pat: Seq<char>) -> Seq<Seq<char>> {
    match first_star(pat) {
        Some(i) => spec_star_matches(es, pat.take(i), pat.skip(i + 1)),
        None => spec_first_equal(es, pat),
    }
}

fn find_first_star(pat: &str) -> (r: Option<usize>)
    ensures
        r matches Some(i) ==> (first_star(pat@) == Some(i as int) && i < pat@.len()),
        r is None ==> first_star(pat@) is None,
{
    let chars = crate::strutil::chars_of(pat);
    let mut i: usize = 0;
    while i < chars.len()
        invariant
            i <= pat@.len(),
            chars@ == pat@,
            forall|j: int| 0 <= j < i ==> pat@[j] != '*',
        decreases pat@.len() - i,
    {
        if chars[i] == '*' {
            proof {
                lemma_first_star_at(pat@, i as int);
            }
            return Some(i);
        }
        i += 1;
    }
    proof {
        lemma_first_star_none(pat@);
    }
    None
}

proof fn lemma_first_star_at(s: Seq<char>, i: int)
    requires
        0 <= i < s.len(),
        s[i] == '*',
        forall|j: int| 0 <= j < i ==> s[j] != '*',
    ensures
        first_star(s) == Some(i),
    decreases i,
{
    if i > 0 {
        assert(forall|j: int| 0 <= j < i - 1 ==> s.skip(1)[j] != '*');
        assert(s.skip(1)[i - 1] == '*');
        lemma_first_star_at(s.skip(1), i - 1);
    }
}

proof fn lemma_first_star_none(s: Seq<char>)
    requires
        forall|j: int| 0 <= j < s.len() ==> s[j] != '*',
    ensures
        first_star(s) is None,
    decreases s.len(),
{
    if s.len() > 0 {
        assert(forall|j: int| 0 <= j < s.skip(1).len() ==> s.skip(1)[j] != '*');
        lemma_first_star_none(s.skip(1));
    }
}

/// Match a wildcard pattern of the form `prefix*suffix` against entries;
/// without a `*`, return the first entry equal to the pattern.
#[verifier::loop_isolation(false)]
pub fn match_pattern(entries: &Vec<String>, pattern: &str) -> (r: Vec<String>)
    ensures
        crate::pipeline::strs(r@) == spec_match_pattern(crate::pipeline::strs(entries@), pattern@),
{
    let ghost all = crate::pipeline::strs(entries@);
    match find_first_star(pattern) {
        Some(i) => {
            let pc = crate::strutil::chars_of(pattern);
            let n = pc.len();
            assert(i < n);
            let mut before_c: Vec<char> = Vec::new();
            let mut a: usize = 0;
            while a < i
                invariant
                    a <= i < pat_len(pattern@),
                    pc@ == pattern@,
                    before_c@ == pattern@.subrange(0, a as int),
                decreases i - a,
            {
                before_c.push(pc[a]);
                proof {
                    assert(before_c@ =~= pattern@.subrange(0, a + 1 as int));
                }
                a += 1;
            }
            let mut after_c: Vec<char> = Vec::new();
            let mut b: usize = i + 1;
            proof {
                assert(after_c@ =~= pattern@.subrange(i + 1, b as int));
            }
            while b < pc.len()
                invariant
                    i + 1 <= b <= pat_len(pattern@),
                    pc@ == pattern@,
                    after_c@ == pattern@.subrange(i + 1, b as int),
                decreases pat_len(pattern@) - b,
            {
                after_c.push(pc[b]);
                proof {
                    assert(after_c@ =~= pattern@.subrange(i + 1, b + 1 as int));
                }
                b += 1;
            }
            let before = crate::strutil::string_from_chars(&before_c);
            let after = crate::strutil::string_from_chars(&after_c);
            proof {
                assert(before@ =~= pattern@.take(i as int));
                assert(after@ =~= pattern@.skip(i + 1 as int));
            }
            let mut out: Vec<String> = Vec::new();
            let mut k: usize = entries.len();
            proof {
                assert(all.skip(entries@.len() as int) =~= Seq::<Seq<char>>::empty());
                assert(crate::pipeline::strs(out@) =~= spec_star_matches(
                    all.skip(entries@.len() as int),
                    before@,
                    after@,
                ));
            }
            while k > 0
                invariant
                    k <= entries@.len(),
                    all == crate::pipeline::strs(entries@),
                    crate::pipeline::strs(out@) == spec_star_matches(
                        all.skip(k as int),
                        before@,
                        after@,
                    ),
                decreases k,
            {
                k -= 1;
                let ghost pre = all.skip(k as int);
                proof {
                    assert(pre[0] == entries@[k as int]@);
                    assert(pre.skip(1) =~= all.skip(k + 1));
                }
                if crate::strutil::starts_with(entries[k].as_str(), before.as_str())
                    && crate::strutil::ends_with(entries[k].as_str(), after.as_str()) {
                    let ghost pre_out = crate::pipeline::strs(out@);
                    out.insert(0, entries[k].clone());
                    proof {
                        assert(crate::pipeline::strs(out@) =~= seq![pre[0]] + pre_out);
                    }
                }
                proof {
                    assert(crate::pipeline::strs(out@) =~= spec_star_matches(
                        all.skip(k as int),
                        before@,
                        after@,
                    ));
                }
            }
            proof {
                assert(all.skip(0) =~= all);
            }
            out
        },
        None => {
            let mut k: usize = 0;
            proof {
                assert(all.skip(0) =~= all);
            }
            while k < entries.len()
                invariant
                    k <= entries@.len(),
                    all == crate::pipeline::strs(entries@),
                    spec_first_equal(all.skip(k as int), pattern@) == spec_first_equal(
                        all,
                        pattern@,
                    ),
                decreases entries@.len() - k,
            {
                let ghost pre = all.skip(k as int);
                proof {
                    assert(pre[0] == entries@[k as int]@);
                    assert(pre.skip(1) =~= all.skip(k + 1));
                }
                if crate::strutil::str_eq(entries[k].as_str(), pattern) {
                    let mut out: Vec<String> = Vec::new();
                    out.push(entries[k].clone());
                    proof {
                        assert(crate::pipeline::strs(out@) =~= seq![pre[0]]);
                    }
                    return out;
                }
                k += 1;
            }
            proof {
                assert(all.skip(entries@.len() as int) =~= Seq::<Seq<char>>::empty());
            }
            let out: Vec<String> = Vec::new();
            proof {
                assert(crate::pipeline::strs(out@) =~= Seq::<Seq<char>>::empty());
            }
            out
        },
    }
}

// the pattern length, usable in decreases clauses above
spec fn pat_len(p: Seq<char>) -> int {
    p.len() as int
}

/// What a redirection append writes: old contents, a separating newline
/// when neither side provides one, then the new bytes; appending nothing
/// leaves the contents.
pub open spec fn spec_merge_append(old_contents: Seq<u8>, new: Seq<u8>) -> Seq<u8> {
    if new.len() == 0 {
        old_contents
    } else {
        let sep_needed = !(old_contents.len() == 0 || old_contents.last() == 0x0a) && new[0]
            != 0x0a;
        if sep_needed {
            old_contents.push(0x0a) + new
        } else {
            old_contents + new
        }
    }
}

/// Merge a file's old contents with appended output.
pub fn merge_for_append(old_contents: &Vec<u8>, new: &Vec<u8>) -> (r: Vec<u8>)
    ensures
        r@ == spec_merge_append(old_contents@, new@),
{
    if new.len() == 0 {
        return crate::strutil::clone_bytes(old_contents);
    }
    let mut r = crate::strutil::clone_bytes(old_contents);
    let ends_nl = old_contents.len() == 0 || old_contents[old_contents.len() - 1] == 0x0a;
    if !ends_nl && new[0] != 0x0a {
        r.push(0x0a);
    }
    let mut j: usize = 0;
    let ghost base = r@;
    while j < new.len()
        invariant
            j <= new@.len(),
            r@ == base + new@.subrange(0, j as int),
        decreases new@.len() - j,
    {
        r.push(new[j]);
        proof {
            assert(r@ =~= base + new@.subrange(0, j + 1 as int));
        }
        j += 1;
    }
    proof {
        assert(new@.subrange(0, new@.len() as int) =~= new@);
        assert(r@ =~= spec_merge_append(old_contents@, new@));
    }
    r
}

/// Overwriting insertion of one string into another at a character
/// position: characters of the base are replaced in place; nothing grows.
pub open spec fn spec_insert_string(base: Seq<char>, ins: Seq<char>, pos: int) -> Seq<char> {
    Seq::new(
        base.len(),
        |i: int|
            if pos <= i < pos + ins.len() {
                ins[i - pos]
            } else {
                base[i]
            },
    )
}

/// Overwrite part of `base` with `insert`, starting at `char_position`.
pub fn insert_string(base: String, insert: String, char_position: usize) -> (r: String)
    ensures
        r@ == spec_insert_string(base@, insert@, char_position as int),
{
    let bc = crate::strutil::chars_of(base.as_str());
    let ic = crate::strutil::chars_of(insert.as_str());
    let mut out: Vec<char> = Vec::new();
    let mut i: usize = 0;
    while i < bc.len()
        invariant
            i <= base@.len(),
            bc@ == base@,
            ic@ == insert@,
            out@.len() == i,
            forall|j: int|
                0 <= j < i ==> #[trigger] out@[j] == spec_insert_string(
                    base@,
                    insert@,
                    char_position as int,
                )[j],
        decreases base@.len() - i,
    {
        if i >= char_position && i - char_position < ic.len() {
            out.push(ic[i - char_position]);
        } else {
            out.push(bc[i]);
        }
        i += 1;
    }
    proof {
        assert(out@ =~= spec_insert_string(base@, insert@, char_position as int));
    }
    crate::strutil::string_from_chars(&out)
}

/// A red-green-blue triple from a `0xRRGGBB` value.
pub open spec fn spec_rgb(hex: u32) -> (u8, u8, u8) {
    (((hex / 0x10000) % 0x100) as u8, ((hex / 0x100) % 0x100) as u8, (hex % 0x100) as u8)
}

/// Split a `0xRRGGBB` value into its three channels.
pub fn hex_to_color(hex: u32) -> (r: (u8, u8, u8))
    ensures
        r == spec_rgb(hex),
{
    (((hex / 0x10000) % 0x100) as u8, ((hex / 0x100) % 0x100) as u8, (hex % 0x100) as u8)
}

/// A theme: a name and its three colors.
#[derive(Debug)]
pub struct Theme {
    pub name: String,
    pub primary: (u8, u8, u8),
    pub secondary: (u8, u8, u8),
    pub err: (u8, u8, u8),
}

/// The fixed theme collection.
pub fn themes() -> (r: Vec<Theme>)
    ensures
        r@.len() == 5,
        r@[0].name@ == "gold"@ && r@[0].primary == spec_rgb(0xFFC145) && r@[0].secondary
            == spec_rgb(0x5B5F97),
        r@[1].name@ == "earth"@ && r@[1].primary == spec_rgb(0x45FF8C) && r@[1].secondary
            == spec_rgb(0x97645B),
        r@[2].name@ == "element"@ && r@[2].primary == spec_rgb(0xFF4C4F) && r@[2].secondary
            == spec_rgb(0x89B4E5),
        r@[3].name@ == "lime"@ && r@[3].primary == spec_rgb(0x9DE64E) && r@[3].secondary
            == spec_rgb(0x72A6FF),
        r@[4].name@ == "fire"@ && r@[4].primary == spec_rgb(0xFF2B32) && r@[4].secondary
            == spec_rgb(0xFF6E00),
        forall|i: int| 0 <= i < 5 ==> (#[trigger] r@[i]).err == spec_rgb(0xFF0000),
{
    let mut r: Vec<Theme> = Vec::new();
    let mut n = String::new();
    n.append("gold");
    r.push(Theme { name: n, primary: hex_to_color(0xFFC145), secondary: hex_to_color(0x5B5F97), err: hex_to_color(0xFF0000) });
    let mut n = String::new();
    n.append("earth");
    r.push(Theme { name: n, primary: hex_to_color(0x45FF8C), secondary: hex_to_color(0x97645B), err: hex_to_color(0xFF0000) });
    let mut n = String::new();
    n.append("element");
    r.push(Theme { name: n, primary: hex_to_color(0xFF4C4F), secondary: hex_to_color(0x89B4E5), err: hex_to_color(0xFF0000) });
    let mut n = String::new();
    n.append("lime");
    r.push(Theme { name: n, primary: hex_to_color(0x9DE64E), secondary: hex_to_color(0x72A6FF), err: hex_to_color(0xFF0000) });
    let mut n = String::new();
    n.append("fire");
    r.push(Theme { name: n, primary: hex_to_color(0xFF2B32), secondary: hex_to_color(0xFF6E00), err: hex_to_color(0xFF0000) });
    r
}

/// What the theme built-in decided.
#[derive(Debug)]
pub enum ThemeCmd {
    /// No single argument: list the themes.
    Listing,
    /// Switch to the theme at this index.
    Update(usize),
}

/// The index of the first theme with the name.
pub open spec fn spec_theme_index(names: Seq<Seq<char>>, name: Seq<char>) -> Option<int>
    decreases names.len(),
{
    if names.len() == 0 {
        None
    } else if names[0] == name {
        Some(0)
    } else {
        match spec_theme_index(names.skip(1), name) {
            Some(i) => Some(i + 1),
            None => None,
        }
    }
}

/// The names of a theme collection.
pub open spec fn theme_names(ts: Seq<Theme>) -> Seq<Seq<char>> {
    ts.map_values(|t: Theme| t.name@)
}

/// The theme built-in's decision: list without exactly one argument;
/// otherwise switch to the named theme or fail with the not-found message.
#[verifier::loop_isolation(false)]
pub fn theme_command(args: &Vec<String>, all_themes: &Vec<Theme>) -> (r: Result<ThemeCmd, String>)
    ensures
        args@.len() != 1 ==> (r matches Ok(c) && c is Listing),
        args@.len() == 1 ==> ({
            match spec_theme_index(theme_names(all_themes@), args@[0]@) {
                Some(i) => r matches Ok(c) && (c matches ThemeCmd::Update(u) && u as int == i),
                None => (r matches Err(m) && m@ == "No theme by name '"@ + args@[0]@ + "'"@),
            }
        }),
{
    if args.len() != 1 {
        return Ok(ThemeCmd::Listing);
    }
    let ghost names = theme_names(all_themes@);
    let mut i: usize = 0;
    proof {
        assert(names.skip(0) =~= names);
    }
    while i < all_themes.len()
        invariant
            i <= all_themes@.len(),
            names == theme_names(all_themes@),
            ({
                match spec_theme_index(names.skip(i as int), args@[0]@) {
                    Some(k) => spec_theme_index(names, args@[0]@) == Some(k + i),
                    None => spec_theme_index(names, args@[0]@) is None,
                }
            }),
        decreases all_themes@.len() - i,
    {
        let ghost pre = names.skip(i as int);
        proof {
            assert(pre[0] == all_themes@[i as int].name@);
            assert(pre.skip(1) =~= names.skip(i + 1));
        }
        if crate::strutil::str_eq(all_themes[i].name.as_str(), args[0].as_str()) {
            return Ok(ThemeCmd::Update(i));
        }
        i += 1;
    }
    proof {
        assert(names.skip(all_themes@.len() as int) =~= Seq::<Seq<char>>::empty());
    }
    let m1 = crate::strutil::concat_str("No theme by name '", args[0].as_str());
    let m = crate::strutil::concat_str(m1.as_str(), "'");
    proof {
        assert(m@ =~= "No theme by name '"@ + args@[0]@ + "'"@);
    }
    Err(m)
}

/// The static help text of the `help` built-in.
pub fn help_text() -> (r: String)
    ensures
        r@.len() > 0,
{
    proof {
        reveal_strlit(
            "shoe builtins: ls cd pwd echo column cls cat cp mv rm help mkdir theme copy exit",
        );
    }
    let mut s = String::new();
    s.append("shoe builtins: ls cd pwd echo column cls cat cp mv rm help mkdir theme copy exit");
    s
}

/// Context handed to a built-in: its arguments, the active theme, the
/// stdout buffer it writes, and the stdin bytes it may read.
#[derive(Debug)]
pub struct CommandContext {
    pub args: Vec<String>,
    pub theme: Theme,
    pub stdout: Vec<u8>,
    pub stdin: Vec<u8>,
}

/// The lines of a text, split on newlines (empty lines kept).
pub open spec fn spec_split_nl(text: Seq<char>, acc: Seq<char>) -> Seq<Seq<char>>
    decreases text.len(),
{
    if text.len() == 0 {
        seq![acc]
    } else if text[0] == '\n' {
        seq![acc] + spec_split_nl(text.skip(1), Seq::empty())
    } else {
        spec_split_nl(text.skip(1), acc.push(text[0]))
    }
}

/// The length of the longest line.
pub open spec fn spec_max_len(lines: Seq<Seq<char>>) -> int
    decreases lines.len(),
{
    if lines.len() == 0 {
        0
    } else {
        let rest = spec_max_len(lines.skip(1));
        if lines[0].len() > rest {
            lines[0].len() as int
        } else {
            rest
        }
    }
}

/// Where a line starts in its row, clamped into the row.
pub open spec fn spec_col_pos(c: int, l: int, width: int) -> int {
    if l == 0 {
        0
    } else if c > width / l {
        width
    } else {
        c * l
    }
}

/// Fill the grid with the lines, column-major: line `idx` lands in row
/// `idx % rows` at column `(idx / rows) * longest`.
pub open spec fn spec_fill_grid(
    grid: Seq<Seq<char>>,
    lines: Seq<Seq<char>>,
    idx: int,
    rows: int,
    l: int,
    width: int,
) -> Seq<Seq<char>>
    decreases lines.len(),
{
    if lines.len() == 0 || rows <= 0 {
        grid
    } else {
        let r = idx % rows;
        let pos = spec_col_pos(idx / rows, l, width);
        let grid2 = grid.update(r, spec_insert_string(grid[r], lines[0], pos));
        spec_fill_grid(grid2, lines.skip(1), idx + 1, rows, l, width)
    }
}

/// Rows joined with newlines.
pub open spec fn spec_join_nl(rows: Seq<Seq<char>>) -> Seq<char>
    decreases rows.len(),
{
    if rows.len() == 0 {
        Seq::empty()
    } else if rows.len() == 1 {
        rows[0]
    } else {
        rows[0] + seq!['\n'] + spec_join_nl(rows.skip(1))
    }
}

/// What breaking newline-separated items into terminal columns yields: the
/// input itself without a newline; otherwise a column-major grid of
/// width-sized rows, with at least one column and one row.
pub open spec fn spec_into_columns(input: Seq<char>, width: int) -> Seq<char> {
    if !crate::strutil::seq_contains_char(input, '\n') {
        input
    } else {
        let lines = spec_split_nl(input, Seq::empty());
        let l = spec_max_len(lines);
        let cols0 = if l > 0 && width > l {
            (width - l) / l
        } else {
            0
        };
        let cols = if cols0 < 1 {
            1
        } else {
            cols0
        };
        let rows0 = (lines.len() as int) / cols + (if (lines.len() as int) % cols != 0 {
            1int
        } else {
            0int
        });
        let rows = if rows0 < 1 {
            1
        } else {
            rows0
        };
        let base = Seq::new(rows as nat, |i: int| Seq::new(width as nat, |j: int| ' '));
        spec_join_nl(spec_fill_grid(base, lines, 0, rows, l, width))
    }
}

fn split_nl(input: &str) -> (r: Vec<String>)
    ensures
        crate::pipeline::strs(r@) == spec_split_nl(input@, Seq::empty()),
        r@.len() > 0,
{
    let chars = crate::strutil::chars_of(input);
    let mut out: Vec<String> = Vec::new();
    let mut acc: String = String::new();
    let mut i: usize = 0;
    proof {
        assert(input@.skip(0) =~= input@);
        assert(crate::pipeline::strs(out@) =~= Seq::<Seq<char>>::empty());
        assert(crate::pipeline::strs(out@) + spec_split_nl(input@, acc@) =~= spec_split_nl(
            input@,
            Seq::empty(),
        ));
    }
    while i < chars.len()
        invariant
            i <= input@.len(),
            chars@ == input@,
            crate::pipeline::strs(out@) + spec_split_nl(input@.skip(i as int), acc@)
                == spec_split_nl(input@, Seq::empty()),
        decreases input@.len() - i,
    {
        let ghost rest = input@.skip(i as int);
        proof {
            assert(rest[0] == input@[i as int]);
            assert(rest.skip(1) =~= input@.skip(i + 1));
        }
        let c = chars[i];
        if c == '\n' {
            out.push(acc);
            acc = String::new();
            proof {
                assert(crate::pipeline::strs(out@) =~= crate::pipeline::strs(out@.drop_last())
                    + seq![out@.last()@]);
            }
        } else {
            crate::strutil::push_char(&mut acc, c);
        }
        proof {
            assert(crate::pipeline::strs(out@) + spec_split_nl(input@.skip(i + 1), acc@)
                =~= spec_split_nl(input@, Seq::empty()));
        }
        i += 1;
    }
    out.push(acc);
    proof {
        assert(input@.skip(input@.len() as int) =~= Seq::<char>::empty());
        assert(crate::pipeline::strs(out@) =~= crate::pipeline::strs(out@.drop_last()) + seq![
            out@.last()@,
        ]);
        assert(crate::pipeline::strs(out@) =~= spec_split_nl(input@, Seq::empty()));
    }
    out
}

fn max_line_len(lines: &Vec<String>) -> (r: usize)
    ensures
        r as int == spec_max_len(crate::pipeline::strs(lines@)),
{
    let ghost all = crate::pipeline::strs(lines@);
    let mut best: usize = 0;
    let mut i: usize = lines.len();
    proof {
        assert(all.skip(lines@.len() as int) =~= Seq::<Seq<char>>::empty());
    }
    while i > 0
        invariant
            i <= lines@.len(),
            all == crate::pipeline::strs(lines@),
            best as int == spec_max_len(all.skip(i as int)),
        decreases i,
    {
        i -= 1;
        let ghost pre = all.skip(i as int);
        proof {
            assert(pre[0] == lines@[i as int]@);
            assert(pre.skip(1) =~= all.skip(i + 1));
        }
        let n = lines[i].unicode_len();
        if n > best {
            best = n;
        }
    }
    proof {
        assert(all.skip(0) =~= all);
    }
    best
}

/// Break a newline-separated listing into as many columns as fit in the
/// terminal width; at least one column and one row are always produced.
#[verifier::rlimit(100)]
#[verifier::spinoff_prover]
#[verifier::loop_isolation(false)]
pub fn into_columns(input: &str, width: usize) -> (r: String)
    requires
        width <= 65535,
    ensures
        r@ == spec_into_columns(input@, width as int),
{
    if !crate::strutil::contains_char(input, '\n') {
        let mut s = String::new();
        s.append(input);
        return s;
    }
    let lines = split_nl(input);
    let ghost lines_m = crate::pipeline::strs(lines@);
    let l = max_line_len(&lines);
    let cols0: usize = if l > 0 && width > l {
        (width - l) / l
    } else {
        0
    };
    let cols: usize = if cols0 < 1 {
        1
    } else {
        cols0
    };
    let count = lines.len();
    let q = count / cols;
    let rem = count % cols;
    let rows0: usize;
    if rem != 0 {
        proof {
            assert(cols >= 2) by {
                assert((count as int) % 1int == 0);
            }
            assert((count as int) / (cols as int) < usize::MAX) by (nonlinear_arith)
                requires
                    cols as int >= 2,
                    0 <= count as int <= usize::MAX as int,
            ;
        }
        rows0 = q + 1;
    } else {
        rows0 = q;
    }
    let rows: usize = if rows0 < 1 {
        1
    } else {
        rows0
    };
    // the base grid: rows of width spaces
    let mut grid: Vec<String> = Vec::new();
    let blank_chars: Vec<char> = vec![' '; width];
    proof {
        assert(blank_chars@ =~= Seq::new(width as nat, |j: int| ' '));
        assert(crate::pipeline::strs(grid@) =~~= Seq::new(
            0nat,
            |i: int| Seq::new(width as nat, |j: int| ' '),
        ));
    }
    let mut g: usize = 0;
    while g < rows
        invariant
            g <= rows,
            blank_chars@ == Seq::new(width as nat, |j: int| ' '),
            crate::pipeline::strs(grid@) == Seq::new(
                g as nat,
                |i: int| Seq::new(width as nat, |j: int| ' '),
            ),
        decreases rows - g,
    {
        let ghost pre_grid = crate::pipeline::strs(grid@);
        grid.push(crate::strutil::string_from_chars(&blank_chars));
        proof {
            assert forall|i: int| 0 <= i <= g implies (crate::pipeline::strs(grid@)[i]) =~= Seq::new(
                width as nat,
                |j: int| ' ',
            ) by {
                assert(crate::pipeline::strs(grid@)[i] == grid@[i]@);
                if i < g {
                    assert(pre_grid[i] == Seq::new(width as nat, |j: int| ' '));
                } else {
                    assert(grid@[i]@ == blank_chars@);
                }
            }
            assert(crate::pipeline::strs(grid@) =~~= Seq::new(
                (g + 1) as nat,
                |i: int| Seq::new(width as nat, |j: int| ' '),
            ));
        }
        g += 1;
    }
    // fill it, column-major
    let mut rest = lines;
    let mut idx: usize = 0;
    proof {
        assert(crate::pipeline::strs(rest@) =~= lines_m.skip(0));
        assert(spec_fill_grid(
            crate::pipeline::strs(grid@),
            lines_m.skip(0),
            0,
            rows as int,
            l as int,
            width as int,
        ) == spec_fill_grid(
            crate::pipeline::strs(grid@),
            lines_m,
            0,
            rows as int,
            l as int,
            width as int,
        ));
    }
    while rest.len() > 0
        invariant
            idx + rest@.len() == lines_m.len(),
            crate::pipeline::strs(rest@) == lines_m.skip(idx as int),
            grid@.len() == rows,
            rows >= 1,
            spec_fill_grid(
                crate::pipeline::strs(grid@),
                crate::pipeline::strs(rest@),
                idx as int,
                rows as int,
                l as int,
                width as int,
            ) == spec_fill_grid(
                Seq::new(rows as nat, |i: int| Seq::new(width as nat, |j: int| ' ')),
                lines_m,
                0,
                rows as int,
                l as int,
                width as int,
            ),
        decreases rest@.len(),
    {
        let ghost pre_rest = crate::pipeline::strs(rest@);
        let ghost pre_grid = crate::pipeline::strs(grid@);
        let line = rest.remove(0);
        proof {
            assert(crate::pipeline::strs(rest@) =~= pre_rest.skip(1));
            assert(line@ == pre_rest[0]);
            assert(lines_m.skip(idx as int)[0] == lines_m[idx as int]);
            assert(crate::pipeline::strs(rest@) =~= lines_m.skip(idx + 1));
        }
        let r_i = idx % rows;
        let c_i = idx / rows;
        let pos: usize = if l == 0 {
            0
        } else if c_i > width / l {
            width
        } else {
            proof {
                assert((c_i as int) * (l as int) <= ((width as int) / (l as int)) * (l as int)
                    <= width as int) by (nonlinear_arith)
                    requires
                        0 <= c_i as int <= (width as int) / (l as int),
                        l as int > 0,
                        width as int >= 0,
                ;
            }
            c_i * l
        };
        let row = grid.remove(r_i);
        let new_row = insert_string(row, line, pos);
        grid.insert(r_i, new_row);
        proof {
            assert(crate::pipeline::strs(grid@) =~= pre_grid.update(
                r_i as int,
                spec_insert_string(
                    pre_grid[r_i as int],
                    pre_rest[0],
                    spec_col_pos(idx as int / (rows as int), l as int, width as int),
                ),
            ));
        }
        idx += 1;
    }
    proof {
        assert(crate::pipeline::strs(rest@) =~= Seq::<Seq<char>>::empty());
    }
    // join the rows with newlines
    let mut out_c: Vec<char> = Vec::new();
    let mut k: usize = 0;
    let ghost final_grid = crate::pipeline::strs(grid@);
    proof {
        assert(final_grid.skip(0) =~= final_grid);
        assert(out_c@ + spec_join_nl(final_grid) =~= spec_join_nl(final_grid));
    }
    while k < grid.len()
        invariant
            k <= grid@.len(),
            final_grid == crate::pipeline::strs(grid@),
            out_c@ + spec_join_nl(final_grid.skip(k as int)) == spec_join_nl(final_grid),
        decreases grid@.len() - k,
    {
        let ghost pre = final_grid.skip(k as int);
        let ghost pre_out = out_c@;
        proof {
            assert(pre[0] == grid@[k as int]@);
            assert(pre.skip(1) =~= final_grid.skip(k + 1));
        }
        let rc = crate::strutil::chars_of(grid[k].as_str());
        let mut j: usize = 0;
        while j < rc.len()
            invariant
                j <= rc@.len(),
                rc@ == final_grid[k as int],
                out_c@ == pre_out + rc@.subrange(0, j as int),
            decreases rc@.len() - j,
        {
            out_c.push(rc[j]);
            proof {
                assert(out_c@ =~= pre_out + rc@.subrange(0, j + 1 as int));
            }
            j += 1;
        }
        proof {
            assert(rc@.subrange(0, rc@.len() as int) =~= rc@);
        }
        if k + 1 < grid.len() {
            out_c.push('\n');
            proof {
                assert(out_c@ + spec_join_nl(final_grid.skip(k + 1)) =~= spec_join_nl(final_grid));
            }
        } else {
            proof {
                assert(final_grid.skip(k + 1).len() == 0);
                assert(spec_join_nl(pre) == pre[0]);
                assert(out_c@ + spec_join_nl(final_grid.skip(k + 1)) =~= spec_join_nl(final_grid));
            }
        }
        k += 1;
    }
    proof {
        assert(spec_join_nl(final_grid.skip(grid@.len() as int)) =~= Seq::<char>::empty());
        assert(out_c@ =~= spec_join_nl(final_grid));
        assert(out_c@ =~= spec_into_columns(input@, width as int));
    }
    crate::strutil::string_from_chars(&out_c)
}

} // verus!
