//! Rendering decisions: wrap-aware cursor placement, per-token colors, and
//! the prompt's working-directory display with its home-to-tilde
//! replacement.

use vstd::prelude::*;

use crate::outside::lower_of;
use crate::outside::lower_str;
use crate::strutil::chars_of;
use crate::strutil::str_eq;
use crate::strutil::string_from_chars;
use crate::token::Token;
use crate::token::TokenModel;

verus! {

/// Where the cursor lands on a wrapped line: the rows below the prompt row
/// and the final column, for a prompt starting at `original_x` and a cursor
/// `pos` characters in.
pub fn cursor_wrap(original_x: usize, pos: usize, width: usize) -> (r: (usize, usize))
    requires
        width > 0,
        original_x + pos <= usize::MAX,
    ensures
        r.0 == (original_x + pos) / (width as int),
        r.1 == (original_x + pos) % (width as int),
{
    ((original_x + pos) / width, (original_x + pos) % width)
}

/// The color role a token is rendered with.
#[derive(Clone, Copy, Debug, PartialEq, Eq, Structural)]
pub enum ColorRole {
    /// The theme's primary color.
    Primary,
    /// The theme's secondary color.
    Secondary,
    /// The terminal's plain foreground.
    Plain,
}

/// The color of a token: keywords and variable references in primary,
/// quoted arguments, options and specials in secondary, the rest plain.
pub open spec fn spec_token_color(t: TokenModel) -> ColorRole {
    match t.kind {
        crate::token::TokenKind::Keyword => ColorRole::Primary,
        crate::token::TokenKind::QuotedArg => ColorRole::Secondary,
        crate::token::TokenKind::RegularArg => if t.text.len() > 0 && t.text[0] == '-' {
            ColorRole::Secondary
        } else {
            ColorRole::Plain
        },
        crate::token::TokenKind::EnvVar => ColorRole::Primary,
        crate::token::TokenKind::Special => ColorRole::Secondary,
    }
}

/// Pick the color role for a token.
pub fn token_color(t: &Token) -> (r: ColorRole)
    ensures
        r == spec_token_color(t@),
{
    match t.kind {
        crate::token::TokenKind::Keyword => ColorRole::Primary,
        crate::token::TokenKind::QuotedArg => ColorRole::Secondary,
        crate::token::TokenKind::RegularArg => {
            if t.text.unicode_len() > 0 && t.text.as_str().get_char(0) == '-' {
                ColorRole::Secondary
            } else {
                ColorRole::Plain
            }
        },
        crate::token::TokenKind::EnvVar => ColorRole::Primary,
        crate::token::TokenKind::Special => ColorRole::Secondary,
    }
}

/// Joining path components with forward slashes.
pub open spec fn spec_join_slash(cs: Seq<Seq<char>>) -> Seq<char>
    decreases cs.len(),
{
    if cs.len() == 0 {
        Seq::empty()
    } else if cs.len() == 1 {
        cs[0]
    } else {
        cs[0] + seq!['/'] + spec_join_slash(cs.skip(1))
    }
}

proof fn lemma_join_slash_push(cs: Seq<Seq<char>>, x: Seq<char>)
    ensures
        cs.len() == 0 ==> spec_join_slash(cs.push(x)) == x,
        cs.len() > 0 ==> spec_join_slash(cs.push(x)) == spec_join_slash(cs) + seq!['/'] + x,
    decreases cs.len(),
{
    if cs.len() == 0 {
        assert(cs.push(x)[0] == x);
        assert(spec_join_slash(cs.push(x)) == x);
    } else {
        assert(cs.push(x).skip(1) =~= cs.skip(1).push(x));
        lemma_join_slash_push(cs.skip(1), x);
        if cs.len() == 1 {
            assert(cs.skip(1).len() == 0);
            assert(spec_join_slash(cs.push(x)) == cs[0] + seq!['/'] + x);
            assert(spec_join_slash(cs) == cs[0]);
        } else {
            assert(spec_join_slash(cs.push(x)) == cs[0] + seq!['/'] + (spec_join_slash(cs.skip(1))
                + seq!['/'] + x));
            assert(spec_join_slash(cs) + seq!['/'] + x =~= cs[0] + seq!['/'] + (spec_join_slash(
                cs.skip(1),
            ) + seq!['/'] + x));
        }
    }
}

/// Join the normal components of an absolute path with `/` separators.
#[verifier::loop_isolation(false)]
pub fn absolute_pathbuf_to_string(components: &Vec<String>) -> (r: String)
    ensures
        r@ == spec_join_slash(crate::pipeline::strs(components@)),
{
    let ghost all = crate::pipeline::strs(components@);
    let mut out: Vec<char> = Vec::new();
    let mut i: usize = 0;
    proof {
        assert(all.take(0) =~= Seq::<Seq<char>>::empty());
        assert(out@ =~= spec_join_slash(all.take(0)));
    }
    while i < components.len()
        invariant
            i <= components@.len(),
            out@ == spec_join_slash(all.take(i as int)),
        decreases components@.len() - i,
    {
        let ghost pre_out = out@;
        if i > 0 {
            out.push('/');
        }
        let cc = chars_of(components[i].as_str());
        let mut j: usize = 0;
        let ghost base = out@;
        while j < cc.len()
            invariant
                j <= cc@.len(),
                i < components@.len(),
                cc@ == all[i as int],
                out@ == base + cc@.subrange(0, j as int),
            decreases cc@.len() - j,
        {
            out.push(cc[j]);
            proof {
                assert(out@ =~= base + cc@.subrange(0, j + 1 as int));
            }
            j += 1;
        }
        proof {
            assert(cc@.subrange(0, cc@.len() as int) =~= cc@);
            assert(all.take(i + 1 as int) =~= all.take(i as int).push(all[i as int]));
            lemma_join_slash_push(all.take(i as int), all[i as int]);
            if i == 0 {
                assert(out@ =~= spec_join_slash(all.take(i + 1 as int)));
            } else {
                assert(out@ =~= spec_join_slash(all.take(i as int)) + seq!['/'] + all[i as int]);
                assert(out@ =~= spec_join_slash(all.take(i + 1 as int)));
            }
        }
        i += 1;
    }
    proof {
        assert(all.take(components@.len() as int) =~= all);
    }
    string_from_chars(&out)
}

/// Case-insensitive character equality, by Unicode lowercasing.
pub open spec fn ci_char_eq(a: char, b: char) -> bool {
    lower_of(seq![a]) == lower_of(seq![b])
}

/// The pattern matches case-insensitively at position `i`.
pub open spec fn ci_match_at(s: Seq<char>, p: Seq<char>, i: int) -> bool {
    i + p.len() <= s.len() && (forall|j: int| 0 <= j < p.len() ==> ci_char_eq(s[i + j], #[trigger] p[j]))
}

/// The first case-insensitive occurrence of the pattern at or after `i`.
pub open spec fn first_ci_match(s: Seq<char>, p: Seq<char>, i: int) -> Option<int>
    decreases s.len() - i,
{
    if i + p.len() > s.len() || i > s.len() {
        None
    } else if ci_match_at(s, p, i) {
        Some(i)
    } else {
        first_ci_match(s, p, i + 1)
    }
}

/// Replacing the first case-insensitive occurrence of the pattern; the
/// source is unchanged when the pattern is empty or absent.
pub open spec fn spec_replace_ci(s: Seq<char>, p: Seq<char>, rep: Seq<char>) -> Seq<char> {
    if p.len() == 0 {
        s
    } else {
        match first_ci_match(s, p, 0) {
            Some(i) => s.take(i) + rep + s.skip(i + p.len()),
            None => s,
        }
    }
}

fn ci_eq(a: char, b: char) -> (r: bool)
    ensures
        r == ci_char_eq(a, b),
{
    let mut va: Vec<char> = Vec::new();
    va.push(a);
    let mut vb: Vec<char> = Vec::new();
    vb.push(b);
    proof {
        assert(va@ =~= seq![a]);
        assert(vb@ =~= seq![b]);
    }
    let sa = string_from_chars(&va);
    let sb = string_from_chars(&vb);
    let la = lower_str(sa.as_str());
    let lb = lower_str(sb.as_str());
    str_eq(la.as_str(), lb.as_str())
}

/// Replace the first occurrence of `pattern` in `source`, compared without
/// regard to letter case, by `replace`.
#[verifier::loop_isolation(false)]
pub fn replace_case_insensitive(source: String, pattern: String, replace: String) -> (r: String)
    ensures
        r@ == spec_replace_ci(source@, pattern@, replace@),
{
    let sc = chars_of(source.as_str());
    let pc = chars_of(pattern.as_str());
    if pc.len() == 0 {
        return source;
    }
    if pc.len() > sc.len() {
        proof {
            assert(first_ci_match(source@, pattern@, 0) is None);
        }
        return source;
    }
    let mut i: usize = 0;
    while i <= sc.len() - pc.len()
        invariant
            pc@.len() <= sc@.len(),
            i <= sc@.len(),
            first_ci_match(source@, pattern@, i as int) == first_ci_match(source@, pattern@, 0),
        decreases sc@.len() - i,
    {
        let mut j: usize = 0;
        let mut matches_here = true;
        while j < pc.len() && matches_here
            invariant
                j <= pc@.len(),
                i + pc@.len() <= sc@.len(),
                matches_here ==> (forall|k: int|
                    0 <= k < j ==> ci_char_eq(source@[i + k], #[trigger] pattern@[k])),
                !matches_here ==> !ci_match_at(source@, pattern@, i as int),
            decreases pc@.len() - j + (if matches_here {
                1int
            } else {
                0int
            }),
        {
            if !ci_eq(sc[i + j], pc[j]) {
                proof {
                    assert(!ci_char_eq(source@[i + j], pattern@[j as int]));
                }
                matches_here = false;
            } else {
                j += 1;
            }
        }
        if matches_here {
            proof {
                assert(ci_match_at(source@, pattern@, i as int));
            }
            // splice: prefix, replacement, suffix
            let rc = chars_of(replace.as_str());
            let mut out: Vec<char> = Vec::new();
            let mut a: usize = 0;
            while a < i
                invariant
                    a <= i <= sc@.len(),
                    out@ == source@.subrange(0, a as int),
                decreases i - a,
            {
                out.push(sc[a]);
                proof {
                    assert(out@ =~= source@.subrange(0, a + 1 as int));
                }
                a += 1;
            }
            let ghost mid = out@;
            let mut b: usize = 0;
            while b < rc.len()
                invariant
                    b <= rc@.len(),
                    rc@ == replace@,
                    out@ == mid + replace@.subrange(0, b as int),
                decreases rc@.len() - b,
            {
                out.push(rc[b]);
                proof {
                    assert(out@ =~= mid + replace@.subrange(0, b + 1 as int));
                }
                b += 1;
            }
            let ghost mid2 = out@;
            let mut c: usize = i + pc.len();
            proof {
                assert(out@ =~= mid2 + source@.subrange(i + pc@.len(), c as int));
            }
            while c < sc.len()
                invariant
                    i + pc@.len() <= c <= sc@.len(),
                    out@ == mid2 + source@.subrange(i + pc@.len(), c as int),
                decreases sc@.len() - c,
            {
                out.push(sc[c]);
                proof {
                    assert(out@ =~= mid2 + source@.subrange(i + pc@.len(), c + 1 as int));
                }
                c += 1;
            }
            proof {
                assert(replace@.subrange(0, replace@.len() as int) =~= replace@);
                assert(source@.subrange(i + pattern@.len(), source@.len() as int) =~= source@.skip(
                    i + pattern@.len(),
                ));
                assert(out@ =~= source@.take(i as int) + replace@ + source@.skip(
                    i + pattern@.len(),
                ));
            }
            return string_from_chars(&out);
        }
        i += 1;
    }
    proof {
        assert(first_ci_match(source@, pattern@, i as int) is None);
    }
    source
}

/// Replacing every occurrence of a pattern, scanning left to right; the
/// source is unchanged when the pattern is empty.
pub open spec fn spec_replace_all(s: Seq<char>, p: Seq<char>, rep: Seq<char>) -> Seq<char>
    decreases s.len(),
{
    if p.len() == 0 {
        s
    } else if s.len() < p.len() {
        s
    } else if s.take(p.len() as int) == p {
        rep + spec_replace_all(s.skip(p.len() as int), p, rep)
    } else {
        seq![s[0]] + spec_replace_all(s.skip(1), p, rep)
    }
}

/// Replace every occurrence of `pattern` in `source` by `replace`.
#[verifier::loop_isolation(false)]
pub fn replace_all(source: &str, pattern: &str, replace: &str) -> (r: String)
    ensures
        r@ == spec_replace_all(source@, pattern@, replace@),
{
    let sc = chars_of(source);
    let pc = chars_of(pattern);
    let rc = chars_of(replace);
    if pc.len() == 0 {
        let mut s = String::new();
        s.append(source);
        return s;
    }
    let mut out: Vec<char> = Vec::new();
    let mut i: usize = 0;
    proof {
        assert(source@.skip(0) =~= source@);
        assert(out@ + spec_replace_all(source@, pattern@, replace@) =~= spec_replace_all(
            source@,
            pattern@,
            replace@,
        ));
    }
    while i < sc.len()
        invariant
            i <= sc@.len(),
            out@ + spec_replace_all(source@.skip(i as int), pattern@, replace@)
                == spec_replace_all(source@, pattern@, replace@),
        decreases sc@.len() - i,
    {
        let ghost rest = source@.skip(i as int);
        let ghost pre_out = out@;
        let mut is_match = pc.len() <= sc.len() - i;
        proof {
            if !is_match {
                assert(rest.len() < pattern@.len());
            }
        }
        let mut j: usize = 0;
        while j < pc.len() && is_match
            invariant
                j <= pc@.len(),
                i < sc@.len(),
                rest == source@.skip(i as int),
                is_match ==> (i + pc@.len() <= sc@.len() && (forall|k: int|
                    0 <= k < j ==> source@[i + k] == #[trigger] pattern@[k])),
                !is_match ==> (rest.len() < pattern@.len() || rest.take(pattern@.len() as int)
                    != pattern@),
            decreases pc@.len() - j + (if is_match {
                1int
            } else {
                0int
            }),
        {
            if sc[i + j] != pc[j] {
                proof {
                    assert(rest.take(pattern@.len() as int)[j as int] == source@[i + j]);
                    assert(rest.take(pattern@.len() as int) != pattern@);
                }
                is_match = false;
            } else {
                j += 1;
            }
        }
        if is_match {
            proof {
                assert(rest.take(pattern@.len() as int) =~= pattern@);
                assert(rest.skip(pattern@.len() as int) =~= source@.skip(i + pattern@.len()));
            }
            let mut b: usize = 0;
            while b < rc.len()
                invariant
                    b <= rc@.len(),
                    rc@ == replace@,
                    out@ == pre_out + replace@.subrange(0, b as int),
                decreases rc@.len() - b,
            {
                out.push(rc[b]);
                proof {
                    assert(out@ =~= pre_out + replace@.subrange(0, b + 1 as int));
                }
                b += 1;
            }
            proof {
                assert(replace@.subrange(0, replace@.len() as int) =~= replace@);
                assert(out@ + spec_replace_all(source@.skip(i + pattern@.len()), pattern@, replace@)
                    =~= spec_replace_all(source@, pattern@, replace@));
            }
            i += pc.len();
        } else {
            out.push(sc[i]);
            proof {
                assert(rest.skip(1) =~= source@.skip(i + 1));
                assert(out@ + spec_replace_all(source@.skip(i + 1), pattern@, replace@)
                    =~= spec_replace_all(source@, pattern@, replace@));
            }
            i += 1;
        }
    }
    proof {
        assert(source@.skip(sc@.len() as int) =~= Seq::<char>::empty());
        assert(out@ + Seq::<char>::empty() =~= out@);
    }
    string_from_chars(&out)
}

/// The prompt's directory text: path components joined with `/`, with the
/// home path replaced by a tilde (without regard to case on Windows-like
/// platforms, exactly elsewhere).
pub fn cwd_display(components: &Vec<String>, home: &str, windows: bool) -> (r: String)
    ensures
        ({
            let joined = spec_join_slash(crate::pipeline::strs(components@));
            if windows {
                r@ == spec_replace_ci(joined, home@, "~"@)
            } else {
                r@ == spec_replace_all(joined, home@, "~"@)
            }
        }),
{
    let path = absolute_pathbuf_to_string(components);
    if windows {
        let mut h = String::new();
        h.append(home);
        let mut t = String::new();
        t.append("~");
        replace_case_insensitive(path, h, t)
    } else {
        replace_all(path.as_str(), home, "~")
    }
}

/// The prompt line around a directory text.
pub fn prompt_string(cwd: &str) -> (r: String)
    ensures
        r@ == "["@ + cwd@ + "]> "@,
{
    let a = crate::strutil::concat_str("[", cwd);
    let r = crate::strutil::concat_str(a.as_str(), "]> ");
    proof {
        assert(r@ =~= "["@ + cwd@ + "]> "@);
    }
    r
}

} // verus!
