//! The tokenizer: a single pass over the characters of an input line,
//! producing typed tokens. The scanner is modelled by the spec functions
//! `scan` and `promote`; the executable tokenizer is proved to compute
//! exactly `spec_tokenize`.

use vstd::prelude::*;

use crate::strutil::is_ws_only;
use crate::strutil::chars_of;
use crate::strutil::push_char;
use crate::strutil::str_eq;
use crate::strutil::ws_only;

verus! {

/// The kind of a token.
#[derive(Clone, Copy, Debug, PartialEq, Eq, Structural)]
pub enum TokenKind {
    /// The first meaningful token of a command: its name.
    Keyword,
    /// A token opened by a double quote.
    QuotedArg,
    /// An ordinary argument.
    RegularArg,
    /// A `%NAME%` environment-variable reference; the text is the name.
    EnvVar,
    /// A run of the characters `; | > & <`.
    Special,
}

/// A token: a piece of text together with its kind.
#[derive(Debug)]
pub struct Token {
    pub text: String,
    pub kind: TokenKind,
}

/// The mathematical model of a token.
#[verifier::ext_equal]
pub ghost struct TokenModel {
    pub text: Seq<char>,
    pub kind: TokenKind,
}

impl View for Token {
    type V = TokenModel;

    open spec fn view(&self) -> TokenModel {
        TokenModel { text: self.text@, kind: self.kind }
    }
}

/// The models of a sequence of tokens.
pub open spec fn models(ts: Seq<Token>) -> Seq<TokenModel> {
    ts.map_values(|t: Token| t@)
}

pub proof fn lemma_models_push(s: Seq<Token>, t: Token)
    ensures
        models(s.push(t)) == models(s).push(t@),
{
    assert(models(s.push(t)) =~= models(s).push(t@));
}

/// Characters a backslash may escape.
pub open spec fn is_escapable_char(c: char) -> bool {
    c == '\\' || c == '"' || c == '%' || c == ' ' || c == ';' || c == ',' || c == '>' || c == '&'
        || c == '<'
}

/// Characters that form Special tokens.
pub open spec fn is_special_char(c: char) -> bool {
    c == ';' || c == '|' || c == '>' || c == '&' || c == '<'
}

/// The state of the scanner: the tokens built so far (never empty), whether a
/// quote is open, and, when a `%NAME%` reference is open, the kind of the
/// token that preceded it.
#[verifier::ext_equal]
pub ghost struct ScanState {
    pub toks: Seq<TokenModel>,
    pub in_quote: bool,
    pub env_parent: Option<TokenKind>,
}

/// Append characters to the text of the last token.
pub open spec fn app_last(toks: Seq<TokenModel>, s: Seq<char>) -> Seq<TokenModel> {
    toks.update(
        toks.len() - 1,
        TokenModel { text: toks.last().text + s, kind: toks.last().kind },
    )
}

/// Replace the kind of the last token.
pub open spec fn kind_last(toks: Seq<TokenModel>, k: TokenKind) -> Seq<TokenModel> {
    toks.update(toks.len() - 1, TokenModel { text: toks.last().text, kind: k })
}

/// The scanner's initial state: one empty RegularArg token.
pub open spec fn scan_init() -> ScanState {
    ScanState {
        toks: seq![TokenModel { text: Seq::empty(), kind: TokenKind::RegularArg }],
        in_quote: false,
        env_parent: None,
    }
}

/// One scanner transition on a character other than an escaping backslash.
pub open spec fn scan_step(st: ScanState, c: char, keep: bool) -> ScanState {
    let last = st.toks.last();
    if c == '"' && (st.in_quote || last.text.len() == 0) {
        let toks1 = if keep { app_last(st.toks, seq![c]) } else { st.toks };
        if !st.in_quote {
            ScanState {
                toks: kind_last(toks1, TokenKind::QuotedArg),
                in_quote: true,
                env_parent: st.env_parent,
            }
        } else {
            ScanState {
                toks: toks1.push(TokenModel { text: Seq::empty(), kind: TokenKind::RegularArg }),
                in_quote: false,
                env_parent: st.env_parent,
            }
        }
    } else if c == '%' && !st.in_quote && st.env_parent is Some {
        let toks1 = if keep { app_last(st.toks, seq![c]) } else { st.toks };
        ScanState {
            toks: toks1.push(TokenModel { text: Seq::empty(), kind: st.env_parent->0 }),
            in_quote: st.in_quote,
            env_parent: None,
        }
    } else if c == '%' && !st.in_quote {
        let text = if keep { seq!['%'] } else { Seq::empty() };
        ScanState {
            toks: st.toks.push(TokenModel { text: text, kind: TokenKind::EnvVar }),
            in_quote: st.in_quote,
            env_parent: Some(last.kind),
        }
    } else if c == ' ' && !st.in_quote && st.env_parent is None {
        let toks1 = if keep { app_last(st.toks, seq![c]) } else { st.toks };
        ScanState {
            toks: toks1.push(TokenModel { text: Seq::empty(), kind: TokenKind::RegularArg }),
            in_quote: st.in_quote,
            env_parent: st.env_parent,
        }
    } else if is_special_char(c) && !st.in_quote {
        if last.kind != TokenKind::Special && last.text.len() != 0 {
            ScanState {
                toks: st.toks.push(TokenModel { text: seq![c], kind: TokenKind::Special }),
                in_quote: st.in_quote,
                env_parent: st.env_parent,
            }
        } else {
            ScanState {
                toks: app_last(kind_last(st.toks, TokenKind::Special), seq![c]),
                in_quote: st.in_quote,
                env_parent: st.env_parent,
            }
        }
    } else {
        if last.kind is Special {
            ScanState {
                toks: st.toks.push(TokenModel { text: seq![c], kind: TokenKind::RegularArg }),
                in_quote: st.in_quote,
                env_parent: st.env_parent,
            }
        } else {
            ScanState {
                toks: app_last(st.toks, seq![c]),
                in_quote: st.in_quote,
                env_parent: st.env_parent,
            }
        }
    }
}

/// Run the scanner over the remaining characters.
pub open spec fn scan(st: ScanState, chars: Seq<char>, keep: bool) -> Seq<TokenModel>
    decreases chars.len(),
{
    if chars.len() == 0 {
        st.toks
    } else {
        let c = chars[0];
        if c == '\\' && chars.len() >= 2 {
            let n = chars[1];
            let add: Seq<char> = if !is_escapable_char(n) || keep {
                seq!['\\', n]
            } else {
                seq![n]
            };
            let st1 = ScanState {
                toks: app_last(st.toks, add),
                in_quote: st.in_quote,
                env_parent: st.env_parent,
            };
            scan(st1, chars.skip(2), keep)
        } else {
            scan(scan_step(st, c, keep), chars.skip(1), keep)
        }
    }
}

/// Texts of run-boundary Specials: those that end the current command.
pub open spec fn is_boundary_text(s: Seq<char>) -> bool {
    s == seq![';'] || s == seq!['&'] || s == seq!['&', '&'] || s == seq!['|', '|'] || s == seq![
        '|',
    ]
}

/// A run-boundary Special token.
pub open spec fn is_boundary_tok(t: TokenModel) -> bool {
    t.kind is Special && is_boundary_text(t.text)
}

/// The keyword-promotion pass: the first non-whitespace RegularArg of each
/// run between run boundaries becomes a Keyword. `mk` says whether the
/// current run still lacks a keyword.
pub open spec fn promote(toks: Seq<TokenModel>, mk: bool) -> Seq<TokenModel>
    decreases toks.len(),
{
    if toks.len() == 0 {
        Seq::empty()
    } else {
        let t = toks[0];
        if t.kind is RegularArg && mk && !ws_only(t.text) {
            seq![TokenModel { text: t.text, kind: TokenKind::Keyword }] + promote(
                toks.skip(1),
                false,
            )
        } else if is_boundary_tok(t) {
            seq![t] + promote(toks.skip(1), true)
        } else {
            seq![t] + promote(toks.skip(1), mk)
        }
    }
}

/// What tokenization returns: the scan of the whole input, with keywords
/// promoted.
pub open spec fn spec_tokenize(text: Seq<char>, keep: bool) -> Seq<TokenModel> {
    promote(scan(scan_init(), text, keep), true)
}

/// The concatenation of the texts of a sequence of tokens.
pub open spec fn concat_texts(toks: Seq<TokenModel>) -> Seq<char>
    decreases toks.len(),
{
    if toks.len() == 0 {
        Seq::empty()
    } else {
        toks[0].text + concat_texts(toks.skip(1))
    }
}

fn is_escapable(c: char) -> (r: bool)
    ensures
        r == is_escapable_char(c),
{
    c == '\\' || c == '"' || c == '%' || c == ' ' || c == ';' || c == ',' || c == '>' || c == '&'
        || c == '<'
}

fn is_special(c: char) -> (r: bool)
    ensures
        r == is_special_char(c),
{
    c == ';' || c == '|' || c == '>' || c == '&' || c == '<'
}

/// Decide whether a token text is a run boundary.
pub fn is_boundary_str(s: &str) -> (r: bool)
    ensures
        r == is_boundary_text(s@),
{
    proof {
        reveal_strlit(";");
        reveal_strlit("&");
        reveal_strlit("&&");
        reveal_strlit("||");
        reveal_strlit("|");
        assert(";"@ =~= seq![';']);
        assert("&"@ =~= seq!['&']);
        assert("&&"@ =~= seq!['&', '&']);
        assert("||"@ =~= seq!['|', '|']);
        assert("|"@ =~= seq!['|']);
    }
    str_eq(s, ";") || str_eq(s, "&") || str_eq(s, "&&") || str_eq(s, "||") || str_eq(s, "|")
}

fn append_char_last(toks: &mut Vec<Token>, c: char)
    requires
        old(toks)@.len() > 0,
    ensures
        models(final(toks)@) == app_last(models(old(toks)@), seq![c]),
        final(toks)@.len() == old(toks)@.len(),
{
    let popped = toks.pop();
    let mut t = match popped {
        Some(t) => t,
        None => {
            proof {
                assert(false);
            }
            Token { text: String::new(), kind: TokenKind::RegularArg }
        },
    };
    push_char(&mut t.text, c);
    toks.push(t);
    proof {
        assert(t@.text =~= models(old(toks)@).last().text + seq![c]);
        assert(models(toks@) =~= app_last(models(old(toks)@), seq![c]));
    }
}

fn set_last_kind(toks: &mut Vec<Token>, k: TokenKind)
    requires
        old(toks)@.len() > 0,
    ensures
        models(final(toks)@) == kind_last(models(old(toks)@), k),
        final(toks)@.len() == old(toks)@.len(),
{
    let popped = toks.pop();
    let mut t = match popped {
        Some(t) => t,
        None => {
            proof {
                assert(false);
            }
            Token { text: String::new(), kind: TokenKind::RegularArg }
        },
    };
    t.kind = k;
    toks.push(t);
    proof {
        assert(models(toks@) =~= kind_last(models(old(toks)@), k));
    }
}

fn last_kind(toks: &Vec<Token>) -> (r: TokenKind)
    requires
        toks@.len() > 0,
    ensures
        r == models(toks@).last().kind,
{
    toks[toks.len() - 1].kind
}

fn last_is_empty(toks: &Vec<Token>) -> (r: bool)
    requires
        toks@.len() > 0,
    ensures
        r == (models(toks@).last().text.len() == 0),
{
    toks[toks.len() - 1].text.unicode_len() == 0
}

/// Parse a line into tokens, with support for quote enclosures, escapes,
/// `%VAR%` references and Special operators. With `include_separators` no
/// character of the input is lost.
pub fn parse_text_to_tokens(text: &str, include_separators: bool) -> (r: Vec<Token>)
    ensures
        models(r@) == spec_tokenize(text@, include_separators),
        r@.len() > 0,
{
    let chars = chars_of(text);
    let mut toks: Vec<Token> = Vec::new();
    toks.push(Token { text: String::new(), kind: TokenKind::RegularArg });
    let mut in_quote: bool = false;
    let mut env_parent: Option<TokenKind> = None;
    proof {
        assert(models(toks@) =~~= scan_init().toks);
        assert(chars@.skip(0) =~= chars@);
    }
    let ghost keep = include_separators;
    let ghost full = scan(scan_init(), chars@, keep);
    let mut i: usize = 0;
    while i < chars.len()
        invariant
            i <= chars@.len(),
            chars@ == text@,
            toks@.len() > 0,
            scan(
                ScanState { toks: models(toks@), in_quote: in_quote, env_parent: env_parent },
                chars@.skip(i as int),
                keep,
            ) == full,
            keep == include_separators,
            full == scan(scan_init(), chars@, keep),
        decreases chars@.len() - i,
    {
        let ghost st_pre = ScanState {
            toks: models(toks@),
            in_quote: in_quote,
            env_parent: env_parent,
        };
        let ghost rest = chars@.skip(i as int);
        proof {
            assert(rest.len() > 0);
            assert(rest[0] == chars@[i as int]);
        }
        let c = chars[i];
        if c == '\\' && i + 1 < chars.len() {
            let n = chars[i + 1];
            proof {
                assert(rest.len() >= 2);
                assert(rest[1] == n);
                assert(rest.skip(2) =~= chars@.skip(i + 2));
            }
            if !is_escapable(n) || include_separators {
                append_char_last(&mut toks, c);
                append_char_last(&mut toks, n);
                proof {
                    assert(models(toks@) =~~= app_last(st_pre.toks, seq!['\\', n]));
                }
            } else {
                append_char_last(&mut toks, n);
                proof {
                    assert(models(toks@) =~~= app_last(st_pre.toks, seq![n]));
                }
            }
            i += 2;
        } else {
            proof {
                assert(rest.skip(1) =~= chars@.skip(i + 1));
            }
            let lk = last_kind(&toks);
            let le = last_is_empty(&toks);
            if c == '"' && (in_quote || le) {
                if include_separators {
                    append_char_last(&mut toks, c);
                }
                if !in_quote {
                    set_last_kind(&mut toks, TokenKind::QuotedArg);
                    in_quote = true;
                } else {
                    toks.push(Token { text: String::new(), kind: TokenKind::RegularArg });
                    in_quote = false;
                    proof {
                        lemma_models_push(toks@.drop_last(), toks@.last());
                    }
                }
            } else if c == '%' && !in_quote && env_parent.is_some() {
                if include_separators {
                    append_char_last(&mut toks, c);
                }
                let pk = match env_parent {
                    Some(k) => k,
                    None => TokenKind::RegularArg,
                };
                toks.push(Token { text: String::new(), kind: pk });
                env_parent = None;
                proof {
                    lemma_models_push(toks@.drop_last(), toks@.last());
                }
            } else if c == '%' && !in_quote {
                let mut t = String::new();
                if include_separators {
                    push_char(&mut t, '%');
                }
                toks.push(Token { text: t, kind: TokenKind::EnvVar });
                env_parent = Some(lk);
                proof {
                    lemma_models_push(toks@.drop_last(), toks@.last());
                    assert(toks@.last()@.text =~= (if keep { seq!['%'] } else { Seq::<
                        char,
                    >::empty() }));
                }
            } else if c == ' ' && !in_quote && env_parent.is_none() {
                if include_separators {
                    append_char_last(&mut toks, c);
                }
                toks.push(Token { text: String::new(), kind: TokenKind::RegularArg });
                proof {
                    lemma_models_push(toks@.drop_last(), toks@.last());
                }
            } else if is_special(c) && !in_quote {
                if lk != TokenKind::Special && !le {
                    let mut t = String::new();
                    push_char(&mut t, c);
                    toks.push(Token { text: t, kind: TokenKind::Special });
                    proof {
                        lemma_models_push(toks@.drop_last(), toks@.last());
                        assert(toks@.last()@.text =~= seq![c]);
                    }
                } else {
                    set_last_kind(&mut toks, TokenKind::Special);
                    append_char_last(&mut toks, c);
                }
            } else {
                if lk == TokenKind::Special {
                    let mut t = String::new();
                    push_char(&mut t, c);
                    toks.push(Token { text: t, kind: TokenKind::RegularArg });
                    proof {
                        lemma_models_push(toks@.drop_last(), toks@.last());
                        assert(toks@.last()@.text =~= seq![c]);
                    }
                } else {
                    append_char_last(&mut toks, c);
                }
            }
            proof {
                assert(models(toks@) =~~= scan_step(st_pre, c, keep).toks);
                assert(ScanState {
                    toks: models(toks@),
                    in_quote: in_quote,
                    env_parent: env_parent,
                } =~~= scan_step(st_pre, c, keep));
            }
            i += 1;
        }
    }
    proof {
        assert(chars@.skip(i as int) =~= Seq::<char>::empty());
        assert(models(toks@) == full);
    }
    promote_tokens(toks)
}

/// The keyword-promotion pass, as executable code.
fn promote_tokens(toks: Vec<Token>) -> (r: Vec<Token>)
    requires
        toks@.len() > 0,
    ensures
        models(r@) == promote(models(toks@), true),
        r@.len() == toks@.len(),
{
    let ghost all = models(toks@);
    let mut rest = toks;
    let mut out: Vec<Token> = Vec::new();
    let mut mk: bool = true;
    while rest.len() > 0
        invariant
            models(out@) + promote(models(rest@), mk) == promote(all, true),
            out@.len() + rest@.len() == all.len(),
        decreases rest@.len(),
    {
        let ghost pre_rest = models(rest@);
        let t = rest.remove(0);
        proof {
            assert(models(rest@) =~= pre_rest.skip(1));
            assert(t@ == pre_rest[0]);
        }
        let is_reg = match t.kind {
            TokenKind::RegularArg => true,
            _ => false,
        };
        if is_reg && mk && !is_ws_only(t.text.as_str()) {
            out.push(Token { text: t.text, kind: TokenKind::Keyword });
            mk = false;
            proof {
                lemma_models_push(out@.drop_last(), out@.last());
                assert(models(out@) =~= models(out@.drop_last()) + seq![
                    TokenModel { text: pre_rest[0].text, kind: TokenKind::Keyword },
                ]);
                assert(models(out@) + promote(models(rest@), mk) =~= promote(all, true));
            }
        } else {
            let is_sp = match t.kind {
                TokenKind::Special => true,
                _ => false,
            };
            let boundary = is_sp && is_boundary_str(t.text.as_str());
            if boundary {
                mk = true;
            }
            out.push(t);
            proof {
                lemma_models_push(out@.drop_last(), out@.last());
                assert(models(out@) =~= models(out@.drop_last()) + seq![pre_rest[0]]);
                assert(models(out@) + promote(models(rest@), mk) =~= promote(all, true));
            }
        }
    }
    proof {
        assert(models(rest@) =~= Seq::<TokenModel>::empty());
        assert(models(out@) =~= promote(all, true));
    }
    out
}


pub proof fn lemma_concat_push(s: Seq<TokenModel>, t: TokenModel)
    ensures
        concat_texts(s.push(t)) == concat_texts(s) + t.text,
    decreases s.len(),
{
    if s.len() == 0 {
        assert(s.push(t).skip(1) =~= Seq::<TokenModel>::empty());
        assert(s.push(t)[0] == t);
        assert(concat_texts(Seq::<TokenModel>::empty()) == Seq::<char>::empty());
        assert(concat_texts(s.push(t)) == t.text + Seq::<char>::empty());
        assert(concat_texts(s) == Seq::<char>::empty());
        assert(t.text + Seq::<char>::empty() =~= t.text);
        assert(Seq::<char>::empty() + t.text =~= t.text);
    } else {
        assert(s.push(t).skip(1) =~= s.skip(1).push(t));
        lemma_concat_push(s.skip(1), t);
        assert(s.push(t)[0] == s[0]);
        assert(concat_texts(s.push(t)) == s[0].text + concat_texts(s.skip(1).push(t)));
        assert(concat_texts(s.skip(1).push(t)) == concat_texts(s.skip(1)) + t.text);
        assert(concat_texts(s) == s[0].text + concat_texts(s.skip(1)));
        assert(s[0].text + (concat_texts(s.skip(1)) + t.text) =~= (s[0].text + concat_texts(
            s.skip(1),
        )) + t.text);
    }
}

proof fn lemma_concat_app_last(s: Seq<TokenModel>, a: Seq<char>)
    requires
        s.len() > 0,
    ensures
        concat_texts(app_last(s, a)) == concat_texts(s) + a,
    decreases s.len(),
{
    if s.len() == 1 {
        assert(app_last(s, a)[0].text == s[0].text + a);
        assert(app_last(s, a).skip(1) =~= Seq::<TokenModel>::empty());
        assert(s.skip(1) =~= Seq::<TokenModel>::empty());
        assert(concat_texts(Seq::<TokenModel>::empty()) == Seq::<char>::empty());
        assert(concat_texts(app_last(s, a)) == (s[0].text + a) + Seq::<char>::empty());
        assert(concat_texts(s) == s[0].text + Seq::<char>::empty());
        assert((s[0].text + a) + Seq::<char>::empty() =~= (s[0].text + Seq::<char>::empty()) + a);
    } else {
        assert(app_last(s, a).skip(1) =~~= app_last(s.skip(1), a));
        assert(app_last(s, a)[0] == s[0]);
        lemma_concat_app_last(s.skip(1), a);
        assert(concat_texts(app_last(s, a)) == s[0].text + concat_texts(app_last(s.skip(1), a)));
        assert(concat_texts(app_last(s.skip(1), a)) == concat_texts(s.skip(1)) + a);
        assert(concat_texts(s) == s[0].text + concat_texts(s.skip(1)));
        assert(s[0].text + (concat_texts(s.skip(1)) + a) =~= (s[0].text + concat_texts(s.skip(1)))
            + a);
    }
}

proof fn lemma_concat_kind_last(s: Seq<TokenModel>, k: TokenKind)
    requires
        s.len() > 0,
    ensures
        concat_texts(kind_last(s, k)) == concat_texts(s),
    decreases s.len(),
{
    if s.len() == 1 {
        assert(kind_last(s, k)[0].text == s[0].text);
        assert(kind_last(s, k).skip(1) =~= Seq::<TokenModel>::empty());
        assert(s.skip(1) =~= Seq::<TokenModel>::empty());
        assert(concat_texts(Seq::<TokenModel>::empty()) == Seq::<char>::empty());
        assert(concat_texts(kind_last(s, k)) == s[0].text + Seq::<char>::empty());
        assert(concat_texts(s) == s[0].text + Seq::<char>::empty());
    } else {
        assert(kind_last(s, k).skip(1) =~~= kind_last(s.skip(1), k));
        assert(kind_last(s, k)[0] == s[0]);
        lemma_concat_kind_last(s.skip(1), k);
        assert(concat_texts(kind_last(s, k)) =~= concat_texts(s));
    }
}

proof fn lemma_scan_step_concat(st: ScanState, c: char)
    requires
        st.toks.len() > 0,
    ensures
        concat_texts(scan_step(st, c, true).toks) == concat_texts(st.toks) + seq![c],
        scan_step(st, c, true).toks.len() > 0,
{
    let last = st.toks.last();
    let empty_tok = TokenModel { text: Seq::empty(), kind: TokenKind::RegularArg };
    if c == '"' && (st.in_quote || last.text.len() == 0) {
        lemma_concat_app_last(st.toks, seq![c]);
        if !st.in_quote {
            lemma_concat_kind_last(app_last(st.toks, seq![c]), TokenKind::QuotedArg);
        } else {
            lemma_concat_push(app_last(st.toks, seq![c]), empty_tok);
            assert(concat_texts(scan_step(st, c, true).toks) =~= concat_texts(st.toks) + seq![c]);
        }
    } else if c == '%' && !st.in_quote && st.env_parent is Some {
        lemma_concat_app_last(st.toks, seq![c]);
        lemma_concat_push(
            app_last(st.toks, seq![c]),
            TokenModel { text: Seq::empty(), kind: st.env_parent->0 },
        );
        assert(concat_texts(scan_step(st, c, true).toks) =~= concat_texts(st.toks) + seq![c]);
    } else if c == '%' && !st.in_quote {
        lemma_concat_push(st.toks, TokenModel { text: seq!['%'], kind: TokenKind::EnvVar });
        assert(concat_texts(scan_step(st, c, true).toks) =~= concat_texts(st.toks) + seq![c]);
    } else if c == ' ' && !st.in_quote && st.env_parent is None {
        lemma_concat_app_last(st.toks, seq![c]);
        lemma_concat_push(app_last(st.toks, seq![c]), empty_tok);
        assert(concat_texts(scan_step(st, c, true).toks) =~= concat_texts(st.toks) + seq![c]);
    } else if is_special_char(c) && !st.in_quote {
        if last.kind != TokenKind::Special && last.text.len() != 0 {
            lemma_concat_push(st.toks, TokenModel { text: seq![c], kind: TokenKind::Special });
            assert(concat_texts(scan_step(st, c, true).toks) =~= concat_texts(st.toks) + seq![c]);
        } else {
            lemma_concat_kind_last(st.toks, TokenKind::Special);
            lemma_concat_app_last(kind_last(st.toks, TokenKind::Special), seq![c]);
        }
    } else {
        if last.kind is Special {
            lemma_concat_push(st.toks, TokenModel { text: seq![c], kind: TokenKind::RegularArg });
            assert(concat_texts(scan_step(st, c, true).toks) =~= concat_texts(st.toks) + seq![c]);
        } else {
            lemma_concat_app_last(st.toks, seq![c]);
        }
    }
}

proof fn lemma_scan_concat(st: ScanState, chars: Seq<char>)
    requires
        st.toks.len() > 0,
    ensures
        concat_texts(scan(st, chars, true)) == concat_texts(st.toks) + chars,
    decreases chars.len(),
{
    if chars.len() == 0 {
        assert(concat_texts(st.toks) + chars =~= concat_texts(st.toks));
    } else {
        let c = chars[0];
        if c == '\\' && chars.len() >= 2 {
            let n = chars[1];
            let st1 = ScanState {
                toks: app_last(st.toks, seq!['\\', n]),
                in_quote: st.in_quote,
                env_parent: st.env_parent,
            };
            lemma_concat_app_last(st.toks, seq!['\\', n]);
            lemma_scan_concat(st1, chars.skip(2));
            assert(concat_texts(st.toks) + seq!['\\', n] + chars.skip(2) =~= concat_texts(st.toks)
                + chars);
        } else {
            lemma_scan_step_concat(st, c);
            lemma_scan_concat(scan_step(st, c, true), chars.skip(1));
            assert(concat_texts(st.toks) + seq![c] + chars.skip(1) =~= concat_texts(st.toks)
                + chars);
        }
    }
}

proof fn lemma_promote_concat(s: Seq<TokenModel>, mk: bool)
    ensures
        concat_texts(promote(s, mk)) == concat_texts(s),
    decreases s.len(),
{
    if s.len() == 0 {
    } else {
        let t = s[0];
        let h = if t.kind is RegularArg && mk && !ws_only(t.text) {
            TokenModel { text: t.text, kind: TokenKind::Keyword }
        } else {
            t
        };
        let mk2 = if t.kind is RegularArg && mk && !ws_only(t.text) {
            false
        } else if is_boundary_tok(t) {
            true
        } else {
            mk
        };
        lemma_promote_concat(s.skip(1), mk2);
        assert((seq![h] + promote(s.skip(1), mk2)).skip(1) =~= promote(s.skip(1), mk2));
        assert(promote(s, mk) == seq![h] + promote(s.skip(1), mk2));
        assert(concat_texts(promote(s, mk)) == h.text + concat_texts(promote(s.skip(1), mk2)));
    }
}

/// Tokenization round-trip: with separators kept, concatenating the token
/// texts yields exactly the input.
pub proof fn lemma_tokenize_round_trip(text: Seq<char>)
    ensures
        concat_texts(spec_tokenize(text, true)) == text,
{
    lemma_scan_concat(scan_init(), text);
    assert(scan_init().toks.skip(1) =~= Seq::<TokenModel>::empty());
    assert(concat_texts(Seq::<TokenModel>::empty()) == Seq::<char>::empty());
    assert(scan_init().toks[0].text == Seq::<char>::empty());
    assert(concat_texts(scan_init().toks) == scan_init().toks[0].text + concat_texts(
        scan_init().toks.skip(1),
    ));
    assert(concat_texts(scan_init().toks) =~= Seq::<char>::empty());
    lemma_promote_concat(scan(scan_init(), text, true), true);
    assert(Seq::<char>::empty() + text =~= text);
}

/// No token of a sequence is a Keyword.
pub open spec fn no_keyword(s: Seq<TokenModel>) -> bool {
    forall|i: int| 0 <= i < s.len() ==> !((#[trigger] s[i]).kind is Keyword)
}

/// Every Keyword token has non-whitespace text.
pub open spec fn kw_nonws(s: Seq<TokenModel>) -> bool {
    forall|i: int|
        0 <= i < s.len() && (#[trigger] s[i]).kind is Keyword ==> !ws_only(s[i].text)
}

/// No run-boundary token strictly between positions `i` and `j`.
pub open spec fn seg_free(s: Seq<TokenModel>, i: int, j: int) -> bool {
    forall|k: int| i < k < j && 0 <= k < s.len() ==> !is_boundary_tok(#[trigger] s[k])
}

/// Two Keyword tokens always have a run boundary between them.
pub open spec fn kw_separated(s: Seq<TokenModel>) -> bool {
    forall|i: int, j: int|
        0 <= i < j < s.len() && (#[trigger] s[i]).kind is Keyword && (#[trigger] s[j]).kind
            is Keyword ==> !seg_free(s, i, j)
}

/// Every non-whitespace RegularArg is preceded, within its run, by a Keyword.
pub open spec fn arg_has_kw(s: Seq<TokenModel>) -> bool {
    forall|i: int|
        0 <= i < s.len() && (#[trigger] s[i]).kind is RegularArg && !ws_only(s[i].text)
            ==> exists|j: int| 0 <= j < i && (#[trigger] s[j]).kind is Keyword && seg_free(s, j, i)
}

/// Every Keyword is preceded by some run boundary.
pub open spec fn kw_after_boundary(s: Seq<TokenModel>) -> bool {
    forall|j: int|
        0 <= j < s.len() && (#[trigger] s[j]).kind is Keyword ==> exists|k: int|
            0 <= k < j && is_boundary_tok(#[trigger] s[k])
}

/// Like `arg_has_kw`, except that tokens of the leading run (before any
/// boundary) are excused.
pub open spec fn arg_has_kw_weak(s: Seq<TokenModel>) -> bool {
    forall|i: int|
        0 <= i < s.len() && (#[trigger] s[i]).kind is RegularArg && !ws_only(s[i].text) ==> ((
        exists|j: int| 0 <= j < i && (#[trigger] s[j]).kind is Keyword && seg_free(s, j, i))
            || seg_free(s, -1, i))
}

proof fn lemma_scan_step_no_keyword(st: ScanState, c: char, keep: bool)
    requires
        st.toks.len() > 0,
        no_keyword(st.toks),
        st.env_parent matches Some(k) ==> !(k is Keyword),
    ensures
        no_keyword(scan_step(st, c, keep).toks),
        scan_step(st, c, keep).toks.len() > 0,
        scan_step(st, c, keep).env_parent matches Some(k) ==> !(k is Keyword),
{
    let r = scan_step(st, c, keep).toks;
    assert forall|i: int| 0 <= i < r.len() implies !((#[trigger] r[i]).kind is Keyword) by {
        assert(!(st.toks[st.toks.len() - 1].kind is Keyword));
        if i < st.toks.len() {
            assert(!(st.toks[i].kind is Keyword));
        }
    }
}

proof fn lemma_scan_no_keyword(st: ScanState, chars: Seq<char>, keep: bool)
    requires
        st.toks.len() > 0,
        no_keyword(st.toks),
        st.env_parent matches Some(k) ==> !(k is Keyword),
    ensures
        no_keyword(scan(st, chars, keep)),
        scan(st, chars, keep).len() > 0,
    decreases chars.len(),
{
    if chars.len() == 0 {
    } else {
        let c = chars[0];
        if c == '\\' && chars.len() >= 2 {
            let n = chars[1];
            let add: Seq<char> = if !is_escapable_char(n) || keep {
                seq!['\\', n]
            } else {
                seq![n]
            };
            let st1 = ScanState {
                toks: app_last(st.toks, add),
                in_quote: st.in_quote,
                env_parent: st.env_parent,
            };
            assert forall|i: int| 0 <= i < st1.toks.len() implies !((#[trigger] st1.toks[i]).kind
                is Keyword) by {
                assert(!(st.toks[i].kind is Keyword));
            }
            lemma_scan_no_keyword(st1, chars.skip(2), keep);
        } else {
            lemma_scan_step_no_keyword(st, c, keep);
            lemma_scan_no_keyword(scan_step(st, c, keep), chars.skip(1), keep);
        }
    }
}

proof fn lemma_seg_free_tail(r: Seq<TokenModel>, a: int, b: int)
    requires
        r.len() >= 1,
        -1 <= a <= b,
    ensures
        seg_free(r, a + 1, b + 1) == seg_free(r.skip(1), a, b),
{
    let r2 = r.skip(1);
    if seg_free(r2, a, b) {
        assert forall|k: int| a + 1 < k < b + 1 && 0 <= k < r.len() implies !is_boundary_tok(
            #[trigger] r[k],
        ) by {
            assert(r2[k - 1] == r[k]);
            assert(!is_boundary_tok(r2[k - 1]));
        }
    }
    if seg_free(r, a + 1, b + 1) {
        assert forall|k: int| a < k < b && 0 <= k < r2.len() implies !is_boundary_tok(
            #[trigger] r2[k],
        ) by {
            assert(r2[k] == r[k + 1]);
            assert(!is_boundary_tok(r[k + 1]));
        }
    }
}

// The head token and continuation flag of one promotion step.
spec fn promote_head(t: TokenModel, mk: bool) -> TokenModel {
    if t.kind is RegularArg && mk && !ws_only(t.text) {
        TokenModel { text: t.text, kind: TokenKind::Keyword }
    } else {
        t
    }
}

spec fn promote_next_mk(t: TokenModel, mk: bool) -> bool {
    if t.kind is RegularArg && mk && !ws_only(t.text) {
        false
    } else if is_boundary_tok(t) {
        true
    } else {
        mk
    }
}

proof fn lemma_promote_unfold(s: Seq<TokenModel>, mk: bool)
    requires
        s.len() > 0,
    ensures
        promote(s, mk) == seq![promote_head(s[0], mk)] + promote(s.skip(1), promote_next_mk(s[0], mk)),
        promote(s, mk).len() == s.len(),
        promote(s, mk)[0] == promote_head(s[0], mk),
        promote(s, mk).skip(1) == promote(s.skip(1), promote_next_mk(s[0], mk)),
        forall|i: int| 1 <= i < s.len() ==> #[trigger] promote(s, mk)[i] == promote(
            s.skip(1),
            promote_next_mk(s[0], mk),
        )[i - 1],
    decreases s.len(),
{
    lemma_promote_len(s.skip(1), promote_next_mk(s[0], mk));
    assert(promote(s, mk).skip(1) =~= promote(s.skip(1), promote_next_mk(s[0], mk)));
}

proof fn lemma_promote_len(s: Seq<TokenModel>, mk: bool)
    ensures
        promote(s, mk).len() == s.len(),
    decreases s.len(),
{
    if s.len() > 0 {
        lemma_promote_len(s.skip(1), promote_next_mk(s[0], mk));
    }
}

proof fn lemma_no_keyword_tail(s: Seq<TokenModel>)
    requires
        no_keyword(s),
        s.len() > 0,
    ensures
        no_keyword(s.skip(1)),
{
    assert forall|i: int| 0 <= i < s.skip(1).len() implies !((#[trigger] s.skip(1)[i]).kind
        is Keyword) by {
        assert(s.skip(1)[i] == s[i + 1]);
    }
}

proof fn lemma_promote_kw_nonws(s: Seq<TokenModel>, mk: bool)
    requires
        no_keyword(s),
    ensures
        kw_nonws(promote(s, mk)),
    decreases s.len(),
{
    let r = promote(s, mk);
    if s.len() > 0 {
        let h = promote_head(s[0], mk);
        let mk2 = promote_next_mk(s[0], mk);
        lemma_promote_unfold(s, mk);
        lemma_no_keyword_tail(s);
        lemma_promote_kw_nonws(s.skip(1), mk2);
        let r2 = promote(s.skip(1), mk2);
        assert forall|i: int| 0 <= i < r.len() && (#[trigger] r[i]).kind is Keyword implies
            !ws_only(r[i].text) by {
            if i == 0 {
                assert(r[0] == h);
                assert(!(s[0].kind is Keyword));
            } else {
                assert(r[i] == r2[i - 1]);
            }
        }
    }
}

proof fn lemma_promote_kw_after_boundary(s: Seq<TokenModel>, mk: bool)
    requires
        no_keyword(s),
        !mk,
    ensures
        kw_after_boundary(promote(s, mk)),
    decreases s.len(),
{
    let r = promote(s, mk);
    if s.len() > 0 {
        let t = s[0];
        let h = promote_head(t, mk);
        let mk2 = promote_next_mk(t, mk);
        lemma_promote_unfold(s, mk);
        lemma_no_keyword_tail(s);
        let r2 = promote(s.skip(1), mk2);
        assert(h == t);
        if !is_boundary_tok(t) {
            lemma_promote_kw_after_boundary(s.skip(1), mk2);
        }
        assert forall|j: int| 0 <= j < r.len() && (#[trigger] r[j]).kind is Keyword implies exists|
            k: int,
        | 0 <= k < j && is_boundary_tok(#[trigger] r[k]) by {
            if j == 0 {
                assert(r[0] == t && !(t.kind is Keyword));
            } else {
                assert(r[j] == r2[j - 1]);
                if is_boundary_tok(t) {
                    assert(is_boundary_tok(r[0]));
                    assert(0 <= 0 < j && is_boundary_tok(r[0]));
                } else {
                    assert(kw_after_boundary(r2));
                    let k = choose|k: int| 0 <= k < j - 1 && is_boundary_tok(#[trigger] r2[k]);
                    assert(r[k + 1] == r2[k]);
                    assert(0 <= k + 1 < j && is_boundary_tok(r[k + 1]));
                }
            }
        }
    }
}

proof fn lemma_promote_kw_separated(s: Seq<TokenModel>, mk: bool)
    requires
        no_keyword(s),
    ensures
        kw_separated(promote(s, mk)),
    decreases s.len(),
{
    let r = promote(s, mk);
    if s.len() > 0 {
        let t = s[0];
        let h = promote_head(t, mk);
        let mk2 = promote_next_mk(t, mk);
        lemma_promote_unfold(s, mk);
        lemma_no_keyword_tail(s);
        lemma_promote_kw_separated(s.skip(1), mk2);
        if !mk2 {
            lemma_promote_kw_after_boundary(s.skip(1), mk2);
        }
        let r2 = promote(s.skip(1), mk2);
        assert forall|i: int, j: int|
            0 <= i < j < r.len() && (#[trigger] r[i]).kind is Keyword && (#[trigger] r[j]).kind
                is Keyword implies !seg_free(r, i, j) by {
            if i >= 1 {
                assert(r[i] == r2[i - 1] && r[j] == r2[j - 1]);
                assert(!seg_free(r2, i - 1, j - 1));
                lemma_seg_free_tail(r, i - 1, j - 1);
                assert(r.skip(1) == r2);
            } else {
                // the head is a Keyword, so it was promoted and mk2 is false
                assert(r[0] == h);
                assert(!(t.kind is Keyword));
                assert(h.kind is Keyword ==> !mk2);
                assert(r[j] == r2[j - 1]);
                assert(kw_after_boundary(r2));
                let k = choose|k: int| 0 <= k < j - 1 && is_boundary_tok(#[trigger] r2[k]);
                assert(r[k + 1] == r2[k]);
                assert(0 < k + 1 < j && is_boundary_tok(r[k + 1]));
            }
        }
    }
}

#[verifier::rlimit(60)]
proof fn lemma_promote_arg_has_kw(s: Seq<TokenModel>, mk: bool)
    requires
        no_keyword(s),
    ensures
        mk ==> arg_has_kw(promote(s, mk)),
        !mk ==> arg_has_kw_weak(promote(s, mk)),
    decreases s.len(),
{
    let r = promote(s, mk);
    if s.len() > 0 {
        let t = s[0];
        let promoted = t.kind is RegularArg && mk && !ws_only(t.text);
        let h = promote_head(t, mk);
        let mk2 = promote_next_mk(t, mk);
        lemma_promote_unfold(s, mk);
        lemma_no_keyword_tail(s);
        lemma_promote_arg_has_kw(s.skip(1), mk2);
        let r2 = promote(s.skip(1), mk2);
        assert(r.skip(1) == r2);
        assert forall|i: int|
            0 <= i < r.len() && (#[trigger] r[i]).kind is RegularArg && !ws_only(r[i].text)
            implies ((exists|j: int|
            0 <= j < i && (#[trigger] r[j]).kind is Keyword && seg_free(r, j, i)) || (!mk
            && seg_free(r, -1, i))) by {
            if i == 0 {
                if mk {
                    // with mk set, a non-whitespace RegularArg head is promoted
                    assert(r[0] == h);
                    assert(promoted ==> h.kind is Keyword);
                    assert(!promoted && h.kind is RegularArg ==> ws_only(h.text));
                    assert(false);
                } else {
                    assert(seg_free(r, -1, 0));
                }
            } else {
                assert(r[i] == r2[i - 1]);
                if mk2 {
                    assert(arg_has_kw(r2));
                    let j = choose|j: int|
                        0 <= j < i - 1 && (#[trigger] r2[j]).kind is Keyword && seg_free(
                            r2,
                            j,
                            i - 1,
                        );
                    assert(r[j + 1] == r2[j]);
                    lemma_seg_free_tail(r, j, i - 1);
                    assert(seg_free(r, j + 1, i));
                } else {
                    assert(arg_has_kw_weak(r2));
                    if exists|j: int|
                        0 <= j < i - 1 && (#[trigger] r2[j]).kind is Keyword && seg_free(
                            r2,
                            j,
                            i - 1,
                        ) {
                        let j = choose|j: int|
                            0 <= j < i - 1 && (#[trigger] r2[j]).kind is Keyword && seg_free(
                                r2,
                                j,
                                i - 1,
                            );
                        assert(r[j + 1] == r2[j]);
                        lemma_seg_free_tail(r, j, i - 1);
                        assert(seg_free(r, j + 1, i));
                    } else {
                        assert(seg_free(r2, -1, i - 1));
                        lemma_seg_free_tail(r, -1, i - 1);
                        assert(seg_free(r, 0, i));
                        if promoted {
                            assert(r[0].kind is Keyword);
                        } else if is_boundary_tok(t) {
                            // mk2 would be true
                            assert(false);
                        } else {
                            // same flag continues; the head is no boundary
                            assert(mk2 == mk);
                            if mk {
                                assert(false);
                            } else {
                                assert forall|k: int| -1 < k < i implies !is_boundary_tok(
                                    #[trigger] r[k],
                                ) by {
                                    if k == 0 {
                                        assert(r[0] == t);
                                    } else {
                                        assert(!is_boundary_tok(r[k]));
                                    }
                                }
                                assert(seg_free(r, -1, i));
                            }
                        }
                    }
                }
            }
        }
    }
}

/// Keyword uniqueness per segment: in any tokenization, every Keyword has
/// non-whitespace text, two Keywords are separated by a run boundary, and
/// every non-whitespace RegularArg is preceded by a Keyword of its own run.
pub proof fn lemma_keyword_per_segment(text: Seq<char>, keep: bool)
    ensures
        kw_nonws(spec_tokenize(text, keep)),
        kw_separated(spec_tokenize(text, keep)),
        arg_has_kw(spec_tokenize(text, keep)),
{
    lemma_scan_no_keyword(scan_init(), text, keep);
    let s = scan(scan_init(), text, keep);
    lemma_promote_kw_nonws(s, true);
    lemma_promote_kw_separated(s, true);
    lemma_promote_arg_has_kw(s, true);
}

} // verus!
