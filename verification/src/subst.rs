//! The second pass over the token stream: environment-variable substitution
//! with fusing of adjacent tokens, dropping of whitespace-only tokens, and
//! the optional tilde substitution.

use vstd::prelude::*;

use crate::strutil::chars_of;
use crate::strutil::is_ws_only;
use crate::strutil::str_eq;
use crate::strutil::string_from_chars;
use crate::strutil::ws_only;
use crate::token::models;
use crate::token::Token;
use crate::token::TokenKind;
use crate::token::TokenModel;
use crate::token::lemma_models_push;

verus! {

/// The model of an environment: name-value pairs in lookup order.
pub open spec fn env_model(e: Seq<(String, String)>) -> Seq<(Seq<char>, Seq<char>)> {
    e.map_values(|p: (String, String)| (p.0@, p.1@))
}

/// The value of a variable: that of the first pair with the name, or the
/// empty string when the name is absent.
pub open spec fn spec_env_value(env: Seq<(Seq<char>, Seq<char>)>, name: Seq<char>) -> Seq<char>
    decreases env.len(),
{
    if env.len() == 0 {
        Seq::empty()
    } else if env[0].0 == name {
        env[0].1
    } else {
        spec_env_value(env.skip(1), name)
    }
}

/// Look a variable up in an environment snapshot.
pub fn get_env_value(env: &Vec<(String, String)>, name: &str) -> (r: String)
    ensures
        r@ == spec_env_value(env_model(env@), name@),
{
    let mut i: usize = 0;
    proof {
        assert(env_model(env@).skip(0) =~= env_model(env@));
    }
    while i < env.len()
        invariant
            i <= env@.len(),
            spec_env_value(env_model(env@).skip(i as int), name@) == spec_env_value(
                env_model(env@),
                name@,
            ),
        decreases env@.len() - i,
    {
        let ghost pre = env_model(env@).skip(i as int);
        proof {
            assert(pre[0] == (env@[i as int].0@, env@[i as int].1@));
            assert(pre.skip(1) =~= env_model(env@).skip(i + 1));
        }
        if str_eq(env[i].0.as_str(), name) {
            return env[i].1.clone();
        }
        i += 1;
    }
    proof {
        assert(env_model(env@).skip(i as int) =~= Seq::<(Seq<char>, Seq<char>)>::empty());
    }
    String::new()
}

/// The state of the filter pass.
#[verifier::ext_equal]
pub ghost struct FilterState {
    pub out: Seq<TokenModel>,
    pub join: bool,
    pub last_was_empty: bool,
}

/// Append characters to the text of the last token of a filter output,
/// starting a fresh RegularArg token when there is none.
pub open spec fn filter_append(out: Seq<TokenModel>, s: Seq<char>) -> Seq<TokenModel> {
    if out.len() == 0 {
        seq![TokenModel { text: s, kind: TokenKind::RegularArg }]
    } else {
        out.update(
            out.len() - 1,
            TokenModel { text: out.last().text + s, kind: out.last().kind },
        )
    }
}

/// One step of the filter pass.
pub open spec fn filter_step(
    st: FilterState,
    t: TokenModel,
    env: Seq<(Seq<char>, Seq<char>)>,
) -> FilterState {
    if t.kind is EnvVar {
        let val = spec_env_value(env, t.text);
        let out1 = if st.last_was_empty {
            st.out.push(TokenModel { text: Seq::empty(), kind: TokenKind::RegularArg })
        } else {
            st.out
        };
        FilterState {
            out: filter_append(out1, val),
            join: true,
            last_was_empty: st.last_was_empty,
        }
    } else {
        let empty = ws_only(t.text);
        if empty && !(t.kind is QuotedArg) {
            FilterState { out: st.out, join: false, last_was_empty: empty }
        } else if st.join {
            FilterState { out: filter_append(st.out, t.text), join: false, last_was_empty: empty }
        } else {
            FilterState { out: st.out.push(t), join: false, last_was_empty: empty }
        }
    }
}

/// The filter pass over a whole token sequence.
pub open spec fn spec_filter(
    toks: Seq<TokenModel>,
    st: FilterState,
    env: Seq<(Seq<char>, Seq<char>)>,
) -> Seq<TokenModel>
    decreases toks.len(),
{
    if toks.len() == 0 {
        st.out
    } else {
        spec_filter(toks.skip(1), filter_step(st, toks[0], env), env)
    }
}

/// The initial filter state.
pub open spec fn filter_init() -> FilterState {
    FilterState { out: Seq::empty(), join: false, last_was_empty: false }
}

fn exec_filter_append(out: &mut Vec<Token>, s: &str)
    ensures
        models(final(out)@) == filter_append(models(old(out)@), s@),
{
    if out.len() == 0 {
        let mut t = String::new();
        t.append(s);
        out.push(Token { text: t, kind: TokenKind::RegularArg });
        proof {
            lemma_models_push(out@.drop_last(), out@.last());
            assert(models(out@) =~~= filter_append(models(old(out)@), s@));
        }
    } else {
        let popped = out.pop();
        let mut t = match popped {
            Some(t) => t,
            None => {
                proof {
                    assert(false);
                }
                Token { text: String::new(), kind: TokenKind::RegularArg }
            },
        };
        t.text.append(s);
        out.push(t);
        proof {
            assert(models(out@) =~~= filter_append(models(old(out)@), s@));
        }
    }
}

/// Substitute environment-variable tokens from the given environment, fuse
/// them to their adjacent tokens, and drop whitespace-only unquoted tokens.
pub fn filter_tokens_and_parse_vars(tokens: Vec<Token>, env: &Vec<(String, String)>) -> (r: Vec<
    Token,
>)
    ensures
        models(r@) == spec_filter(models(tokens@), filter_init(), env_model(env@)),
{
    let ghost env_m = env_model(env@);
    let ghost all = models(tokens@);
    let mut rest = tokens;
    let mut out: Vec<Token> = Vec::new();
    let mut join: bool = false;
    let mut last_was_empty: bool = false;
    proof {
        assert(models(out@) =~= Seq::<TokenModel>::empty());
        assert(FilterState {
            out: models(out@),
            join: join,
            last_was_empty: last_was_empty,
        } =~~= filter_init());
    }
    while rest.len() > 0
        invariant
            spec_filter(
                models(rest@),
                FilterState { out: models(out@), join: join, last_was_empty: last_was_empty },
                env_m,
            ) == spec_filter(all, filter_init(), env_m),
            env_m == env_model(env@),
        decreases rest@.len(),
    {
        let ghost pre_rest = models(rest@);
        let ghost pre_st = FilterState {
            out: models(out@),
            join: join,
            last_was_empty: last_was_empty,
        };
        let t = rest.remove(0);
        proof {
            assert(models(rest@) =~= pre_rest.skip(1));
            assert(t@ == pre_rest[0]);
        }
        let is_env = match t.kind {
            TokenKind::EnvVar => true,
            _ => false,
        };
        if is_env {
            let val = get_env_value(env, t.text.as_str());
            if last_was_empty {
                out.push(Token { text: String::new(), kind: TokenKind::RegularArg });
                proof {
                    lemma_models_push(out@.drop_last(), out@.last());
                }
            }
            exec_filter_append(&mut out, val.as_str());
            join = true;
            proof {
                assert(FilterState {
                    out: models(out@),
                    join: join,
                    last_was_empty: last_was_empty,
                } =~~= filter_step(pre_st, pre_rest[0], env_m));
            }
        } else {
            let empty = is_ws_only(t.text.as_str());
            if empty && !(match t.kind {
                TokenKind::QuotedArg => true,
                _ => false,
            }) {
                join = false;
                last_was_empty = empty;
            } else if join {
                exec_filter_append(&mut out, t.text.as_str());
                join = false;
                last_was_empty = empty;
            } else {
                out.push(t);
                join = false;
                last_was_empty = empty;
                proof {
                    lemma_models_push(out@.drop_last(), out@.last());
                }
            }
            proof {
                assert(FilterState {
                    out: models(out@),
                    join: join,
                    last_was_empty: last_was_empty,
                } =~~= filter_step(pre_st, pre_rest[0], env_m));
            }
        }
    }
    proof {
        assert(models(rest@) =~= Seq::<TokenModel>::empty());
    }
    out
}

/// Replacing every tilde in a text by the home directory.
pub open spec fn spec_subst_tilde(text: Seq<char>, home: Seq<char>) -> Seq<char>
    decreases text.len(),
{
    if text.len() == 0 {
        Seq::empty()
    } else if text[0] == '~' {
        home + spec_subst_tilde(text.skip(1), home)
    } else {
        seq![text[0]] + spec_subst_tilde(text.skip(1), home)
    }
}

/// Replace every `~` in a string by the home directory.
pub fn subst_tilde(text: &str, home: &str) -> (r: String)
    ensures
        r@ == spec_subst_tilde(text@, home@),
{
    let chars = chars_of(text);
    let home_chars = chars_of(home);
    let mut out: Vec<char> = Vec::new();
    let mut i: usize = 0;
    proof {
        assert(text@.skip(0) =~= text@);
        assert(out@ + spec_subst_tilde(text@, home@) =~= spec_subst_tilde(text@, home@));
    }
    while i < chars.len()
        invariant
            i <= chars@.len(),
            chars@ == text@,
            home_chars@ == home@,
            out@ + spec_subst_tilde(text@.skip(i as int), home@) == spec_subst_tilde(text@, home@),
        decreases chars@.len() - i,
    {
        let ghost pre_out = out@;
        let ghost rest = text@.skip(i as int);
        proof {
            assert(rest[0] == text@[i as int]);
            assert(rest.skip(1) =~= text@.skip(i + 1));
        }
        let c = chars[i];
        if c == '~' {
            let mut j: usize = 0;
            while j < home_chars.len()
                invariant
                    j <= home_chars@.len(),
                    home_chars@ == home@,
                    out@ == pre_out + home@.subrange(0, j as int),
                decreases home_chars@.len() - j,
            {
                out.push(home_chars[j]);
                proof {
                    assert(out@ =~= pre_out + home@.subrange(0, j + 1 as int));
                }
                j += 1;
            }
            proof {
                assert(home@.subrange(0, home@.len() as int) =~= home@);
                assert(out@ + spec_subst_tilde(text@.skip(i + 1), home@) =~= spec_subst_tilde(
                    text@,
                    home@,
                ));
            }
        } else {
            out.push(c);
            proof {
                assert(out@ =~= pre_out + seq![c]);
                assert(out@ + spec_subst_tilde(text@.skip(i + 1), home@) =~= spec_subst_tilde(
                    text@,
                    home@,
                ));
            }
        }
        i += 1;
    }
    proof {
        assert(text@.skip(text@.len() as int) =~= Seq::<char>::empty());
        assert(out@ + Seq::<char>::empty() =~= out@);
    }
    string_from_chars(&out)
}

/// Apply tilde substitution to the text of every token that holds a tilde.
/// A token without one keeps its text (which the spec also says, since
/// substitution then changes nothing).
pub fn substitute_tildes(tokens: Vec<Token>, home: &str) -> (r: Vec<Token>)
    ensures
        r@.len() == tokens@.len(),
        forall|i: int|
            0 <= i < tokens@.len() ==> #[trigger] models(r@)[i] == (TokenModel {
                text: spec_subst_tilde(models(tokens@)[i].text, home@),
                kind: models(tokens@)[i].kind,
            }),
{
    let ghost all = models(tokens@);
    let mut rest = tokens;
    let mut out: Vec<Token> = Vec::new();
    while rest.len() > 0
        invariant
            out@.len() + rest@.len() == all.len(),
            forall|i: int|
                0 <= i < out@.len() ==> #[trigger] models(out@)[i] == (TokenModel {
                    text: spec_subst_tilde(all[i].text, home@),
                    kind: all[i].kind,
                }),
            forall|i: int|
                0 <= i < rest@.len() ==> #[trigger] models(rest@)[i] == all[out@.len() + i],
        decreases rest@.len(),
    {
        let ghost pre_rest = models(rest@);
        let ghost pre_out = models(out@);
        let t = rest.remove(0);
        proof {
            assert(models(rest@) =~= pre_rest.skip(1));
            assert(t@ == pre_rest[0]);
        }
        let new_text = subst_tilde(t.text.as_str(), home);
        proof {
            assert(t@ == all[pre_out.len() as int]);
        }
        out.push(Token { text: new_text, kind: t.kind });
        proof {
            lemma_models_push(out@.drop_last(), out@.last());
            assert(models(out@) == pre_out.push(out@.last()@));
            assert forall|i: int| 0 <= i < out@.len() implies #[trigger] models(out@)[i]
                == (TokenModel {
                text: spec_subst_tilde(all[i].text, home@),
                kind: all[i].kind,
            }) by {
                if i < pre_out.len() {
                    assert(models(out@)[i] == pre_out[i]);
                } else {
                    assert(models(out@)[i] == out@.last()@);
                }
            }
            assert(forall|i: int|
                0 <= i < pre_rest.skip(1).len() ==> #[trigger] models(rest@)[i] == all[out@.len()
                    + i]);
        }
    }
    out
}

/// No tilde in the text means substitution keeps the text.
pub proof fn lemma_subst_tilde_absent(text: Seq<char>, home: Seq<char>)
    requires
        forall|i: int| 0 <= i < text.len() ==> #[trigger] text[i] != '~',
    ensures
        spec_subst_tilde(text, home) == text,
    decreases text.len(),
{
    if text.len() == 0 {
        assert(spec_subst_tilde(text, home) =~= text);
    } else {
        assert(forall|i: int|
            0 <= i < text.skip(1).len() ==> #[trigger] text.skip(1)[i] != '~');
        lemma_subst_tilde_absent(text.skip(1), home);
        assert(seq![text[0]] + text.skip(1) =~= text);
    }
}


/// Tilde substitution over every token's text.
pub open spec fn spec_subst_tokens(toks: Seq<TokenModel>, home: Seq<char>) -> Seq<TokenModel> {
    toks.map_values(
        |t: TokenModel| TokenModel { text: spec_subst_tilde(t.text, home), kind: t.kind },
    )
}

} // verus!
