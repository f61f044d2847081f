use shoe::token::parse_text_to_tokens;
use shoe::token::TokenKind;
use shoe::subst::filter_tokens_and_parse_vars;
use shoe::subst::subst_tilde;

fn texts(toks: &Vec<shoe::token::Token>) -> Vec<String> {
    let mut v = Vec::new();
    for t in toks {
        v.push(t.text.clone());
    }
    v
}

#[test]
fn round_trip_simple() {
    // concatenating the texts of a separator-keeping tokenization restores the input
    let inputs = [
        "echo hello > out.txt",
        "a \"b c\" d",
        "x%HOME%y",
        "a\\ b;c&&d||e|f>>g<h",
        "trailing\\",
        "\"unclosed",
        "  spaced   out  ",
    ];
    for input in inputs {
        let toks = parse_text_to_tokens(input, true);
        let joined: String = texts(&toks).concat();
        assert_eq!(joined, *input);
    }
}

#[test]
fn keyword_promotion_per_segment() {
    let toks = parse_text_to_tokens("echo one && echo two", false);
    let kw: Vec<&shoe::token::Token> =
        toks.iter().filter(|t| matches!(t.kind, TokenKind::Keyword)).collect();
    assert_eq!(kw.len(), 2);
    assert_eq!(kw[0].text, "echo");
    assert_eq!(kw[1].text, "echo");
}

#[test]
fn keyword_not_after_redirect() {
    // a redirect target does not open a new run, so it stays a RegularArg
    let toks = parse_text_to_tokens("echo a > b", false);
    let kw: Vec<&shoe::token::Token> =
        toks.iter().filter(|t| matches!(t.kind, TokenKind::Keyword)).collect();
    assert_eq!(kw.len(), 1);
    assert_eq!(kw[0].text, "echo");
}

#[test]
fn quotes_open_and_close() {
    let toks = parse_text_to_tokens("say \"hi there\" now", false);
    let q: Vec<&shoe::token::Token> =
        toks.iter().filter(|t| matches!(t.kind, TokenKind::QuotedArg)).collect();
    assert_eq!(q.len(), 1);
    assert_eq!(q[0].text, "hi there");
}

#[test]
fn quote_mid_argument_is_literal() {
    let toks = parse_text_to_tokens("ab\"cd", false);
    assert_eq!(toks.len(), 1);
    assert_eq!(toks[0].text, "ab\"cd");
}

#[test]
fn backslash_escapes() {
    // escapable characters lose the backslash without separators
    let toks = parse_text_to_tokens("a\\;b", false);
    assert_eq!(toks.len(), 1);
    assert_eq!(toks[0].text, "a;b");
    // and keep it with separators
    let toks = parse_text_to_tokens("a\\;b", true);
    assert_eq!(toks.len(), 1);
    assert_eq!(toks[0].text, "a\\;b");
    // an unescapable pair keeps the backslash either way
    let toks = parse_text_to_tokens("a\\zb", false);
    assert_eq!(toks[0].text, "a\\zb");
}

#[test]
fn specials_merge() {
    let toks = parse_text_to_tokens("a&&b", false);
    let texts = texts(&toks);
    assert_eq!(texts, vec!["a", "&&", "b"]);
    assert!(matches!(toks[1].kind, TokenKind::Special));
}

#[test]
fn env_var_tokenized() {
    // the tokenizer emits a single EnvVar token holding the name
    let toks = parse_text_to_tokens("%HOME%", false);
    let envs: Vec<&shoe::token::Token> =
        toks.iter().filter(|t| matches!(t.kind, TokenKind::EnvVar)).collect();
    assert_eq!(envs.len(), 1);
    assert_eq!(envs[0].text, "HOME");
}

#[test]
fn env_var_substituted() {
    // after substitution a single token holds the value
    let toks = parse_text_to_tokens("%HOME%", false);
    let env = vec![("HOME".to_string(), "/home/u".to_string())];
    let filtered = filter_tokens_and_parse_vars(toks, &env);
    assert_eq!(filtered.len(), 1);
    assert_eq!(filtered[0].text, "/home/u");
}

#[test]
fn env_var_fuses_neighbors() {
    let toks = parse_text_to_tokens("pre%V%post", false);
    let env = vec![("V".to_string(), "-mid-".to_string())];
    let filtered = filter_tokens_and_parse_vars(toks, &env);
    assert_eq!(filtered.len(), 1);
    assert_eq!(filtered[0].text, "pre-mid-post");
}

#[test]
fn unset_variable_becomes_empty() {
    let toks = parse_text_to_tokens("a%NOPE%b", false);
    let env: Vec<(String, String)> = Vec::new();
    let filtered = filter_tokens_and_parse_vars(toks, &env);
    assert_eq!(filtered.len(), 1);
    assert_eq!(filtered[0].text, "ab");
}

#[test]
fn whitespace_tokens_dropped() {
    let toks = parse_text_to_tokens("a   b", false);
    let env: Vec<(String, String)> = Vec::new();
    let filtered = filter_tokens_and_parse_vars(toks, &env);
    let texts: Vec<String> = filtered.iter().map(|t| t.text.clone()).collect();
    assert_eq!(texts, vec!["a", "b"]);
}

#[test]
fn tilde_substitution_everywhere() {
    assert_eq!(subst_tilde("~/x and ~", "/home/u"), "/home/u/x and /home/u");
    assert_eq!(subst_tilde("no tilde", "/home/u"), "no tilde");
}
