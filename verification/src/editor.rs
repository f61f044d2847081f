//! The line editor's state machine: cursor-accurate editing, history
//! navigation, suggestion expansion, and the two halves of tab completion
//! (preparing the query, applying the chosen completion).

use vstd::prelude::*;

use crate::history::get_suggestion;
use crate::history::spec_suggestion;
use crate::pipeline::strs;
use crate::strutil::chars_of;
use crate::strutil::contains_char;
use crate::strutil::concat_str;
use crate::strutil::ends_with;
use crate::strutil::is_suffix;
use crate::strutil::seq_contains_char;
use crate::strutil::string_from_chars;
use crate::token::concat_texts;
use crate::token::models;
use crate::token::parse_text_to_tokens;
use crate::token::spec_tokenize;
use crate::token::Token;
use crate::token::TokenKind;
use crate::token::TokenModel;

verus! {

/// A key event, as the editor understands it.
#[derive(Clone, Copy, Debug)]
pub enum Key {
    Char(char),
    CtrlC,
    Enter,
    Esc,
    Tab,
    Delete,
    Backspace,
    Up,
    Down,
    Left,
    Right,
    Home,
    End,
    Other,
}

/// The editor's state between key events.
pub struct EditorState {
    pub input: Vec<char>,
    pub cursor: usize,
    pub autocomplete_cycle_index: Option<usize>,
    pub last_input_before_autocomplete: Option<Vec<char>>,
    pub history_index: usize,
    pub listening: bool,
}

/// The model of the editor's state.
#[verifier::ext_equal]
pub ghost struct EdModel {
    pub input: Seq<char>,
    pub cursor: int,
    pub cycle: Option<int>,
    pub snapshot: Option<Seq<char>>,
    pub history_index: int,
    pub listening: bool,
}

pub open spec fn opt_chars(o: Option<Vec<char>>) -> Option<Seq<char>> {
    match o {
        Some(v) => Some(v@),
        None => None,
    }
}

pub open spec fn opt_idx(o: Option<usize>) -> Option<int> {
    match o {
        Some(i) => Some(i as int),
        None => None,
    }
}

impl View for EditorState {
    type V = EdModel;

    open spec fn view(&self) -> EdModel {
        EdModel {
            input: self.input@,
            cursor: self.cursor as int,
            cycle: opt_idx(self.autocomplete_cycle_index),
            snapshot: opt_chars(self.last_input_before_autocomplete),
            history_index: self.history_index as int,
            listening: self.listening,
        }
    }
}

impl EdModel {
    /// Cursor bounds: the cursor always lies within the input.
    pub open spec fn wf(self) -> bool {
        0 <= self.cursor <= self.input.len()
    }

    /// The state with the autocomplete cycle reset, as any non-Tab key
    /// leaves it.
    pub open spec fn reset(self) -> EdModel {
        EdModel { cycle: None, snapshot: None, ..self }
    }

    /// The cycle index and the input snapshot exist together.
    pub open spec fn paired(self) -> bool {
        self.cycle is Some <==> self.snapshot is Some
    }
}

impl EditorState {
    /// A fresh editor with empty input.
    pub fn new(history_len: usize) -> (r: EditorState)
        ensures
            r@ == (EdModel {
                input: Seq::empty(),
                cursor: 0,
                cycle: None,
                snapshot: None,
                history_index: history_len as int,
                listening: false,
            }),
            r@.wf(),
    {
        EditorState {
            input: Vec::new(),
            cursor: 0,
            autocomplete_cycle_index: None,
            last_input_before_autocomplete: None,
            history_index: history_len,
            listening: false,
        }
    }

    /// Insert a character at the cursor.
    pub fn write_char(&mut self, c: char)
        requires
            old(self)@.wf(),
        ensures
            final(self)@ == (EdModel {
                input: old(self)@.input.insert(old(self)@.cursor, c),
                ..old(self)@
            }),
    {
        self.input.insert(self.cursor, c);
    }

    /// Delete the character at the cursor, when there is one.
    pub fn delete_char(&mut self)
        requires
            old(self)@.wf(),
        ensures
            old(self)@.cursor < old(self)@.input.len() ==> final(self)@ == (EdModel {
                input: old(self)@.input.remove(old(self)@.cursor),
                ..old(self)@
            }),
            old(self)@.cursor >= old(self)@.input.len() ==> final(self)@ == old(self)@,
    {
        if self.cursor < self.input.len() {
            self.input.remove(self.cursor);
        }
    }
}

/// The token under the cursor: walk the tokens, adding each text's length
/// plus one; the first token whose running total reaches the cursor is it.
pub open spec fn spec_word_at(toks: Seq<TokenModel>, counter: int, cursor: int, index: int) -> Option<
    (int, TokenModel),
>
    decreases toks.len(),
{
    if toks.len() == 0 {
        None
    } else {
        let c2 = counter + toks[0].text.len() + 1;
        if c2 >= cursor {
            Some((index, toks[0]))
        } else {
            spec_word_at(toks.skip(1), c2, cursor, index + 1)
        }
    }
}

/// Find the index and token under the cursor, over the tokens of the input
/// parsed without separators.
#[verifier::loop_isolation(false)]
pub fn get_word_at_cursor(input: &Vec<char>, cursor: usize) -> (r: Option<(usize, Token)>)
    ensures
        ({
            let s = spec_tokenize(input@, false);
            match r {
                Some((i, t)) => spec_word_at(s, 0, cursor as int, 0) == Some((i as int, t@)),
                None => spec_word_at(s, 0, cursor as int, 0) is None,
            }
        }),
{
    let text = string_from_chars(input);
    let toks = parse_text_to_tokens(text.as_str(), false);
    let ghost all = models(toks@);
    let mut rest = toks;
    let mut counter: usize = 0;
    let mut index: usize = 0;
    let n0 = rest.len();
    proof {
        assert(models(rest@) == all);
        assert(index + rest@.len() == n0);
    }
    while rest.len() > 0
        invariant
            index + rest@.len() == n0,
            spec_word_at(models(rest@), counter as int, cursor as int, index as int)
                == spec_word_at(all, 0, cursor as int, 0),
        decreases rest@.len(),
    {
        let ghost pre = models(rest@);
        let t = rest.remove(0);
        proof {
            assert(models(rest@) =~= pre.skip(1));
            assert(t@ == pre[0]);
        }
        let tlen = t.text.unicode_len();
        if counter >= usize::MAX - tlen {
            // the running total exceeds every possible cursor position
            proof {
                assert(counter + tlen + 1 > usize::MAX >= cursor);
            }
            return Some((index, t));
        }
        let c2 = counter + tlen + 1;
        if c2 >= cursor {
            return Some((index, t));
        }
        counter = c2;
        index = index + 1;
    }
    proof {
        assert(models(rest@) =~= Seq::<TokenModel>::empty());
    }
    None
}

/// What the editor asks of its surroundings after a Tab: complete `word`
/// (in keyword position or not) at cycle position `cycle_index`, then hand
/// the result to `apply_completion` together with this query.
pub struct TabQuery {
    pub word: String,
    pub word_index: usize,
    pub is_keyword: bool,
    pub cycle_index: usize,
    pub words: Vec<Token>,
    pub starts_with_quote: bool,
    pub ends_with_quote: bool,
    pub ends_with_space: bool,
}

/// What handling one key yields: either the state is fully updated, or a
/// completion must be computed and applied.
pub enum KeyOutcome {
    Handled,
    Completion(TabQuery),
}

/// The state after Tab restores the pre-completion snapshot (or takes a
/// fresh one) and advances the cycle index.
pub open spec fn spec_tab_base(st: EdModel) -> EdModel {
    if st.snapshot is Some {
        let last = st.snapshot->0;
        let diff = if st.input.len() >= last.len() {
            st.input.len() - last.len()
        } else {
            0
        };
        let cur0 = if st.cursor >= diff {
            st.cursor - diff
        } else {
            0
        };
        let cur: int = if cur0 <= last.len() {
            cur0
        } else {
            last.len() as int
        };
        let ci: int = if st.cycle is Some {
            if st.cycle->0 < usize::MAX {
                st.cycle->0 + 1
            } else {
                st.cycle->0
            }
        } else {
            0
        };
        EdModel { input: last, cursor: cur, cycle: Some(ci), snapshot: Some(last), ..st }
    } else {
        EdModel { cycle: Some(0), snapshot: Some(st.input), ..st }
    }
}

/// History navigation upward: move toward older entries.
pub open spec fn spec_up(st: EdModel, hist: Seq<Seq<char>>) -> EdModel {
    if hist.len() == 0 {
        st
    } else {
        let hi: int = if st.history_index > 0 {
            st.history_index - 1
        } else {
            0
        };
        let j: int = if hi < hist.len() {
            hi
        } else {
            hist.len() - 1
        };
        EdModel { input: hist[j], cursor: hist[j].len() as int, history_index: j, ..st }
    }
}

/// History navigation downward: move toward newer entries, ending on the
/// empty line one past the end.
pub open spec fn spec_down(st: EdModel, hist: Seq<Seq<char>>) -> EdModel {
    if hist.len() == 0 {
        st
    } else {
        let hi: int = if st.history_index < hist.len() {
            st.history_index + 1
        } else {
            hist.len() as int
        };
        if hi < hist.len() {
            EdModel { input: hist[hi], cursor: hist[hi].len() as int, history_index: hi, ..st }
        } else {
            EdModel { input: Seq::empty(), cursor: 0, history_index: hi, ..st }
        }
    }
}

/// Right at end of line expands the suggestion; elsewhere it advances the
/// cursor.
pub open spec fn spec_right(st: EdModel, hist: Seq<Seq<char>>) -> EdModel {
    if st.cursor + 1 <= st.input.len() {
        EdModel { cursor: st.cursor + 1, ..st }
    } else {
        match spec_suggestion(hist, st.input) {
            Some(s) => EdModel { input: s, cursor: s.len() as int, ..st },
            None => EdModel { cursor: st.input.len() as int, ..st },
        }
    }
}

/// What a completion query must hold, relative to the state after the Tab
/// snapshot restore.
pub open spec fn spec_tab_query_ok(base: EdModel, r: KeyOutcome) -> bool {
    let toks = spec_tokenize(base.input, false);
    let toks_sep = spec_tokenize(base.input, true);
    match spec_word_at(toks, 0, base.cursor, 0) {
        None => r is Handled,
        Some((wi, wt)) => {
            if 0 <= wi < toks_sep.len() {
                &&& r matches KeyOutcome::Completion(q)
                &&& r->Completion_0.word@ == wt.text
                &&& r->Completion_0.word_index == wi
                &&& r->Completion_0.is_keyword == (toks_sep[wi].kind is Keyword)
                &&& r->Completion_0.cycle_index as int == base.cycle->0
                &&& models(r->Completion_0.words@) == toks_sep.remove(wi)
                &&& r->Completion_0.starts_with_quote == (toks_sep[wi].kind is QuotedArg)
                &&& r->Completion_0.ends_with_quote == (toks_sep[wi].kind is QuotedArg
                    && is_suffix(toks_sep[wi].text, seq!['"']))
                &&& r->Completion_0.ends_with_space == is_suffix(toks_sep[wi].text, seq![' '])
            } else {
                r is Handled
            }
        },
    }
}

impl EditorState {
    fn set_input(&mut self, chars: Vec<char>, cursor: usize)
        ensures
            final(self)@ == (EdModel { input: chars@, cursor: cursor as int, ..old(self)@ }),
    {
        self.input = chars;
        self.cursor = cursor;
    }

    /// Handle one key event. Every key but Tab updates the state fully and
    /// returns `Handled`; Tab may return a completion query for the
    /// surroundings to answer and hand to `apply_completion`.
    pub fn handle_key(&mut self, key: Key, history: &Vec<String>) -> (r: KeyOutcome)
        requires
            old(self)@.wf(),
        ensures
            final(self)@.wf(),
            old(self)@.paired() ==> final(self)@.paired(),
            ({
                let st = old(self)@;
                let hist = strs(history@);
                match key {
                    Key::Enter => final(self)@ == (EdModel { listening: false, ..st.reset() })
                        && (r is Handled),
                    Key::CtrlC => final(self)@ == (EdModel {
                        input: Seq::empty(),
                        cursor: 0,
                        listening: false,
                        ..st.reset()
                    }) && (r is Handled),
                    Key::Char(c) => final(self)@ == (EdModel {
                        input: st.input.insert(st.cursor, c),
                        cursor: st.cursor + 1,
                        ..st.reset()
                    }) && (r is Handled),
                    Key::Esc => final(self)@ == (EdModel {
                        input: Seq::empty(),
                        cursor: 0,
                        ..st.reset()
                    }) && (r is Handled),
                    Key::Delete => ((st.cursor < st.input.len() ==> final(self)@ == (EdModel {
                        input: st.input.remove(st.cursor),
                        ..st.reset()
                    })) && (st.cursor >= st.input.len() ==> final(self)@ == st.reset()) && (r
                        is Handled)),
                    Key::Backspace => ((st.cursor > 0 ==> final(self)@ == (EdModel {
                        input: st.input.remove(st.cursor - 1),
                        cursor: st.cursor - 1,
                        ..st.reset()
                    })) && (st.cursor == 0 ==> final(self)@ == st.reset()) && (r is Handled)),
                    Key::Up => final(self)@ == spec_up(st.reset(), hist) && (r is Handled),
                    Key::Down => final(self)@ == spec_down(st.reset(), hist) && (r is Handled),
                    Key::Left => final(self)@ == (EdModel {
                        cursor: if st.cursor > 0 {
                            st.cursor - 1
                        } else {
                            0
                        },
                        ..st.reset()
                    }) && (r is Handled),
                    Key::Right => final(self)@ == spec_right(st.reset(), hist) && (r is Handled),
                    Key::Home => final(self)@ == (EdModel { cursor: 0, ..st.reset() }) && (r
                        is Handled),
                    Key::End => final(self)@ == (EdModel {
                        cursor: st.input.len() as int,
                        ..st.reset()
                    }) && (r is Handled),
                    Key::Other => final(self)@ == st.reset() && (r is Handled),
                    Key::Tab => ((st.input.len() == 0 ==> final(self)@ == st && (r is Handled))
                        && (st.input.len() > 0 ==> final(self)@ == spec_tab_base(st)
                        && spec_tab_query_ok(spec_tab_base(st), r))),
                }
            }),
    {
        match key {
            Key::Enter => {
                self.listening = false;
                self.autocomplete_cycle_index = None;
                self.last_input_before_autocomplete = None;
                KeyOutcome::Handled
            },
            Key::CtrlC => {
                self.input = Vec::new();
                self.cursor = 0;
                self.listening = false;
                self.autocomplete_cycle_index = None;
                self.last_input_before_autocomplete = None;
                KeyOutcome::Handled
            },
            Key::Char(c) => {
                self.write_char(c);
                let n = self.input.len();
                assert(self.cursor < n);
                self.cursor = self.cursor + 1;
                self.autocomplete_cycle_index = None;
                self.last_input_before_autocomplete = None;
                KeyOutcome::Handled
            },
            Key::Esc => {
                self.input = Vec::new();
                self.cursor = 0;
                self.autocomplete_cycle_index = None;
                self.last_input_before_autocomplete = None;
                KeyOutcome::Handled
            },
            Key::Delete => {
                self.delete_char();
                self.autocomplete_cycle_index = None;
                self.last_input_before_autocomplete = None;
                KeyOutcome::Handled
            },
            Key::Backspace => {
                if self.cursor > 0 {
                    self.cursor = self.cursor - 1;
                    self.delete_char();
                    proof {
                        assert(old(self)@.cursor - 1 < old(self)@.input.len());
                    }
                }
                self.autocomplete_cycle_index = None;
                self.last_input_before_autocomplete = None;
                KeyOutcome::Handled
            },
            Key::Up => {
                if history.len() > 0 {
                    let hi = if self.history_index > 0 {
                        self.history_index - 1
                    } else {
                        0
                    };
                    let j = if hi < history.len() {
                        hi
                    } else {
                        history.len() - 1
                    };
                    let entry = chars_of(history[j].as_str());
                    let n = entry.len();
                    self.set_input(entry, n);
                    self.history_index = j;
                }
                self.autocomplete_cycle_index = None;
                self.last_input_before_autocomplete = None;
                proof {
                    assert(self@ =~~= spec_up(old(self)@.reset(), strs(history@)));
                }
                KeyOutcome::Handled
            },
            Key::Down => {
                if history.len() > 0 {
                    let hi = if self.history_index < history.len() {
                        self.history_index + 1
                    } else {
                        history.len()
                    };
                    if hi < history.len() {
                        let entry = chars_of(history[hi].as_str());
                        let n = entry.len();
                        self.set_input(entry, n);
                    } else {
                        self.input = Vec::new();
                        self.cursor = 0;
                    }
                    self.history_index = hi;
                }
                self.autocomplete_cycle_index = None;
                self.last_input_before_autocomplete = None;
                proof {
                    assert(self@ =~~= spec_down(old(self)@.reset(), strs(history@)));
                }
                KeyOutcome::Handled
            },
            Key::Left => {
                if self.cursor > 0 {
                    self.cursor = self.cursor - 1;
                }
                self.autocomplete_cycle_index = None;
                self.last_input_before_autocomplete = None;
                KeyOutcome::Handled
            },
            Key::Right => {
                if self.cursor < self.input.len() {
                    self.cursor = self.cursor + 1;
                } else {
                    match get_suggestion(history, &self.input) {
                        Some(s) => {
                            let n = s.len();
                            self.set_input(s, n);
                        },
                        None => {
                            self.cursor = self.input.len();
                        },
                    }
                }
                self.autocomplete_cycle_index = None;
                self.last_input_before_autocomplete = None;
                proof {
                    assert(self@ =~~= spec_right(old(self)@.reset(), strs(history@)));
                }
                KeyOutcome::Handled
            },
            Key::Home => {
                self.cursor = 0;
                self.autocomplete_cycle_index = None;
                self.last_input_before_autocomplete = None;
                KeyOutcome::Handled
            },
            Key::End => {
                self.cursor = self.input.len();
                self.autocomplete_cycle_index = None;
                self.last_input_before_autocomplete = None;
                KeyOutcome::Handled
            },
            Key::Other => {
                self.autocomplete_cycle_index = None;
                self.last_input_before_autocomplete = None;
                KeyOutcome::Handled
            },
            Key::Tab => self.tab_press(),
        }
    }

    #[verifier::rlimit(100)]
    #[verifier::spinoff_prover]
    fn tab_press(&mut self) -> (r: KeyOutcome)
        requires
            old(self)@.wf(),
        ensures
            final(self)@.wf(),
            final(self)@.paired() || final(self)@ == old(self)@,
            old(self)@.input.len() == 0 ==> final(self)@ == old(self)@ && (r is Handled),
            old(self)@.input.len() > 0 ==> final(self)@ == spec_tab_base(old(self)@)
                && spec_tab_query_ok(spec_tab_base(old(self)@), r),
    {

                if self.input.len() == 0 {
                    return KeyOutcome::Handled;
                }
                match &self.last_input_before_autocomplete {
                    Some(last) => {
                        let last2 = clone_chars(last);
                        let diff = if self.input.len() >= last2.len() {
                            self.input.len() - last2.len()
                        } else {
                            0
                        };
                        let cur0 = if self.cursor >= diff {
                            self.cursor - diff
                        } else {
                            0
                        };
                        let cur = if cur0 <= last2.len() {
                            cur0
                        } else {
                            last2.len()
                        };
                        let ci = match self.autocomplete_cycle_index {
                            Some(c) => {
                                if c < usize::MAX {
                                    c + 1
                                } else {
                                    c
                                }
                            },
                            None => 0,
                        };
                        self.set_input(last2, cur);
                        self.autocomplete_cycle_index = Some(ci);
                    },
                    None => {
                        self.autocomplete_cycle_index = Some(0);
                        self.last_input_before_autocomplete = Some(clone_chars(&self.input));
                    },
                }
                proof {
                    assert(self@ =~~= spec_tab_base(old(self)@));
                }
                let ghost base = self@;
                let word_found = get_word_at_cursor(&self.input, self.cursor);
                let (word_index, word) = match word_found {
                    Some(p) => p,
                    None => {
                        return KeyOutcome::Handled;
                    },
                };
                let input_s = string_from_chars(&self.input);
                let mut words = parse_text_to_tokens(input_s.as_str(), true);
                if word_index >= words.len() {
                    return KeyOutcome::Handled;
                }
                let is_keyword = match words[word_index].kind {
                    TokenKind::Keyword => true,
                    _ => false,
                };
                let starts_with_quote = match words[word_index].kind {
                    TokenKind::QuotedArg => true,
                    _ => false,
                };
                proof {
                    reveal_strlit("\"");
                    reveal_strlit(" ");
                    assert("\""@ =~= seq!['"']);
                    assert(" "@ =~= seq![' ']);
                }
                let ends_with_quote = starts_with_quote && ends_with(
                    words[word_index].text.as_str(),
                    "\"",
                );
                let ends_with_space = ends_with(words[word_index].text.as_str(), " ");
                let ghost pre_words = models(words@);
                let cycle_index = match self.autocomplete_cycle_index {
                    Some(c) => c,
                    None => 0,
                };
                words.remove(word_index);
                proof {
                    assert(models(words@) =~= pre_words.remove(word_index as int));
                }
                KeyOutcome::Completion(
                    TabQuery {
                        word: word.text,
                        word_index: word_index,
                        is_keyword: is_keyword,
                        cycle_index: cycle_index,
                        words: words,
                        starts_with_quote: starts_with_quote,
                        ends_with_quote: ends_with_quote,
                        ends_with_space: ends_with_space,
                    },
                )
                }
}

/// The completion after quote-wrapping for spaces: quoted when it holds a
/// space and the original word was unquoted; the closing quote only when
/// the word is not the last.
pub open spec fn spec_wrap_spaces(
    ac: Seq<char>,
    starts_with_quote: bool,
    word_index: int,
    words_len: int,
) -> Seq<char> {
    if seq_contains_char(ac, ' ') && !starts_with_quote {
        if word_index != words_len {
            seq!['"'] + ac + seq!['"']
        } else {
            seq!['"'] + ac
        }
    } else {
        ac
    }
}

/// Restore the quoting and trailing space that the original word had.
pub open spec fn spec_redecorate(
    ac1: Seq<char>,
    starts_with_quote: bool,
    ends_with_quote: bool,
    ends_with_space: bool,
) -> Seq<char> {
    let a = if starts_with_quote {
        seq!['"'] + ac1
    } else {
        ac1
    };
    let b = if ends_with_quote {
        a + seq!['"']
    } else {
        a
    };
    if ends_with_space {
        b + seq![' ']
    } else {
        b
    }
}

/// The input rebuilt from the remaining tokens with the completion inserted
/// at the word's position (clamped into range).
pub open spec fn spec_splice(words: Seq<TokenModel>, idx: int, ins: Seq<char>) -> Seq<char> {
    let k = if idx < 0 {
        0
    } else if idx > words.len() {
        words.len() as int
    } else {
        idx
    };
    concat_texts(words.take(k)) + ins + concat_texts(words.skip(k))
}

/// The cursor after a completion: moved by the completion's net character
/// delta, clamped into the new input.
pub open spec fn spec_completion_cursor(cursor: int, ac1_len: int, word_len: int, nlen: int) -> int {
    let v = cursor + ac1_len - word_len;
    if v < 0 {
        0
    } else if v > nlen {
        nlen
    } else {
        v
    }
}

impl EditorState {
    /// Apply an answered completion query: wrap the completion in quotes
    /// where needed, splice it into the input in place of the word, and
    /// move the cursor by the net delta.
    pub fn apply_completion(&mut self, q: TabQuery, completion: Option<String>)
        requires
            old(self)@.wf(),
        ensures
            final(self)@.wf(),
            final(self)@.cycle == old(self)@.cycle,
            final(self)@.snapshot == old(self)@.snapshot,
            completion is None ==> final(self)@ == old(self)@,
            completion matches Some(ac) ==> ({
                let ac1 = spec_wrap_spaces(
                    ac@,
                    q.starts_with_quote,
                    q.word_index as int,
                    q.words@.len() as int,
                );
                let ac2 = spec_redecorate(
                    ac1,
                    q.starts_with_quote,
                    q.ends_with_quote,
                    q.ends_with_space,
                );
                let ninput = spec_splice(models(q.words@), q.word_index as int, ac2);
                final(self)@ == (EdModel {
                    input: ninput,
                    cursor: spec_completion_cursor(
                        old(self)@.cursor,
                        ac1.len() as int,
                        q.word@.len() as int,
                        ninput.len() as int,
                    ),
                    ..old(self)@
                })
            }),
    {
        let ac = match completion {
            Some(ac) => ac,
            None => {
                return ;
            },
        };
        proof {
            reveal_strlit("\"");
            assert("\""@ =~= seq!['"']);
        }
        let mut ac1: String;
        if contains_char(ac.as_str(), ' ') && !q.starts_with_quote {
            ac1 = concat_str("\"", ac.as_str());
            if q.word_index != q.words.len() {
                ac1 = concat_str(ac1.as_str(), "\"");
            }
            proof {
                assert(ac1@ =~= spec_wrap_spaces(
                    ac@,
                    q.starts_with_quote,
                    q.word_index as int,
                    q.words@.len() as int,
                ));
            }
        } else {
            ac1 = ac;
            proof {
                assert(ac1@ =~= spec_wrap_spaces(
                    ac@,
                    q.starts_with_quote,
                    q.word_index as int,
                    q.words@.len() as int,
                ));
            }
        }
        let ac1_len = ac1.unicode_len();
        let mut ac2 = ac1;
        if q.starts_with_quote {
            ac2 = concat_str("\"", ac2.as_str());
        }
        if q.ends_with_quote {
            ac2 = concat_str(ac2.as_str(), "\"");
        }
        if q.ends_with_space {
            proof {
                reveal_strlit(" ");
                assert(" "@ =~= seq![' ']);
            }
            ac2 = concat_str(ac2.as_str(), " ");
        }
        let ghost ac1_view = spec_wrap_spaces(
            ac@,
            q.starts_with_quote,
            q.word_index as int,
            q.words@.len() as int,
        );
        proof {
            assert(ac2@ =~= spec_redecorate(
                ac1_view,
                q.starts_with_quote,
                q.ends_with_quote,
                q.ends_with_space,
            ));
        }
        // splice the completion into the remaining tokens
        let ghost wmodels = models(q.words@);
        let k = if q.word_index > q.words.len() {
            q.words.len()
        } else {
            q.word_index
        };
        let mut out: Vec<char> = Vec::new();
        let mut i: usize = 0;
        proof {
            assert(wmodels.take(0) =~= Seq::<TokenModel>::empty());
            assert(out@ =~= concat_texts(wmodels.take(0)));
        }
        while i < k
            invariant
                i <= k <= q.words@.len(),
                wmodels == models(q.words@),
                out@ == concat_texts(wmodels.take(i as int)),
            decreases k - i,
        {
            let tc = chars_of(q.words[i].text.as_str());
            let mut j: usize = 0;
            let ghost pre_out = out@;
            while j < tc.len()
                invariant
                    j <= tc@.len(),
                    i < q.words@.len(),
                    wmodels == models(q.words@),
                    tc@ == wmodels[i as int].text,
                    out@ == pre_out + tc@.subrange(0, j as int),
                decreases tc@.len() - j,
            {
                out.push(tc[j]);
                proof {
                    assert(out@ =~= pre_out + tc@.subrange(0, j + 1 as int));
                }
                j += 1;
            }
            proof {
                assert(tc@.subrange(0, tc@.len() as int) =~= tc@);
                assert(wmodels.take(i + 1 as int) =~= wmodels.take(i as int).push(
                    wmodels[i as int],
                ));
                crate::token::lemma_concat_push(wmodels.take(i as int), wmodels[i as int]);
                assert(out@ =~= concat_texts(wmodels.take(i + 1 as int)));
            }
            i += 1;
        }
        let ghost mid_out = out@;
        let ac2c = chars_of(ac2.as_str());
        let mut j: usize = 0;
        while j < ac2c.len()
            invariant
                j <= ac2c@.len(),
                ac2c@ == ac2@,
                out@ == mid_out + ac2@.subrange(0, j as int),
            decreases ac2c@.len() - j,
        {
            out.push(ac2c[j]);
            proof {
                assert(out@ =~= mid_out + ac2@.subrange(0, j + 1 as int));
            }
            j += 1;
        }
        proof {
            assert(ac2@.subrange(0, ac2@.len() as int) =~= ac2@);
        }
        let ghost mid2_out = out@;
        let mut i2: usize = k;
        proof {
            assert(wmodels.subrange(k as int, k as int) =~= Seq::<TokenModel>::empty());
            assert(out@ =~= mid2_out + concat_texts(wmodels.subrange(k as int, k as int)));
        }
        while i2 < q.words.len()
            invariant
                k <= i2 <= q.words@.len(),
                wmodels == models(q.words@),
                mid2_out == mid_out + ac2@,
                out@ == mid2_out + concat_texts(wmodels.subrange(k as int, i2 as int)),
            decreases q.words@.len() - i2,
        {
            let tc = chars_of(q.words[i2].text.as_str());
            let mut j2: usize = 0;
            let ghost pre_out = out@;
            while j2 < tc.len()
                invariant
                    j2 <= tc@.len(),
                    i2 < q.words@.len(),
                    wmodels == models(q.words@),
                    tc@ == wmodels[i2 as int].text,
                    out@ == pre_out + tc@.subrange(0, j2 as int),
                decreases tc@.len() - j2,
            {
                out.push(tc[j2]);
                proof {
                    assert(out@ =~= pre_out + tc@.subrange(0, j2 + 1 as int));
                }
                j2 += 1;
            }
            proof {
                assert(tc@.subrange(0, tc@.len() as int) =~= tc@);
                assert(wmodels.subrange(k as int, i2 + 1 as int) =~= wmodels.subrange(
                    k as int,
                    i2 as int,
                ).push(wmodels[i2 as int]));
                crate::token::lemma_concat_push(
                    wmodels.subrange(k as int, i2 as int),
                    wmodels[i2 as int],
                );
                assert(out@ =~= mid2_out + concat_texts(wmodels.subrange(k as int, i2 + 1 as int)));
            }
            i2 += 1;
        }
        proof {
            assert(wmodels.subrange(k as int, wmodels.len() as int) =~= wmodels.skip(k as int));
            assert(out@ =~= spec_splice(wmodels, q.word_index as int, ac2@));
        }
        // move the cursor by the net delta, clamped into the new input
        let nlen = out.len();
        let wl = q.word.unicode_len();
        let c0: usize;
        if ac1_len >= wl {
            let d = ac1_len - wl;
            if self.cursor >= nlen || d >= nlen - self.cursor {
                c0 = nlen;
            } else {
                c0 = self.cursor + d;
            }
        } else {
            let d = wl - ac1_len;
            if self.cursor <= d {
                c0 = 0;
            } else {
                c0 = self.cursor - d;
            }
        }
        let c1 = if c0 > nlen {
            nlen
        } else {
            c0
        };
        proof {
            assert(c1 as int == spec_completion_cursor(
                old(self)@.cursor,
                ac1_len as int,
                wl as int,
                nlen as int,
            ));
        }
        self.set_input(out, c1);
    }
}

fn clone_chars(v: &Vec<char>) -> (r: Vec<char>)
    ensures
        r@ == v@,
{
    let mut r: Vec<char> = Vec::new();
    let mut i: usize = 0;
    while i < v.len()
        invariant
            i <= v@.len(),
            r@ == v@.subrange(0, i as int),
        decreases v@.len() - i,
    {
        r.push(v[i]);
        proof {
            assert(r@ =~= v@.subrange(0, i + 1 as int));
        }
        i += 1;
    }
    proof {
        assert(r@ =~= v@);
    }
    r
}

} // verus!
