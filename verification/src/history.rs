//! The history buffer: loading it from its file's text, recording executed
//! commands without consecutive duplicates, and the ghost-text suggestion
//! drawn from it.

use vstd::prelude::*;

use crate::pipeline::strs;
use crate::strutil::chars_of;
use crate::strutil::is_prefix;
use crate::strutil::is_ws_only;
use crate::strutil::push_char;
use crate::strutil::str_eq;
use crate::strutil::string_from_chars;
use crate::strutil::ws_only;

verus! {

/// The lines of a history file: split on newlines, whitespace-only lines
/// dropped.
pub open spec fn spec_history_lines(text: Seq<char>, acc: Seq<char>) -> Seq<Seq<char>>
    decreases text.len(),
{
    if text.len() == 0 {
        if ws_only(acc) {
            Seq::empty()
        } else {
            seq![acc]
        }
    } else if text[0] == '\n' {
        if ws_only(acc) {
            spec_history_lines(text.skip(1), Seq::empty())
        } else {
            seq![acc] + spec_history_lines(text.skip(1), Seq::empty())
        }
    } else {
        spec_history_lines(text.skip(1), acc.push(text[0]))
    }
}

/// Parse a history file's text into its entries.
pub fn history_from_text(text: &str) -> (r: Vec<String>)
    ensures
        strs(r@) == spec_history_lines(text@, Seq::empty()),
{
    let chars = chars_of(text);
    let mut out: Vec<String> = Vec::new();
    let mut acc: String = String::new();
    let mut i: usize = 0;
    proof {
        assert(text@.skip(0) =~= text@);
        assert(strs(out@) =~= Seq::<Seq<char>>::empty());
        assert(strs(out@) + spec_history_lines(text@, acc@) =~= spec_history_lines(
            text@,
            Seq::empty(),
        ));
    }
    while i < chars.len()
        invariant
            i <= text@.len(),
            chars@ == text@,
            strs(out@) + spec_history_lines(text@.skip(i as int), acc@) == spec_history_lines(
                text@,
                Seq::empty(),
            ),
        decreases text@.len() - i,
    {
        let ghost rest = text@.skip(i as int);
        proof {
            assert(rest[0] == text@[i as int]);
            assert(rest.skip(1) =~= text@.skip(i + 1));
        }
        let c = chars[i];
        if c == '\n' {
            if !is_ws_only(acc.as_str()) {
                out.push(acc);
                proof {
                    assert(strs(out@) =~= strs(out@.drop_last()).push(out@.last()@));
                    assert(strs(out@.drop_last()).push(out@.last()@) =~= strs(out@.drop_last())
                        + seq![out@.last()@]);
                }
            }
            acc = String::new();
        } else {
            push_char(&mut acc, c);
        }
        proof {
            assert(strs(out@) + spec_history_lines(text@.skip(i + 1), acc@) =~= spec_history_lines(
                text@,
                Seq::empty(),
            ));
        }
        i += 1;
    }
    proof {
        assert(text@.skip(text@.len() as int) =~= Seq::<char>::empty());
    }
    if !is_ws_only(acc.as_str()) {
        out.push(acc);
        proof {
            assert(strs(out@) =~= strs(out@.drop_last()).push(out@.last()@));
            assert(strs(out@.drop_last()).push(out@.last()@) =~= strs(out@.drop_last()) + seq![
                out@.last()@,
            ]);
            assert(strs(out@) =~= spec_history_lines(text@, Seq::empty()));
        }
    } else {
        proof {
            assert(strs(out@) + Seq::<Seq<char>>::empty() =~= strs(out@));
        }
    }
    out
}

/// Record an executed command: appended only when history is allowed and
/// the command does not repeat the last entry. The whitespace-only command
/// is never recorded (the caller does not execute it either).
///
/// History non-duplication: when the last entry equals the command, the
/// history is unchanged.
pub fn record_history(history: &mut Vec<String>, command: &String, allow_history: bool) -> (stored:
    bool)
    ensures
        stored == (allow_history && !ws_only(command@) && (old(history)@.len() == 0 || old(
            history,
        )@.last()@ != command@)),
        stored ==> final(history)@.len() == old(history)@.len() + 1 && strs(final(history)@)
            == strs(old(history)@).push(command@),
        !stored ==> final(history)@ == old(history)@,
{
    if is_ws_only(command.as_str()) {
        return false;
    }
    if !allow_history {
        return false;
    }
    if history.len() > 0 {
        let last = &history[history.len() - 1];
        if str_eq(last.as_str(), command.as_str()) {
            return false;
        }
    }
    history.push(command.clone());
    proof {
        assert(strs(history@) =~= strs(old(history)@).push(command@));
    }
    true
}

/// The ghost suggestion: the newest history entry of which the input is a
/// prefix; none for whitespace-only input.
pub open spec fn spec_suggestion(hist: Seq<Seq<char>>, input: Seq<char>) -> Option<Seq<char>>
    decreases hist.len(),
{
    if ws_only(input) {
        None
    } else if hist.len() == 0 {
        None
    } else if is_prefix(hist.last(), input) {
        Some(hist.last())
    } else {
        spec_suggestion(hist.drop_last(), input)
    }
}

fn chars_prefix(s: &String, p: &Vec<char>) -> (r: bool)
    ensures
        r == is_prefix(s@, p@),
{
    let sc = chars_of(s.as_str());
    if p.len() > sc.len() {
        assert(!is_prefix(s@, p@));
        return false;
    }
    let mut i: usize = 0;
    while i < p.len()
        invariant
            i <= p@.len(),
            sc@ == s@,
            p@.len() <= s@.len(),
            forall|j: int| 0 <= j < i ==> s@[j] == p@[j],
        decreases p@.len() - i,
    {
        if sc[i] != p[i] {
            assert(s@.subrange(0, p@.len() as int)[i as int] != p@[i as int]);
            return false;
        }
        i += 1;
    }
    proof {
        assert(s@.subrange(0, p@.len() as int) =~= p@);
    }
    true
}

/// Find the suggestion for the current input.
pub fn get_suggestion(history: &Vec<String>, input: &Vec<char>) -> (r: Option<Vec<char>>)
    ensures
        ({
            match r {
                Some(s) => spec_suggestion(strs(history@), input@) == Some(s@),
                None => spec_suggestion(strs(history@), input@) is None,
            }
        }),
{
    let input_s = string_from_chars(input);
    if is_ws_only(input_s.as_str()) {
        return None;
    }
    let mut i: usize = history.len();
    proof {
        assert(strs(history@).take(history@.len() as int) =~= strs(history@));
    }
    while i > 0
        invariant
            i <= history@.len(),
            !ws_only(input@),
            spec_suggestion(strs(history@).take(i as int), input@) == spec_suggestion(
                strs(history@),
                input@,
            ),
        decreases i,
    {
        i -= 1;
        proof {
            assert(strs(history@).take(i + 1).len() == i + 1);
            assert(strs(history@).take(i + 1).last() == strs(history@)[i as int]);
            assert(strs(history@).take(i + 1).drop_last() =~= strs(history@).take(i as int));
            assert(strs(history@)[i as int] == history@[i as int]@);
        }
        if chars_prefix(&history[i], input) {
            let r = chars_of(history[i].as_str());
            return Some(r);
        }
    }
    proof {
        assert(strs(history@).take(0) =~= Seq::<Seq<char>>::empty());
    }
    None
}

} // verus!
