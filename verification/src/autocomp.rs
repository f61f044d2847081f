//! The autocompleter: filtering directory entries by the word under the
//! cursor, cycling through the candidates with repeated Tab presses, and
//! the keyword fallback over built-in names and PATH executables.

use vstd::prelude::*;

use crate::commands::builtin_names;
use crate::commands::spec_builtin_names;
use crate::outside::lower_of;
use crate::outside::lower_str;
use crate::pipeline::strs;
use crate::strutil::concat_str;
use crate::strutil::is_prefix;
use crate::strutil::starts_with;

verus! {

/// How an entry name compares for completion: as itself, or lowercased on
/// case-insensitive platforms.
pub open spec fn cmp_name(name: Seq<char>, windows: bool) -> Seq<char> {
    if windows {
        lower_of(name)
    } else {
        name
    }
}

/// Directory entries whose comparison name starts with the (comparison)
/// file name, in listing order. An entry is a pair of its directory flag
/// and its name.
pub open spec fn spec_filter_entries(
    entries: Seq<(bool, Seq<char>)>,
    fname: Seq<char>,
    windows: bool,
) -> Seq<(bool, Seq<char>)>
    decreases entries.len(),
{
    if entries.len() == 0 {
        Seq::empty()
    } else {
        let rest = spec_filter_entries(entries.skip(1), fname, windows);
        if is_prefix(cmp_name(entries[0].1, windows), cmp_name(fname, windows)) {
            seq![entries[0]] + rest
        } else {
            rest
        }
    }
}

/// The models of directory entries.
pub open spec fn entry_models(es: Seq<(bool, String)>) -> Seq<(bool, Seq<char>)> {
    es.map_values(|e: (bool, String)| (e.0, e.1@))
}

/// Filter a directory listing down to the candidates for a word.
pub fn filter_entries(entries: &Vec<(bool, String)>, fname: &str, windows: bool) -> (r: Vec<
    (bool, String),
>)
    ensures
        entry_models(r@) == spec_filter_entries(entry_models(entries@), fname@, windows),
{
    let fname_cmp = if windows {
        lower_str(fname)
    } else {
        let mut s = String::new();
        s.append(fname);
        s
    };
    let ghost all = entry_models(entries@);
    let mut out: Vec<(bool, String)> = Vec::new();
    let mut i: usize = entries.len();
    proof {
        assert(all.skip(entries@.len() as int) =~= Seq::<(bool, Seq<char>)>::empty());
        assert(entry_models(out@) =~= spec_filter_entries(
            all.skip(entries@.len() as int),
            fname@,
            windows,
        ));
    }
    while i > 0
        invariant
            i <= entries@.len(),
            all == entry_models(entries@),
            fname_cmp@ == cmp_name(fname@, windows),
            entry_models(out@) == spec_filter_entries(all.skip(i as int), fname@, windows),
        decreases i,
    {
        i -= 1;
        let ghost pre = all.skip(i as int);
        proof {
            assert(pre[0] == (entries@[i as int].0, entries@[i as int].1@));
            assert(pre.skip(1) =~= all.skip(i + 1));
        }
        let name_cmp = if windows {
            lower_str(entries[i].1.as_str())
        } else {
            entries[i].1.clone()
        };
        if starts_with(name_cmp.as_str(), fname_cmp.as_str()) {
            let ghost pre_out = entry_models(out@);
            out.insert(0, (entries[i].0, entries[i].1.clone()));
            proof {
                assert(entry_models(out@) =~= seq![pre[0]] + pre_out);
            }
        }
        proof {
            assert(entry_models(out@) =~= spec_filter_entries(all.skip(i as int), fname@, windows));
        }
    }
    proof {
        assert(all.skip(0) =~= all);
    }
    out
}

/// The candidate chosen at a cycle position: the entry at the cycle index
/// modulo the number of candidates, with `/` appended for a directory.
pub open spec fn spec_selected(valid: Seq<(bool, Seq<char>)>, cycle: int) -> Option<Seq<char>> {
    if valid.len() == 0 {
        None
    } else {
        let e = valid[cycle % (valid.len() as int)];
        if e.0 {
            Some(e.1 + seq!['/'])
        } else {
            Some(e.1)
        }
    }
}

/// Select a completion from the candidates at a cycle position.
pub fn select_completion(valid: &Vec<(bool, String)>, cycle_index: usize) -> (r: Option<String>)
    ensures
        ({
            match r {
                Some(t) => spec_selected(entry_models(valid@), cycle_index as int) == Some(t@),
                None => valid@.len() == 0,
            }
        }),
{
    if valid.len() == 0 {
        return None;
    }
    let i = cycle_index % valid.len();
    proof {
        reveal_strlit("/");
        assert("/"@ =~= seq!['/']);
        assert(entry_models(valid@)[i as int] == (valid@[i as int].0, valid@[i as int].1@));
    }
    if valid[i].0 {
        Some(concat_str(valid[i].1.as_str(), "/"))
    } else {
        Some(valid[i].1.clone())
    }
}

/// Tab cycling: the candidates are stable, and advancing the cycle index by
/// their number returns to the same completion.
pub proof fn lemma_tab_cycling(valid: Seq<(bool, Seq<char>)>, cycle: int)
    requires
        valid.len() > 0,
        cycle >= 0,
    ensures
        spec_selected(valid, cycle + valid.len()) == spec_selected(valid, cycle),
{
    let n = valid.len() as int;
    assert((cycle + n) % n == cycle % n) by {
        vstd::arithmetic::div_mod::lemma_mod_add_multiples_vanish(cycle, n);
    }
}

/// The first name of which the word is a prefix.
pub open spec fn spec_first_prefixed(names: Seq<Seq<char>>, word: Seq<char>) -> Option<Seq<char>>
    decreases names.len(),
{
    if names.len() == 0 {
        None
    } else if is_prefix(names[0], word) {
        Some(names[0])
    } else {
        spec_first_prefixed(names.skip(1), word)
    }
}

fn first_prefixed(names: &Vec<String>, word: &str) -> (r: Option<String>)
    ensures
        ({
            match r {
                Some(t) => spec_first_prefixed(strs(names@), word@) == Some(t@),
                None => spec_first_prefixed(strs(names@), word@) is None,
            }
        }),
{
    let mut i: usize = 0;
    proof {
        assert(strs(names@).skip(0) =~= strs(names@));
    }
    while i < names.len()
        invariant
            i <= names@.len(),
            spec_first_prefixed(strs(names@).skip(i as int), word@) == spec_first_prefixed(
                strs(names@),
                word@,
            ),
        decreases names@.len() - i,
    {
        let ghost pre = strs(names@).skip(i as int);
        proof {
            assert(pre[0] == names@[i as int]@);
            assert(pre.skip(1) =~= strs(names@).skip(i + 1));
        }
        if starts_with(names[i].as_str(), word) {
            return Some(names[i].clone());
        }
        i += 1;
    }
    proof {
        assert(strs(names@).skip(names@.len() as int) =~= Seq::<Seq<char>>::empty());
    }
    None
}

/// Complete a word in keyword position: a path completion when one was
/// found, else the first built-in name starting with the word, else the
/// first PATH executable starting with it (the executables come sorted
/// shortest-first).
pub fn autocomplete_keyword(
    current_word: &String,
    path_completion: Option<String>,
    path_executables: &Vec<String>,
) -> (r: Option<String>)
    ensures
        path_completion matches Some(p) ==> (r matches Some(v) && v == p),
        path_completion is None ==> ({
            match spec_first_prefixed(spec_builtin_names(), current_word@) {
                Some(b) => r matches Some(v) && v@ == b,
                None => (match spec_first_prefixed(strs(path_executables@), current_word@) {
                    Some(e) => r matches Some(v) && v@ == e,
                    None => r is None,
                }),
            }
        }),
{
    if let Some(p) = path_completion {
        return Some(p);
    }
    let builtins = builtin_names();
    match first_prefixed(&builtins, current_word.as_str()) {
        Some(b) => Some(b),
        None => first_prefixed(path_executables, current_word.as_str()),
    }
}

} // verus!
