//! The PATH index: a first-wins mapping from lowercased executable file
//! names to their full paths, built once from the directories on PATH, and
//! the helpers that pick the binary for a keyword.

use vstd::prelude::*;

use crate::outside::lower_of;
use crate::outside::lower_str;
use crate::strutil::concat_str;
use crate::strutil::str_eq;

verus! {

/// Whether a key is present among the entries.
pub open spec fn spec_has_key(entries: Seq<(Seq<char>, Seq<char>)>, key: Seq<char>) -> bool {
    exists|i: int| 0 <= i < entries.len() && (#[trigger] entries[i]).0 == key
}

/// The value of the first entry with the key.
pub open spec fn spec_lookup(entries: Seq<(Seq<char>, Seq<char>)>, key: Seq<char>) -> Option<
    Seq<char>,
>
    decreases entries.len(),
{
    if entries.len() == 0 {
        None
    } else if entries[0].0 == key {
        Some(entries[0].1)
    } else {
        spec_lookup(entries.skip(1), key)
    }
}

/// First-wins insertion: a later value never displaces an earlier one.
pub open spec fn spec_insert(
    entries: Seq<(Seq<char>, Seq<char>)>,
    key: Seq<char>,
    value: Seq<char>,
) -> Seq<(Seq<char>, Seq<char>)> {
    if spec_has_key(entries, key) {
        entries
    } else {
        entries.push((key, value))
    }
}

/// The model of an environment-like association list.
pub open spec fn pairs_model(e: Seq<(String, String)>) -> Seq<(Seq<char>, Seq<char>)> {
    e.map_values(|p: (String, String)| (p.0@, p.1@))
}

/// The index: lowercased file name to the first full path observed.
pub struct PathIndex {
    pub entries: Vec<(String, String)>,
}

impl View for PathIndex {
    type V = Seq<(Seq<char>, Seq<char>)>;

    open spec fn view(&self) -> Seq<(Seq<char>, Seq<char>)> {
        pairs_model(self.entries@)
    }
}

impl PathIndex {
    /// An empty index.
    pub fn new() -> (r: PathIndex)
        ensures
            r@ == Seq::<(Seq<char>, Seq<char>)>::empty(),
    {
        let r = PathIndex { entries: Vec::new() };
        proof {
            assert(r@ =~= Seq::<(Seq<char>, Seq<char>)>::empty());
        }
        r
    }

    fn has_key(&self, key: &str) -> (r: bool)
        ensures
            r == spec_has_key(self@, key@),
    {
        let mut i: usize = 0;
        while i < self.entries.len()
            invariant
                i <= self.entries@.len(),
                forall|j: int| 0 <= j < i ==> (#[trigger] pairs_model(self.entries@)[j]).0 != key@,
            decreases self.entries@.len() - i,
        {
            if str_eq(self.entries[i].0.as_str(), key) {
                proof {
                    assert((pairs_model(self.entries@)[i as int]).0 == key@);
                }
                return true;
            }
            i += 1;
        }
        false
    }

    /// Insert first-wins: when the key is present the index is unchanged.
    pub fn insert(&mut self, key: String, value: String)
        ensures
            final(self)@ == spec_insert(old(self)@, key@, value@),
    {
        let present = self.has_key(key.as_str());
        if !present {
            let ghost k = key@;
            let ghost v = value@;
            self.entries.push((key, value));
            proof {
                assert(pairs_model(self.entries@) =~= old(self)@.push((k, v)));
            }
        }
    }

    /// Look a key up: the first entry wins.
    pub fn lookup(&self, key: &str) -> (r: Option<String>)
        ensures
            r matches Some(v) ==> spec_lookup(self@, key@) == Some(v@),
            r is None ==> spec_lookup(self@, key@) is None,
    {
        let mut i: usize = 0;
        proof {
            assert(self@.skip(0) =~= self@);
        }
        while i < self.entries.len()
            invariant
                i <= self.entries@.len(),
                spec_lookup(self@.skip(i as int), key@) == spec_lookup(self@, key@),
            decreases self.entries@.len() - i,
        {
            let ghost pre = self@.skip(i as int);
            proof {
                assert(pre[0] == (self.entries@[i as int].0@, self.entries@[i as int].1@));
                assert(pre.skip(1) =~= self@.skip(i + 1));
            }
            if str_eq(self.entries[i].0.as_str(), key) {
                return Some(self.entries[i].1.clone());
            }
            i += 1;
        }
        proof {
            assert(self@.skip(i as int) =~= Seq::<(Seq<char>, Seq<char>)>::empty());
        }
        None
    }

    /// The keys, in insertion order.
    pub fn keys(&self) -> (r: Vec<String>)
        ensures
            r@.len() == self@.len(),
            forall|i: int| 0 <= i < self@.len() ==> (#[trigger] r@[i])@ == self@[i].0,
    {
        let mut r: Vec<String> = Vec::new();
        let mut i: usize = 0;
        while i < self.entries.len()
            invariant
                i <= self.entries@.len(),
                r@.len() == i,
                forall|j: int| 0 <= j < i ==> (#[trigger] r@[j])@ == pairs_model(self.entries@)[j].0,
            decreases self.entries@.len() - i,
        {
            r.push(self.entries[i].0.clone());
            i += 1;
        }
        r
    }
}

/// Add one directory's regular files to the index: each file under its
/// lowercased name, mapping to `dir/name`, first occurrence winning.
pub open spec fn spec_add_dir(
    entries: Seq<(Seq<char>, Seq<char>)>,
    dir: Seq<char>,
    files: Seq<Seq<char>>,
) -> Seq<(Seq<char>, Seq<char>)>
    decreases files.len(),
{
    if files.len() == 0 {
        entries
    } else {
        let key = lower_of(files[0]);
        let value = dir + seq!['/'] + files[0];
        spec_add_dir(spec_insert(entries, key, value), dir, files.skip(1))
    }
}

/// Add one directory's file listing to the index.
pub fn add_dir_to_index(index: &mut PathIndex, dir: &String, files: &Vec<String>)
    ensures
        final(index)@ == spec_add_dir(old(index)@, dir@, crate::pipeline::strs(files@)),
{
    let ghost all = crate::pipeline::strs(files@);
    let mut i: usize = 0;
    proof {
        assert(all.skip(0) =~= all);
    }
    while i < files.len()
        invariant
            i <= files@.len(),
            all == crate::pipeline::strs(files@),
            spec_add_dir(index@, dir@, all.skip(i as int)) == spec_add_dir(old(index)@, dir@, all),
        decreases files@.len() - i,
    {
        let ghost pre = all.skip(i as int);
        proof {
            assert(pre[0] == files@[i as int]@);
            assert(pre.skip(1) =~= all.skip(i + 1));
        }
        let key = lower_str(files[i].as_str());
        let sep = concat_str(dir.as_str(), "/");
        let value = concat_str(sep.as_str(), files[i].as_str());
        proof {
            reveal_strlit("/");
            assert("/"@ =~= seq!['/']);
            assert(value@ =~= dir@ + seq!['/'] + files@[i as int]@);
        }
        index.insert(key, value);
        i += 1;
    }
    proof {
        assert(all.skip(files@.len() as int) =~= Seq::<Seq<char>>::empty());
    }
}

/// First-wins: once a key is mapped, later insertions never change what
/// lookup returns for it.
pub proof fn lemma_first_wins_insert(
    entries: Seq<(Seq<char>, Seq<char>)>,
    key: Seq<char>,
    k2: Seq<char>,
    v2: Seq<char>,
)
    requires
        spec_lookup(entries, key) is Some,
    ensures
        spec_lookup(spec_insert(entries, k2, v2), key) == spec_lookup(entries, key),
    decreases entries.len(),
{
    if !spec_has_key(entries, k2) {
        lemma_lookup_push(entries, key, k2, v2);
    }
}

proof fn lemma_lookup_push(
    entries: Seq<(Seq<char>, Seq<char>)>,
    key: Seq<char>,
    k2: Seq<char>,
    v2: Seq<char>,
)
    requires
        spec_lookup(entries, key) is Some,
    ensures
        spec_lookup(entries.push((k2, v2)), key) == spec_lookup(entries, key),
    decreases entries.len(),
{
    assert(entries.len() > 0);
    if entries[0].0 == key {
        assert(entries.push((k2, v2))[0] == entries[0]);
    } else {
        assert(entries.push((k2, v2)).skip(1) =~= entries.skip(1).push((k2, v2)));
        lemma_lookup_push(entries.skip(1), key, k2, v2);
    }
}

/// First-wins over a whole directory scan: a key already mapped keeps its
/// value through any further directory.
pub proof fn lemma_first_wins_dir(
    entries: Seq<(Seq<char>, Seq<char>)>,
    key: Seq<char>,
    dir: Seq<char>,
    files: Seq<Seq<char>>,
)
    requires
        spec_lookup(entries, key) is Some,
    ensures
        spec_lookup(spec_add_dir(entries, dir, files), key) == spec_lookup(entries, key),
    decreases files.len(),
{
    if files.len() > 0 {
        let k = lower_of(files[0]);
        let v = dir + seq!['/'] + files[0];
        lemma_first_wins_insert(entries, key, k, v);
        lemma_first_wins_dir(spec_insert(entries, k, v), key, dir, files.skip(1));
    }
}

/// Executable file extensions tried on Windows-like platforms; none
/// elsewhere.
pub fn get_path_extensions(windows: bool) -> (r: Vec<String>)
    ensures
        !windows ==> r@.len() == 0,
        windows ==> (r@.len() == 3 && r@[0]@ == ".exe"@ && r@[1]@ == ".bat"@ && r@[2]@
            == ".cmd"@),
{
    let mut r: Vec<String> = Vec::new();
    if windows {
        let mut a = String::new();
        a.append(".exe");
        r.push(a);
        let mut b = String::new();
        b.append(".bat");
        r.push(b);
        let mut c = String::new();
        c.append(".cmd");
        r.push(c);
    }
    r
}

/// Variants of a path: the path with each executable extension appended,
/// then the bare path.
pub fn get_path_variants(path: &str, path_extensions: &Vec<String>) -> (r: Vec<String>)
    ensures
        r@.len() == path_extensions@.len() + 1,
        forall|i: int|
            0 <= i < path_extensions@.len() ==> (#[trigger] r@[i])@ == path@
                + path_extensions@[i]@,
        r@[path_extensions@.len() as int]@ == path@,
{
    let mut r: Vec<String> = Vec::new();
    let mut i: usize = 0;
    while i < path_extensions.len()
        invariant
            i <= path_extensions@.len(),
            r@.len() == i,
            forall|j: int|
                0 <= j < i ==> (#[trigger] r@[j])@ == path@ + path_extensions@[j]@,
        decreases path_extensions@.len() - i,
    {
        r.push(concat_str(path, path_extensions[i].as_str()));
        i += 1;
    }
    let mut bare = String::new();
    bare.append(path);
    r.push(bare);
    proof {
        assert(r@[path_extensions@.len() as int]@ =~= path@);
    }
    r
}

/// Pick the binary for a keyword: the first variant that exists as a file;
/// otherwise the first variant found in the index; otherwise none (the
/// caller then uses the keyword itself).
pub fn choose_binary(variants: &Vec<String>, exists: &Vec<bool>, index: &PathIndex) -> (r: Option<
    String,
>)
    requires
        variants@.len() == exists@.len(),
    ensures
        (exists|i: int| 0 <= i < exists@.len() && exists@[i]) ==> (r matches Some(v) && ({
            let i = first_true(exists@);
            v@ == variants@[i]@
        })),
        (forall|i: int| 0 <= i < exists@.len() ==> !exists@[i]) ==> ({
            match first_indexed(index@, strs_of(variants@)) {
                Some((_, path)) => r matches Some(v) && v@ == path,
                None => r is None,
            }
        }),
{
    let mut i: usize = 0;
    while i < variants.len()
        invariant
            i <= variants@.len(),
            variants@.len() == exists@.len(),
            forall|j: int| 0 <= j < i ==> !exists@[j],
        decreases variants@.len() - i,
    {
        if exists[i] {
            proof {
                assert(exists@[i as int]);
                lemma_first_true(exists@, i as int);
            }
            return Some(variants[i].clone());
        }
        i += 1;
    }
    let mut k: usize = 0;
    proof {
        assert(strs_of(variants@).skip(0) =~= strs_of(variants@));
    }
    while k < variants.len()
        invariant
            k <= variants@.len(),
            variants@.len() == exists@.len(),
            forall|j: int| 0 <= j < exists@.len() ==> !exists@[j],
            first_indexed(index@, strs_of(variants@).skip(k as int)) == first_indexed(
                index@,
                strs_of(variants@),
            ),
        decreases variants@.len() - k,
    {
        let ghost pre = strs_of(variants@).skip(k as int);
        proof {
            assert(pre[0] == variants@[k as int]@);
            assert(pre.skip(1) =~= strs_of(variants@).skip(k + 1));
        }
        match index.lookup(variants[k].as_str()) {
            Some(path) => {
                return Some(path);
            },
            None => {},
        }
        k += 1;
    }
    proof {
        assert(strs_of(variants@).skip(variants@.len() as int) =~= Seq::<Seq<char>>::empty());
    }
    None
}

/// The views of a vector of strings.
pub open spec fn strs_of(v: Seq<String>) -> Seq<Seq<char>> {
    v.map_values(|s: String| s@)
}

/// The index of the first true flag.
pub open spec fn first_true(flags: Seq<bool>) -> int
    decreases flags.len(),
{
    if flags.len() == 0 {
        0
    } else if flags[0] {
        0
    } else {
        1 + first_true(flags.skip(1))
    }
}

proof fn lemma_first_true(flags: Seq<bool>, i: int)
    requires
        0 <= i < flags.len(),
        flags[i],
        forall|j: int| 0 <= j < i ==> !flags[j],
    ensures
        first_true(flags) == i,
    decreases i,
{
    if i > 0 {
        assert(!flags[0]);
        assert(forall|j: int| 0 <= j < i - 1 ==> !flags.skip(1)[j]);
        assert(flags.skip(1)[i - 1]);
        lemma_first_true(flags.skip(1), i - 1);
    }
}

/// The first name found in the index, with its mapped path.
pub open spec fn first_indexed(
    entries: Seq<(Seq<char>, Seq<char>)>,
    names: Seq<Seq<char>>,
) -> Option<(Seq<char>, Seq<char>)>
    decreases names.len(),
{
    if names.len() == 0 {
        None
    } else {
        match spec_lookup(entries, names[0]) {
            Some(p) => Some((names[0], p)),
            None => first_indexed(entries, names.skip(1)),
        }
    }
}

/// The stem of an executable file name: the part before the final dot,
/// when the dotted extension is among the platform's executable
/// extensions.
pub open spec fn spec_stem(name: Seq<char>, exts: Seq<Seq<char>>) -> Option<Seq<char>> {
    match crate::exec::last_dot(name) {
        Some(i) => {
            if i > 0 && exts.contains(seq!['.'] + name.skip(i + 1)) {
                Some(name.take(i))
            } else {
                None
            }
        },
        None => None,
    }
}

/// The stems of the names with an executable extension, in order.
pub open spec fn spec_stems(names: Seq<Seq<char>>, exts: Seq<Seq<char>>) -> Seq<Seq<char>>
    decreases names.len(),
{
    if names.len() == 0 {
        Seq::empty()
    } else {
        let rest = spec_stems(names.skip(1), exts);
        match spec_stem(names[0], exts) {
            Some(st) => seq![st] + rest,
            None => rest,
        }
    }
}

/// Insertion into a length-sorted sequence.
pub open spec fn spec_insert_by_len(sorted: Seq<Seq<char>>, x: Seq<char>) -> Seq<Seq<char>>
    decreases sorted.len(),
{
    if sorted.len() == 0 {
        seq![x]
    } else if x.len() < sorted[0].len() {
        seq![x] + sorted
    } else {
        seq![sorted[0]] + spec_insert_by_len(sorted.skip(1), x)
    }
}

/// Sorting by length, shortest first, by repeated insertion.
pub open spec fn spec_sort_by_len(items: Seq<Seq<char>>) -> Seq<Seq<char>>
    decreases items.len(),
{
    if items.len() == 0 {
        Seq::empty()
    } else {
        spec_insert_by_len(spec_sort_by_len(items.drop_last()), items.last())
    }
}

fn exts_contains(exts: &Vec<String>, dotted: &str) -> (r: bool)
    ensures
        r == crate::pipeline::strs(exts@).contains(dotted@),
{
    let mut i: usize = 0;
    while i < exts.len()
        invariant
            i <= exts@.len(),
            forall|j: int| 0 <= j < i ==> (#[trigger] crate::pipeline::strs(exts@)[j]) != dotted@,
        decreases exts@.len() - i,
    {
        if str_eq(exts[i].as_str(), dotted) {
            proof {
                assert(crate::pipeline::strs(exts@)[i as int] == dotted@);
            }
            return true;
        }
        i += 1;
    }
    proof {
        if crate::pipeline::strs(exts@).contains(dotted@) {
            let k = choose|k: int|
                0 <= k < exts@.len() && (#[trigger] crate::pipeline::strs(exts@)[k]) == dotted@;
            assert(false);
        }
    }
    false
}

fn stem_of(name: &String, exts: &Vec<String>) -> (r: Option<String>)
    ensures
        ({
            match r {
                Some(st) => spec_stem(name@, crate::pipeline::strs(exts@)) == Some(st@),
                None => spec_stem(name@, crate::pipeline::strs(exts@)) is None,
            }
        }),
{
    match crate::exec::find_last_dot(name.as_str()) {
        Some(i) => {
            if i == 0 {
                return None;
            }
            let chars = crate::strutil::chars_of(name.as_str());
            let n = chars.len();
            assert(i < n);
            let mut dotted_c: Vec<char> = Vec::new();
            dotted_c.push('.');
            let mut j: usize = i + 1;
            proof {
                assert(dotted_c@ =~= seq!['.'] + name@.subrange(i + 1, j as int));
            }
            while j < n
                invariant
                    i + 1 <= j <= n,
                    n == name@.len(),
                    chars@ == name@,
                    dotted_c@ == seq!['.'] + name@.subrange(i + 1, j as int),
                decreases n - j,
            {
                dotted_c.push(chars[j]);
                proof {
                    assert(dotted_c@ =~= seq!['.'] + name@.subrange(i + 1, j + 1 as int));
                }
                j += 1;
            }
            proof {
                assert(name@.subrange(i + 1, n as int) =~= name@.skip(i + 1));
            }
            let dotted = crate::strutil::string_from_chars(&dotted_c);
            if exts_contains(exts, dotted.as_str()) {
                let mut stem_c: Vec<char> = Vec::new();
                let mut k: usize = 0;
                while k < i
                    invariant
                        k <= i <= name@.len(),
                        chars@ == name@,
                        stem_c@ == name@.subrange(0, k as int),
                    decreases i - k,
                {
                    stem_c.push(chars[k]);
                    proof {
                        assert(stem_c@ =~= name@.subrange(0, k + 1 as int));
                    }
                    k += 1;
                }
                proof {
                    assert(stem_c@ =~= name@.take(i as int));
                }
                Some(crate::strutil::string_from_chars(&stem_c))
            } else {
                None
            }
        },
        None => None,
    }
}

fn insert_by_len(sorted: Vec<String>, x: String) -> (r: Vec<String>)
    ensures
        crate::pipeline::strs(r@) == spec_insert_by_len(crate::pipeline::strs(sorted@), x@),
{
    let ghost all = crate::pipeline::strs(sorted@);
    let xlen = x.unicode_len();
    let mut j: usize = 0;
    proof {
        assert(all.skip(0) =~= all);
    }
    while j < sorted.len() && sorted[j].unicode_len() <= xlen
        invariant
            j <= sorted@.len(),
            all == crate::pipeline::strs(sorted@),
            xlen == x@.len(),
            forall|k: int| 0 <= k < j ==> (#[trigger] all[k]).len() <= x@.len(),
            spec_insert_by_len(all, x@) == all.take(j as int) + spec_insert_by_len(
                all.skip(j as int),
                x@,
            ),
        decreases sorted@.len() - j,
    {
        let ghost pre = all.skip(j as int);
        proof {
            assert(pre[0] == sorted@[j as int]@);
            assert(pre.skip(1) =~= all.skip(j + 1));
            assert(spec_insert_by_len(pre, x@) == seq![pre[0]] + spec_insert_by_len(
                pre.skip(1),
                x@,
            ));
            assert(all.take(j + 1 as int) =~= all.take(j as int).push(all[j as int]));
            assert(all.take(j as int) + (seq![pre[0]] + spec_insert_by_len(all.skip(j + 1), x@))
                =~= all.take(j + 1 as int) + spec_insert_by_len(all.skip(j + 1), x@));
        }
        j += 1;
    }
    let mut r = sorted;
    r.insert(j, x);
    proof {
        if j < all.len() {
            assert(spec_insert_by_len(all.skip(j as int), x@) == seq![x@] + all.skip(j as int));
        } else {
            assert(all.skip(j as int) =~= Seq::<Seq<char>>::empty());
            assert(spec_insert_by_len(all.skip(j as int), x@) == seq![x@]);
        }
        assert(crate::pipeline::strs(r@) =~= all.take(j as int) + (seq![x@] + all.skip(j as int)));
        assert(crate::pipeline::strs(r@) =~= spec_insert_by_len(all, x@));
    }
    r
}

/// The executable stems on PATH, shortest first: names with an executable
/// extension, stripped of it, sorted by length.
pub fn executable_stems(names: &Vec<String>, exts: &Vec<String>) -> (r: Vec<String>)
    ensures
        crate::pipeline::strs(r@) == spec_sort_by_len(
            spec_stems(crate::pipeline::strs(names@), crate::pipeline::strs(exts@)),
        ),
{
    let ghost all = crate::pipeline::strs(names@);
    let ghost em = crate::pipeline::strs(exts@);
    // collect the stems in order
    let mut stems: Vec<String> = Vec::new();
    let mut i: usize = names.len();
    proof {
        assert(all.skip(names@.len() as int) =~= Seq::<Seq<char>>::empty());
        assert(crate::pipeline::strs(stems@) =~= spec_stems(all.skip(names@.len() as int), em));
    }
    while i > 0
        invariant
            i <= names@.len(),
            all == crate::pipeline::strs(names@),
            em == crate::pipeline::strs(exts@),
            crate::pipeline::strs(stems@) == spec_stems(all.skip(i as int), em),
        decreases i,
    {
        i -= 1;
        let ghost pre = all.skip(i as int);
        proof {
            assert(pre[0] == names@[i as int]@);
            assert(pre.skip(1) =~= all.skip(i + 1));
        }
        match stem_of(&names[i], exts) {
            Some(st) => {
                let ghost pre_stems = crate::pipeline::strs(stems@);
                stems.insert(0, st);
                proof {
                    assert(crate::pipeline::strs(stems@) =~= seq![stems@[0]@] + pre_stems);
                }
            },
            None => {},
        }
        proof {
            assert(crate::pipeline::strs(stems@) =~= spec_stems(all.skip(i as int), em));
        }
    }
    proof {
        assert(all.skip(0) =~= all);
    }
    // sort them by length
    let ghost stem_views = crate::pipeline::strs(stems@);
    let total = stems.len();
    let mut rest = stems;
    let mut sorted: Vec<String> = Vec::new();
    let mut k: usize = 0;
    proof {
        assert(stem_views.take(0) =~= Seq::<Seq<char>>::empty());
        assert(crate::pipeline::strs(sorted@) =~= spec_sort_by_len(stem_views.take(0)));
    }
    while rest.len() > 0
        invariant
            k + rest@.len() == total,
            total == stem_views.len(),
            crate::pipeline::strs(rest@) == stem_views.skip(k as int),
            crate::pipeline::strs(sorted@) == spec_sort_by_len(stem_views.take(k as int)),
        decreases rest@.len(),
    {
        let ghost pre_rest = crate::pipeline::strs(rest@);
        let x = rest.remove(0);
        proof {
            assert(crate::pipeline::strs(rest@) =~= pre_rest.skip(1));
            assert(x@ == pre_rest[0]);
            assert(stem_views.skip(k as int)[0] == stem_views[k as int]);
            assert(x@ == stem_views[k as int]);
            assert(stem_views.take(k + 1 as int) =~= stem_views.take(k as int).push(
                stem_views[k as int],
            ));
            assert(stem_views.take(k + 1 as int).drop_last() =~= stem_views.take(k as int));
            assert(stem_views.take(k + 1 as int).last() == stem_views[k as int]);
            assert(crate::pipeline::strs(rest@) =~= stem_views.skip(k + 1));
        }
        sorted = insert_by_len(sorted, x);
        k += 1;
    }
    proof {
        assert(stem_views.take(stem_views.len() as int) =~= stem_views);
    }
    sorted
}

/// Length-sortedness: every earlier element is at most as long as any
/// later one.
pub open spec fn sorted_by_len(s: Seq<Seq<char>>) -> bool {
    forall|i: int, j: int| 0 <= i < j < s.len() ==> (#[trigger] s[i]).len() <= (#[trigger] s[j]).len()
}

/// Inserting into a length-sorted sequence keeps it sorted.
pub proof fn lemma_insert_by_len_sorted(s: Seq<Seq<char>>, x: Seq<char>)
    requires
        sorted_by_len(s),
    ensures
        sorted_by_len(spec_insert_by_len(s, x)),
        spec_insert_by_len(s, x).len() == s.len() + 1,
    decreases s.len(),
{
    let r = spec_insert_by_len(s, x);
    if s.len() == 0 {
    } else if x.len() < s[0].len() {
        assert forall|i: int, j: int| 0 <= i < j < r.len() implies (#[trigger] r[i]).len()
            <= (#[trigger] r[j]).len() by {
            if i == 0 {
                assert(r[0] == x);
                assert(r[j] == s[j - 1]);
                if j - 1 > 0 {
                    assert(s[0].len() <= s[j - 1].len());
                }
            } else {
                assert(r[i] == s[i - 1] && r[j] == s[j - 1]);
            }
        }
    } else {
        assert(forall|i: int, j: int|
            0 <= i < j < s.skip(1).len() ==> (#[trigger] s.skip(1)[i]).len() <= (
            #[trigger] s.skip(1)[j]).len());
        lemma_insert_by_len_sorted(s.skip(1), x);
        let r2 = spec_insert_by_len(s.skip(1), x);
        assert(r == seq![s[0]] + r2);
        assert forall|i: int, j: int| 0 <= i < j < r.len() implies (#[trigger] r[i]).len()
            <= (#[trigger] r[j]).len() by {
            if i == 0 {
                assert(r[0] == s[0]);
                assert(r[j] == r2[j - 1]);
                // the head is at most every element of the sorted tail with x added
                lemma_insert_head_bound(s, x, j - 1);
            } else {
                assert(r[i] == r2[i - 1] && r[j] == r2[j - 1]);
            }
        }
    }
}

proof fn lemma_insert_head_bound(s: Seq<Seq<char>>, x: Seq<char>, j: int)
    requires
        sorted_by_len(s),
        s.len() > 0,
        x.len() >= s[0].len(),
        0 <= j < spec_insert_by_len(s.skip(1), x).len(),
    ensures
        s[0].len() <= spec_insert_by_len(s.skip(1), x)[j].len(),
    decreases s.len(),
{
    let t = s.skip(1);
    let r2 = spec_insert_by_len(t, x);
    if t.len() == 0 {
        assert(r2 == seq![x]);
    } else if x.len() < t[0].len() {
        if j == 0 {
            assert(r2[0] == x);
        } else {
            assert(r2[j] == t[j - 1]);
            assert(s[0].len() <= s[j].len());
        }
    } else {
        if j == 0 {
            assert(r2[0] == t[0]);
            assert(s[0].len() <= s[1].len());
        } else {
            assert(forall|a: int, b: int|
                0 <= a < b < t.len() ==> (#[trigger] t[a]).len() <= (#[trigger] t[b]).len());
            assert(t[0].len() >= s[0].len());
            lemma_insert_head_bound(t, x, j - 1);
            assert(r2[j] == spec_insert_by_len(t.skip(1), x)[j - 1]);
            assert(t[0].len() <= spec_insert_by_len(t.skip(1), x)[j - 1].len());
        }
    }
}

/// The sort's result is sorted by length.
pub proof fn lemma_sort_by_len_sorted(items: Seq<Seq<char>>)
    ensures
        sorted_by_len(spec_sort_by_len(items)),
    decreases items.len(),
{
    if items.len() > 0 {
        lemma_sort_by_len_sorted(items.drop_last());
        lemma_insert_by_len_sorted(spec_sort_by_len(items.drop_last()), items.last());
    }
}

} // verus!
