//! The ancestor-directory search: from a starting directory upward, the
//! nearest directory that holds one of the candidate file names.
//!
//! The filesystem is supplied as a snapshot: the paths of the files that
//! exist. `find_spec` is the mathematical search, `find_marked_dir` the
//! executable one, and the proof functions state the search's laws: a start
//! with no marked ancestor yields nothing, a marker in the start itself wins,
//! a marker exactly n levels up yields that ancestor, and the candidate
//! names matter only as a set.

use vstd::prelude::*;
use crate::path::FsPath;
use crate::path::views_of;

verus! {

/// The files that exist, each as an absolute path.
pub struct FsSnapshot {
    pub files: Vec<FsPath>,
}

impl View for FsSnapshot {
    type V = Seq<Seq<Seq<char>>>;

    open spec fn view(&self) -> Seq<Seq<Seq<char>>> {
        self.files@.map_values(|p: FsPath| p@)
    }
}

/// Whether the directory holds a file with one of the candidate names.
pub open spec fn contains_marker(
    files: Seq<Seq<Seq<char>>>,
    dir: Seq<Seq<char>>,
    names: Seq<Seq<char>>,
) -> bool {
    exists|i: int, j: int|
        0 <= i < files.len() && 0 <= j < names.len() && files[i] == dir.push(names[j])
}

/// The nearest ancestor of the start, the start included, that holds one of
/// the candidate names; nothing when no ancestor does.
pub open spec fn find_spec(
    files: Seq<Seq<Seq<char>>>,
    start: Seq<Seq<char>>,
    names: Seq<Seq<char>>,
) -> Option<Seq<Seq<char>>>
    decreases start.len(),
{
    if contains_marker(files, start, names) {
        Some(start)
    } else if start.len() == 0 {
        None
    } else {
        find_spec(files, start.drop_last(), names)
    }
}

/// Whether `file` is `start`'s prefix of length `k` extended by `name`.
fn is_marker_file(file: &FsPath, start: &FsPath, k: usize, name: &String) -> (r: bool)
    requires
        k <= start.segs@.len(),
    ensures
        r == (file@ == start@.take(k as int).push(name@)),
{
    let ghost target = start@.take(k as int).push(name@);
    if file.segs.len() == 0 || file.segs.len() - 1 != k {
        assert(file@.len() != target.len());
        return false;
    }
    let mut m: usize = 0;
    while m < k
        invariant
            m <= k <= start.segs@.len(),
            file.segs@.len() == k + 1,
            target == start@.take(k as int).push(name@),
            forall|j: int| 0 <= j < m ==> file@[j] == target[j],
        decreases k - m,
    {
        if !crate::path::string_eq(&file.segs[m], &start.segs[m]) {
            assert(file@[m as int] != target[m as int]);
            return false;
        }
        m = m + 1;
    }
    if !crate::path::string_eq(&file.segs[k], name) {
        assert(file@[k as int] != target[k as int]);
        return false;
    }
    proof {
        assert(file@ =~= target);
    }
    true
}

/// Whether the prefix of the start of length `k` holds one of the candidate
/// names, in the given snapshot.
fn has_marker_at(fs: &FsSnapshot, start: &FsPath, k: usize, names: &Vec<String>) -> (r: bool)
    requires
        k <= start.segs@.len(),
    ensures
        r == contains_marker(fs@, start@.take(k as int), views_of(names@)),
{
    let ghost dir = start@.take(k as int);
    let mut i: usize = 0;
    while i < fs.files.len()
        invariant
            i <= fs.files@.len(),
            k <= start.segs@.len(),
            dir == start@.take(k as int),
            forall|a: int, b: int|
                0 <= a < i && 0 <= b < views_of(names@).len() ==> #[trigger] fs@[a] != dir.push(
                    #[trigger] views_of(names@)[b],
                ),
        decreases fs.files@.len() - i,
    {
        let mut j: usize = 0;
        while j < names.len()
            invariant
                i < fs.files@.len(),
                j <= names@.len(),
                k <= start.segs@.len(),
                dir == start@.take(k as int),
                forall|b: int|
                    0 <= b < j ==> fs@[i as int] != dir.push(#[trigger] views_of(names@)[b]),
            decreases names@.len() - j,
        {
            if is_marker_file(&fs.files[i], start, k, &names[j]) {
                assert(fs@[i as int] == dir.push(views_of(names@)[j as int]));
                assert(contains_marker(fs@, dir, views_of(names@)));
                return true;
            }
            j = j + 1;
        }
        i = i + 1;
    }
    proof {
        assert(!contains_marker(fs@, dir, views_of(names@)));
    }
    false
}

/// The nearest ancestor directory of the start, the start included, that
/// holds a file with one of the candidate names, in the given snapshot.
pub fn find_marked_dir(fs: &FsSnapshot, start: &FsPath, target_files: &Vec<String>) -> (r: Option<
    FsPath,
>)
    ensures
        (match r {
            Some(d) => Some(d@),
            None => None,
        }) == find_spec(fs@, start@, views_of(target_files@)),
        r matches Some(d) ==> d@.len() <= start@.len() && d@ == start@.take(d@.len() as int)
            && contains_marker(fs@, d@, views_of(target_files@)),
{
    let ghost names = views_of(target_files@);
    let mut k: usize = start.segs.len();
    assert(start@.take(k as int) =~= start@);
    loop
        invariant
            k <= start.segs@.len(),
            find_spec(fs@, start@, names) == find_spec(fs@, start@.take(k as int), names),
            names == views_of(target_files@),
        decreases k,
    {
        if has_marker_at(fs, start, k, target_files) {
            let d = start.prefix(k);
            assert(find_spec(fs@, start@.take(k as int), names) == Some(d@));
            return Some(d);
        }
        if k == 0 {
            assert(find_spec(fs@, start@.take(0), names) is None);
            return None;
        }
        proof {
            let cur = start@.take(k as int);
            assert(cur.drop_last() =~= start@.take(k - 1));
            assert(find_spec(fs@, cur, names) == find_spec(fs@, start@.take(k - 1), names));
        }
        k = k - 1;
    }
}

/// One step of the live search: a directory that holds a candidate is the
/// answer; otherwise the search moves to the parent, and ends when the root
/// itself held nothing.
pub enum FindStep {
    Found(FsPath),
    Ascend(FsPath),
    NotFound,
}

/// Decides what the search does at `current`, given whether one of the
/// candidate files is present there.
pub fn find_step(current: FsPath, marker_present: bool) -> (r: FindStep)
    ensures
        marker_present ==> (r matches FindStep::Found(d) && d@ == current@),
        !marker_present && current@.len() > 0 ==> (r matches FindStep::Ascend(p) && p@
            == current@.drop_last()),
        !marker_present && current@.len() == 0 ==> r is NotFound,
{
    if marker_present {
        FindStep::Found(current)
    } else {
        let mut c = current;
        let ghost before = c.segs@;
        match c.segs.pop() {
            Some(_) => {
                proof {
                    assert(c@ =~= views_of(before).drop_last());
                }
                FindStep::Ascend(c)
            },
            None => FindStep::NotFound,
        }
    }
}

/// A live step from a directory without a candidate loses nothing: the
/// search's answer from there is its answer from the parent. With
/// `find_step`'s contract, a loop of live steps returns what `find_spec`
/// names.
pub proof fn lemma_step_preserves_answer(
    files: Seq<Seq<Seq<char>>>,
    current: Seq<Seq<char>>,
    names: Seq<Seq<char>>,
)
    requires
        !contains_marker(files, current, names),
        current.len() > 0,
    ensures
        find_spec(files, current, names) == find_spec(files, current.drop_last(), names),
{
}

/// No ancestor of the start, the start included, holds a candidate file:
/// the search finds nothing.
pub proof fn lemma_find_none(
    files: Seq<Seq<Seq<char>>>,
    start: Seq<Seq<char>>,
    names: Seq<Seq<char>>,
)
    requires
        forall|k: int|
            0 <= k <= start.len() ==> !contains_marker(files, #[trigger] start.take(k), names),
    ensures
        find_spec(files, start, names) is None,
    decreases start.len(),
{
    assert(start.take(start.len() as int) =~= start);
    if start.len() > 0 {
        let parent = start.drop_last();
        assert(forall|k: int|
            0 <= k <= parent.len() ==> parent.take(k) =~= start.take(k) && !contains_marker(
                files,
                #[trigger] parent.take(k),
                names,
            ));
        lemma_find_none(files, parent, names);
    }
}

/// A candidate file stands in the start directory itself: the search returns
/// the start unchanged.
pub proof fn lemma_find_in_start(
    files: Seq<Seq<Seq<char>>>,
    start: Seq<Seq<char>>,
    names: Seq<Seq<char>>,
)
    requires
        contains_marker(files, start, names),
    ensures
        find_spec(files, start, names) == Some(start),
{
}

/// A candidate file stands exactly `n` levels above the start and in no
/// directory below: the search returns the ancestor exactly `n` levels up.
pub proof fn lemma_find_n_levels_up(
    files: Seq<Seq<Seq<char>>>,
    start: Seq<Seq<char>>,
    names: Seq<Seq<char>>,
    n: int,
)
    requires
        0 <= n <= start.len(),
        contains_marker(files, start.take(start.len() - n), names),
        forall|k: int|
            start.len() - n < k <= start.len() ==> !contains_marker(
                files,
                #[trigger] start.take(k),
                names,
            ),
    ensures
        find_spec(files, start, names) == Some(start.take(start.len() - n)),
    decreases n,
{
    assert(start.take(start.len() as int) =~= start);
    if n == 0 {
    } else {
        assert(!contains_marker(files, start, names));
        let parent = start.drop_last();
        assert(parent =~= start.take(start.len() - 1));
        assert(forall|k: int| 0 <= k <= parent.len() ==> parent.take(k) =~= start.take(k));
        assert(contains_marker(files, parent.take(parent.len() - (n - 1)), names));
        lemma_find_n_levels_up(files, parent, names, n - 1);
    }
}

/// Two candidate lists that hold the same names mark the same directories.
pub proof fn lemma_marker_names_as_set(
    files: Seq<Seq<Seq<char>>>,
    dir: Seq<Seq<char>>,
    names1: Seq<Seq<char>>,
    names2: Seq<Seq<char>>,
)
    requires
        forall|x: Seq<char>| names1.contains(x) <==> names2.contains(x),
    ensures
        contains_marker(files, dir, names1) == contains_marker(files, dir, names2),
{
    if contains_marker(files, dir, names1) {
        let (i, j) = choose|i: int, j: int|
            0 <= i < files.len() && 0 <= j < names1.len() && files[i] == dir.push(names1[j]);
        assert(names1.contains(names1[j]));
        assert(names2.contains(names1[j]));
        let j2 = choose|j2: int| 0 <= j2 < names2.len() && names2[j2] == names1[j];
        assert(files[i] == dir.push(names2[j2]));
    }
    if contains_marker(files, dir, names2) {
        let (i, j) = choose|i: int, j: int|
            0 <= i < files.len() && 0 <= j < names2.len() && files[i] == dir.push(names2[j]);
        assert(names2.contains(names2[j]));
        assert(names1.contains(names2[j]));
        let j1 = choose|j1: int| 0 <= j1 < names1.len() && names1[j1] == names2[j];
        assert(files[i] == dir.push(names1[j1]));
    }
}

/// The order of the candidate names does not matter: two lists that hold the
/// same names lead the search to the same directory.
pub proof fn lemma_find_order_insensitive(
    files: Seq<Seq<Seq<char>>>,
    start: Seq<Seq<char>>,
    names1: Seq<Seq<char>>,
    names2: Seq<Seq<char>>,
)
    requires
        forall|x: Seq<char>| names1.contains(x) <==> names2.contains(x),
    ensures
        find_spec(files, start, names1) == find_spec(files, start, names2),
    decreases start.len(),
{
    lemma_marker_names_as_set(files, start, names1, names2);
    if !contains_marker(files, start, names1) && start.len() > 0 {
        lemma_find_order_insensitive(files, start.drop_last(), names1, names2);
    }
}

} // verus!
