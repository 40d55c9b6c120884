//! Filesystem locations as sequences of path segments.
//!
//! An absolute path `/a/b` is held as its segments `["a", "b"]`; the root
//! directory is the empty sequence. `parse_abs_path` and `path_to_string`
//! move between the segment form and the textual form, and their contracts
//! pin down exactly which strings denote a path.

use vstd::prelude::*;
use vstd::string::StrSliceExecFns;
use vstd::string::StringExecFns;

verus! {

/// An absolute filesystem path, as its segments from the root downward.
pub struct FsPath {
    pub segs: Vec<String>,
}

impl View for FsPath {
    type V = Seq<Seq<char>>;

    open spec fn view(&self) -> Seq<Seq<char>> {
        views_of(self.segs@)
    }
}

/// The views of a sequence of strings.
pub open spec fn views_of(ss: Seq<String>) -> Seq<Seq<char>> {
    ss.map_values(|s: String| s@)
}

/// Extending the strings extends their views.
pub proof fn lemma_views_of_push(ss: Seq<String>, x: String)
    ensures
        views_of(ss.push(x)) =~= views_of(ss).push(x@),
{
}

/// A well-formed segment is non-empty and holds no separator.
pub open spec fn seg_wf(s: Seq<char>) -> bool {
    s.len() > 0 && !s.contains('/')
}

/// All segments of the path are well-formed.
pub open spec fn segs_wf(p: Seq<Seq<char>>) -> bool {
    forall|i: int| 0 <= i < p.len() ==> seg_wf(#[trigger] p[i])
}

/// The text that a non-root path denotes: a separator before each segment.
pub open spec fn cat_segs(p: Seq<Seq<char>>) -> Seq<char>
    decreases p.len(),
{
    if p.len() == 0 {
        Seq::empty()
    } else {
        cat_segs(p.drop_last()) + seq!['/'] + p.last()
    }
}

/// The text that a path denotes: `/` for the root, otherwise a separator
/// before each segment.
pub open spec fn abs_string_of(p: Seq<Seq<char>>) -> Seq<char> {
    if p.len() == 0 {
        seq!['/']
    } else {
        cat_segs(p)
    }
}

/// The strings that denote a well-formed absolute path: a leading separator,
/// no empty segment (so no doubled separator, and no trailing separator other
/// than the root itself).
pub open spec fn is_canonical_abs(s: Seq<char>) -> bool {
    &&& s.len() >= 1
    &&& s[0] == '/'
    &&& (s.len() == 1 || (s[s.len() - 1] != '/' && forall|i: int|
        1 <= i < s.len() ==> !(s[i - 1] == '/' && #[trigger] s[i] == '/')))
}

impl FsPath {
    /// All segments are well-formed.
    pub open spec fn wf(&self) -> bool {
        segs_wf(self@)
    }

    /// The path made of the first `k` segments of this one.
    pub fn prefix(&self, k: usize) -> (r: FsPath)
        requires
            k <= self.segs@.len(),
        ensures
            r@ == self@.take(k as int),
    {
        let mut segs: Vec<String> = Vec::new();
        let mut i: usize = 0;
        while i < k
            invariant
                i <= k <= self.segs@.len(),
                views_of(segs@) == self@.take(i as int),
            decreases k - i,
        {
            let ghost old_segs = segs@;
            let s = self.segs[i].clone();
            segs.push(s);
            proof {
                assert(segs@ == old_segs.push(self.segs@[i as int]));
                lemma_views_of_push(old_segs, self.segs@[i as int]);
                assert(views_of(segs@) =~= self@.take(i + 1));
            }
            i = i + 1;
        }
        assert(views_of(segs@) =~= self@.take(k as int));
        FsPath { segs }
    }

    /// This path extended by a relative path below it.
    pub fn join(&self, rel: &FsPath) -> (r: FsPath)
        ensures
            r@ == self@ + rel@,
    {
        let mut r = self.prefix(self.segs.len());
        assert(r@ =~= self@);
        let mut j: usize = 0;
        while j < rel.segs.len()
            invariant
                j <= rel.segs@.len(),
                r.segs@.len() == self.segs@.len() + j,
                r@ == self@ + rel@.take(j as int),
            decreases rel.segs@.len() - j,
        {
            let ghost old_segs = r.segs@;
            let s = rel.segs[j].clone();
            r.segs.push(s);
            proof {
                assert(r.segs@ == old_segs.push(rel.segs@[j as int]));
                lemma_views_of_push(old_segs, rel.segs@[j as int]);
                assert(views_of(r.segs@) =~= self@ + rel@.take(j + 1));
            }
            j = j + 1;
        }
        assert(r@ =~= self@ + rel@);
        r
    }
}

/// Whether two strings hold the same text.
pub fn string_eq(a: &String, b: &String) -> (r: bool)
    ensures
        r == (a@ == b@),
{
    *a == *b
}

/// Parses an absolute path string into its segments. Returns a path exactly
/// when the string is a canonical absolute path, and then one whose segments
/// spell the string back.
pub fn parse_abs_path(s: &str) -> (r: Option<FsPath>)
    ensures
        r is Some <==> is_canonical_abs(s@),
        r matches Some(p) ==> p.wf() && abs_string_of(p@) == s@,
{
    let n: usize = s.unicode_len();
    if n == 0 {
        return None;
    }
    if s.get_char(0) != '/' {
        return None;
    }
    if n == 1 {
        let r = FsPath { segs: Vec::new() };
        assert(r@.len() == 0);
        assert(abs_string_of(r@) =~= s@);
        return Some(r);
    }
    let mut segs: Vec<String> = Vec::new();
    let mut start: usize = 1;
    let mut i: usize = 1;
    while i < n
        invariant
            n == s@.len(),
            1 < n,
            1 <= start <= i <= n,
            s@[0] == '/',
            s@[start - 1] == '/',
            segs_wf(views_of(segs@)),
            cat_segs(views_of(segs@)) == s@.take(start - 1),
            forall|j: int| start <= j < i ==> s@[j] != '/',
            forall|j: int| 1 <= j < i ==> !(s@[j - 1] == '/' && #[trigger] s@[j] == '/'),
        decreases n - i,
    {
        if s.get_char(i) == '/' {
            if i == start {
                // a doubled separator: not canonical
                assert(!is_canonical_abs(s@));
                return None;
            }
            let ghost old_vs = views_of(segs@);
            let piece = s.substring_char(start, i);
            let seg = piece.to_owned();
            proof {
                assert(seg@ == s@.subrange(start as int, i as int));
                assert(seg@.len() > 0);
                assert(forall|c: int|
                    0 <= c < seg@.len() ==> #[trigger] seg@[c] == s@[start + c] && seg@[c]
                        != '/');
                assert(!seg@.contains('/'));
            }
            segs.push(seg);
            proof {
                let vs = views_of(segs@);
                assert(vs.last() == s@.subrange(start as int, i as int));
                assert(forall|m: int| 0 <= m < old_vs.len() ==> vs[m] == old_vs[m]);
                assert(vs.drop_last() =~= old_vs);
                assert(cat_segs(vs) == cat_segs(old_vs) + seq!['/'] + vs.last());
                assert(segs_wf(vs));
                assert(s@.take(start - 1) + seq!['/'] + s@.subrange(start as int, i as int)
                    =~= s@.take(i as int));
                assert(cat_segs(vs) == s@.take(i as int));
            }
            start = i + 1;
        }
        i = i + 1;
    }
    if start == n {
        // a trailing separator: not canonical
        assert(s@[n - 1] == '/');
        assert(!is_canonical_abs(s@));
        return None;
    }
    let ghost old_vs = views_of(segs@);
    let piece = s.substring_char(start, n);
    let seg = piece.to_owned();
    proof {
        assert(seg@ == s@.subrange(start as int, n as int));
        assert(seg@.len() > 0);
        assert(forall|c: int| 0 <= c < seg@.len() ==> #[trigger] seg@[c] == s@[start + c]
            && seg@[c] != '/');
        assert(!seg@.contains('/'));
    }
    segs.push(seg);
    proof {
        let vs = views_of(segs@);
        assert(vs.last() == s@.subrange(start as int, n as int));
        assert(forall|m: int| 0 <= m < old_vs.len() ==> vs[m] == old_vs[m]);
        assert(vs.drop_last() =~= old_vs);
        assert(cat_segs(vs) == cat_segs(old_vs) + seq!['/'] + vs.last());
        assert(segs_wf(vs));
        assert(s@.take(start - 1) + seq!['/'] + s@.subrange(start as int, n as int) =~= s@.take(
            n as int,
        ));
        assert(s@.take(n as int) =~= s@);
        assert(cat_segs(vs) == s@);
        assert(is_canonical_abs(s@));
    }
    let r = FsPath { segs };
    assert(r@.len() > 0);
    Some(r)
}

/// The text of a well-formed path is canonical: printing a path always
/// yields a string that parses.
pub proof fn lemma_abs_string_canonical(p: Seq<Seq<char>>)
    requires
        segs_wf(p),
    ensures
        is_canonical_abs(abs_string_of(p)),
    decreases p.len(),
{
    if p.len() == 0 {
    } else {
        let s = cat_segs(p);
        let head = cat_segs(p.drop_last());
        let last = p.last();
        assert(seg_wf(last));
        assert(forall|c: int| 0 <= c < last.len() ==> last[c] != '/');
        assert(s == head + seq!['/'] + last);
        assert(s.len() == head.len() + 1 + last.len());
        assert(s[head.len() as int] == '/');
        assert(forall|j: int|
            head.len() < j < s.len() ==> #[trigger] s[j] == last[j - head.len() - 1]);
        if p.len() == 1 {
            assert(head.len() == 0);
            assert(s[0] == '/');
            assert(s[s.len() - 1] != '/');
            assert(forall|i: int| 1 <= i < s.len() ==> #[trigger] s[i] != '/');
        } else {
            assert(segs_wf(p.drop_last()));
            lemma_abs_string_canonical(p.drop_last());
            assert(abs_string_of(p.drop_last()) == head);
            assert(is_canonical_abs(head));
            assert(head.len() >= 2) by {
                let hlast = p.drop_last().last();
                assert(seg_wf(hlast));
                assert(head == cat_segs(p.drop_last().drop_last()) + seq!['/'] + hlast);
            }
            assert(forall|j: int| 0 <= j < head.len() ==> #[trigger] s[j] == head[j]);
            assert(s[0] == '/');
            assert(s[s.len() - 1] != '/');
            assert(head[head.len() - 1] != '/');
            assert forall|i: int| 1 <= i < s.len() implies !(s[i - 1] == '/' && #[trigger] s[i]
                == '/') by {
                if i < head.len() {
                    assert(!(head[i - 1] == '/' && head[i] == '/'));
                } else if i == head.len() {
                    assert(s[i - 1] == head[head.len() - 1]);
                } else {
                    assert(s[i] != '/');
                }
            }
        }
    }
}

/// The text of a well-formed path determines the path: no two well-formed
/// paths print to the same string. With `lemma_abs_string_canonical`, parsing
/// a printed path gives the very path back.
pub proof fn lemma_abs_string_injective(a: Seq<Seq<char>>, b: Seq<Seq<char>>)
    requires
        segs_wf(a),
        segs_wf(b),
        abs_string_of(a) == abs_string_of(b),
    ensures
        a == b,
    decreases a.len(),
{
    if a.len() == 0 || b.len() == 0 {
        if a.len() == 0 && b.len() > 0 {
            lemma_cat_len_at_least_two(b);
        }
        if b.len() == 0 && a.len() > 0 {
            lemma_cat_len_at_least_two(a);
        }
        assert(a =~= b);
    } else {
        let s = cat_segs(a);
        let ka = cat_segs(a.drop_last()).len() as int;
        let kb = cat_segs(b.drop_last()).len() as int;
        lemma_cat_last_separator(a);
        lemma_cat_last_separator(b);
        assert(ka == kb) by {
            if ka < kb {
                assert(s[kb] == '/');
            }
            if kb < ka {
                assert(s[ka] == '/');
            }
        }
        assert(a.last() =~= s.subrange(ka + 1, s.len() as int));
        assert(b.last() =~= s.subrange(kb + 1, s.len() as int));
        assert(cat_segs(a.drop_last()) =~= s.take(ka));
        assert(cat_segs(b.drop_last()) =~= s.take(kb));
        if a.len() == 1 || b.len() == 1 {
            if a.len() == 1 && b.len() > 1 {
                lemma_cat_len_at_least_two(b.drop_last());
                assert(ka == 0);
            }
            if b.len() == 1 && a.len() > 1 {
                lemma_cat_len_at_least_two(a.drop_last());
                assert(kb == 0);
            }
            assert(a =~= b);
        } else {
            lemma_abs_string_injective(a.drop_last(), b.drop_last());
            assert(a =~= a.drop_last().push(a.last()));
            assert(b =~= b.drop_last().push(b.last()));
        }
    }
}

/// A non-root path's text has at least a separator and one character.
proof fn lemma_cat_len_at_least_two(p: Seq<Seq<char>>)
    requires
        segs_wf(p),
        p.len() > 0,
    ensures
        cat_segs(p).len() >= 2,
{
    assert(seg_wf(p.last()));
}

/// In a non-root path's text, the last separator stands just before the last
/// segment: at the end of the text of the other segments.
proof fn lemma_cat_last_separator(p: Seq<Seq<char>>)
    requires
        segs_wf(p),
        p.len() > 0,
    ensures
        cat_segs(p)[cat_segs(p.drop_last()).len() as int] == '/',
        forall|j: int|
            cat_segs(p.drop_last()).len() < j < cat_segs(p).len() ==> #[trigger] cat_segs(
                p,
            )[j] != '/',
{
    let s = cat_segs(p);
    let head = cat_segs(p.drop_last());
    let last = p.last();
    assert(seg_wf(last));
    assert(forall|c: int| 0 <= c < last.len() ==> last[c] != '/');
    assert(s == head + seq!['/'] + last);
    assert(forall|j: int| head.len() < j < s.len() ==> #[trigger] s[j] == last[j - head.len() - 1]);
}

/// The text with runs of separators collapsed to one.
pub open spec fn collapse_separators(s: Seq<char>) -> Seq<char>
    decreases s.len(),
{
    if s.len() == 0 {
        Seq::empty()
    } else if s.len() >= 2 && s[s.len() - 1] == '/' && s[s.len() - 2] == '/' {
        collapse_separators(s.drop_last())
    } else {
        collapse_separators(s.drop_last()).push(s.last())
    }
}

/// The text without a trailing separator, except a lone separator itself.
pub open spec fn strip_trailing_separator(s: Seq<char>) -> Seq<char> {
    if s.len() >= 2 && s[s.len() - 1] == '/' {
        s.drop_last()
    } else {
        s
    }
}

/// The canonical form of a path text that may double its separators or end
/// in one: runs of separators collapsed, then a trailing one dropped.
pub open spec fn normalize_abs(s: Seq<char>) -> Seq<char> {
    strip_trailing_separator(collapse_separators(s))
}

/// Rewrites a path text into its canonical form: `/a//b/` becomes `/a/b`.
/// A text that was already canonical comes back unchanged, and one that
/// is absolute only in this loose sense becomes parseable.
pub fn normalize_path_text(s: &str) -> (r: String)
    ensures
        r@ == normalize_abs(s@),
{
    let n: usize = s.unicode_len();
    let mut collapsed = String::new();
    let mut prev_is_sep = false;
    let mut i: usize = 0;
    while i < n
        invariant
            i <= n,
            n == s@.len(),
            collapsed@ == collapse_separators(s@.take(i as int)),
            prev_is_sep == (i > 0 && s@[i - 1] == '/'),
        decreases n - i,
    {
        let c_is_sep = s.get_char(i) == '/';
        if !(c_is_sep && prev_is_sep) {
            let piece = s.substring_char(i, i + 1);
            collapsed.append(piece);
            proof {
                let pre = s@.take(i + 1);
                assert(pre.drop_last() =~= s@.take(i as int));
                assert(pre.last() == s@[i as int]);
                assert(!(pre.len() >= 2 && pre[pre.len() - 1] == '/' && pre[pre.len() - 2]
                    == '/'));
                assert(piece@ =~= seq![s@[i as int]]);
                assert(collapsed@ =~= collapse_separators(pre.drop_last()).push(pre.last()));
            }
        } else {
            proof {
                let pre = s@.take(i + 1);
                assert(pre.drop_last() =~= s@.take(i as int));
                assert(pre.last() == s@[i as int]);
                assert(pre.len() >= 2 && pre[pre.len() - 1] == '/' && pre[pre.len() - 2] == '/');
            }
        }
        prev_is_sep = c_is_sep;
        i = i + 1;
    }
    assert(s@.take(n as int) =~= s@);
    let m: usize = collapsed.as_str().unicode_len();
    if m >= 2 {
        if collapsed.as_str().get_char(m - 1) == '/' {
            let head = collapsed.as_str().substring_char(0, m - 1).to_owned();
            assert(head@ =~= collapsed@.drop_last());
            return head;
        }
    }
    collapsed
}

/// Prints a path back as its absolute string form.
pub fn path_to_string(p: &FsPath) -> (r: String)
    ensures
        r@ == abs_string_of(p@),
{
    proof {
        reveal_strlit("/");
    }
    if p.segs.len() == 0 {
        let r = String::from_str("/");
        assert(r@ =~= abs_string_of(p@));
        return r;
    }
    let mut r = String::new();
    let mut i: usize = 0;
    while i < p.segs.len()
        invariant
            i <= p.segs@.len(),
            r@ == cat_segs(p@.take(i as int)),
        decreases p.segs@.len() - i,
    {
        proof {
            reveal_strlit("/");
        }
        r.append("/");
        r.append(p.segs[i].as_str());
        proof {
            let pre = p@.take(i + 1);
            assert(pre.drop_last() =~= p@.take(i as int));
            assert(pre.last() == p@[i as int]);
            assert(r@ == cat_segs(p@.take(i as int)) + seq!['/'] + p@[i as int]);
            assert(cat_segs(pre) == cat_segs(pre.drop_last()) + seq!['/'] + pre.last());
            assert(r@ == cat_segs(pre));
        }
        i = i + 1;
    }
    assert(p@.take(p.segs@.len() as int) =~= p@);
    r
}

} // verus!
