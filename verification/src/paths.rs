//! Lexical path model.
//!
//! Paths are modelled as sequences of `/`-separated segments.  An
//! [`AbsPath`] is an absolute path whose `.` and `..` components have been
//! resolved lexically; every capability root and every matched directory in
//! the crate is such a value.

use vstd::prelude::*;

verus! {

/// A segment that a lexical normalization skips: empty or `.`.
pub open spec fn is_skip_seg(seg: Seq<char>) -> bool {
    seg.len() == 0 || (seg.len() == 1 && seg[0] == '.')
}

/// A segment that pops its parent during lexical normalization: `..`.
pub open spec fn is_pop_seg(seg: Seq<char>) -> bool {
    seg.len() == 2 && seg[0] == '.' && seg[1] == '.'
}

/// What splitting a string on `/` yields, in order.  The empty string
/// yields one empty piece, like `str::split`.
pub open spec fn spec_split_slash(s: Seq<char>) -> Seq<Seq<char>>
    decreases s.len(),
{
    if s.len() == 0 {
        seq![Seq::<char>::empty()]
    } else if s.last() == '/' {
        spec_split_slash(s.drop_last()).push(Seq::<char>::empty())
    } else {
        let prev = spec_split_slash(s.drop_last());
        prev.update(prev.len() - 1, prev.last().push(s.last()))
    }
}

/// Splitting yields at least one piece.
pub proof fn lemma_split_slash_len(s: Seq<char>)
    ensures
        spec_split_slash(s).len() >= 1,
    decreases s.len(),
{
    if s.len() > 0 {
        lemma_split_slash_len(s.drop_last());
    }
}

/// Lexical resolution of `.` and `..` over raw segments: empty and `.`
/// segments vanish, `..` removes the segment before it (nothing at the
/// root), and every other segment is kept in order.
pub open spec fn spec_lex_norm(parts: Seq<Seq<char>>) -> Seq<Seq<char>>
    decreases parts.len(),
{
    if parts.len() == 0 {
        Seq::<Seq<char>>::empty()
    } else {
        let prev = spec_lex_norm(parts.drop_last());
        let last = parts.last();
        if is_skip_seg(last) {
            prev
        } else if is_pop_seg(last) {
            if prev.len() > 0 {
                prev.drop_last()
            } else {
                prev
            }
        } else {
            prev.push(last)
        }
    }
}

/// A normalized segment: non-empty, not `.` or `..`, and free of `/`.
pub open spec fn is_normal_seg(seg: Seq<char>) -> bool {
    &&& !is_skip_seg(seg)
    &&& !is_pop_seg(seg)
    &&& forall|i: int| 0 <= i < seg.len() ==> seg[i] != '/'
}

/// A well-formed absolute path value: every segment normalized.
pub open spec fn path_wf(path: Seq<Seq<char>>) -> bool {
    forall|i: int| 0 <= i < path.len() ==> is_normal_seg(#[trigger] path[i])
}

/// Segments that hold no separator.
pub open spec fn segs_slash_free(parts: Seq<Seq<char>>) -> bool {
    forall|i: int, j: int|
        #![trigger parts[i][j]]
        0 <= i < parts.len() && 0 <= j < parts[i].len() ==> parts[i][j] != '/'
}

/// `anc` is `desc` itself or an ancestor of it: segment-wise prefix.
pub open spec fn is_path_prefix(anc: Seq<Seq<char>>, desc: Seq<Seq<char>>) -> bool {
    anc.len() <= desc.len() && anc == desc.subrange(0, anc.len() as int)
}

/// An absolute, lexically normalized path: the segments of `/a/b` are
/// `["a", "b"]`; the filesystem root is the empty sequence.
#[derive(Debug)]
pub struct AbsPath {
    segs: Vec<String>,
}

impl View for AbsPath {
    type V = Seq<Seq<char>>;

    closed spec fn view(&self) -> Seq<Seq<char>> {
        self.segs.deep_view()
    }
}

impl DeepView for AbsPath {
    type V = Seq<Seq<char>>;

    open spec fn deep_view(&self) -> Seq<Seq<char>> {
        self.view()
    }
}

/// Splits a string on `/`, keeping empty pieces; no piece holds the
/// separator.
pub fn split_slash(s: &str) -> (parts: Vec<String>)
    ensures
        parts.deep_view() == spec_split_slash(s@),
        segs_slash_free(parts.deep_view()),
{
    let n = s.unicode_len();
    let mut parts: Vec<String> = Vec::new();
    let mut start: usize = 0;
    let mut i: usize = 0;
    proof {
        assert(s@.subrange(0, 0) =~= Seq::<char>::empty());
        assert(parts.deep_view() =~= Seq::<Seq<char>>::empty());
    }
    while i < n
        invariant
            i <= n,
            start <= i,
            n == s@.len(),
            parts.deep_view() == spec_split_slash(s@.subrange(0, i as int)).drop_last(),
            spec_split_slash(s@.subrange(0, i as int)).last() == s@.subrange(
                start as int,
                i as int,
            ),
        decreases n - i,
    {
        let ghost pre = s@.subrange(0, i as int);
        let ghost post = s@.subrange(0, i as int + 1);
        proof {
            lemma_split_slash_len(pre);
            assert(post.drop_last() =~= pre);
            assert(post.last() == s@[i as int]);
        }
        let c = s.get_char(i);
        if c == '/' {
            let piece = s.substring_char(start, i).to_owned();
            let ghost dv = parts.deep_view();
            parts.push(piece);
            proof {
                assert(parts.deep_view() =~= dv.push(piece@));
                assert(spec_split_slash(post) == spec_split_slash(pre).push(
                    Seq::<char>::empty(),
                ));
                assert(spec_split_slash(post).drop_last() =~= spec_split_slash(pre));
                assert(dv.push(piece@) =~= spec_split_slash(pre));
                assert(s@.subrange(i as int + 1, i as int + 1) =~= Seq::<char>::empty());
            }
            start = i + 1;
        } else {
            proof {
                let prev = spec_split_slash(pre);
                assert(spec_split_slash(post) == prev.update(
                    prev.len() - 1,
                    prev.last().push(s@[i as int]),
                ));
                assert(spec_split_slash(post).drop_last() =~= prev.drop_last());
                assert(s@.subrange(start as int, i as int + 1) =~= s@.subrange(
                    start as int,
                    i as int,
                ).push(s@[i as int]));
            }
        }
        i += 1;
    }
    proof {
        assert(s@.subrange(0, n as int) =~= s@);
        lemma_split_slash_len(s@);
    }
    let piece = s.substring_char(start, n).to_owned();
    let ghost dv = parts.deep_view();
    parts.push(piece);
    proof {
        assert(parts.deep_view() =~= dv.push(piece@));
        assert(dv.push(piece@) =~= spec_split_slash(s@));
        lemma_split_slash_no_slash(s@);
    }
    parts
}

/// No piece of a split contains the separator.
pub proof fn lemma_split_slash_no_slash(s: Seq<char>)
    ensures
        forall|i: int, j: int|
            0 <= i < spec_split_slash(s).len() && 0 <= j < spec_split_slash(s)[i].len()
                ==> spec_split_slash(s)[i][j] != '/',
    decreases s.len(),
{
    if s.len() > 0 {
        lemma_split_slash_no_slash(s.drop_last());
        lemma_split_slash_len(s.drop_last());
    }
}

/// Every segment that a lexical normalization keeps is one of the input
/// segments, and is neither a skip nor a pop segment.
pub proof fn lemma_lex_norm_segs(parts: Seq<Seq<char>>)
    ensures
        forall|i: int|
            0 <= i < spec_lex_norm(parts).len() ==> {
                let seg = #[trigger] spec_lex_norm(parts)[i];
                &&& parts.contains(seg)
                &&& !is_skip_seg(seg)
                &&& !is_pop_seg(seg)
            },
    decreases parts.len(),
{
    if parts.len() > 0 {
        lemma_lex_norm_segs(parts.drop_last());
        let prev = spec_lex_norm(parts.drop_last());
        assert(parts.contains(parts.last())) by {
            assert(parts[parts.len() - 1] == parts.last());
        }
        assert forall|i: int| 0 <= i < spec_lex_norm(parts).len() implies {
            let seg = #[trigger] spec_lex_norm(parts)[i];
            &&& parts.contains(seg)
            &&& !is_skip_seg(seg)
            &&& !is_pop_seg(seg)
        } by {
            let seg = spec_lex_norm(parts)[i];
            if i < prev.len() && seg == prev[i] {
                let j = choose|j: int| 0 <= j < parts.drop_last().len() && parts.drop_last()[j]
                    == seg;
                if parts.drop_last().contains(seg) {
                    assert(parts[j] == seg);
                }
            }
        }
    }
}

/// Clones a vector of strings, keeping its contents.
pub fn clone_string_vec(v: &Vec<String>) -> (r: Vec<String>)
    ensures
        r@ == v@,
        r.deep_view() == v.deep_view(),
{
    let mut r: Vec<String> = Vec::new();
    let mut i: usize = 0;
    while i < v.len()
        invariant
            i <= v.len(),
            r@ == v@.subrange(0, i as int),
        decreases v.len() - i,
    {
        r.push(v[i].clone());
        proof {
            assert(r@ =~= v@.subrange(0, i as int + 1));
        }
        i += 1;
    }
    proof {
        assert(v@.subrange(0, v@.len() as int) =~= v@);
        assert(r.deep_view() =~= v.deep_view());
    }
    r
}

/// How one raw segment behaves under lexical normalization.
fn classify_seg(seg: &str) -> (k: u8)
    ensures
        (k == 0) == is_skip_seg(seg@),
        (k == 1) == is_pop_seg(seg@),
        (k == 2) == (!is_skip_seg(seg@) && !is_pop_seg(seg@)),
{
    let n = seg.unicode_len();
    if n == 0 {
        0
    } else if n == 1 {
        if seg.get_char(0) == '.' {
            0
        } else {
            2
        }
    } else if n == 2 {
        if seg.get_char(0) == '.' && seg.get_char(1) == '.' {
            1
        } else {
            2
        }
    } else {
        2
    }
}

/// Resolves `.` and `..` segments lexically, never touching the
/// filesystem; `..` at the root is dropped, so the root is preserved.
pub fn normalize_lexically(parts: &Vec<String>) -> (r: Vec<String>)
    ensures
        r.deep_view() == spec_lex_norm(parts.deep_view()),
{
    let mut out: Vec<String> = Vec::new();
    let mut i: usize = 0;
    proof {
        assert(parts.deep_view().subrange(0, 0) =~= Seq::<Seq<char>>::empty());
        assert(out.deep_view() =~= Seq::<Seq<char>>::empty());
    }
    while i < parts.len()
        invariant
            i <= parts.len(),
            out.deep_view() == spec_lex_norm(parts.deep_view().subrange(0, i as int)),
        decreases parts.len() - i,
    {
        let ghost pre = parts.deep_view().subrange(0, i as int);
        let ghost post = parts.deep_view().subrange(0, i as int + 1);
        proof {
            assert(post.drop_last() =~= pre);
            assert(post.last() == parts.deep_view()[i as int]);
            assert(parts.deep_view()[i as int] == parts@[i as int]@);
        }
        let k = classify_seg(parts[i].as_str());
        if k == 1 {
            if out.len() > 0 {
                let ghost dv = out.deep_view();
                let _ = out.pop();
                proof {
                    assert(out.deep_view() =~= dv.drop_last());
                }
            }
        } else if k == 2 {
            let ghost dv = out.deep_view();
            let seg = parts[i].clone();
            out.push(seg);
            proof {
                assert(out.deep_view() =~= dv.push(parts@[i as int]@));
            }
        }
        i += 1;
    }
    proof {
        assert(parts.deep_view().subrange(0, parts@.len() as int) =~= parts.deep_view());
    }
    out
}

impl AbsPath {
    /// The filesystem root `/`.
    pub fn root() -> (r: AbsPath)
        ensures
            r@ == Seq::<Seq<char>>::empty(),
    {
        let r = AbsPath { segs: Vec::new() };
        proof {
            assert(r@ =~= Seq::<Seq<char>>::empty());
        }
        r
    }

    /// Wraps already-normalized segments.
    pub fn from_segments(segs: Vec<String>) -> (r: AbsPath)
        ensures
            r@ == segs.deep_view(),
    {
        AbsPath { segs }
    }

    /// Parses an absolute path string and normalizes it lexically.
    /// Strings that do not start with `/` are not absolute paths and are
    /// rejected.
    pub fn from_string(s: &str) -> (r: Option<AbsPath>)
        ensures
            r is Some <==> s@.len() > 0 && s@[0] == '/',
            r is Some ==> r->Some_0@ == spec_lex_norm(spec_split_slash(s@)),
            r is Some ==> path_wf(r->Some_0@),
    {
        if s.unicode_len() == 0 || s.get_char(0) != '/' {
            return None;
        }
        let raw = split_slash(s);
        let segs = normalize_lexically(&raw);
        proof {
            lemma_split_slash_no_slash(s@);
            lemma_lex_norm_segs(spec_split_slash(s@));
            assert forall|i: int| 0 <= i < segs.deep_view().len() implies is_normal_seg(
                #[trigger] segs.deep_view()[i],
            ) by {
                let seg = segs.deep_view()[i];
                let j = choose|j: int| 0 <= j < spec_split_slash(s@).len() && spec_split_slash(
                    s@,
                )[j] == seg;
            }
        }
        Some(AbsPath { segs })
    }

    /// The number of path segments; `/` has zero.
    pub fn depth(&self) -> (n: usize)
        ensures
            n == self@.len(),
    {
        self.segs.len()
    }

    /// The parent directory, or `None` at the root.
    pub fn parent(&self) -> (r: Option<AbsPath>)
        ensures
            r is Some <==> self@.len() > 0,
            r is Some ==> r->Some_0@ == self@.drop_last(),
    {
        if self.segs.len() == 0 {
            return None;
        }
        let mut segs = clone_string_vec(&self.segs);
        let ghost dv = segs.deep_view();
        let _ = segs.pop();
        proof {
            assert(segs.deep_view() =~= dv.drop_last());
        }
        Some(AbsPath { segs })
    }

    /// Whether `self` equals `other` or lies beneath it.
    pub fn starts_with(&self, other: &AbsPath) -> (r: bool)
        ensures
            r == is_path_prefix(other@, self@),
    {
        if other.segs.len() > self.segs.len() {
            return false;
        }
        let mut i: usize = 0;
        while i < other.segs.len()
            invariant
                i <= other.segs.len() <= self.segs.len(),
                forall|j: int| 0 <= j < i ==> self@[j] == other@[j],
            decreases other.segs.len() - i,
        {
            if !string_eq(&self.segs[i], &other.segs[i]) {
                proof {
                    assert(self@.subrange(0, other@.len() as int)[i as int] == self@[i as int]);
                }
                return false;
            }
            i += 1;
        }
        proof {
            assert(other@ =~= self@.subrange(0, other@.len() as int));
        }
        true
    }
}

impl Clone for AbsPath {
    /// Clones the path, keeping its segments.
    fn clone(&self) -> (r: Self)
        ensures
            r@ == self@,
    {
        AbsPath { segs: clone_string_vec(&self.segs) }
    }
}

impl PartialEq for AbsPath {
    fn eq(&self, other: &Self) -> (r: bool) {
        path_eq(self, other)
    }
}

impl Eq for AbsPath {

}

impl vstd::std_specs::cmp::PartialEqSpecImpl for AbsPath {
    open spec fn obeys_eq_spec() -> bool {
        true
    }

    open spec fn eq_spec(&self, other: &Self) -> bool {
        self@ == other@
    }
}

/// Whether two strings hold the same characters.
pub fn string_eq(a: &String, b: &String) -> (r: bool)
    ensures
        r == (a@ == b@),
{
    *a == *b
}

/// Whether two paths have the same segments.
pub fn path_eq(a: &AbsPath, b: &AbsPath) -> (r: bool)
    ensures
        r == (a@ == b@),
{
    proof {
        assert(a@.len() == a.segs@.len());
        assert(b@.len() == b.segs@.len());
    }
    if a.segs.len() != b.segs.len() {
        return false;
    }
    let mut i: usize = 0;
    while i < a.segs.len()
        invariant
            i <= a.segs.len() == b.segs.len(),
            a@.len() == a.segs@.len() && b@.len() == b.segs@.len(),
            forall|j: int| 0 <= j < i ==> a@[j] == b@[j],
        decreases a.segs.len() - i,
    {
        proof {
            assert(a@[i as int] == a.segs@[i as int]@);
            assert(b@[i as int] == b.segs@[i as int]@);
        }
        if !string_eq(&a.segs[i], &b.segs[i]) {
            return false;
        }
        i += 1;
    }
    proof {
        assert(a@ =~= b@);
    }
    true
}

/// Whether a list of paths holds one with the given segments.
pub fn paths_contain(v: &Vec<AbsPath>, x: &AbsPath) -> (r: bool)
    ensures
        r == v.deep_view().contains(x@),
{
    let mut i: usize = 0;
    while i < v.len()
        invariant
            i <= v.len(),
            forall|j: int| 0 <= j < i ==> v.deep_view()[j] != x@,
        decreases v.len() - i,
    {
        if path_eq(&v[i], x) {
            proof {
                assert(v.deep_view()[i as int] == x@);
            }
            return true;
        }
        i += 1;
    }
    false
}

/// Strict lexicographic order on segments, by unicode scalar value.
pub open spec fn spec_seg_lt(a: Seq<char>, b: Seq<char>) -> bool
    decreases a.len(),
{
    if b.len() == 0 {
        false
    } else if a.len() == 0 {
        true
    } else if (a[0] as u32) < (b[0] as u32) {
        true
    } else if (b[0] as u32) < (a[0] as u32) {
        false
    } else {
        spec_seg_lt(a.drop_first(), b.drop_first())
    }
}

/// Strict lexicographic order on paths: segment by segment.
pub open spec fn spec_path_lt(a: Seq<Seq<char>>, b: Seq<Seq<char>>) -> bool
    decreases a.len(),
{
    if b.len() == 0 {
        false
    } else if a.len() == 0 {
        true
    } else if a[0] == b[0] {
        spec_path_lt(a.drop_first(), b.drop_first())
    } else {
        spec_seg_lt(a[0], b[0])
    }
}

/// How two candidate skill directories rank by specificity: a deeper path
/// is more specific; equal depths fall back to the lexicographic order.
/// Negative means `a` ranks below `b`, zero means equal, positive above.
#[verifier::opaque]
pub open spec fn spec_path_specificity(a: Seq<Seq<char>>, b: Seq<Seq<char>>) -> int {
    if a.len() < b.len() {
        -1
    } else if a.len() > b.len() {
        1
    } else if a == b {
        0
    } else if spec_path_lt(a, b) {
        -1
    } else {
        1
    }
}

fn seg_cmp_from(a: &str, b: &str, i: usize) -> (r: i8)
    requires
        i <= a@.len(),
        i <= b@.len(),
    ensures
        -1 <= r <= 1,
        (r == -1) == spec_seg_lt(a@.skip(i as int), b@.skip(i as int)),
        (r == 0) == (a@.skip(i as int) == b@.skip(i as int)),
        (r == 1) == spec_seg_lt(b@.skip(i as int), a@.skip(i as int)),
    decreases a@.len() - i,
{
    let ghost sa = a@.skip(i as int);
    let ghost sb = b@.skip(i as int);
    if i == a.unicode_len() {
        proof {
            assert(sa =~= Seq::<char>::empty());
        }
        if i == b.unicode_len() {
            proof {
                assert(sb =~= Seq::<char>::empty());
                assert(sa =~= sb);
            }
            0
        } else {
            proof {
                assert(sb.len() > 0);
                assert(sa != sb);
            }
            -1
        }
    } else if i == b.unicode_len() {
        proof {
            assert(sb =~= Seq::<char>::empty());
            assert(sa.len() > 0);
            assert(sa != sb);
        }
        1
    } else {
        let ca = a.get_char(i);
        let cb = b.get_char(i);
        proof {
            assert(sa[0] == a@[i as int]);
            assert(sb[0] == b@[i as int]);
        }
        if (ca as u32) < (cb as u32) {
            proof {
                assert(sa != sb);
            }
            -1
        } else if (cb as u32) < (ca as u32) {
            proof {
                assert(sa != sb);
            }
            1
        } else {
            let r = seg_cmp_from(a, b, i + 1);
            proof {
                assert(ca == cb);
                assert(sa.drop_first() =~= a@.skip(i as int + 1));
                assert(sb.drop_first() =~= b@.skip(i as int + 1));
                assert(sa =~= seq![sa[0]] + sa.drop_first());
                assert(sb =~= seq![sb[0]] + sb.drop_first());
                if a@.skip(i as int + 1) == b@.skip(i as int + 1) {
                    assert(seq![sa[0]] + sa.drop_first() == seq![sb[0]] + sb.drop_first());
                }
                if sa == sb {
                    assert(sa.drop_first() == sb.drop_first());
                }
            }
            r
        }
    }
}

/// Three-way comparison of two segments.
pub fn seg_cmp(a: &String, b: &String) -> (r: i8)
    ensures
        -1 <= r <= 1,
        (r == -1) == spec_seg_lt(a@, b@),
        (r == 0) == (a@ == b@),
        (r == 1) == spec_seg_lt(b@, a@),
{
    let r = seg_cmp_from(a.as_str(), b.as_str(), 0);
    proof {
        assert(a@.skip(0) =~= a@);
        assert(b@.skip(0) =~= b@);
    }
    r
}

fn path_cmp_from(a: &AbsPath, b: &AbsPath, k: usize) -> (r: i8)
    requires
        k <= a@.len(),
        k <= b@.len(),
    ensures
        -1 <= r <= 1,
        (r == -1) == spec_path_lt(a@.skip(k as int), b@.skip(k as int)),
        (r == 0) == (a@.skip(k as int) == b@.skip(k as int)),
        (r == 1) == spec_path_lt(b@.skip(k as int), a@.skip(k as int)),
    decreases a@.len() - k,
{
    let ghost sa = a@.skip(k as int);
    let ghost sb = b@.skip(k as int);
    if k == a.segs.len() {
        proof {
            assert(sa =~= Seq::<Seq<char>>::empty());
        }
        if k == b.segs.len() {
            proof {
                assert(sb =~= Seq::<Seq<char>>::empty());
                assert(sa =~= sb);
            }
            0
        } else {
            proof {
                assert(sb.len() > 0);
                assert(sa != sb);
            }
            -1
        }
    } else if k == b.segs.len() {
        proof {
            assert(sb =~= Seq::<Seq<char>>::empty());
            assert(sa.len() > 0);
            assert(sa != sb);
        }
        1
    } else {
        proof {
            assert(sa[0] == a@[k as int] && a@[k as int] == a.segs@[k as int]@);
            assert(sb[0] == b@[k as int] && b@[k as int] == b.segs@[k as int]@);
        }
        let c = seg_cmp(&a.segs[k], &b.segs[k]);
        if c != 0 {
            proof {
                assert(sa[0] != sb[0]);
                assert(sa != sb);
            }
            c
        } else {
            let r = path_cmp_from(a, b, k + 1);
            proof {
                assert(sa[0] == sb[0]);
                assert(sa.drop_first() =~= a@.skip(k as int + 1));
                assert(sb.drop_first() =~= b@.skip(k as int + 1));
                assert(sa =~= seq![sa[0]] + sa.drop_first());
                assert(sb =~= seq![sb[0]] + sb.drop_first());
                if a@.skip(k as int + 1) == b@.skip(k as int + 1) {
                    assert(seq![sa[0]] + sa.drop_first() == seq![sb[0]] + sb.drop_first());
                }
                if sa == sb {
                    assert(sa.drop_first() == sb.drop_first());
                }
            }
            r
        }
    }
}

/// Compares two matched directories for specificity: segment count first,
/// then a deterministic lexical path order as the tie-break.
pub fn compare_path_specificity(lhs: &AbsPath, rhs: &AbsPath) -> (r: i8)
    ensures
        r as int == spec_path_specificity(lhs@, rhs@),
{
    proof {
        assert(lhs@.len() == lhs.segs@.len());
        assert(rhs@.len() == rhs.segs@.len());
    }
    proof {
        reveal(spec_path_specificity);
    }
    if lhs.segs.len() < rhs.segs.len() {
        -1
    } else if lhs.segs.len() > rhs.segs.len() {
        1
    } else {
        let r = path_cmp_from(lhs, rhs, 0);
        proof {
            assert(lhs@.skip(0) =~= lhs@);
            assert(rhs@.skip(0) =~= rhs@);
        }
        r
    }
}

/// The number of segments of a path; the root has zero.
pub fn count_path_components(path: &AbsPath) -> (n: usize)
    ensures
        n == path@.len(),
{
    path.segs.len()
}

/// The string a path's segments spell when joined: `/` before each one.
pub open spec fn spec_joined(parts: Seq<Seq<char>>) -> Seq<char>
    decreases parts.len(),
{
    if parts.len() == 0 {
        Seq::<char>::empty()
    } else {
        spec_joined(parts.drop_last()) + seq!['/'] + parts.last()
    }
}

impl AbsPath {
    /// Renders the path as a `/`-separated string; the root is `/`.
    pub fn to_string(&self) -> (r: String)
        ensures
            self@.len() == 0 ==> r@ == seq!['/'],
            self@.len() > 0 ==> r@ == spec_joined(self@),
    {
        proof {
            reveal_strlit("/");
        }
        if self.segs.len() == 0 {
            let r = String::from_str("/");
            proof {
                assert(r@ =~= seq!['/']);
            }
            return r;
        }
        let mut out = String::new();
        let mut i: usize = 0;
        proof {
            assert(self@.subrange(0, 0) =~= Seq::<Seq<char>>::empty());
        }
        while i < self.segs.len()
            invariant
                i <= self.segs.len(),
                self@.len() == self.segs@.len(),
                out@ == spec_joined(self@.subrange(0, i as int)),
            decreases self.segs.len() - i,
        {
            let ghost pre = self@.subrange(0, i as int);
            let ghost post = self@.subrange(0, i as int + 1);
            proof {
                reveal_strlit("/");
                assert(post.drop_last() =~= pre);
                assert(post.last() == self@[i as int]);
                assert(self@[i as int] == self.segs@[i as int]@);
            }
            out.append("/");
            proof {
                assert("/"@ =~= seq!['/']);
            }
            out.append(self.segs[i].as_str());
            i += 1;
        }
        proof {
            assert(self@.subrange(0, self@.len() as int) =~= self@);
        }
        out
    }

    /// Appends raw segments beneath this path and normalizes the result
    /// lexically, as resolving a relative path against a base does.
    pub fn join_under(&self, rel: &Vec<String>) -> (r: AbsPath)
        ensures
            r@ == spec_lex_norm(self@ + rel.deep_view()),
            path_wf(self@) && segs_slash_free(rel.deep_view()) ==> path_wf(r@),
    {
        let mut combined = clone_string_vec(&self.segs);
        let mut i: usize = 0;
        while i < rel.len()
            invariant
                i <= rel.len(),
                combined.deep_view() == self@ + rel.deep_view().subrange(0, i as int),
            decreases rel.len() - i,
        {
            let ghost dv = combined.deep_view();
            combined.push(rel[i].clone());
            proof {
                assert(combined.deep_view() =~= dv.push(rel.deep_view()[i as int]));
                assert(dv.push(rel.deep_view()[i as int]) =~= self@ + rel.deep_view().subrange(
                    0,
                    i as int + 1,
                ));
            }
            i += 1;
        }
        proof {
            assert(rel.deep_view().subrange(0, rel.deep_view().len() as int) =~= rel.deep_view());
        }
        let segs = normalize_lexically(&combined);
        proof {
            if path_wf(self@) && segs_slash_free(rel.deep_view()) {
                lemma_lex_norm_segs(self@ + rel.deep_view());
                assert forall|t: int| 0 <= t < segs.deep_view().len() implies is_normal_seg(
                    #[trigger] segs.deep_view()[t],
                ) by {
                    let seg = segs.deep_view()[t];
                    let u = choose|u: int|
                        0 <= u < (self@ + rel.deep_view()).len() && (self@ + rel.deep_view())[u]
                            == seg;
                    if u < self@.len() {
                        assert((self@ + rel.deep_view())[u] == self@[u]);
                    } else {
                        assert((self@ + rel.deep_view())[u] == rel.deep_view()[u - self@.len()]);
                    }
                }
            }
        }
        AbsPath { segs }
    }
}

} // verus!

verus! {

/// The view of one path: its segment sequence.
pub type PathV = Seq<Seq<char>>;

/// What one pair contributes to a root intersection: the more specific
/// path when one contains the other, nothing when they are disjoint.
pub open spec fn spec_pair_candidate(l: PathV, r: PathV) -> Option<PathV> {
    if is_path_prefix(r, l) {
        Some(l)
    } else if is_path_prefix(l, r) {
        Some(r)
    } else {
        None
    }
}

/// The candidates one left root contributes against every right root.
pub open spec fn spec_row_cands(l: PathV, rhs: Seq<PathV>) -> Seq<PathV>
    decreases rhs.len(),
{
    if rhs.len() == 0 {
        Seq::<PathV>::empty()
    } else {
        let prev = spec_row_cands(l, rhs.drop_last());
        match spec_pair_candidate(l, rhs.last()) {
            Some(c) => prev.push(c),
            None => prev,
        }
    }
}

/// All candidates of all pairs, in pair order.
pub open spec fn spec_all_cands(lhs: Seq<PathV>, rhs: Seq<PathV>) -> Seq<PathV>
    decreases lhs.len(),
{
    if lhs.len() == 0 {
        Seq::<PathV>::empty()
    } else {
        spec_all_cands(lhs.drop_last(), rhs) + spec_row_cands(lhs.last(), rhs)
    }
}

/// Keeps the first occurrence of each element, in order.
pub open spec fn spec_dedup(s: Seq<PathV>) -> Seq<PathV>
    decreases s.len(),
{
    if s.len() == 0 {
        Seq::<PathV>::empty()
    } else {
        let prev = spec_dedup(s.drop_last());
        if prev.contains(s.last()) {
            prev
        } else {
            prev.push(s.last())
        }
    }
}

/// The root-intersection of two sets of roots: for every pair, the more
/// specific path survives when one contains the other; disjoint pairs
/// contribute nothing; duplicates collapse to their first occurrence.
pub open spec fn spec_intersect_roots(lhs: Seq<PathV>, rhs: Seq<PathV>) -> Seq<PathV> {
    spec_dedup(spec_all_cands(lhs, rhs))
}

/// Deduplication keeps exactly the elements of its input.
pub proof fn lemma_dedup_contains(s: Seq<PathV>)
    ensures
        forall|x: PathV| spec_dedup(s).contains(x) <==> s.contains(x),
    decreases s.len(),
{
    if s.len() > 0 {
        lemma_dedup_contains(s.drop_last());
        assert forall|x: PathV| s.contains(x) implies spec_dedup(s).contains(x) by {
            let i = choose|i: int| 0 <= i < s.len() && s[i] == x;
            if i < s.len() - 1 {
                assert(s.drop_last()[i] == x);
                assert(s.drop_last().contains(x));
            } else {
                assert(s.last() == x);
            }
            let prev = spec_dedup(s.drop_last());
            if !prev.contains(x) {
                assert(spec_dedup(s).last() == x || prev.contains(x)) by {
                    if s.last() != x {
                        assert(s.drop_last().contains(x));
                    }
                }
            } else {
                let j = choose|j: int| 0 <= j < prev.len() && prev[j] == x;
                if prev.contains(s.last()) {
                    assert(spec_dedup(s)[j] == x);
                } else {
                    assert(spec_dedup(s)[j] == x);
                }
            }
        }
        assert forall|x: PathV| spec_dedup(s).contains(x) implies s.contains(x) by {
            let prev = spec_dedup(s.drop_last());
            let i = choose|i: int| 0 <= i < spec_dedup(s).len() && spec_dedup(s)[i] == x;
            if i < prev.len() {
                assert(prev[i] == x);
                assert(s.drop_last().contains(x));
                let j = choose|j: int| 0 <= j < s.drop_last().len() && s.drop_last()[j] == x;
                assert(s[j] == x);
            } else {
                assert(s.last() == x);
                assert(s[s.len() - 1] == x);
            }
        }
    }
}

/// Every candidate of a row pairs its left root with some right root.
pub proof fn lemma_row_cands_member(l: PathV, rhs: Seq<PathV>)
    ensures
        forall|x: PathV|
            spec_row_cands(l, rhs).contains(x) ==> exists|j: int|
                0 <= j < rhs.len() && spec_pair_candidate(l, #[trigger] rhs[j]) == Some(x),
    decreases rhs.len(),
{
    if rhs.len() > 0 {
        lemma_row_cands_member(l, rhs.drop_last());
        assert forall|x: PathV| spec_row_cands(l, rhs).contains(x) implies exists|j: int|
            0 <= j < rhs.len() && spec_pair_candidate(l, #[trigger] rhs[j]) == Some(x) by {
            let prev = spec_row_cands(l, rhs.drop_last());
            let i = choose|i: int|
                0 <= i < spec_row_cands(l, rhs).len() && spec_row_cands(l, rhs)[i] == x;
            if i < prev.len() {
                assert(prev[i] == x);
                assert(prev.contains(x));
                let j = choose|j: int|
                    0 <= j < rhs.drop_last().len() && spec_pair_candidate(
                        l,
                        rhs.drop_last()[j],
                    ) == Some(x);
                assert(rhs[j] == rhs.drop_last()[j]);
            } else {
                assert(spec_pair_candidate(l, rhs.last()) == Some(x));
                assert(rhs[rhs.len() - 1] == rhs.last());
            }
        }
    }
}

/// Every intersection candidate pairs some left root with some right root.
pub proof fn lemma_all_cands_member(lhs: Seq<PathV>, rhs: Seq<PathV>)
    ensures
        forall|x: PathV|
            spec_all_cands(lhs, rhs).contains(x) ==> exists|i: int, j: int|
                0 <= i < lhs.len() && 0 <= j < rhs.len() && spec_pair_candidate(
                    #[trigger] lhs[i],
                    #[trigger] rhs[j],
                ) == Some(x),
    decreases lhs.len(),
{
    if lhs.len() > 0 {
        lemma_all_cands_member(lhs.drop_last(), rhs);
        lemma_row_cands_member(lhs.last(), rhs);
        assert forall|x: PathV| spec_all_cands(lhs, rhs).contains(x) implies exists|i: int, j: int|
            0 <= i < lhs.len() && 0 <= j < rhs.len() && spec_pair_candidate(
                #[trigger] lhs[i],
                #[trigger] rhs[j],
            ) == Some(x) by {
            let front = spec_all_cands(lhs.drop_last(), rhs);
            let row = spec_row_cands(lhs.last(), rhs);
            let k = choose|k: int|
                0 <= k < spec_all_cands(lhs, rhs).len() && spec_all_cands(lhs, rhs)[k] == x;
            if k < front.len() {
                assert(front[k] == x);
                assert(front.contains(x));
                let (i, j) = choose|i: int, j: int|
                    0 <= i < lhs.drop_last().len() && 0 <= j < rhs.len() && spec_pair_candidate(
                        #[trigger] lhs.drop_last()[i],
                        #[trigger] rhs[j],
                    ) == Some(x);
                assert(lhs[i] == lhs.drop_last()[i]);
                assert(spec_pair_candidate(lhs[i], rhs[j]) == Some(x));
            } else {
                assert(row[k - front.len()] == x);
                assert(row.contains(x));
                let j = choose|j: int|
                    0 <= j < rhs.len() && spec_pair_candidate(lhs.last(), #[trigger] rhs[j])
                        == Some(x);
                assert(lhs[lhs.len() - 1] == lhs.last());
                assert(spec_pair_candidate(lhs[lhs.len() - 1], rhs[j]) == Some(x));
            }
        }
    }
}

/// Path containment is transitive.
pub proof fn lemma_path_prefix_trans(a: PathV, b: PathV, c: PathV)
    requires
        is_path_prefix(a, b),
        is_path_prefix(b, c),
    ensures
        is_path_prefix(a, c),
{
    assert(a =~= c.subrange(0, a.len() as int)) by {
        assert(forall|i: int|
            0 <= i < a.len() ==> a[i] == b.subrange(0, a.len() as int)[i]);
        assert(forall|i: int|
            0 <= i < b.len() ==> b[i] == c.subrange(0, b.len() as int)[i]);
    }
}

/// Every root the intersection keeps contains a root of each input side:
/// nothing broader than either input survives.
pub proof fn lemma_intersect_roots_meet(lhs: Seq<PathV>, rhs: Seq<PathV>)
    ensures
        forall|x: PathV|
            #[trigger] spec_intersect_roots(lhs, rhs).contains(x) ==> (exists|i: int|
                0 <= i < lhs.len() && is_path_prefix(#[trigger] lhs[i], x)) && (exists|j: int|
                0 <= j < rhs.len() && is_path_prefix(#[trigger] rhs[j], x)),
{
    lemma_dedup_contains(spec_all_cands(lhs, rhs));
    lemma_all_cands_member(lhs, rhs);
    assert forall|x: PathV| #[trigger] spec_intersect_roots(lhs, rhs).contains(x) implies (exists|
        i: int,
    |
        0 <= i < lhs.len() && is_path_prefix(#[trigger] lhs[i], x)) && (exists|j: int|
        0 <= j < rhs.len() && is_path_prefix(#[trigger] rhs[j], x)) by {
        assert(spec_all_cands(lhs, rhs).contains(x));
        let (i, j) = choose|i: int, j: int|
            0 <= i < lhs.len() && 0 <= j < rhs.len() && spec_pair_candidate(
                #[trigger] lhs[i],
                #[trigger] rhs[j],
            ) == Some(x);
        assert(x.subrange(0, x.len() as int) =~= x);
        if is_path_prefix(rhs[j], lhs[i]) {
            assert(x == lhs[i]);
            assert(is_path_prefix(lhs[i], x));
            assert(is_path_prefix(rhs[j], x));
        } else {
            assert(is_path_prefix(lhs[i], rhs[j]));
            assert(x == rhs[j]);
            assert(is_path_prefix(rhs[j], x));
            assert(is_path_prefix(lhs[i], x));
        }
    }
}

/// Root-intersection of sides whose roots are pairwise disjoint is empty.
pub proof fn lemma_intersect_roots_disjoint(lhs: Seq<PathV>, rhs: Seq<PathV>)
    requires
        forall|i: int, j: int|
            0 <= i < lhs.len() && 0 <= j < rhs.len() ==> !is_path_prefix(
                #[trigger] lhs[i],
                #[trigger] rhs[j],
            ) && !is_path_prefix(rhs[j], lhs[i]),
    ensures
        spec_intersect_roots(lhs, rhs) == Seq::<PathV>::empty(),
{
    lemma_dedup_contains(spec_all_cands(lhs, rhs));
    lemma_all_cands_member(lhs, rhs);
    assert(spec_intersect_roots(lhs, rhs) =~= Seq::<PathV>::empty()) by {
        if spec_intersect_roots(lhs, rhs).len() > 0 {
            let x = spec_intersect_roots(lhs, rhs)[0];
            assert(spec_intersect_roots(lhs, rhs).contains(x));
            assert(spec_all_cands(lhs, rhs).contains(x));
            let (i, j) = choose|i: int, j: int|
                0 <= i < lhs.len() && 0 <= j < rhs.len() && spec_pair_candidate(lhs[i], rhs[j])
                    == Some(x);
            assert(spec_pair_candidate(lhs[i], rhs[j]) is None);
        }
    }
}

/// Root-intersection of one root nested beneath another keeps exactly the
/// nested root.
pub proof fn lemma_intersect_roots_nested(anc: PathV, desc: PathV)
    requires
        is_path_prefix(anc, desc),
    ensures
        spec_intersect_roots(seq![anc], seq![desc]) == seq![desc],
{
    let l = seq![anc];
    let r = seq![desc];
    let e = Seq::<PathV>::empty();
    assert(l.drop_last() =~= e);
    assert(r.drop_last() =~= e);
    assert(l.last() == anc && r.last() == desc);
    assert(spec_row_cands(anc, e) == e);
    assert(spec_all_cands(e, r) == e);
    assert(spec_pair_candidate(anc, desc) == Some(desc)) by {
        if is_path_prefix(desc, anc) {
            assert(anc.len() == desc.len());
            assert(anc =~= desc);
        }
    }
    assert(spec_row_cands(anc, r) == spec_row_cands(anc, r.drop_last()).push(desc));
    assert(spec_row_cands(anc, r) == e.push(desc));
    let cands = spec_all_cands(l, r);
    assert(cands == spec_all_cands(l.drop_last(), r) + spec_row_cands(l.last(), r));
    assert(cands =~= seq![desc]);
    assert(spec_dedup(e) == e);
    assert(cands.drop_last() =~= e);
    assert(cands.last() == desc);
    assert(spec_dedup(cands) == if spec_dedup(cands.drop_last()).contains(cands.last()) {
        spec_dedup(cands.drop_last())
    } else {
        spec_dedup(cands.drop_last()).push(cands.last())
    });
    assert(!e.contains(desc));
    assert(spec_dedup(cands) =~= seq![desc]);
}

/// Computes the root-intersection of two sets of roots, keeping the first
/// occurrence of each surviving root.
pub fn intersect_absolute_roots(lhs: &Vec<AbsPath>, rhs: &Vec<AbsPath>) -> (roots: Vec<AbsPath>)
    ensures
        roots.deep_view() == spec_intersect_roots(lhs.deep_view(), rhs.deep_view()),
{
    let ghost lv = lhs.deep_view();
    let ghost rv = rhs.deep_view();
    let mut roots: Vec<AbsPath> = Vec::new();
    let mut i: usize = 0;
    proof {
        assert(lv.subrange(0, 0) =~= Seq::<PathV>::empty());
        assert(roots.deep_view() =~= Seq::<PathV>::empty());
    }
    while i < lhs.len()
        invariant
            i <= lhs.len(),
            lv == lhs.deep_view(),
            rv == rhs.deep_view(),
            lv.len() == lhs@.len(),
            rv.len() == rhs@.len(),
            roots.deep_view() == spec_dedup(spec_all_cands(lv.subrange(0, i as int), rv)),
        decreases lhs.len() - i,
    {
        let ghost pre = lv.subrange(0, i as int);
        let ghost post = lv.subrange(0, i as int + 1);
        proof {
            assert(post.drop_last() =~= pre);
            assert(post.last() == lv[i as int]);
            assert(lv[i as int] == lhs@[i as int]@);
            assert(rv.subrange(0, 0) =~= Seq::<PathV>::empty());
        }
        let mut j: usize = 0;
        while j < rhs.len()
            invariant
                j <= rhs.len(),
                i < lhs.len(),
                lv == lhs.deep_view(),
                rv == rhs.deep_view(),
                lv.len() == lhs@.len(),
                rv.len() == rhs@.len(),
                lv[i as int] == lhs@[i as int]@,
                roots.deep_view() == spec_dedup(
                    spec_all_cands(lv.subrange(0, i as int), rv) + spec_row_cands(
                        lv[i as int],
                        rv.subrange(0, j as int),
                    ),
                ),
            decreases rhs.len() - j,
        {
            let ghost rpre = rv.subrange(0, j as int);
            let ghost rpost = rv.subrange(0, j as int + 1);
            let ghost sofar = spec_all_cands(lv.subrange(0, i as int), rv) + spec_row_cands(
                lv[i as int],
                rpre,
            );
            proof {
                assert(rpost.drop_last() =~= rpre);
                assert(rpost.last() == rv[j as int]);
                assert(rv[j as int] == rhs@[j as int]@);
            }
            let left = &lhs[i];
            let right = &rhs[j];
            let candidate: Option<AbsPath> = if left.starts_with(right) {
                Some(left.clone())
            } else if right.starts_with(left) {
                Some(right.clone())
            } else {
                None
            };
            match candidate {
                Some(c) => {
                    proof {
                        assert(spec_pair_candidate(lv[i as int], rv[j as int]) == Some(c@));
                        assert(spec_row_cands(lv[i as int], rpost) == spec_row_cands(
                            lv[i as int],
                            rpre,
                        ).push(c@));
                        assert(spec_all_cands(lv.subrange(0, i as int), rv) + spec_row_cands(
                            lv[i as int],
                            rpost,
                        ) =~= sofar.push(c@));
                        assert(sofar.push(c@).drop_last() =~= sofar);
                    }
                    if !paths_contain(&roots, &c) {
                        let ghost dv = roots.deep_view();
                        roots.push(c);
                        proof {
                            assert(roots.deep_view() =~= dv.push(sofar.push(c@).last()));
                        }
                    }
                },
                None => {
                    proof {
                        assert(spec_pair_candidate(lv[i as int], rv[j as int]) is None);
                        assert(spec_row_cands(lv[i as int], rpost) == spec_row_cands(
                            lv[i as int],
                            rpre,
                        ));
                        assert(spec_all_cands(lv.subrange(0, i as int), rv) + spec_row_cands(
                            lv[i as int],
                            rpost,
                        ) =~= sofar);
                    }
                },
            }
            j += 1;
        }
        proof {
            assert(rv.subrange(0, rv.len() as int) =~= rv);
            assert(spec_all_cands(post, rv) =~= spec_all_cands(pre, rv) + spec_row_cands(
                lv[i as int],
                rv,
            ));
        }
        i += 1;
    }
    proof {
        assert(lv.subrange(0, lv.len() as int) =~= lv);
    }
    roots
}

} // verus!

verus! {

/// Candidate selection does not depend on the order of the pair.
pub proof fn lemma_pair_candidate_comm(a: PathV, b: PathV)
    ensures
        spec_pair_candidate(a, b) == spec_pair_candidate(b, a),
{
    if is_path_prefix(a, b) && is_path_prefix(b, a) {
        assert(a.len() == b.len());
        assert(a =~= b);
    }
}

/// A pair of one path with itself keeps that path.
pub proof fn lemma_pair_candidate_self(x: PathV)
    ensures
        spec_pair_candidate(x, x) == Some(x),
{
    assert(x.subrange(0, x.len() as int) =~= x);
}

/// A row with no surviving pair is empty.
pub proof fn lemma_row_cands_empty(l: PathV, rhs: Seq<PathV>)
    requires
        forall|j: int| 0 <= j < rhs.len() ==> spec_pair_candidate(l, #[trigger] rhs[j]) is None,
    ensures
        spec_row_cands(l, rhs) == Seq::<PathV>::empty(),
    decreases rhs.len(),
{
    if rhs.len() > 0 {
        assert(forall|j: int|
            0 <= j < rhs.drop_last().len() ==> rhs.drop_last()[j] == rhs[j]);
        lemma_row_cands_empty(l, rhs.drop_last());
        assert(rhs[rhs.len() - 1] == rhs.last());
        assert(spec_pair_candidate(l, rhs.last()) is None);
    }
}

/// A row whose only surviving pair keeps `x` is exactly `[x]`.
pub proof fn lemma_row_cands_single(l: PathV, rhs: Seq<PathV>, j0: int, x: PathV)
    requires
        0 <= j0 < rhs.len(),
        spec_pair_candidate(l, rhs[j0]) == Some(x),
        forall|j: int|
            0 <= j < rhs.len() && j != j0 ==> spec_pair_candidate(l, #[trigger] rhs[j]) is None,
    ensures
        spec_row_cands(l, rhs) == seq![x],
    decreases rhs.len(),
{
    assert(rhs[rhs.len() - 1] == rhs.last());
    if j0 == rhs.len() - 1 {
        assert(forall|j: int|
            0 <= j < rhs.drop_last().len() ==> #[trigger] spec_pair_candidate(
                l,
                rhs.drop_last()[j],
            ) == spec_pair_candidate(l, rhs[j]));
        lemma_row_cands_empty(l, rhs.drop_last());
        assert(spec_row_cands(l, rhs) =~= seq![x]);
    } else {
        assert(forall|j: int|
            0 <= j < rhs.drop_last().len() ==> rhs.drop_last()[j] == rhs[j]);
        lemma_row_cands_single(l, rhs.drop_last(), j0, x);
        assert(spec_pair_candidate(l, rhs.last()) is None);
    }
}

/// A surviving pair's candidate is in its row.
pub proof fn lemma_row_cands_has(l: PathV, rhs: Seq<PathV>, j: int, x: PathV)
    requires
        0 <= j < rhs.len(),
        spec_pair_candidate(l, rhs[j]) == Some(x),
    ensures
        spec_row_cands(l, rhs).contains(x),
    decreases rhs.len(),
{
    assert(rhs[rhs.len() - 1] == rhs.last());
    let prev = spec_row_cands(l, rhs.drop_last());
    if j == rhs.len() - 1 {
        let row = spec_row_cands(l, rhs);
        assert(row == prev.push(x));
        assert(row[row.len() - 1] == x);
    } else {
        assert(rhs.drop_last()[j] == rhs[j]);
        lemma_row_cands_has(l, rhs.drop_last(), j, x);
        let k = choose|k: int| 0 <= k < prev.len() && prev[k] == x;
        match spec_pair_candidate(l, rhs.last()) {
            Some(c) => {
                assert(spec_row_cands(l, rhs)[k] == x);
            },
            None => {
                assert(spec_row_cands(l, rhs)[k] == x);
            },
        }
    }
}

/// A candidate that some row keeps is among all candidates.
pub proof fn lemma_all_cands_has(lhs: Seq<PathV>, rhs: Seq<PathV>, i: int, x: PathV)
    requires
        0 <= i < lhs.len(),
        spec_row_cands(lhs[i], rhs).contains(x),
    ensures
        spec_all_cands(lhs, rhs).contains(x),
    decreases lhs.len(),
{
    assert(lhs[lhs.len() - 1] == lhs.last());
    let front = spec_all_cands(lhs.drop_last(), rhs);
    let row = spec_row_cands(lhs.last(), rhs);
    if i == lhs.len() - 1 {
        let k = choose|k: int| 0 <= k < row.len() && row[k] == x;
        assert(spec_all_cands(lhs, rhs)[front.len() + k] == x);
    } else {
        assert(lhs.drop_last()[i] == lhs[i]);
        lemma_all_cands_has(lhs.drop_last(), rhs, i, x);
        let k = choose|k: int| 0 <= k < front.len() && front[k] == x;
        assert(spec_all_cands(lhs, rhs)[k] == x);
    }
}

/// Root-intersection is order-independent: both orders keep the same set
/// of roots.
pub proof fn lemma_intersect_roots_comm(lhs: Seq<PathV>, rhs: Seq<PathV>)
    ensures
        forall|x: PathV|
            #[trigger] spec_intersect_roots(lhs, rhs).contains(x) <==> spec_intersect_roots(
                rhs,
                lhs,
            ).contains(x),
{
    lemma_dedup_contains(spec_all_cands(lhs, rhs));
    lemma_dedup_contains(spec_all_cands(rhs, lhs));
    lemma_all_cands_member(lhs, rhs);
    lemma_all_cands_member(rhs, lhs);
    assert forall|x: PathV| #[trigger] spec_intersect_roots(lhs, rhs).contains(x)
        implies spec_intersect_roots(rhs, lhs).contains(x) by {
        assert(spec_all_cands(lhs, rhs).contains(x));
        let (i, j) = choose|i: int, j: int|
            0 <= i < lhs.len() && 0 <= j < rhs.len() && spec_pair_candidate(
                #[trigger] lhs[i],
                #[trigger] rhs[j],
            ) == Some(x);
        lemma_pair_candidate_comm(lhs[i], rhs[j]);
        lemma_row_cands_has(rhs[j], lhs, i, x);
        lemma_all_cands_has(rhs, lhs, j, x);
    }
    assert forall|x: PathV| #[trigger] spec_intersect_roots(rhs, lhs).contains(x)
        implies spec_intersect_roots(lhs, rhs).contains(x) by {
        assert(spec_all_cands(rhs, lhs).contains(x));
        let (j, i) = choose|j: int, i: int|
            0 <= j < rhs.len() && 0 <= i < lhs.len() && spec_pair_candidate(
                #[trigger] rhs[j],
                #[trigger] lhs[i],
            ) == Some(x);
        lemma_pair_candidate_comm(rhs[j], lhs[i]);
        lemma_row_cands_has(lhs[i], rhs, j, x);
        lemma_all_cands_has(lhs, rhs, i, x);
    }
}

/// No two listed roots repeat.
pub open spec fn roots_distinct(roots: Seq<PathV>) -> bool {
    forall|i: int, j: int| 0 <= i < j < roots.len() ==> roots[i] != roots[j]
}

/// No listed root contains another listed root.
pub open spec fn roots_antichain(roots: Seq<PathV>) -> bool {
    forall|i: int, j: int|
        0 <= i < roots.len() && 0 <= j < roots.len() && i != j ==> !is_path_prefix(
            #[trigger] roots[i],
            #[trigger] roots[j],
        )
}

/// Deduplication of a duplicate-free sequence keeps it unchanged.
pub proof fn lemma_dedup_distinct(s: Seq<PathV>)
    requires
        roots_distinct(s),
    ensures
        spec_dedup(s) == s,
    decreases s.len(),
{
    if s.len() > 0 {
        assert(forall|i: int| 0 <= i < s.drop_last().len() ==> s.drop_last()[i] == s[i]);
        lemma_dedup_distinct(s.drop_last());
        assert(s[s.len() - 1] == s.last());
        if s.drop_last().contains(s.last()) {
            let i = choose|i: int| 0 <= i < s.drop_last().len() && s.drop_last()[i] == s.last();
            assert(s[i] == s[s.len() - 1]);
            assert(false);
        }
        assert(spec_dedup(s) =~= s);
    }
}

/// All candidates of a duplicate-free antichain against itself, row by
/// row for its first `k` roots, are exactly those roots.
pub proof fn lemma_all_cands_self_prefix(roots: Seq<PathV>, k: int)
    requires
        roots_distinct(roots),
        roots_antichain(roots),
        0 <= k <= roots.len(),
    ensures
        spec_all_cands(roots.subrange(0, k), roots) == roots.subrange(0, k),
    decreases k,
{
    let pre = roots.subrange(0, k);
    if k == 0 {
        assert(pre =~= Seq::<PathV>::empty());
    } else {
        lemma_all_cands_self_prefix(roots, k - 1);
        assert(pre.drop_last() =~= roots.subrange(0, k - 1));
        assert(pre.last() == roots[k - 1]);
        lemma_pair_candidate_self(roots[k - 1]);
        assert forall|j: int| 0 <= j < roots.len() && j != k - 1 implies spec_pair_candidate(
            roots[k - 1],
            #[trigger] roots[j],
        ) is None by {
            assert(!is_path_prefix(roots[k - 1], roots[j]));
            assert(!is_path_prefix(roots[j], roots[k - 1]));
        }
        lemma_row_cands_single(roots[k - 1], roots, k - 1, roots[k - 1]);
        assert(spec_all_cands(pre, roots) == roots.subrange(0, k - 1) + seq![roots[k - 1]]);
        assert(roots.subrange(0, k - 1) + seq![roots[k - 1]] =~= pre);
    }
}

/// Root-intersection of a duplicate-free antichain with itself keeps it
/// unchanged.
pub proof fn lemma_intersect_roots_self(roots: Seq<PathV>)
    requires
        roots_distinct(roots),
        roots_antichain(roots),
    ensures
        spec_intersect_roots(roots, roots) == roots,
{
    lemma_all_cands_self_prefix(roots, roots.len() as int);
    assert(roots.subrange(0, roots.len() as int) =~= roots);
    lemma_dedup_distinct(roots);
}

} // verus!


verus! {

/// Root-intersection of a set of roots with itself keeps exactly the
/// same set of roots, whatever their order and multiplicity.
pub proof fn lemma_intersect_roots_self_set(roots: Seq<PathV>)
    ensures
        forall|x: PathV|
            #[trigger] spec_intersect_roots(roots, roots).contains(x) <==> roots.contains(x),
{
    lemma_dedup_contains(spec_all_cands(roots, roots));
    lemma_all_cands_member(roots, roots);
    assert forall|x: PathV| #[trigger] spec_intersect_roots(roots, roots).contains(x)
        implies roots.contains(x) by {
        assert(spec_all_cands(roots, roots).contains(x));
        let (i, j) = choose|i: int, j: int|
            0 <= i < roots.len() && 0 <= j < roots.len() && spec_pair_candidate(
                #[trigger] roots[i],
                #[trigger] roots[j],
            ) == Some(x);
        if is_path_prefix(roots[j], roots[i]) {
            assert(x == roots[i]);
        } else {
            assert(x == roots[j]);
        }
    }
    assert forall|x: PathV| roots.contains(x) implies spec_intersect_roots(
        roots,
        roots,
    ).contains(x) by {
        let i = choose|i: int| 0 <= i < roots.len() && roots[i] == x;
        lemma_pair_candidate_self(roots[i]);
        lemma_row_cands_has(roots[i], roots, i, x);
        lemma_all_cands_has(roots, roots, i, x);
    }
}

} // verus!

verus! {

/// Whether one character sequence begins another.
pub open spec fn is_seq_prefix(p: Seq<char>, s: Seq<char>) -> bool {
    p.len() <= s.len() && s.subrange(0, p.len() as int) == p
}

} // verus!

verus! {

/// The lexicographic segment order never relates a segment to itself.
pub proof fn lemma_seg_lt_irreflexive(a: Seq<char>)
    ensures
        !spec_seg_lt(a, a),
    decreases a.len(),
{
    if a.len() > 0 {
        lemma_seg_lt_irreflexive(a.drop_first());
    }
}

/// The lexicographic segment order is transitive.
pub proof fn lemma_seg_lt_transitive(a: Seq<char>, b: Seq<char>, c: Seq<char>)
    requires
        spec_seg_lt(a, b),
        spec_seg_lt(b, c),
    ensures
        spec_seg_lt(a, c),
    decreases a.len(),
{
    if a.len() > 0 && b.len() > 0 && c.len() > 0 {
        if (a[0] as u32) == (b[0] as u32) && (b[0] as u32) == (c[0] as u32) {
            lemma_seg_lt_transitive(a.drop_first(), b.drop_first(), c.drop_first());
        }
    }
}

} // verus!

verus! {

/// Two segments are equal or one is lexicographically below the other.
pub proof fn lemma_seg_trichotomy(a: Seq<char>, b: Seq<char>)
    ensures
        a == b || spec_seg_lt(a, b) || spec_seg_lt(b, a),
    decreases a.len(),
{
    if a.len() == 0 && b.len() == 0 {
        assert(a =~= b);
    } else if a.len() > 0 && b.len() > 0 {
        if (a[0] as u32) == (b[0] as u32) {
            vstd::utf8::char_u32_cast(a[0], a[0] as u32);
            vstd::utf8::char_u32_cast(b[0], b[0] as u32);
            assert(a[0] == b[0]);
            lemma_seg_trichotomy(a.drop_first(), b.drop_first());
            if a.drop_first() == b.drop_first() {
                assert(a =~= seq![a[0]] + a.drop_first());
                assert(b =~= seq![b[0]] + b.drop_first());
                assert(seq![a[0]] + a.drop_first() == seq![b[0]] + b.drop_first());
            }
        }
    }
}

/// The lexicographic path order never relates a path to itself.
pub proof fn lemma_path_lt_irreflexive(a: Seq<Seq<char>>)
    ensures
        !spec_path_lt(a, a),
    decreases a.len(),
{
    if a.len() > 0 {
        lemma_seg_lt_irreflexive(a[0]);
        lemma_path_lt_irreflexive(a.drop_first());
    }
}

/// The lexicographic path order is transitive.
pub proof fn lemma_path_lt_transitive(a: Seq<Seq<char>>, b: Seq<Seq<char>>, c: Seq<Seq<char>>)
    requires
        spec_path_lt(a, b),
        spec_path_lt(b, c),
    ensures
        spec_path_lt(a, c),
    decreases a.len(),
{
    if a.len() > 0 && b.len() > 0 && c.len() > 0 {
        if a[0] == b[0] && b[0] == c[0] {
            lemma_path_lt_transitive(a.drop_first(), b.drop_first(), c.drop_first());
        } else if a[0] == b[0] {
            assert(spec_seg_lt(b[0], c[0]));
            lemma_seg_lt_irreflexive(c[0]);
        } else if b[0] == c[0] {
            assert(spec_seg_lt(a[0], b[0]));
            lemma_seg_lt_irreflexive(c[0]);
        } else {
            assert(spec_seg_lt(a[0], b[0]));
            assert(spec_seg_lt(b[0], c[0]));
            lemma_seg_lt_transitive(a[0], b[0], c[0]);
            lemma_seg_lt_irreflexive(c[0]);
        }
    }
}

/// Two paths are equal or one is lexicographically below the other.
pub proof fn lemma_path_trichotomy(a: Seq<Seq<char>>, b: Seq<Seq<char>>)
    ensures
        a == b || spec_path_lt(a, b) || spec_path_lt(b, a),
    decreases a.len(),
{
    if a.len() == 0 && b.len() == 0 {
        assert(a =~= b);
    } else if a.len() > 0 && b.len() > 0 {
        lemma_seg_trichotomy(a[0], b[0]);
        if a[0] == b[0] {
            lemma_path_trichotomy(a.drop_first(), b.drop_first());
            if a.drop_first() == b.drop_first() {
                assert(a =~= seq![a[0]] + a.drop_first());
                assert(b =~= seq![b[0]] + b.drop_first());
                assert(seq![a[0]] + a.drop_first() == seq![b[0]] + b.drop_first());
            }
        }
    }
}

/// A path is exactly as specific as itself.
pub proof fn lemma_path_specificity_reflexive(a: Seq<Seq<char>>)
    ensures
        spec_path_specificity(a, a) == 0,
{
    reveal(spec_path_specificity);
}

/// Specificity ranks flip under swapping the sides.
pub proof fn lemma_path_specificity_antisymmetric(a: Seq<Seq<char>>, b: Seq<Seq<char>>)
    ensures
        spec_path_specificity(a, b) >= 0 <==> spec_path_specificity(b, a) <= 0,
{
    reveal(spec_path_specificity);
    lemma_path_trichotomy(a, b);
    if spec_path_lt(a, b) && spec_path_lt(b, a) {
        lemma_path_lt_transitive(a, b, a);
        lemma_path_lt_irreflexive(a);
    }
}

/// At-most-as-specific is transitive.
pub proof fn lemma_path_specificity_transitive(
    a: Seq<Seq<char>>,
    b: Seq<Seq<char>>,
    c: Seq<Seq<char>>,
)
    requires
        spec_path_specificity(a, b) <= 0,
        spec_path_specificity(b, c) <= 0,
    ensures
        spec_path_specificity(a, c) <= 0,
{
    reveal(spec_path_specificity);
    if a.len() == b.len() && b.len() == c.len() {
        if spec_path_lt(a, b) && spec_path_lt(b, c) {
            lemma_path_lt_transitive(a, b, c);
        }
        if spec_path_lt(a, c) && spec_path_lt(c, a) {
            lemma_path_lt_transitive(a, c, a);
            lemma_path_lt_irreflexive(a);
        }
        lemma_path_trichotomy(a, c);
    }
}

} // verus!
