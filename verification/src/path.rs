//! Windows paths, as `std::path` reads and builds them on Windows: the
//! separators `\` and `/`; the prefixes `C:` (disk), `\\server\share` (UNC),
//! `\\.\device`, and the verbatim `\\?\...`, `\\?\UNC\server\share` forms,
//! in which only `\` separates and `.` is a component; an optional root
//! separator; then the components. `parent` follows `Path::parent`, and
//! `join` follows `Path::join` of a plain relative component. Positions count
//! characters; every separator is a single ASCII character, so they mark the
//! same places as the byte positions that `std` counts.

use vstd::prelude::*;

use crate::text::chars_of;

verus! {

/// A path separator on Windows.
pub open spec fn is_separator(c: char) -> bool {
    c == '\\' || c == '/'
}

/// A separator in a path of the given kind: only `\` in verbatim paths.
pub open spec fn is_separator_in(c: char, verbatim: bool) -> bool {
    if verbatim {
        c == '\\'
    } else {
        is_separator(c)
    }
}

/// An ASCII letter, the only character a drive letter may be.
pub open spec fn is_ascii_letter(c: char) -> bool {
    ('a' <= c && c <= 'z') || ('A' <= c && c <= 'Z')
}

/// The first index at or after `from` that holds a separator, or the length.
pub open spec fn component_end(p: Seq<char>, from: int, verbatim: bool) -> int
    decreases p.len() - from,
{
    if from >= p.len() {
        p.len() as int
    } else if is_separator_in(p[from], verbatim) {
        from
    } else {
        component_end(p, from + 1, verbatim)
    }
}

/// Whether `p` begins with two separators, the start of every prefix but a disk.
pub open spec fn begins_with_two_separators(p: Seq<char>) -> bool {
    p.len() >= 2 && is_separator(p[0]) && is_separator(p[1])
}

/// Whether `p` is verbatim: it begins with `\\?\`, backslashes only.
pub open spec fn is_verbatim(p: Seq<char>) -> bool {
    p.len() >= 4 && p[0] == '\\' && p[1] == '\\' && p[2] == '?' && p[3] == '\\'
}

/// Whether `p` begins with `\\?\UNC\`.
pub open spec fn is_verbatim_unc(p: Seq<char>) -> bool {
    is_verbatim(p) && p.len() >= 8 && p[4] == 'U' && p[5] == 'N' && p[6] == 'C' && is_separator(
        p[7],
    )
}

/// Whether `p` begins with a device namespace prefix `\\.\`.
pub open spec fn is_device(p: Seq<char>) -> bool {
    begins_with_two_separators(p) && !is_verbatim(p) && p.len() >= 4 && p[2] == '.'
        && is_separator(p[3])
}

/// The end of a `server\share` pair that begins at `from`: after the share
/// when it is not empty, else after the server.
pub open spec fn server_share_end(p: Seq<char>, from: int, verbatim: bool) -> int {
    let s = component_end(p, from, verbatim);
    if s < p.len() && component_end(p, s + 1, verbatim) > s + 1 {
        component_end(p, s + 1, verbatim)
    } else {
        s
    }
}

/// The length of the prefix that `p` begins with, or 0 when it has none:
/// `\\?\UNC\server\share`, `\\?\prefix`, `\\.\device`, `\\server\share`
/// (both parts not empty), or a drive `C:`.
pub open spec fn prefix_len(p: Seq<char>) -> int {
    if begins_with_two_separators(p) {
        if is_verbatim_unc(p) {
            server_share_end(p, 8, true)
        } else if is_verbatim(p) {
            component_end(p, 4, true)
        } else if is_device(p) {
            component_end(p, 4, false)
        } else {
            let s = component_end(p, 2, false);
            if s > 2 && s < p.len() && component_end(p, s + 1, false) > s + 1 {
                component_end(p, s + 1, false)
            } else {
                0
            }
        }
    } else if p.len() >= 2 && is_ascii_letter(p[0]) && p[1] == ':' {
        2
    } else {
        0
    }
}

/// Whether the prefix of `p` is a disk `C:`, the one prefix with no implied root.
pub open spec fn is_disk(p: Seq<char>) -> bool {
    !begins_with_two_separators(p) && prefix_len(p) == 2
}

/// Whether the prefix of `p` implies a root: every prefix but a disk does.
pub open spec fn has_implicit_root(p: Seq<char>) -> bool {
    prefix_len(p) > 0 && !is_disk(p)
}

/// Whether a root separator follows the prefix.
pub open spec fn has_root(p: Seq<char>) -> bool {
    p.len() > prefix_len(p) && is_separator(p[prefix_len(p)])
}

/// Whether a path with no root starts with a `.` component, which counts as a
/// component of its own.
pub open spec fn has_cur_dir(p: Seq<char>) -> bool {
    let k = prefix_len(p);
    &&& !has_root(p)
    &&& !has_implicit_root(p)
    &&& p.len() > k
    &&& p[k] == '.'
    &&& (p.len() == k + 1 || is_separator_in(p[k + 1], is_verbatim(p)))
}

/// Where the body of `p` begins: after its prefix, its root and a leading `.`.
pub open spec fn body_start(p: Seq<char>) -> int {
    prefix_len(p) + (if has_root(p) { 1int } else { 0int }) + (if has_cur_dir(p) {
        1int
    } else {
        0int
    })
}

/// The index of the last separator in `p[lo..hi]`, or `lo - 1` if there is none.
pub open spec fn last_separator(p: Seq<char>, lo: int, hi: int) -> int
    decreases hi - lo,
{
    if hi <= lo {
        lo - 1
    } else if is_separator_in(p[hi - 1], is_verbatim(p)) {
        hi - 1
    } else {
        last_separator(p, lo, hi - 1)
    }
}

/// Where the last piece of the body `p[lo..hi]` begins.
pub open spec fn piece_start(p: Seq<char>, lo: int, hi: int) -> int {
    last_separator(p, lo, hi) + 1
}

/// Where `p[lo..hi]` ends once its last piece and the separator before it
/// are taken away.
pub open spec fn piece_cut(p: Seq<char>, lo: int, hi: int) -> int {
    let j = last_separator(p, lo, hi);
    if j < lo {
        lo
    } else {
        j
    }
}

/// A piece that is no component: an empty one, between two separators or at
/// the end, or a `.` outside verbatim paths.
pub open spec fn is_empty_piece(p: Seq<char>, start: int, hi: int) -> bool {
    start == hi || (!is_verbatim(p) && hi == start + 1 && p[start] == '.')
}

pub proof fn lemma_component_end_range(p: Seq<char>, from: int, verbatim: bool)
    requires
        0 <= from,
    ensures
        from <= p.len() ==> from <= component_end(p, from, verbatim) <= p.len(),
        from > p.len() ==> component_end(p, from, verbatim) == p.len(),
        component_end(p, from, verbatim) < p.len() ==> is_separator_in(
            p[component_end(p, from, verbatim)],
            verbatim,
        ),
        forall|i: int|
            from <= i < component_end(p, from, verbatim) ==> !is_separator_in(
                #[trigger] p[i],
                verbatim,
            ),
    decreases p.len() - from,
{
    if from < p.len() && !is_separator_in(p[from], verbatim) {
        lemma_component_end_range(p, from + 1, verbatim);
    }
}

pub proof fn lemma_last_separator_range(p: Seq<char>, lo: int, hi: int)
    requires
        lo <= hi,
    ensures
        lo - 1 <= last_separator(p, lo, hi) < hi,
        last_separator(p, lo, hi) >= lo ==> is_separator_in(
            p[last_separator(p, lo, hi)],
            is_verbatim(p),
        ),
        forall|i: int|
            last_separator(p, lo, hi) < i < hi && lo <= i ==> !is_separator_in(
                #[trigger] p[i],
                is_verbatim(p),
            ),
    decreases hi - lo,
{
    if hi > lo && !is_separator_in(p[hi - 1], is_verbatim(p)) {
        lemma_last_separator_range(p, lo, hi - 1);
    }
}

/// The end of `p[..hi]` once trailing separators and `.` pieces of the body
/// (which begins at `lo`) are trimmed away.
pub open spec fn trim_end(p: Seq<char>, lo: int, hi: int) -> int
    decreases hi - lo,
{
    if hi > lo && is_empty_piece(p, piece_start(p, lo, hi), hi) {
        proof {
            lemma_last_separator_range(p, lo, hi);
        }
        trim_end(p, lo, piece_cut(p, lo, hi))
    } else {
        hi
    }
}

/// Where the parent of `p` ends, as `Path::parent` finds it: the last
/// component of the body is removed together with the separators and `.`
/// pieces around it. A path with no component but its prefix or root has no
/// parent; a lone leading `.` has the empty path as its parent.
pub open spec fn parent_end(p: Seq<char>) -> Option<int> {
    let lo = body_start(p);
    let n = trim_end(p, lo, p.len() as int);
    if n > lo {
        Some(trim_end(p, lo, piece_cut(p, lo, n)))
    } else if has_cur_dir(p) && prefix_len(p) == 0 {
        Some(0)
    } else {
        None
    }
}

/// `Path::parent` of `p`.
pub open spec fn parent(p: Seq<char>) -> Option<Seq<char>> {
    match parent_end(p) {
        Some(e) => Some(p.take(e)),
        None => None,
    }
}

/// The `k`-th ancestor of `p`, as `Path::ancestors().nth(k)` gives it.
pub open spec fn ancestor(p: Seq<char>, k: nat) -> Option<Seq<char>>
    decreases k,
{
    if k == 0 {
        Some(p)
    } else {
        match parent(p) {
            Some(q) => ancestor(q, (k - 1) as nat),
            None => None,
        }
    }
}

/// Whether `p` ends with nothing that `parent` would trim: no trailing
/// separator or `.` piece after its prefix and root.
pub open spec fn is_trimmed(p: Seq<char>) -> bool {
    trim_end(p, body_start(p), p.len() as int) == p.len()
}

/// A plain relative component: not empty, not `.`, with no separator and no
/// `:`, so that it can start neither a prefix nor a root.
pub open spec fn is_plain_component(c: Seq<char>) -> bool {
    &&& c.len() > 0
    &&& c != seq!['.']
    &&& forall|i: int| 0 <= i < c.len() ==> !is_separator(#[trigger] c[i]) && c[i] != ':'
}

/// Whether `p` is a disk prefix and nothing else, such as `C:`.
pub open spec fn is_bare_drive(p: Seq<char>) -> bool {
    p.len() == 2 && is_disk(p)
}

/// Whether `join` puts a separator between `p` and the next component: `p`
/// is not empty, does not end with a separator and is no bare drive.
pub open spec fn needs_separator(p: Seq<char>) -> bool {
    p.len() > 0 && !is_separator(p.last()) && !is_bare_drive(p)
}

/// The body of a verbatim path from `i` on, written back as `Path::join`
/// writes it: each piece that is not empty, after a `\`.
pub open spec fn verbatim_pieces(p: Seq<char>, i: int) -> Seq<char>
    decreases p.len() + 1 - i,
{
    if i < 0 || i >= p.len() {
        Seq::empty()
    } else {
        let e = component_end(p, i, true);
        proof {
            lemma_component_end_range(p, i, true);
        }
        (if e > i {
            seq!['\\'] + p.subrange(i, e)
        } else {
            Seq::empty()
        }) + verbatim_pieces(p, e + 1)
    }
}

/// `Path::join` of a plain relative component `c` on Windows. A verbatim path
/// is written back from its components: its prefix, then each component after
/// a `\`; any other path gets a `\` between it and `c` where one is needed.
pub open spec fn join(p: Seq<char>, c: Seq<char>) -> Seq<char> {
    if is_verbatim(p) {
        p.take(prefix_len(p)) + verbatim_pieces(p, body_start(p)) + seq!['\\'] + c
    } else if needs_separator(p) {
        p + seq!['\\'] + c
    } else {
        p + c
    }
}

/// Whether joining `c` onto `p` leaves `p` as it is, followed by `c` or by a
/// `\` and `c`, and keeps the kind of `p` and where its body begins.
pub open spec fn join_extends(p: Seq<char>, c: Seq<char>) -> bool {
    &&& (join(p, c) == p + seq!['\\'] + c || join(p, c) == p + c)
    &&& is_verbatim(join(p, c)) == is_verbatim(p)
    &&& body_start(join(p, c)) == body_start(p)
}

pub proof fn lemma_trim_end_bounds(p: Seq<char>, lo: int, hi: int)
    requires
        lo <= hi,
    ensures
        lo <= trim_end(p, lo, hi) <= hi,
    decreases hi - lo,
{
    if hi > lo && is_empty_piece(p, piece_start(p, lo, hi), hi) {
        lemma_last_separator_range(p, lo, hi);
        lemma_trim_end_bounds(p, lo, piece_cut(p, lo, hi));
    }
}

pub proof fn lemma_body_start_bound(p: Seq<char>)
    ensures
        0 <= body_start(p) <= p.len(),
{
    lemma_component_end_range(p, 2, false);
    lemma_component_end_range(p, 4, false);
    lemma_component_end_range(p, 4, true);
    lemma_component_end_range(p, 8, true);
    let s2 = component_end(p, 2, false);
    let s8 = component_end(p, 8, true);
    if s2 >= 0 {
        lemma_component_end_range(p, s2 + 1, false);
    }
    if s8 >= 0 {
        lemma_component_end_range(p, s8 + 1, true);
    }
}

/// With no separator in `p[m..hi]`, the last separator before `hi` is the
/// last one before `m`.
proof fn lemma_last_separator_skips(p: Seq<char>, lo: int, m: int, hi: int)
    requires
        lo <= m <= hi <= p.len(),
        forall|i: int| m <= i < hi ==> !is_separator_in(#[trigger] p[i], is_verbatim(p)),
    ensures
        last_separator(p, lo, hi) == last_separator(p, lo, m),
    decreases hi - m,
{
    if hi > m {
        lemma_last_separator_skips(p, lo, m, hi - 1);
    }
}

/// `last_separator` reads nothing at or after `hi`, but the kind of the path.
proof fn lemma_last_separator_prefix(p1: Seq<char>, p2: Seq<char>, lo: int, hi: int)
    requires
        0 <= lo,
        0 <= hi <= p1.len(),
        hi <= p2.len(),
        is_verbatim(p1) == is_verbatim(p2),
        forall|i: int| 0 <= i < hi ==> p1[i] == p2[i],
    ensures
        last_separator(p1, lo, hi) == last_separator(p2, lo, hi),
    decreases hi - lo,
{
    if hi > lo {
        lemma_last_separator_prefix(p1, p2, lo, hi - 1);
    }
}

/// `trim_end` reads nothing at or after `hi`, but the kind of the path.
proof fn lemma_trim_end_prefix(p1: Seq<char>, p2: Seq<char>, lo: int, hi: int)
    requires
        0 <= lo <= hi <= p1.len(),
        hi <= p2.len(),
        is_verbatim(p1) == is_verbatim(p2),
        forall|i: int| 0 <= i < hi ==> p1[i] == p2[i],
    ensures
        trim_end(p1, lo, hi) == trim_end(p2, lo, hi),
    decreases hi - lo,
{
    lemma_last_separator_prefix(p1, p2, lo, hi);
    lemma_last_separator_range(p1, lo, hi);
    if hi > lo && is_empty_piece(p1, piece_start(p1, lo, hi), hi) {
        lemma_trim_end_prefix(p1, p2, lo, piece_cut(p1, lo, hi));
    }
}

/// A path that does not begin with two separators has at most a disk prefix,
/// and joining a plain component onto it extends it, keeps its prefix, root
/// and leading `.`, and gives again a path that does not begin with two
/// separators.
pub proof fn lemma_join_extends_without_double_separator(p: Seq<char>, c: Seq<char>)
    requires
        is_plain_component(c),
        !begins_with_two_separators(p),
    ensures
        join_extends(p, c),
        prefix_len(join(p, c)) == prefix_len(p),
        !begins_with_two_separators(join(p, c)),
{
    let q = join(p, c);
    assert(c[0] != ':' && !is_separator(c[0]));
    if c.len() > 1 {
        assert(c[1] != ':' && !is_separator(c[1]));
    } else {
        assert(c[0] != '.') by {
            if c[0] == '.' {
                assert(c =~= seq!['.']);
            }
        }
    }
    assert(!is_verbatim(p));
    if needs_separator(p) {
        assert(q[p.len() as int] == '\\');
        assert(forall|i: int| 0 <= i < p.len() ==> q[i] == p[i]);
        assert(q[p.len() + 1int] == c[0]);
    } else {
        assert(forall|i: int| 0 <= i < p.len() ==> q[i] == p[i]);
        assert(q[p.len() as int] == c[0]);
        if c.len() > 1 {
            assert(q[p.len() + 1int] == c[1]);
        }
    }
    assert(!begins_with_two_separators(q));
    assert(!is_verbatim(q));
}

/// The parent of `p` joined with a plain component is `p` again, when `p`
/// ends with nothing that `parent` would trim and the join leaves `p` and its
/// prefix and root as they are; and the joined path ends with nothing to trim.
pub proof fn lemma_parent_of_join(p: Seq<char>, c: Seq<char>)
    requires
        is_trimmed(p),
        is_plain_component(c),
        join_extends(p, c),
    ensures
        parent(join(p, c)) == Some(p),
        is_trimmed(join(p, c)),
{
    let q = join(p, c);
    lemma_body_start_bound(p);
    let lo = body_start(p);
    let with_sep = q == p + seq!['\\'] + c;
    let m: int = if with_sep {
        p.len() + 1int
    } else {
        p.len() as int
    };
    assert(forall|i: int| 0 <= i < p.len() ==> q[i] == p[i]);
    assert(forall|i: int| m <= i < q.len() ==> q[i] == c[i - m]);
    assert(q.len() == m + c.len());
    assert(c.len() == 1 ==> c[0] != '.') by {
        if c.len() == 1 && c[0] == '.' {
            assert(c =~= seq!['.']);
        }
    }
    assert(forall|i: int| m <= i < q.len() ==> !is_separator_in(#[trigger] q[i], is_verbatim(q)));
    lemma_last_separator_skips(q, lo, m, q.len() as int);
    if with_sep {
        assert(q[m - 1] == '\\');
        assert(last_separator(q, lo, m) == m - 1);
        assert(!is_empty_piece(q, m, q.len() as int));
        assert(trim_end(q, lo, q.len() as int) == q.len());
        assert(piece_cut(q, lo, q.len() as int) == p.len());
        lemma_trim_end_prefix(q, p, lo, p.len() as int);
        assert(q.take(p.len() as int) =~= p);
    } else {
        if p.len() > lo {
            // `p` ends where `c` begins with no separator between, so its last
            // character is a separator, and a trimmed `p` has none there.
            if is_verbatim(p) {
                lemma_body_start_bound(p);
                assert(q[q.len() - c.len() - 1] == '\\');
                assert(p.last() == '\\');
            } else {
                assert(!needs_separator(p));
                assert(!is_bare_drive(p));
                assert(is_separator(p.last()));
            }
            assert(is_separator_in(p.last(), is_verbatim(p)));
            assert(last_separator(p, lo, p.len() as int) == p.len() - 1);
            lemma_trim_end_bounds(p, lo, p.len() - 1);
            assert(false);
        }
        assert(p.len() == lo);
        assert(last_separator(q, lo, lo) == lo - 1);
        assert(!is_empty_piece(q, lo, q.len() as int));
        assert(trim_end(q, lo, q.len() as int) == q.len());
        assert(piece_cut(q, lo, q.len() as int) == lo);
        assert(q.take(p.len() as int) =~= p);
    }
}

/// The fourth ancestor of a path joined with four plain components is the
/// path itself: the repository root is the manifest directory four levels up.
pub proof fn lemma_fourth_ancestor_of_joins(
    root: Seq<char>,
    c1: Seq<char>,
    c2: Seq<char>,
    c3: Seq<char>,
    c4: Seq<char>,
)
    requires
        is_trimmed(root),
        is_plain_component(c1),
        is_plain_component(c2),
        is_plain_component(c3),
        is_plain_component(c4),
        join_extends(root, c1),
        join_extends(join(root, c1), c2),
        join_extends(join(join(root, c1), c2), c3),
        join_extends(join(join(join(root, c1), c2), c3), c4),
    ensures
        ancestor(join(join(join(join(root, c1), c2), c3), c4), 4) == Some(root),
{
    let p1 = join(root, c1);
    let p2 = join(p1, c2);
    let p3 = join(p2, c3);
    let p4 = join(p3, c4);
    lemma_parent_of_join(root, c1);
    lemma_parent_of_join(p1, c2);
    lemma_parent_of_join(p2, c3);
    lemma_parent_of_join(p3, c4);
    assert(ancestor(p1, 1) == Some(root)) by {
        assert(ancestor(root, 0) == Some(root));
    }
    assert(ancestor(p2, 2) == Some(root));
    assert(ancestor(p3, 3) == Some(root));
    assert(ancestor(p4, 4) == Some(root));
}

/// For a root that does not begin with two separators (a disk, rooted or
/// relative path) written without trailing separators or `.` pieces, the
/// manifest directory four plain components below it has it as its fourth
/// ancestor.
pub proof fn lemma_fourth_ancestor_of_plain_root(
    root: Seq<char>,
    c1: Seq<char>,
    c2: Seq<char>,
    c3: Seq<char>,
    c4: Seq<char>,
)
    requires
        is_trimmed(root),
        !begins_with_two_separators(root),
        is_plain_component(c1),
        is_plain_component(c2),
        is_plain_component(c3),
        is_plain_component(c4),
    ensures
        ancestor(join(join(join(join(root, c1), c2), c3), c4), 4) == Some(root),
{
    let p1 = join(root, c1);
    let p2 = join(p1, c2);
    let p3 = join(p2, c3);
    lemma_join_extends_without_double_separator(root, c1);
    lemma_join_extends_without_double_separator(p1, c2);
    lemma_join_extends_without_double_separator(p2, c3);
    lemma_join_extends_without_double_separator(p3, c4);
    lemma_fourth_ancestor_of_joins(root, c1, c2, c3, c4);
}

// ---------------------------------------------------------------------------
// Executable counterparts, on the first `n` characters of a vector.

fn separator(c: char) -> (b: bool)
    ensures
        b == is_separator(c),
{
    c == '\\' || c == '/'
}

fn separator_in(c: char, verbatim: bool) -> (b: bool)
    ensures
        b == is_separator_in(c, verbatim),
{
    if verbatim {
        c == '\\'
    } else {
        separator(c)
    }
}

fn ascii_letter(c: char) -> (b: bool)
    ensures
        b == is_ascii_letter(c),
{
    ('a' <= c && c <= 'z') || ('A' <= c && c <= 'Z')
}

/// The value of `component_end` on the first `n` characters of `v`.
fn component_end_of(v: &Vec<char>, n: usize, from: usize, verbatim: bool) -> (e: usize)
    requires
        from <= n <= v.len(),
    ensures
        e as int == component_end(v@.take(n as int), from as int, verbatim),
        from <= e <= n,
{
    let ghost s = v@.take(n as int);
    let mut i: usize = from;
    while i < n && !separator_in(v[i], verbatim)
        invariant
            from <= i <= n <= v.len(),
            s == v@.take(n as int),
            component_end(s, from as int, verbatim) == component_end(s, i as int, verbatim),
        decreases n - i,
    {
        i = i + 1;
    }
    i
}

fn verbatim_of(v: &Vec<char>, n: usize) -> (b: bool)
    requires
        n <= v.len(),
    ensures
        b == is_verbatim(v@.take(n as int)),
{
    n >= 4 && v[0] == '\\' && v[1] == '\\' && v[2] == '?' && v[3] == '\\'
}

fn prefix_len_of(v: &Vec<char>, n: usize) -> (k: usize)
    requires
        n <= v.len(),
    ensures
        k as int == prefix_len(v@.take(n as int)),
        k <= n,
{
    let ghost s = v@.take(n as int);
    if n >= 2 && separator(v[0]) && separator(v[1]) {
        let verbatim: bool = verbatim_of(v, n);
        if verbatim && n >= 8 && v[4] == 'U' && v[5] == 'N' && v[6] == 'C' && separator(v[7]) {
            let server: usize = component_end_of(v, n, 8, true);
            if server < n {
                let share: usize = component_end_of(v, n, server + 1, true);
                if share > server + 1 {
                    return share;
                }
            }
            server
        } else if verbatim {
            component_end_of(v, n, 4, true)
        } else if n >= 4 && v[2] == '.' && separator(v[3]) {
            component_end_of(v, n, 4, false)
        } else {
            let server: usize = component_end_of(v, n, 2, false);
            if server > 2 && server < n {
                let share: usize = component_end_of(v, n, server + 1, false);
                if share > server + 1 {
                    return share;
                }
            }
            0
        }
    } else if n >= 2 && ascii_letter(v[0]) && v[1] == ':' {
        2
    } else {
        0
    }
}

fn body_start_of(v: &Vec<char>, n: usize) -> (lo: usize)
    requires
        n <= v.len(),
    ensures
        lo as int == body_start(v@.take(n as int)),
        lo <= n,
{
    let ghost s = v@.take(n as int);
    let k: usize = prefix_len_of(v, n);
    let double: bool = n >= 2 && separator(v[0]) && separator(v[1]);
    let implicit_root: bool = k > 0 && !(!double && k == 2);
    let verbatim: bool = verbatim_of(v, n);
    let root: bool = n > k && separator(v[k]);
    let cur: bool = !root && !implicit_root && n > k && v[k] == '.' && (n == k + 1 || separator_in(
        v[k + 1],
        verbatim,
    ));
    assert(implicit_root == has_implicit_root(s));
    assert(root == has_root(s));
    assert(cur == has_cur_dir(s));
    let mut lo: usize = k;
    if root {
        lo = lo + 1;
    }
    if cur {
        lo = lo + 1;
    }
    lo
}

/// The value of `last_separator` on the first `n` characters of `v`.
fn last_separator_of(v: &Vec<char>, n: usize, lo: usize, hi: usize) -> (j: Option<usize>)
    requires
        lo <= hi <= n <= v.len(),
    ensures
        match j {
            Some(i) => last_separator(v@.take(n as int), lo as int, hi as int) == i && lo <= i < hi,
            None => last_separator(v@.take(n as int), lo as int, hi as int) == lo - 1,
        },
{
    let ghost s = v@.take(n as int);
    let verbatim: bool = verbatim_of(v, n);
    let mut h: usize = hi;
    while h > lo && !separator_in(v[h - 1], verbatim)
        invariant
            lo <= h <= hi <= n <= v.len(),
            s == v@.take(n as int),
            verbatim == is_verbatim(s),
            last_separator(s, lo as int, hi as int) == last_separator(s, lo as int, h as int),
        decreases h,
    {
        h = h - 1;
    }
    if h > lo {
        Some(h - 1)
    } else {
        None
    }
}

/// The value of `trim_end` on the first `n` characters of `v`.
fn trim_end_of(v: &Vec<char>, n: usize, lo: usize, hi: usize) -> (e: usize)
    requires
        lo <= hi <= n <= v.len(),
    ensures
        e as int == trim_end(v@.take(n as int), lo as int, hi as int),
        lo <= e <= hi,
{
    let ghost s = v@.take(n as int);
    let verbatim: bool = verbatim_of(v, n);
    let mut h: usize = hi;
    loop
        invariant
            lo <= h <= hi <= n <= v.len(),
            s == v@.take(n as int),
            verbatim == is_verbatim(s),
            trim_end(s, lo as int, hi as int) == trim_end(s, lo as int, h as int),
        decreases h,
    {
        if h <= lo {
            return h;
        }
        let found: Option<usize> = last_separator_of(v, n, lo, h);
        let (start, cut): (usize, usize) = match found {
            Some(i) => (i + 1, i),
            None => (lo, lo),
        };
        assert(start == piece_start(s, lo as int, h as int));
        assert(cut == piece_cut(s, lo as int, h as int));
        let empty: bool = start == h || (!verbatim && h == start + 1 && v[start] == '.');
        assert(empty == is_empty_piece(s, start as int, h as int));
        if !empty {
            return h;
        }
        h = cut;
    }
}

/// The value of `parent_end` on the first `n` characters of `v`.
fn parent_end_of(v: &Vec<char>, n: usize) -> (e: Option<usize>)
    requires
        n <= v.len(),
    ensures
        match e {
            Some(k) => parent_end(v@.take(n as int)) == Some(k as int) && k < n,
            None => parent_end(v@.take(n as int)) is None,
        },
{
    let ghost s = v@.take(n as int);
    let lo: usize = body_start_of(v, n);
    let t: usize = trim_end_of(v, n, lo, n);
    if t > lo {
        let found: Option<usize> = last_separator_of(v, n, lo, t);
        let cut: usize = match found {
            Some(i) => i,
            None => lo,
        };
        assert(cut == piece_cut(s, lo as int, t as int));
        Some(trim_end_of(v, n, lo, cut))
    } else {
        let k: usize = prefix_len_of(v, n);
        // With no prefix, the body starts after a leading `.` exactly when it
        // is one position past the start and the path has no root.
        let cur: bool = k == 0 && lo == 1 && !(n > 0 && separator(v[0]));
        assert(k == 0 ==> (cur == has_cur_dir(s)));
        if cur {
            Some(0)
        } else {
            None
        }
    }
}

/// The repository root as known when the shell was compiled: the Tauri
/// project lives at `<repo>/packages/desktop/app/src-tauri`, four levels below
/// the root, so the root is the fourth ancestor of the manifest directory
/// `manifest_dir` that the build names.
pub fn baked_repo_root(manifest_dir: &str) -> (root: Option<String>)
    ensures
        match root {
            Some(r) => ancestor(manifest_dir@, 4) == Some(r@),
            None => ancestor(manifest_dir@, 4) is None,
        },
{
    let v: Vec<char> = chars_of(manifest_dir);
    let mut n: usize = v.len();
    assert(v@.take(n as int) =~= v@);
    let mut k: usize = 0;
    while k < 4
        invariant
            k <= 4,
            n <= v.len(),
            v@ == manifest_dir@,
            ancestor(manifest_dir@, 4) == ancestor(v@.take(n as int), (4 - k) as nat),
        decreases 4 - k,
    {
        match parent_end_of(&v, n) {
            Some(e) => {
                assert(v@.take(n as int).take(e as int) =~= v@.take(e as int));
                n = e;
            },
            None => {
                return None;
            },
        }
        k = k + 1;
    }
    let root: &str = manifest_dir.substring_char(0, n);
    assert(manifest_dir@.subrange(0, n as int) =~= v@.take(n as int));
    Some(root.to_owned())
}

/// `Path::join` of a plain relative component `c` onto `base`.
pub fn join_component(base: &String, c: &str) -> (joined: String)
    requires
        is_plain_component(c@),
    ensures
        joined@ == join(base@, c@),
{
    let b: &str = base.as_str();
    let v: Vec<char> = chars_of(b);
    let n: usize = v.len();
    let ghost s: Seq<char> = v@;
    assert(v@.take(n as int) =~= s);
    proof {
        reveal_strlit("\\");
    }
    if verbatim_of(&v, n) {
        let k: usize = prefix_len_of(&v, n);
        let lo: usize = body_start_of(&v, n);
        let mut joined: String = b.substring_char(0, k).to_owned();
        assert(joined@ =~= s.take(k as int));
        let mut i: usize = lo;
        while i < n
            invariant
                lo <= i <= n == v.len(),
                s == v@,
                v@.take(n as int) == s,
                b@ == s,
                joined@ + verbatim_pieces(s, i as int) == s.take(k as int) + verbatim_pieces(
                    s,
                    lo as int,
                ),
            decreases n - i,
        {
            let e: usize = component_end_of(&v, n, i, true);
            let ghost before: Seq<char> = joined@;
            let ghost piece: Seq<char> = if e > i {
                seq!['\\'] + s.subrange(i as int, e as int)
            } else {
                Seq::<char>::empty()
            };
            assert(verbatim_pieces(s, i as int) == piece + verbatim_pieces(s, e + 1));
            if e > i {
                proof {
                    reveal_strlit("\\");
                }
                joined.append("\\");
                let part: &str = b.substring_char(i, e);
                joined.append(part);
                assert(joined@ =~= before + piece);
            } else {
                assert(joined@ =~= before + piece);
            }
            assert(joined@ + verbatim_pieces(s, e + 1) =~= before + verbatim_pieces(s, i as int));
            if e < n {
                i = e + 1;
            } else {
                assert(verbatim_pieces(s, e + 1) == Seq::<char>::empty());
                i = n;
            }
        }
        assert(verbatim_pieces(s, n as int) == Seq::<char>::empty());
        assert(joined@ =~= s.take(k as int) + verbatim_pieces(s, lo as int));
        joined.append("\\");
        joined.append(c);
        joined
    } else {
        let bare_drive: bool = n == 2 && ascii_letter(v[0]) && v[1] == ':';
        let need: bool = n > 0 && !separator(v[n - 1]) && !bare_drive;
        assert(bare_drive == is_bare_drive(s));
        assert(need == needs_separator(s));
        let mut joined: String = base.clone();
        if need {
            joined.append("\\");
        }
        joined.append(c);
        joined
    }
}

} // verus!
