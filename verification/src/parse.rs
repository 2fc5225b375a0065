//! Parsing the backend's stdout handshake.

use vstd::prelude::*;

use crate::text::{
    all_white_space, chars_of, first_word, is_white_space, leading_word, lemma_leading_word_of_word,
    lemma_leading_word_split, lemma_trim_end_keeps, lemma_trim_end_split,
    lemma_trim_start_after_white_space, lemma_trim_start_split, trim_end_ws, trim_start_ws, trim_ws,
    white_space,
};

verus! {

/// The exact prefix the web-app bundle prints on its URL readiness line:
/// `dsh web: `, with its final space.
pub open spec fn url_prefix() -> Seq<char> {
    seq!['d', 's', 'h', ' ', 'w', 'e', 'b', ':', ' ']
}

/// The scheme that a readiness URL must carry: `http://`.
pub open spec fn http_scheme() -> Seq<char> {
    seq!['h', 't', 't', 'p', ':', '/', '/']
}

/// Whether `s` begins with `p`.
pub open spec fn starts_with(s: Seq<char>, p: Seq<char>) -> bool {
    s.len() >= p.len() && s.take(p.len() as int) == p
}

/// What `parse_url_line` returns on `line`: the line is trimmed of white
/// space at both ends; it must then begin with `dsh web: `; the first
/// white-space-separated word after that prefix is the URL, which must begin
/// with `http://`.
pub open spec fn readiness_url(line: Seq<char>) -> Option<Seq<char>> {
    let t = trim_ws(line);
    if starts_with(t, url_prefix()) {
        match first_word(t.skip(url_prefix().len() as int)) {
            Some(url) => if starts_with(url, http_scheme()) {
                Some(url)
            } else {
                None
            },
            None => None,
        }
    } else {
        None
    }
}

/// The readiness line round-trips: a line made of optional white space,
/// `dsh web: `, optional white space, an `http://` URL without white space,
/// and then nothing or anything that starts with white space (such as
/// ` (LAN: ...)` or a line ending) parses back to exactly that URL.
pub proof fn lemma_readiness_line_round_trip(
    lead: Seq<char>,
    gap: Seq<char>,
    url: Seq<char>,
    tail: Seq<char>,
)
    requires
        all_white_space(lead),
        all_white_space(gap),
        starts_with(url, http_scheme()),
        forall|i: int| 0 <= i < url.len() ==> !is_white_space(#[trigger] url[i]),
        tail.len() == 0 || is_white_space(tail[0]),
    ensures
        readiness_url(lead + url_prefix() + gap + url + tail) == Some(url),
{
    let p = url_prefix();
    let body = p + gap + url + tail;
    assert(lead + url_prefix() + gap + url + tail =~= lead + body);
    lemma_trim_start_after_white_space(lead, body);
    assert(body[0] == 'd');
    assert(trim_start_ws(body) == body);
    let k: int = (p.len() + gap.len() + url.len()) as int;
    assert(body[k - 1] == url[url.len() - 1]);
    lemma_trim_end_keeps(body, k);
    let t = trim_ws(lead + body);
    assert(t == trim_end_ws(body));
    let m = t.len() as int;
    assert(t.take(p.len() as int) =~= p);
    let rest = t.skip(p.len() as int);
    let kept = tail.take(m - k);
    assert(rest =~= gap + (url + kept));
    lemma_trim_start_after_white_space(gap, url + kept);
    assert((url + kept)[0] == url[0]);
    assert(trim_start_ws(url + kept) == url + kept);
    assert(kept.len() == 0 || is_white_space(kept[0]));
    lemma_leading_word_of_word(url, kept);
}

/// Every URL the parser accepts comes from a readiness line: the line is
/// white space, `dsh web: `, white space, the URL, and then nothing or
/// something that starts with white space; the URL begins with `http://` and
/// holds no white space.
#[verifier::rlimit(40)]
pub proof fn lemma_readiness_url_comes_from_a_readiness_line(line: Seq<char>, url: Seq<char>)
    requires
        readiness_url(line) == Some(url),
    ensures
        starts_with(url, http_scheme()),
        forall|i: int| 0 <= i < url.len() ==> !is_white_space(#[trigger] url[i]),
        exists|lead: Seq<char>, gap: Seq<char>, tail: Seq<char>|
            #![trigger lead + url_prefix() + gap + url + tail]
            {
                &&& all_white_space(lead)
                &&& all_white_space(gap)
                &&& tail.len() == 0 || is_white_space(tail[0])
                &&& line == lead + url_prefix() + gap + url + tail
            },
{
    let a = lemma_trim_start_split(line);
    let r = line.skip(a);
    let b = lemma_trim_end_split(r);
    let t = r.take(b);
    assert(trim_ws(line) == t);
    let p = url_prefix();
    assert(starts_with(t, p));
    let rest = t.skip(p.len() as int);
    assert(first_word(rest) == Some(url));
    let g = lemma_trim_start_split(rest);
    let w = rest.skip(g);
    assert(w.len() > 0 && leading_word(w) == url);
    let k = lemma_leading_word_split(w);
    assert(url == w.take(k));
    let lead = line.take(a);
    let gap = rest.take(g);
    let tail = w.skip(k) + r.skip(b);
    assert(line == lead + p + gap + url + tail) by {
        assert(t =~= p + rest);
        assert(rest =~= gap + w);
        assert(w =~= url + w.skip(k));
        assert(line =~= lead + r);
        assert(r =~= t + r.skip(b));
        assert(line =~= lead + p + gap + url + tail);
    }
    assert(tail.len() == 0 || is_white_space(tail[0])) by {
        if tail.len() > 0 {
            if k < w.len() {
                assert(tail[0] == w[k]);
            } else {
                assert(w.skip(k).len() == 0);
                assert(tail[0] == r.skip(b)[0]);
            }
        }
    }
    assert forall|i: int| 0 <= i < url.len() implies !is_white_space(#[trigger] url[i]) by {
        assert(url[i] == w[i]);
    }
}

/// Whether `v[at..]` begins with the characters of `p`.
fn matches_at(v: &Vec<char>, at: usize, end: usize, p: &Vec<char>) -> (b: bool)
    requires
        at <= end <= v.len(),
    ensures
        b == starts_with(v@.subrange(at as int, end as int), p@),
{
    if end - at < p.len() {
        return false;
    }
    let mut k: usize = 0;
    while k < p.len()
        invariant
            at <= end <= v.len(),
            end - at >= p.len(),
            k <= p.len(),
            forall|j: int| 0 <= j < k ==> v@[at + j] == p@[j],
        decreases p.len() - k,
    {
        if v[at + k] != p[k] {
            assert(v@.subrange(at as int, end as int).take(p.len() as int)[k as int] != p@[k as int]);
            return false;
        }
        k = k + 1;
    }
    assert(v@.subrange(at as int, end as int).take(p.len() as int) =~= p@);
    true
}

/// The first index at or after `from` and before `end` that does not hold
/// white space, or `end`.
fn skip_white_space(v: &Vec<char>, from: usize, end: usize) -> (i: usize)
    requires
        from <= end <= v.len(),
    ensures
        from <= i <= end,
        trim_start_ws(v@.subrange(from as int, end as int)) == v@.subrange(i as int, end as int),
{
    let mut i: usize = from;
    while i < end && white_space(v[i])
        invariant
            from <= i <= end <= v.len(),
            trim_start_ws(v@.subrange(from as int, end as int)) == trim_start_ws(
                v@.subrange(i as int, end as int),
            ),
        decreases end - i,
    {
        assert(v@.subrange(i as int, end as int).drop_first() =~= v@.subrange(
            i + 1,
            end as int,
        ));
        i = i + 1;
    }
    i
}

/// Extract the loopback URL from one backend stdout line, if it is the
/// readiness line. The line may carry a ` (LAN: ...)` suffix and a trailing
/// line ending; only `http://` URLs qualify (the harness never serves https).
pub fn parse_url_line(line: &str) -> (url: Option<String>)
    ensures
        match url {
            Some(u) => readiness_url(line@) == Some(u@),
            None => readiness_url(line@) is None,
        },
{
    let v: Vec<char> = chars_of(line);
    let n: usize = v.len();
    let ghost s: Seq<char> = v@;
    assert(s.subrange(0, n as int) =~= s);

    // Leading white space.
    let a: usize = skip_white_space(&v, 0, n);

    // Trailing white space.
    let mut b: usize = n;
    while b > a && white_space(v[b - 1])
        invariant
            a <= b <= n == v.len(),
            s == v@,
            trim_end_ws(s.subrange(a as int, n as int)) == trim_end_ws(
                s.subrange(a as int, b as int),
            ),
        decreases b,
    {
        assert(s.subrange(a as int, b as int).drop_last() =~= s.subrange(a as int, b - 1));
        b = b - 1;
    }
    assert(trim_ws(s) == s.subrange(a as int, b as int));
    let ghost t: Seq<char> = s.subrange(a as int, b as int);

    let prefix: Vec<char> = vec!['d', 's', 'h', ' ', 'w', 'e', 'b', ':', ' '];
    assert(prefix@ =~= url_prefix());
    if !matches_at(&v, a, b, &prefix) {
        return None;
    }
    let c: usize = a + prefix.len();
    assert(t.skip(url_prefix().len() as int) =~= s.subrange(c as int, b as int));

    // The first word after the prefix.
    let d: usize = skip_white_space(&v, c, b);
    if d == b {
        return None;
    }
    let mut e: usize = d;
    while e < b && !white_space(v[e])
        invariant
            d <= e <= b <= n == v.len(),
            s == v@,
            leading_word(s.subrange(d as int, b as int)) == s.subrange(d as int, e as int)
                + leading_word(s.subrange(e as int, b as int)),
        decreases b - e,
    {
        assert(s.subrange(e as int, b as int).drop_first() =~= s.subrange(e + 1, b as int));
        assert(s.subrange(d as int, e as int) + seq![s[e as int]] =~= s.subrange(
            d as int,
            e + 1,
        ));
        assert(s.subrange(d as int, e as int) + leading_word(s.subrange(e as int, b as int))
            =~= s.subrange(d as int, e + 1) + leading_word(s.subrange(e + 1, b as int)));
        e = e + 1;
    }
    assert(s.subrange(d as int, e as int) + leading_word(s.subrange(e as int, b as int))
        =~= s.subrange(d as int, e as int));
    assert(first_word(t.skip(url_prefix().len() as int)) == Some(s.subrange(d as int, e as int)));

    let scheme: Vec<char> = vec!['h', 't', 't', 'p', ':', '/', '/'];
    assert(scheme@ =~= http_scheme());
    if !matches_at(&v, d, e, &scheme) {
        return None;
    }
    let word: &str = line.substring_char(d, e);
    Some(word.to_owned())
}

} // verus!
