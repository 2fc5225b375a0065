//! Character classes and small text builders shared by the parsers and the
//! messages: Unicode white space, trimming, and decimal rendering of integers.

use vstd::prelude::*;

verus! {

/// The Unicode `White_Space` property: the characters that `char::is_whitespace`
/// accepts, and so the ones that `str::trim` and `str::split_whitespace` treat
/// as white space.
pub open spec fn is_white_space(c: char) -> bool {
    ||| ('\t' <= c && c <= '\r')
    ||| c == ' '
    ||| c == '\u{85}'
    ||| c == '\u{a0}'
    ||| c == '\u{1680}'
    ||| ('\u{2000}' <= c && c <= '\u{200a}')
    ||| c == '\u{2028}'
    ||| c == '\u{2029}'
    ||| c == '\u{202f}'
    ||| c == '\u{205f}'
    ||| c == '\u{3000}'
}

/// Whether `c` is Unicode white space.
pub fn white_space(c: char) -> (b: bool)
    ensures
        b == is_white_space(c),
{
    ('\t' <= c && c <= '\r') || c == ' ' || c == '\u{85}' || c == '\u{a0}' || c == '\u{1680}'
        || ('\u{2000}' <= c && c <= '\u{200a}') || c == '\u{2028}' || c == '\u{2029}'
        || c == '\u{202f}' || c == '\u{205f}' || c == '\u{3000}'
}

/// `s` without its leading white space.
pub open spec fn trim_start_ws(s: Seq<char>) -> Seq<char>
    decreases s.len(),
{
    if s.len() > 0 && is_white_space(s[0]) {
        trim_start_ws(s.drop_first())
    } else {
        s
    }
}

/// `s` without its trailing white space.
pub open spec fn trim_end_ws(s: Seq<char>) -> Seq<char>
    decreases s.len(),
{
    if s.len() > 0 && is_white_space(s.last()) {
        trim_end_ws(s.drop_last())
    } else {
        s
    }
}

/// `s` without leading and trailing white space, as `str::trim` gives it.
pub open spec fn trim_ws(s: Seq<char>) -> Seq<char> {
    trim_end_ws(trim_start_ws(s))
}

/// Whether every character of `s` is white space.
pub open spec fn all_white_space(s: Seq<char>) -> bool {
    forall|i: int| 0 <= i < s.len() ==> is_white_space(#[trigger] s[i])
}

/// The run of non-white-space characters that `s` begins with.
pub open spec fn leading_word(s: Seq<char>) -> Seq<char>
    decreases s.len(),
{
    if s.len() > 0 && !is_white_space(s[0]) {
        seq![s[0]] + leading_word(s.drop_first())
    } else {
        Seq::empty()
    }
}

/// The first item that `str::split_whitespace` yields on `s`: the first
/// maximal run of non-white-space characters, if there is one.
pub open spec fn first_word(s: Seq<char>) -> Option<Seq<char>> {
    let t = trim_start_ws(s);
    if t.len() == 0 {
        None
    } else {
        Some(leading_word(t))
    }
}

/// Leading white space does not change what trimming the start leaves.
pub proof fn lemma_trim_start_after_white_space(w: Seq<char>, r: Seq<char>)
    requires
        all_white_space(w),
    ensures
        trim_start_ws(w + r) == trim_start_ws(r),
    decreases w.len(),
{
    if w.len() > 0 {
        assert((w + r)[0] == w[0]);
        assert((w + r).drop_first() =~= w.drop_first() + r);
        lemma_trim_start_after_white_space(w.drop_first(), r);
    } else {
        assert(w + r =~= r);
    }
}

/// Trimming the end of `s` keeps every character up to one that is not white
/// space, and what it leaves is a prefix of `s`.
pub proof fn lemma_trim_end_keeps(s: Seq<char>, k: int)
    requires
        0 < k <= s.len(),
        !is_white_space(s[k - 1]),
    ensures
        k <= trim_end_ws(s).len() <= s.len(),
        trim_end_ws(s) == s.take(trim_end_ws(s).len() as int),
    decreases s.len(),
{
    if s.len() > k && is_white_space(s.last()) {
        lemma_trim_end_keeps(s.drop_last(), k);
        let m = trim_end_ws(s.drop_last()).len() as int;
        assert(s.drop_last().take(m) =~= s.take(m));
    } else {
        assert(s.take(s.len() as int) =~= s);
    }
}

/// A word with no white space, followed by nothing or by white space, is the
/// leading word of the text.
pub proof fn lemma_leading_word_of_word(word: Seq<char>, tail: Seq<char>)
    requires
        forall|i: int| 0 <= i < word.len() ==> !is_white_space(#[trigger] word[i]),
        tail.len() == 0 || is_white_space(tail[0]),
    ensures
        leading_word(word + tail) == word,
    decreases word.len(),
{
    if word.len() > 0 {
        assert((word + tail)[0] == word[0]);
        assert((word + tail).drop_first() =~= word.drop_first() + tail);
        lemma_leading_word_of_word(word.drop_first(), tail);
        assert(seq![word[0]] + word.drop_first() =~= word);
    } else {
        assert(word + tail =~= tail);
    }
}

/// Trimming the start takes away a run of white space and nothing else.
pub proof fn lemma_trim_start_split(s: Seq<char>) -> (k: int)
    ensures
        0 <= k <= s.len(),
        all_white_space(s.take(k)),
        trim_start_ws(s) == s.skip(k),
        k < s.len() ==> !is_white_space(s[k]),
    decreases s.len(),
{
    if s.len() > 0 && is_white_space(s[0]) {
        let j = lemma_trim_start_split(s.drop_first());
        assert(s.drop_first().skip(j) =~= s.skip(j + 1));
        assert forall|i: int| 0 <= i < j + 1 implies is_white_space(#[trigger] s.take(j + 1)[i]) by {
            if i > 0 {
                assert(s.take(j + 1)[i] == s.drop_first().take(j)[i - 1]);
            }
        }
        j + 1
    } else {
        assert(s.skip(0) =~= s);
        0
    }
}

/// Trimming the end takes away a run of white space and nothing else.
pub proof fn lemma_trim_end_split(s: Seq<char>) -> (k: int)
    ensures
        0 <= k <= s.len(),
        all_white_space(s.skip(k)),
        trim_end_ws(s) == s.take(k),
        k > 0 ==> !is_white_space(s[k - 1]),
    decreases s.len(),
{
    if s.len() > 0 && is_white_space(s.last()) {
        let j = lemma_trim_end_split(s.drop_last());
        assert(s.drop_last().take(j) =~= s.take(j));
        assert forall|i: int| 0 <= i < s.len() - j implies is_white_space(#[trigger] s.skip(j)[i]) by {
            if j + i < s.len() - 1 {
                assert(s.skip(j)[i] == s.drop_last().skip(j)[i]);
            }
        }
        j
    } else {
        assert(s.take(s.len() as int) =~= s);
        s.len() as int
    }
}

/// The leading word is a prefix with no white space, ended by the end of the
/// text or by white space.
pub proof fn lemma_leading_word_split(s: Seq<char>) -> (k: int)
    ensures
        0 <= k <= s.len(),
        leading_word(s) == s.take(k),
        forall|i: int| 0 <= i < k ==> !is_white_space(#[trigger] s[i]),
        k < s.len() ==> is_white_space(s[k]),
    decreases s.len(),
{
    if s.len() > 0 && !is_white_space(s[0]) {
        let j = lemma_leading_word_split(s.drop_first());
        assert(seq![s[0]] + s.drop_first().take(j) =~= s.take(j + 1));
        assert forall|i: int| 0 <= i < j + 1 implies !is_white_space(#[trigger] s[i]) by {
            if i > 0 {
                assert(s[i] == s.drop_first()[i - 1]);
            }
        }
        j + 1
    } else {
        assert(s.take(0) =~= Seq::<char>::empty());
        0
    }
}

/// The characters of `s`, one per element, read in one pass.
pub fn chars_of(s: &str) -> (v: Vec<char>)
    ensures
        v@ == s@,
{
    let mut v: Vec<char> = Vec::new();
    for c in it: s.chars()
        invariant
            v@ == it.seq().take(it.index() as int),
    {
        v.push(c);
    }
    v
}

/// The decimal digit character for `d`.
pub open spec fn digit_char(d: nat) -> char {
    if d == 0 { '0' }
    else if d == 1 { '1' }
    else if d == 2 { '2' }
    else if d == 3 { '3' }
    else if d == 4 { '4' }
    else if d == 5 { '5' }
    else if d == 6 { '6' }
    else if d == 7 { '7' }
    else if d == 8 { '8' }
    else { '9' }
}

/// The decimal digits of `n`, most significant first, with no leading zero.
pub open spec fn decimal(n: nat) -> Seq<char>
    decreases n,
{
    if n < 10 {
        seq![digit_char(n)]
    } else {
        decimal(n / 10).push(digit_char(n % 10))
    }
}

/// `n` written in decimal as `Display` writes an integer: a `-` before the
/// digits of a negative number.
pub open spec fn int_text(n: int) -> Seq<char> {
    if n < 0 {
        seq!['-'] + decimal((-n) as nat)
    } else {
        decimal(n as nat)
    }
}

/// Whether `c` is one of the ASCII digits `0` to `9`.
pub open spec fn is_digit(c: char) -> bool {
    '0' <= c && c <= '9'
}

/// The number that the digits `s` denote, read as a base-10 numeral with the
/// most significant digit first.
pub open spec fn numeral_value(s: Seq<char>) -> int
    decreases s.len(),
{
    if s.len() == 0 {
        0
    } else {
        numeral_value(s.drop_last()) * 10 + (s.last() as int - '0' as int)
    }
}

/// Whether `s` is the usual base-10 numeral of `n`: digits only, at least one,
/// no leading zero, and reading back as `n`.
pub open spec fn is_numeral_of(s: Seq<char>, n: int) -> bool {
    &&& s.len() > 0
    &&& forall|i: int| 0 <= i < s.len() ==> is_digit(#[trigger] s[i])
    &&& (s.len() > 1 ==> s[0] != '0')
    &&& numeral_value(s) == n
}

/// Whether `s` is the signed base-10 numeral of `n`: a `-` and the numeral of
/// `-n` when `n` is negative, else the numeral of `n`.
pub open spec fn is_signed_numeral_of(s: Seq<char>, n: int) -> bool {
    if n < 0 {
        s.len() > 0 && s[0] == '-' && is_numeral_of(s.drop_first(), -n)
    } else {
        is_numeral_of(s, n)
    }
}

proof fn lemma_digit_char_value(d: nat)
    requires
        d < 10,
    ensures
        is_digit(digit_char(d)),
        digit_char(d) as int - '0' as int == d,
{
}

/// The digits of `n` read back as `n`: `decimal(n)` is the base-10 numeral of
/// `n`, with no leading zero and no digit lost or added.
pub proof fn lemma_decimal_is_numeral(n: nat)
    ensures
        is_numeral_of(decimal(n), n as int),
    decreases n,
{
    if n < 10 {
        lemma_digit_char_value(n);
        let s = decimal(n);
        assert(s.drop_last() =~= Seq::<char>::empty());
        assert(numeral_value(Seq::<char>::empty()) == 0);
        assert(numeral_value(s) == numeral_value(s.drop_last()) * 10 + (s.last() as int
            - '0' as int));
    } else {
        let q: nat = n / 10;
        let r: nat = n % 10;
        lemma_decimal_is_numeral(q);
        lemma_digit_char_value(r);
        let h = decimal(q);
        let s = decimal(n);
        assert(s == h.push(digit_char(r)));
        assert(s.drop_last() =~= h);
        assert(numeral_value(s) == numeral_value(h) * 10 + r);
        assert(q * 10 + r == n);
        assert(forall|i: int| 0 <= i < s.len() ==> is_digit(#[trigger] s[i])) by {
            assert forall|i: int| 0 <= i < s.len() implies is_digit(#[trigger] s[i]) by {
                if i < h.len() {
                    assert(s[i] == h[i]);
                }
            }
        }
        assert(s[0] == h[0]);
        if h.len() == 1 {
            assert(h.drop_last() =~= Seq::<char>::empty());
            assert(numeral_value(Seq::<char>::empty()) == 0);
            assert(h.last() == h[0]);
            assert(numeral_value(h) == numeral_value(h.drop_last()) * 10 + (h.last() as int
                - '0' as int));
            assert(numeral_value(h) == h[0] as int - '0' as int);
            assert(h[0] != '0');
        }
    }
}

/// `int_text(n)` is the signed base-10 numeral of `n`.
pub proof fn lemma_int_text_is_numeral(n: int)
    ensures
        is_signed_numeral_of(int_text(n), n),
{
    if n < 0 {
        lemma_decimal_is_numeral((-n) as nat);
        assert(int_text(n).drop_first() =~= decimal((-n) as nat));
    } else {
        lemma_decimal_is_numeral(n as nat);
    }
}

fn digit_str(d: u64) -> (s: &'static str)
    requires
        d < 10,
    ensures
        s@ == seq![digit_char(d as nat)],
{
    proof {
        reveal_strlit("0");
        reveal_strlit("1");
        reveal_strlit("2");
        reveal_strlit("3");
        reveal_strlit("4");
        reveal_strlit("5");
        reveal_strlit("6");
        reveal_strlit("7");
        reveal_strlit("8");
        reveal_strlit("9");
    }
    if d == 0 { "0" }
    else if d == 1 { "1" }
    else if d == 2 { "2" }
    else if d == 3 { "3" }
    else if d == 4 { "4" }
    else if d == 5 { "5" }
    else if d == 6 { "6" }
    else if d == 7 { "7" }
    else if d == 8 { "8" }
    else { "9" }
}

/// Appends the decimal digits of `n` to `out`.
fn push_decimal(out: &mut String, n: u64)
    ensures
        final(out)@ == old(out)@ + decimal(n as nat),
    decreases n,
{
    if n < 10 {
        out.append(digit_str(n));
    } else {
        push_decimal(out, n / 10);
        out.append(digit_str(n % 10));
    }
}

/// `n` in decimal, as `u32::to_string` renders it.
pub fn u32_text(n: u32) -> (s: String)
    ensures
        s@ == decimal(n as nat),
        is_numeral_of(s@, n as int),
{
    let mut s: String = String::new();
    push_decimal(&mut s, n as u64);
    proof {
        lemma_decimal_is_numeral(n as nat);
    }
    s
}

/// `n` in decimal, as `i32::to_string` renders it.
pub fn i32_text(n: i32) -> (s: String)
    ensures
        s@ == int_text(n as int),
        is_signed_numeral_of(s@, n as int),
{
    proof {
        lemma_int_text_is_numeral(n as int);
    }
    let mut s: String = String::new();
    if n < 0 {
        proof {
            reveal_strlit("-");
        }
        s.append("-");
        let magnitude: u64 = (0i64 - n as i64) as u64;
        push_decimal(&mut s, magnitude);
    } else {
        push_decimal(&mut s, n as u64);
    }
    s
}

} // verus!
