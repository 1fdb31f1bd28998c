//! Character-level string utilities: conversion between `&str` and
//! `Vec<char>`, substring search, splitting, and decimal formatting.
//! All higher-level parsing in this crate works over `Seq<char>`.

use vstd::prelude::*;
use vstd::std_specs::iter::IteratorSpec;

verus! {

broadcast use vstd::string::group_string_axioms, vstd::std_specs::iter::group_iter_axioms;

/// `needle` occurs in `hay` at position `i`.
pub open spec fn matches_at(hay: Seq<char>, needle: Seq<char>, i: int) -> bool {
    &&& 0 <= i
    &&& i + needle.len() <= hay.len()
    &&& forall|k: int| 0 <= k < needle.len() ==> hay[i + k] == needle[k]
}

/// `needle` occurs somewhere in `hay`.
pub open spec fn has_sub(hay: Seq<char>, needle: Seq<char>) -> bool {
    exists|i: int| matches_at(hay, needle, i)
}

/// `hay` starts with `needle`.
pub open spec fn has_prefix(hay: Seq<char>, needle: Seq<char>) -> bool {
    matches_at(hay, needle, 0)
}

/// Collect the characters of a string slice into a vector.
pub fn chars_of(s: &str) -> (r: Vec<char>)
    ensures
        r@ == s@,
{
    let mut it = s.chars();
    let mut v: Vec<char> = Vec::new();
    loop
        invariant
            it.obeys_prophetic_iter_laws(),
            it.decrease() is Some,
            v@ + it.remaining() == s@,
        ensures
            v@ == s@,
        decreases it.decrease()->0,
    {
        match it.next() {
            Some(c) => {
                v.push(c);
                proof {
                    assert(v@ + it.remaining() =~= s@);
                }
            },
            None => {
                proof {
                    assert(v@ =~= s@);
                }
                break ;
            },
        }
    }
    v
}

/// Relies on `String::push` of std: appends one character to the string.
#[verifier::external_body]
fn push_char(s: &mut String, c: char)
    ensures
        final(s)@ == old(s)@.push(c),
{
    s.push(c);
}

/// Build a `String` from a slice of characters.
pub fn string_from_chars(v: &[char]) -> (r: String)
    ensures
        r@ == v@,
{
    let mut s = String::new();
    let mut i: usize = 0;
    while i < v.len()
        invariant
            0 <= i <= v@.len(),
            s@ == v@.subrange(0, i as int),
        decreases v@.len() - i,
    {
        push_char(&mut s, v[i]);
        i = i + 1;
        proof {
            assert(s@ =~= v@.subrange(0, i as int));
        }
    }
    proof {
        assert(s@ =~= v@);
    }
    s
}

/// Whether `needle` occurs in `hay` exactly at position `i`.
pub fn eq_at(hay: &[char], needle: &[char], i: usize) -> (r: bool)
    requires
        i + needle@.len() <= hay@.len(),
    ensures
        r == matches_at(hay@, needle@, i as int),
{
    let hlen: usize = hay.len();
    let mut k: usize = 0;
    while k < needle.len()
        invariant
            0 <= k <= needle@.len(),
            i + needle@.len() <= hay@.len(),
            hay@.len() == hlen,
            forall|m: int| 0 <= m < k ==> hay@[i + m] == needle@[m],
        decreases needle@.len() - k,
    {
        if hay[i + k] != needle[k] {
            return false;
        }
        k = k + 1;
    }
    true
}

/// Find the first occurrence of `needle` in `hay`.
pub fn find_sub(hay: &[char], needle: &[char]) -> (r: Option<usize>)
    ensures
        match r {
            Some(i) => matches_at(hay@, needle@, i as int) && (forall|j: int|
                0 <= j < i ==> !matches_at(hay@, needle@, j)),
            None => !has_sub(hay@, needle@),
        },
{
    if needle.len() > hay.len() {
        return None;
    }
    if needle.len() == 0 {
        return Some(0);
    }
    let last: usize = hay.len() - needle.len();
    let mut i: usize = 0;
    while i <= last
        invariant
            0 <= i <= last + 1,
            last == hay@.len() - needle@.len(),
            1 <= needle@.len() <= hay@.len(),
            hay@.len() <= usize::MAX,
            forall|j: int| 0 <= j < i ==> !matches_at(hay@, needle@, j),
        decreases last + 1 - i,
    {
        if eq_at(hay, needle, i) {
            return Some(i);
        }
        i = i + 1;
    }
    None
}

/// Whether `needle` occurs anywhere in `hay`.
pub fn contains_sub(hay: &[char], needle: &[char]) -> (r: bool)
    ensures
        r == has_sub(hay@, needle@),
{
    match find_sub(hay, needle) {
        Some(_) => true,
        None => false,
    }
}

/// Whether `hay` starts with `needle`.
pub fn starts_with_sub(hay: &[char], needle: &[char]) -> (r: bool)
    ensures
        r == has_prefix(hay@, needle@),
{
    if needle.len() > hay.len() {
        return false;
    }
    eq_at(hay, needle, 0)
}

/// Index of the first occurrence of character `c` in `s`, or -1 when absent.
pub open spec fn first_idx(s: Seq<char>, c: char) -> int
    decreases s.len(),
{
    if s.len() == 0 {
        -1
    } else if s[0] == c {
        0
    } else {
        let r = first_idx(s.drop_first(), c);
        if r < 0 {
            -1
        } else {
            r + 1
        }
    }
}

/// The defining properties of `first_idx`.
pub proof fn lemma_first_idx(s: Seq<char>, c: char)
    ensures
        first_idx(s, c) == -1 ==> (forall|j: int| 0 <= j < s.len() ==> s[j] != c),
        first_idx(s, c) != -1 ==> {
            let i = first_idx(s, c);
            &&& 0 <= i < s.len()
            &&& s[i] == c
            &&& forall|j: int| 0 <= j < i ==> s[j] != c
        },
    decreases s.len(),
{
    if s.len() > 0 && s[0] != c {
        let t = s.drop_first();
        lemma_first_idx(t, c);
        let r = first_idx(t, c);
        if r < 0 {
            assert forall|j: int| 0 <= j < s.len() implies s[j] != c by {
                if j >= 1 {
                    assert(t[j - 1] != c);
                    assert(t[j - 1] == s[j]);
                }
            }
        } else {
            assert(s[r + 1] == t[r]);
            assert forall|j: int| 0 <= j < r + 1 implies s[j] != c by {
                if j >= 1 {
                    assert(t[j - 1] != c);
                    assert(t[j - 1] == s[j]);
                }
            }
        }
    }
}

/// Find the first occurrence of character `c` in `s`.
pub fn find_char(s: &[char], c: char) -> (r: Option<usize>)
    ensures
        match r {
            Some(i) => first_idx(s@, c) == i as int,
            None => first_idx(s@, c) == -1,
        },
{
    proof {
        lemma_first_idx(s@, c);
    }
    let mut i: usize = 0;
    while i < s.len()
        invariant
            0 <= i <= s@.len(),
            forall|j: int| 0 <= j < i ==> s@[j] != c,
            first_idx(s@, c) == -1 ==> (forall|j: int| 0 <= j < s@.len() ==> s@[j] != c),
            first_idx(s@, c) != -1 ==> {
                let k = first_idx(s@, c);
                &&& 0 <= k < s@.len()
                &&& s@[k] == c
                &&& forall|j: int| 0 <= j < k ==> s@[j] != c
            },
        decreases s@.len() - i,
    {
        if s[i] == c {
            return Some(i);
        }
        i = i + 1;
    }
    None
}

/// Splitting `s` at every occurrence of `sep`: the unique decomposition of
/// `s` into separator-free parts.
pub open spec fn spec_split(s: Seq<char>, sep: char) -> Seq<Seq<char>>
    decreases s.len(),
{
    let i = first_idx(s, sep);
    if i < 0 || i + 1 > s.len() {
        seq![s]
    } else {
        seq![s.take(i)] + spec_split(s.skip(i + 1), sep)
    }
}

/// Split a character slice at every occurrence of `sep`.
pub fn split_chars(s: &[char], sep: char) -> (r: Vec<Vec<char>>)
    ensures
        r.deep_view() == spec_split(s@, sep),
        r@.len() >= 1,
    decreases s@.len(),
{
    proof {
        lemma_first_idx(s@, sep);
    }
    match find_char(s, sep) {
        None => {
            let part = vstd::slice::slice_to_vec(s);
            let mut r: Vec<Vec<char>> = Vec::new();
            r.push(part);
            proof {
                assert(r.deep_view() =~~= spec_split(s@, sep));
            }
            r
        },
        Some(i) => {
            proof {
                assert(first_idx(s@, sep) == i as int);
                assert((i as int) < s@.len());
            }
            let n: usize = s.len();
            let head = vstd::slice::slice_to_vec(vstd::slice::slice_subrange(s, 0, i));
            let tail = vstd::slice::slice_subrange(s, i + 1, n);
            let mut rest = split_chars(tail, sep);
            rest.insert(0, head);
            proof {
                assert(head@ =~= s@.take(i as int));
                assert(tail@ =~= s@.skip(i + 1));
                assert(rest.deep_view() =~~= spec_split(s@, sep));
            }
            rest
        },
    }
}

/// Every character of a decimal rendering is a digit.
pub proof fn lemma_spec_dec_digits(n: u64)
    ensures
        all_digits(spec_dec(n)),
        spec_dec(n).len() >= 1,
    decreases n,
{
    if n < 10 {
        assert(spec_dec(n) =~= seq![dec_digit(n)]);
    } else {
        lemma_spec_dec_digits(n / 10);
        let d = dec_digit(n % 10);
        assert('0' <= d && d <= '9');
        assert forall|i: int| 0 <= i < spec_dec(n).len() implies '0' <= #[trigger] spec_dec(n)[i]
            && spec_dec(n)[i] <= '9' by {
            if i < spec_dec(n).len() - 1 {
                assert(spec_dec(n)[i] == spec_dec((n / 10) as u64)[i]);
            }
        }
    }
}

/// Ten to any power is positive.
pub proof fn lemma_pow10_pos(n: nat)
    ensures
        pow10(n) >= 1,
    decreases n,
{
    if n > 0 {
        lemma_pow10_pos((n - 1) as nat);
    }
}

/// An all-digit sequence denotes a value below ten to its length.
pub proof fn lemma_dec_value_bound(s: Seq<char>)
    requires
        all_digits(s),
    ensures
        0 <= spec_dec_value(s) < pow10(s.len()),
    decreases s.len(),
{
    if s.len() == 0 {
    } else {
        assert(all_digits(s.drop_last()));
        lemma_dec_value_bound(s.drop_last());
        assert(pow10(s.len()) == 10 * pow10((s.len() - 1) as nat));
        assert(s.last() <= '9');
    }
}

/// The head digit carries ten to the remaining length.
pub proof fn lemma_dec_value_head(s: Seq<char>)
    requires
        s.len() > 0,
        all_digits(s),
    ensures
        spec_dec_value(s) == (s[0] as int - 48) * pow10((s.len() - 1) as nat) + spec_dec_value(
            s.drop_first(),
        ),
    decreases s.len(),
{
    if s.len() == 1 {
        assert(s.drop_last() =~= Seq::<char>::empty());
        assert(s.drop_first() =~= Seq::<char>::empty());
        assert(pow10(0) == 1);
    } else {
        let dl = s.drop_last();
        assert(all_digits(dl));
        lemma_dec_value_head(dl);
        assert(dl[0] == s[0]);
        let l2 = (s.len() - 2) as nat;
        assert(dl.drop_first() =~= s.drop_first().drop_last());
        assert(s.drop_first().last() == s.last());
        assert(spec_dec_value(s) == spec_dec_value(dl) * 10 + (s.last() as int - 48));
        assert(spec_dec_value(s.drop_first()) == spec_dec_value(dl.drop_first()) * 10 + (
        s.last() as int - 48));
        let h = s[0] as int - 48;
        let p = pow10(l2);
        assert((h * p + spec_dec_value(dl.drop_first())) * 10 == h * (10 * p) + spec_dec_value(
            dl.drop_first(),
        ) * 10) by (nonlinear_arith);
        assert(pow10((s.len() - 1) as nat) == 10 * pow10(l2));
    }
}

/// The decimal rendering of a value denotes that value.
pub proof fn lemma_dec_value_of_dec(n: u64)
    ensures
        spec_dec_value(spec_dec(n)) == n,
    decreases n,
{
    if n < 10 {
        assert(spec_dec(n) =~= seq![dec_digit(n)]);
        assert(seq![dec_digit(n)].drop_last() =~= Seq::<char>::empty());
        assert(dec_digit(n) as int == n + 48);
        assert(spec_dec_value(seq![dec_digit(n)]) == spec_dec_value(Seq::<char>::empty()) * 10 + (
        dec_digit(n) as int - 48));
    } else {
        lemma_dec_value_of_dec(n / 10);
        let d = dec_digit(n % 10);
        assert(d as int == (n % 10) + 48);
        assert(spec_dec(n) == spec_dec((n / 10) as u64).push(d));
        assert(spec_dec(n).drop_last() =~= spec_dec((n / 10) as u64));
        assert(spec_dec(n).last() == d);
        assert(spec_dec_value(spec_dec(n)) == spec_dec_value(spec_dec((n / 10) as u64)) * 10 + (
        d as int - 48));
    }
}

/// Leading zeros do not change a digit sequence's value.
proof fn lemma_dec_value_zeros(k: nat, s: Seq<char>)
    requires
        all_digits(s),
    ensures
        spec_dec_value(Seq::new(k, |i: int| '0') + s) == spec_dec_value(s),
    decreases k,
{
    if k == 0 {
        assert(Seq::new(0, |i: int| '0') + s =~= s);
    } else {
        let inner = Seq::new((k - 1) as nat, |i: int| '0') + s;
        assert(all_digits(inner));
        lemma_dec_value_zeros((k - 1) as nat, s);
        let w = Seq::new(k, |i: int| '0') + s;
        assert(all_digits(w));
        assert(w.len() > 0);
        lemma_dec_value_head(w);
        assert(w[0] == '0');
        assert(w.drop_first() =~= inner);
        assert((('0' as int) - 48) * pow10((w.len() - 1) as nat) == 0) by (nonlinear_arith);
    }
}

/// The zero-padded rendering of a value denotes that value, is exactly
/// `width` long when the value fits, and consists of digits.
pub proof fn lemma_pad_shape(n: u64, width: nat)
    requires
        width >= 1,
        n < pow10(width),
    ensures
        spec_dec_pad(n, width).len() == width,
        all_digits(spec_dec_pad(n, width)),
        spec_dec_value(spec_dec_pad(n, width)) == n,
{
    lemma_spec_dec_shape(n, width);
    lemma_spec_dec_digits(n);
    lemma_dec_value_of_dec(n);
    let d = spec_dec(n);
    if d.len() >= width {
        assert(spec_dec_pad(n, width) == d);
    } else {
        let z = Seq::new((width - d.len()) as nat, |i: int| '0');
        assert(spec_dec_pad(n, width) == z + d);
        lemma_dec_value_zeros((width - d.len()) as nat, d);
        assert forall|i: int| 0 <= i < (z + d).len() implies '0' <= #[trigger] (z + d)[i] && (z
            + d)[i] <= '9' by {
            if i >= z.len() {
                assert((z + d)[i] == d[i - z.len()]);
            }
        }
    }
}

/// The Unicode White_Space characters, the set `str::trim` and
/// `str::split_whitespace` go by.
pub open spec fn is_space_char(c: char) -> bool {
    ||| c == ' '
    ||| ('\u{9}' <= c && c <= '\u{D}')
    ||| c == '\u{85}'
    ||| c == '\u{A0}'
    ||| c == '\u{1680}'
    ||| ('\u{2000}' <= c && c <= '\u{200A}')
    ||| c == '\u{2028}'
    ||| c == '\u{2029}'
    ||| c == '\u{202F}'
    ||| c == '\u{205F}'
    ||| c == '\u{3000}'
}

/// Whether a character is Unicode whitespace.
pub fn is_space(c: char) -> (r: bool)
    ensures
        r == is_space_char(c),
{
    c == ' ' || ('\u{9}' <= c && c <= '\u{D}') || c == '\u{85}' || c == '\u{A0}' || c == '\u{1680}'
        || ('\u{2000}' <= c && c <= '\u{200A}') || c == '\u{2028}' || c == '\u{2029}' || c
        == '\u{202F}' || c == '\u{205F}' || c == '\u{3000}'
}

/// `s` without its leading whitespace.
pub open spec fn spec_trim_start(s: Seq<char>) -> Seq<char>
    decreases s.len(),
{
    if s.len() > 0 && is_space_char(s[0]) {
        spec_trim_start(s.drop_first())
    } else {
        s
    }
}

/// `s` without its trailing whitespace.
pub open spec fn spec_trim_end(s: Seq<char>) -> Seq<char>
    decreases s.len(),
{
    if s.len() > 0 && is_space_char(s.last()) {
        spec_trim_end(s.drop_last())
    } else {
        s
    }
}

/// `s` without leading and trailing whitespace.
pub open spec fn spec_trim(s: Seq<char>) -> Seq<char> {
    spec_trim_end(spec_trim_start(s))
}

/// Dropping a whitespace prefix is what `spec_trim_start` does.
proof fn lemma_trim_start_skip(s: Seq<char>, i: int)
    requires
        0 <= i <= s.len(),
        forall|j: int| 0 <= j < i ==> is_space_char(s[j]),
        i == s.len() || !is_space_char(s[i]),
    ensures
        spec_trim_start(s) == s.skip(i),
    decreases i,
{
    if i == 0 {
        assert(s.skip(0) =~= s);
    } else {
        let t = s.drop_first();
        assert(forall|j: int| 0 <= j < i - 1 ==> is_space_char(#[trigger] t[j]));
        lemma_trim_start_skip(t, i - 1);
        assert(t.skip(i - 1) =~= s.skip(i));
    }
}

/// Dropping a whitespace suffix is what `spec_trim_end` does.
proof fn lemma_trim_end_take(s: Seq<char>, e: int)
    requires
        0 <= e <= s.len(),
        forall|j: int| e <= j < s.len() ==> is_space_char(s[j]),
        e == 0 || !is_space_char(s[e - 1]),
    ensures
        spec_trim_end(s) == s.take(e),
    decreases s.len() - e,
{
    if e == s.len() {
        assert(s.take(e) =~= s);
    } else {
        let t = s.drop_last();
        assert(is_space_char(s.last()));
        lemma_trim_end_take(t, e);
        assert(t.take(e) =~= s.take(e));
    }
}

/// Trim whitespace from both ends of a character slice.
pub fn trim_slice(s: &[char]) -> (r: Vec<char>)
    ensures
        r@ == spec_trim(s@),
{
    let n: usize = s.len();
    let mut start: usize = 0;
    while start < n && is_space(s[start])
        invariant
            0 <= start <= n,
            n == s@.len(),
            forall|j: int| 0 <= j < start ==> is_space_char(s@[j]),
        decreases n - start,
    {
        start = start + 1;
    }
    let mut end: usize = n;
    while end > start && is_space(s[end - 1])
        invariant
            start <= end <= n,
            n == s@.len(),
            forall|j: int| end <= j < n ==> is_space_char(s@[j]),
        decreases end,
    {
        end = end - 1;
    }
    proof {
        lemma_trim_start_skip(s@, start as int);
        let t = s@.skip(start as int);
        assert(forall|j: int| end - start <= j < t.len() ==> is_space_char(#[trigger] t[j]));
        lemma_trim_end_take(t, end - start);
        assert(t.take(end - start) =~= s@.subrange(start as int, end as int));
    }
    vstd::slice::slice_to_vec(vstd::slice::slice_subrange(s, start, end))
}

/// Index of the first whitespace character in `s`, or -1 when there is
/// none.
pub open spec fn first_space_idx(s: Seq<char>) -> int
    decreases s.len(),
{
    if s.len() == 0 {
        -1
    } else if is_space_char(s[0]) {
        0
    } else {
        let r = first_space_idx(s.drop_first());
        if r < 0 {
            -1
        } else {
            r + 1
        }
    }
}

/// The defining properties of `first_space_idx`.
proof fn lemma_first_space_idx(s: Seq<char>)
    ensures
        first_space_idx(s) == -1 ==> (forall|j: int|
            0 <= j < s.len() ==> !is_space_char(#[trigger] s[j])),
        first_space_idx(s) != -1 ==> {
            let i = first_space_idx(s);
            &&& 0 <= i < s.len()
            &&& is_space_char(s[i])
            &&& forall|j: int| 0 <= j < i ==> !is_space_char(#[trigger] s[j])
        },
    decreases s.len(),
{
    if s.len() > 0 && !is_space_char(s[0]) {
        let t = s.drop_first();
        lemma_first_space_idx(t);
        let r = first_space_idx(t);
        if r < 0 {
            assert forall|j: int| 0 <= j < s.len() implies !is_space_char(#[trigger] s[j]) by {
                if j >= 1 {
                    assert(!is_space_char(t[j - 1]));
                    assert(t[j - 1] == s[j]);
                }
            }
        } else {
            assert(s[r + 1] == t[r]);
            assert forall|j: int| 0 <= j < r + 1 implies !is_space_char(#[trigger] s[j]) by {
                if j >= 1 {
                    assert(!is_space_char(t[j - 1]));
                    assert(t[j - 1] == s[j]);
                }
            }
        }
    }
}

/// The whitespace-separated words of `s`, in order, without empty words:
/// what `str::split_whitespace` yields.
pub open spec fn spec_words(s: Seq<char>) -> Seq<Seq<char>>
    decreases s.len(),
    via spec_words_dec
{
    let t = spec_trim_start(s);
    if t.len() == 0 {
        Seq::empty()
    } else {
        let i = first_space_idx(t);
        if i < 0 {
            seq![t]
        } else if 0 < i <= t.len() {
            seq![t.take(i)] + spec_words(t.skip(i))
        } else {
            Seq::empty()
        }
    }
}

#[via_fn]
proof fn spec_words_dec(s: Seq<char>) {
    lemma_trim_start_shape(s);
}

/// `spec_trim_start` yields a suffix no longer than the input, with a
/// non-space head when non-empty.
proof fn lemma_trim_start_shape(s: Seq<char>)
    ensures
        spec_trim_start(s).len() <= s.len(),
        spec_trim_start(s).len() > 0 ==> !is_space_char(spec_trim_start(s)[0]),
    decreases s.len(),
{
    if s.len() > 0 && is_space_char(s[0]) {
        lemma_trim_start_shape(s.drop_first());
    }
}

/// Split a character slice into its whitespace-separated words.
pub fn words_of(s: &[char]) -> (r: Vec<Vec<char>>)
    ensures
        r.deep_view() == spec_words(s@),
    decreases s@.len(),
{
    let n: usize = s.len();
    let mut start: usize = 0;
    while start < n && is_space(s[start])
        invariant
            0 <= start <= n,
            n == s@.len(),
            forall|j: int| 0 <= j < start ==> is_space_char(s@[j]),
        decreases n - start,
    {
        start = start + 1;
    }
    proof {
        lemma_trim_start_skip(s@, start as int);
    }
    let t = vstd::slice::slice_subrange(s, start, n);
    proof {
        assert(t@ =~= s@.skip(start as int));
        lemma_first_space_idx(t@);
        lemma_trim_start_shape(s@);
    }
    if t.len() == 0 {
        let r: Vec<Vec<char>> = Vec::new();
        proof {
            assert(r.deep_view() =~~= spec_words(s@));
        }
        return r;
    }
    let mut i: usize = 0;
    let tn: usize = t.len();
    while i < tn && !is_space(t[i])
        invariant
            0 <= i <= tn,
            tn == t@.len(),
            forall|j: int| 0 <= j < i ==> !is_space_char(t@[j]),
        decreases tn - i,
    {
        i = i + 1;
    }
    if i == tn {
        proof {
            assert(first_space_idx(t@) == -1);
        }
        let word = vstd::slice::slice_to_vec(t);
        let mut r: Vec<Vec<char>> = Vec::new();
        r.push(word);
        proof {
            assert(r.deep_view() =~~= spec_words(s@));
        }
        r
    } else {
        proof {
            assert(is_space_char(t@[i as int]));
            assert(first_space_idx(t@) == i as int);
        }
        let word = vstd::slice::slice_to_vec(vstd::slice::slice_subrange(t, 0, i));
        let rest = vstd::slice::slice_subrange(t, i, tn);
        proof {
            assert(rest@ =~= t@.skip(i as int));
            assert(rest@.len() < s@.len());
            assert(word@ =~= t@.take(i as int));
        }
        let mut r = words_of(rest);
        r.insert(0, word);
        proof {
            assert(r.deep_view() =~~= spec_words(s@));
        }
        r
    }
}

/// Whether a character slice holds exactly the characters of a string.
pub fn slice_eq_str(a: &[char], b: &str) -> (r: bool)
    ensures
        r == (a@ == b@),
{
    let bc = chars_of(b);
    if a.len() != bc.len() {
        return false;
    }
    let mut i: usize = 0;
    while i < a.len()
        invariant
            0 <= i <= a@.len(),
            a@.len() == bc@.len(),
            bc@ == b@,
            forall|j: int| 0 <= j < i ==> a@[j] == b@[j],
        decreases a@.len() - i,
    {
        if a[i] != bc[i] {
            return false;
        }
        i = i + 1;
    }
    proof {
        assert(a@ =~= b@);
    }
    true
}

/// `s` with every occurrence of `q` doubled.
pub open spec fn spec_double_char(s: Seq<char>, q: char) -> Seq<char>
    decreases s.len(),
{
    if s.len() == 0 {
        Seq::empty()
    } else {
        (if s[0] == q {
            seq![q, q]
        } else {
            seq![s[0]]
        }) + spec_double_char(s.drop_first(), q)
    }
}

/// Doubling distributes over appending one character.
pub proof fn lemma_double_push(s: Seq<char>, c: char, q: char)
    ensures
        spec_double_char(s.push(c), q) == spec_double_char(s, q) + (if c == q {
            seq![q, q]
        } else {
            seq![c]
        }),
    decreases s.len(),
{
    let w = s.push(c);
    let mc: Seq<char> = if c == q {
        seq![q, q]
    } else {
        seq![c]
    };
    if s.len() == 0 {
        assert(w.len() == 1);
        assert(w[0] == c);
        assert(w.drop_first() =~= Seq::<char>::empty());
        assert(spec_double_char(w.drop_first(), q) == Seq::<char>::empty());
        assert(spec_double_char(w, q) == mc + spec_double_char(w.drop_first(), q));
        assert(spec_double_char(s, q) == Seq::<char>::empty());
        assert(spec_double_char(w, q) =~= spec_double_char(s, q) + mc);
    } else {
        let m0: Seq<char> = if s[0] == q {
            seq![q, q]
        } else {
            seq![s[0]]
        };
        assert(w.len() == s.len() + 1);
        assert(w[0] == s[0]);
        assert(w.drop_first() =~= s.drop_first().push(c));
        assert(spec_double_char(w, q) == m0 + spec_double_char(w.drop_first(), q));
        lemma_double_push(s.drop_first(), c, q);
        assert(spec_double_char(w.drop_first(), q) == spec_double_char(s.drop_first(), q) + mc);
        assert(spec_double_char(s, q) == m0 + spec_double_char(s.drop_first(), q));
        assert(spec_double_char(w, q) =~= spec_double_char(s, q) + mc);
    }
}

/// Double every occurrence of `q` in a character slice.
pub fn double_char(s: &[char], q: char) -> (r: Vec<char>)
    ensures
        r@ == spec_double_char(s@, q),
{
    let mut r: Vec<char> = Vec::new();
    let mut i: usize = 0;
    while i < s.len()
        invariant
            0 <= i <= s@.len(),
            r@ == spec_double_char(s@.subrange(0, i as int), q),
        decreases s@.len() - i,
    {
        let c = s[i];
        if c == q {
            r.push(q);
            r.push(q);
        } else {
            r.push(c);
        }
        i = i + 1;
        proof {
            assert(s@.subrange(0, i as int) =~= s@.subrange(0, i - 1).push(s@[i - 1]));
            lemma_double_push(s@.subrange(0, i - 1), s@[i - 1], q);
        }
    }
    proof {
        assert(s@.subrange(0, s@.len() as int) =~= s@);
    }
    r
}

/// Undo the doubling of `q`: every doubled `q` becomes one `q` again.
pub open spec fn spec_undouble(s: Seq<char>, q: char) -> Seq<char>
    decreases s.len(),
{
    if s.len() == 0 {
        Seq::empty()
    } else if s[0] == q && s.len() >= 2 && s[1] == q {
        seq![q] + spec_undouble(s.skip(2), q)
    } else {
        seq![s[0]] + spec_undouble(s.skip(1), q)
    }
}

/// Undoubling inverts doubling: no information is lost by the escaping.
pub proof fn lemma_undouble_double(s: Seq<char>, q: char)
    ensures
        spec_undouble(spec_double_char(s, q), q) == s,
    decreases s.len(),
{
    if s.len() == 0 {
        assert(spec_undouble(spec_double_char(s, q), q) =~= s);
    } else {
        let rest = s.drop_first();
        lemma_undouble_double(rest, q);
        let d = spec_double_char(s, q);
        if s[0] == q {
            assert(d =~= seq![q, q] + spec_double_char(rest, q));
            assert(d.skip(2) =~= spec_double_char(rest, q));
            assert(spec_undouble(d, q) =~= s);
        } else {
            assert(d =~= seq![s[0]] + spec_double_char(rest, q));
            assert(d.skip(1) =~= spec_double_char(rest, q));
            assert(spec_undouble(d, q) =~= s);
        }
    }
}

/// Undoubling passes over a leading character other than `q`.
pub proof fn lemma_undouble_head(c: char, s: Seq<char>, q: char)
    requires
        c != q,
    ensures
        spec_undouble(seq![c] + s, q) == seq![c] + spec_undouble(s, q),
{
    let w = seq![c] + s;
    assert(w[0] == c);
    assert(w.skip(1) =~= s);
}

/// The ASCII decimal digit character for a value below ten.
pub open spec fn dec_digit(n: u64) -> char
    recommends
        n < 10,
{
    ((n + 48) as u8) as char
}

/// The decimal representation of `n`, most significant digit first.
pub open spec fn spec_dec(n: u64) -> Seq<char>
    decreases n,
{
    if n < 10 {
        seq![dec_digit(n)]
    } else {
        spec_dec((n / 10) as u64).push(dec_digit(n % 10))
    }
}

/// Render an unsigned integer in decimal.
pub fn dec_chars(n: u64) -> (r: Vec<char>)
    ensures
        r@ == spec_dec(n),
    decreases n,
{
    if n < 10 {
        let d: u8 = (n as u8) + 48;
        let mut r: Vec<char> = Vec::new();
        r.push(d as char);
        proof {
            assert(r@ =~= spec_dec(n));
        }
        r
    } else {
        let mut r = dec_chars(n / 10);
        let d: u8 = ((n % 10) as u8) + 48;
        r.push(d as char);
        proof {
            assert(r@ =~= spec_dec(n));
        }
        r
    }
}

/// Ten to the given power.
pub open spec fn pow10(n: nat) -> int
    decreases n,
{
    if n == 0 {
        1
    } else {
        10 * pow10((n - 1) as nat)
    }
}

/// A decimal rendering is non-empty and consists of digit characters; a
/// value below ten to the `k` renders in at most `k` digits.
pub proof fn lemma_spec_dec_shape(n: u64, k: nat)
    requires
        k >= 1,
        n < pow10(k),
    ensures
        1 <= spec_dec(n).len() <= k,
        all_digits(spec_dec(n)),
    decreases n,
{
    if n < 10 {
        assert(spec_dec(n) =~= seq![dec_digit(n)]);
        assert('0' <= dec_digit(n) && dec_digit(n) <= '9');
    } else {
        assert(pow10(k) == 10 * pow10((k - 1) as nat));
        lemma_spec_dec_shape(n / 10, (k - 1) as nat);
        let d = dec_digit(n % 10);
        assert('0' <= d && d <= '9');
        assert(spec_dec(n) == spec_dec((n / 10) as u64).push(d));
        assert forall|i: int| 0 <= i < spec_dec(n).len() implies '0' <= #[trigger] spec_dec(n)[i]
            && spec_dec(n)[i] <= '9' by {
            if i < spec_dec(n).len() - 1 {
                assert(spec_dec(n)[i] == spec_dec((n / 10) as u64)[i]);
            }
        }
    }
}

/// The decimal representation of `n`, left-padded with zeros to `width`.
pub open spec fn spec_dec_pad(n: u64, width: nat) -> Seq<char> {
    let d = spec_dec(n);
    if d.len() >= width {
        d
    } else {
        Seq::new((width - d.len()) as nat, |i: int| '0') + d
    }
}

/// The decimal value of a digit sequence (most significant digit first).
pub open spec fn spec_dec_value(s: Seq<char>) -> int
    decreases s.len(),
{
    if s.len() == 0 {
        0
    } else {
        spec_dec_value(s.drop_last()) * 10 + (s.last() as int - 48)
    }
}

/// Whether every character of `s` is an ASCII decimal digit.
pub open spec fn all_digits(s: Seq<char>) -> bool {
    forall|i: int| 0 <= i < s.len() ==> '0' <= #[trigger] s[i] && s[i] <= '9'
}

/// Parse a non-empty, all-digit sequence as a decimal number, rejecting
/// values above `max`.
pub fn parse_dec(s: &[char], max: u64) -> (r: Option<u64>)
    ensures
        match r {
            Some(v) => s@.len() > 0 && all_digits(s@) && v == spec_dec_value(s@) && v <= max,
            None => s@.len() == 0 || !all_digits(s@) || spec_dec_value(s@) > max,
        },
{
    if s.len() == 0 {
        return None;
    }
    let mut acc: u64 = 0;
    let mut i: usize = 0;
    while i < s.len()
        invariant
            0 <= i <= s@.len(),
            s@.len() > 0,
            acc == spec_dec_value(s@.subrange(0, i as int)),
            acc <= max,
            forall|j: int| 0 <= j < i ==> '0' <= #[trigger] s@[j] && s@[j] <= '9',
        decreases s@.len() - i,
    {
        let c = s[i];
        if c < '0' || c > '9' {
            proof {
                assert(!all_digits(s@));
            }
            return None;
        }
        let d: u64 = (c as u64) - 48;
        proof {
            assert(s@.subrange(0, i + 1).drop_last() =~= s@.subrange(0, i as int));
        }
        if acc > max / 10 {
            proof {
                if all_digits(s@) {
                    lemma_dec_value_monotonic(s@, i + 1);
                }
            }
            return None;
        }
        let t: u64 = acc * 10;
        if d > max - t {
            proof {
                if all_digits(s@) {
                    lemma_dec_value_monotonic(s@, i + 1);
                }
            }
            return None;
        }
        acc = t + d;
        i = i + 1;
    }
    proof {
        assert(s@.subrange(0, s@.len() as int) =~= s@);
    }
    Some(acc)
}

/// A digit sequence's value is at least the value of any of its prefixes.
proof fn lemma_dec_value_monotonic(s: Seq<char>, k: int)
    requires
        0 <= k <= s.len(),
        all_digits(s),
    ensures
        spec_dec_value(s) >= spec_dec_value(s.subrange(0, k)),
        spec_dec_value(s.subrange(0, k)) >= 0,
    decreases s.len() - k,
{
    lemma_dec_value_nonneg(s.subrange(0, k));
    if k < s.len() {
        lemma_dec_value_monotonic(s, k + 1);
        assert(s.subrange(0, k + 1).drop_last() =~= s.subrange(0, k));
        assert(s.subrange(0, k + 1).last() == s[k]);
        lemma_dec_value_nonneg(s.subrange(0, k));
    } else {
        assert(s.subrange(0, k) =~= s);
    }
}

/// The value of an all-digit sequence is non-negative.
proof fn lemma_dec_value_nonneg(s: Seq<char>)
    requires
        all_digits(s),
    ensures
        spec_dec_value(s) >= 0,
    decreases s.len(),
{
    if s.len() > 0 {
        assert(all_digits(s.drop_last()));
        lemma_dec_value_nonneg(s.drop_last());
    }
}

} // verus!
