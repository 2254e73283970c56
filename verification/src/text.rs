//! Verified character-level string utilities.
//!
//! Path handling, archive naming and number parsing in this crate are all
//! expressed over `Seq<char>` views; the executable functions here carry
//! exact contracts against those views.

use vstd::prelude::*;

verus! {

/// Relies on String::push: appends the given char to the end of the string.
#[verifier::external_body]
pub fn push_char(s: &mut String, c: char)
    ensures
        final(s)@ == old(s)@.push(c),
{
    s.push(c);
}

/// Copy of the character range `[from, to)` of `s` as an owned string.
pub fn substring(s: &str, from: usize, to: usize) -> (r: String)
    requires
        from <= to <= s@.len(),
    ensures
        r@ == s@.subrange(from as int, to as int),
{
    let sub: &str = s.substring_char(from, to);
    sub.to_owned()
}

/// Index of the last occurrence of `c` in `s`, if any.
pub fn rfind_char(s: &str, c: char) -> (r: Option<usize>)
    ensures
        match r {
            Some(i) => i < s@.len() && s@[i as int] == c && forall|j: int|
                i < j < s@.len() ==> s@[j] != c,
            None => forall|j: int| 0 <= j < s@.len() ==> s@[j] != c,
        },
{
    let n: usize = s.unicode_len();
    let mut i: usize = n;
    while i > 0
        invariant
            i <= n,
            n == s@.len(),
            forall|j: int| i <= j < s@.len() ==> s@[j] != c,
        decreases i,
    {
        i = i - 1;
        if s.get_char(i) == c {
            return Some(i);
        }
    }
    None
}

/// Does the sequence `s` begin with `p`?
pub open spec fn spec_starts_with(s: Seq<char>, p: Seq<char>) -> bool {
    p.len() <= s.len() && s.subrange(0, p.len() as int) == p
}

/// Does the sequence `s` end with `p`?
pub open spec fn spec_ends_with(s: Seq<char>, p: Seq<char>) -> bool {
    p.len() <= s.len() && s.subrange(s.len() - p.len(), s.len() as int) == p
}

/// Do `a` and `b` spell the same characters?
pub fn str_eq(a: &str, b: &str) -> (r: bool)
    ensures
        r == (a@ == b@),
{
    let na: usize = a.unicode_len();
    let nb: usize = b.unicode_len();
    if na != nb {
        return false;
    }
    let mut i: usize = 0;
    while i < na
        invariant
            i <= na,
            na == a@.len(),
            na == b@.len(),
            forall|j: int| 0 <= j < i ==> a@[j] == b@[j],
        decreases na - i,
    {
        if a.get_char(i) != b.get_char(i) {
            return false;
        }
        i = i + 1;
    }
    proof {
        assert(a@ =~= b@);
    }
    true
}

/// Does `s` start with `p`?
pub fn str_starts_with(s: &str, p: &str) -> (r: bool)
    ensures
        r == spec_starts_with(s@, p@),
{
    let ns: usize = s.unicode_len();
    let np: usize = p.unicode_len();
    if np > ns {
        assert(!(p@.len() <= s@.len()));
        return false;
    }
    let mut i: usize = 0;
    while i < np
        invariant
            i <= np,
            ns == s@.len(),
            np == p@.len(),
            np <= ns,
            forall|j: int| 0 <= j < i ==> s@[j] == p@[j],
        decreases np - i,
    {
        if s.get_char(i) != p.get_char(i) {
            assert(s@.subrange(0, p@.len() as int)[i as int] != p@[i as int]);
            return false;
        }
        i = i + 1;
    }
    assert(s@.subrange(0, p@.len() as int) =~= p@);
    true
}

/// Does `s` end with `p`?
pub fn str_ends_with(s: &str, p: &str) -> (r: bool)
    ensures
        r == spec_ends_with(s@, p@),
{
    let ns: usize = s.unicode_len();
    let np: usize = p.unicode_len();
    if np > ns {
        return false;
    }
    let base: usize = ns - np;
    let mut i: usize = 0;
    while i < np
        invariant
            i <= np,
            ns == s@.len(),
            np == p@.len(),
            np <= ns,
            base == ns - np,
            forall|j: int| 0 <= j < i ==> s@[base + j] == p@[j],
        decreases np - i,
    {
        if s.get_char(base + i) != p.get_char(i) {
            assert(s@.subrange(s@.len() - p@.len(), s@.len() as int)[i as int] != p@[i as int]);
            return false;
        }
        i = i + 1;
    }
    assert(s@.subrange(s@.len() - p@.len(), s@.len() as int) =~= p@);
    true
}

/// Do the characters of `s` starting at `at` spell out `pat`?
pub fn str_match_at(s: &str, at: usize, pat: &str) -> (r: bool)
    requires
        at + pat@.len() <= s@.len(),
    ensures
        r == (s@.subrange(at as int, at + pat@.len()) == pat@),
{
    let ns: usize = s.unicode_len();
    let np: usize = pat.unicode_len();
    let mut k: usize = 0;
    while k < np
        invariant
            k <= np,
            ns == s@.len(),
            np == pat@.len(),
            at + np <= ns,
            forall|j: int| 0 <= j < k ==> s@[at + j] == pat@[j],
        decreases np - k,
    {
        if s.get_char(at + k) != pat.get_char(k) {
            assert(s@.subrange(at as int, at + pat@.len())[k as int] != pat@[k as int]);
            return false;
        }
        k = k + 1;
    }
    assert(s@.subrange(at as int, at + pat@.len()) =~= pat@);
    true
}

/// `s` with every (non-overlapping, leftmost-first) occurrence of `pat`
/// replaced by `to`.
pub open spec fn spec_replace(s: Seq<char>, pat: Seq<char>, to: Seq<char>) -> Seq<char>
    decreases s.len(),
    when pat.len() > 0
{
    if s.len() < pat.len() {
        s
    } else if s.subrange(0, pat.len() as int) == pat {
        to + spec_replace(s.skip(pat.len() as int), pat, to)
    } else {
        s.subrange(0, 1) + spec_replace(s.skip(1), pat, to)
    }
}

/// Replace every occurrence of `pat` in `s` by `to`, leftmost first.
pub fn str_replace(s: &str, pat: &str, to: &str) -> (r: String)
    requires
        pat@.len() > 0,
    ensures
        r@ == spec_replace(s@, pat@, to@),
{
    let ns: usize = s.unicode_len();
    let np: usize = pat.unicode_len();
    let mut res: String = String::new();
    let mut i: usize = 0;
    proof {
        assert(s@.skip(0) =~= s@);
        assert(res@ + spec_replace(s@, pat@, to@) =~= spec_replace(s@, pat@, to@));
    }
    while i < ns
        invariant
            i <= ns,
            ns == s@.len(),
            np == pat@.len(),
            np > 0,
            res@ + spec_replace(s@.skip(i as int), pat@, to@) == spec_replace(s@, pat@, to@),
        decreases ns - i,
    {
        let ghost tail = s@.skip(i as int);
        let matches_here: bool = if np <= ns - i {
            str_match_at(s, i, pat)
        } else {
            false
        };
        proof {
            assert(tail.len() == ns - i);
            if np <= ns - i {
                assert(tail.subrange(0, pat@.len() as int) =~= s@.subrange(
                    i as int,
                    i + pat@.len(),
                ));
            }
        }
        if matches_here {
            res.append(to);
            i = i + np;
            proof {
                assert(tail.skip(pat@.len() as int) =~= s@.skip(i as int));
            }
        } else {
            let c: char = s.get_char(i);
            push_char(&mut res, c);
            i = i + 1;
            proof {
                assert(tail.subrange(0, 1) =~= seq![c]);
                assert(tail.skip(1) =~= s@.skip(i as int));
                if tail.len() < pat@.len() {
                    assert(tail.len() == 1 ==> tail =~= seq![c]);
                }
            }
        }
    }
    proof {
        assert(s@.skip(ns as int) =~= Seq::<char>::empty());
        assert(spec_replace(s@.skip(ns as int), pat@, to@) =~= Seq::<char>::empty());
        assert(res@ =~= res@ + Seq::<char>::empty());
    }
    res
}

/// `s` with every copy of the suffix `pat` removed, one after the other.
pub open spec fn spec_trim_end(s: Seq<char>, pat: Seq<char>) -> Seq<char>
    decreases s.len(),
    when pat.len() > 0
{
    if s.len() >= pat.len() && s.subrange(s.len() - pat.len(), s.len() as int) == pat {
        spec_trim_end(s.take(s.len() - pat.len()), pat)
    } else {
        s
    }
}

/// Remove repeated copies of the suffix `pat` from `s`.
pub fn str_trim_end_matches(s: &str, pat: &str) -> (r: String)
    requires
        pat@.len() > 0,
    ensures
        r@ == spec_trim_end(s@, pat@),
{
    let ns: usize = s.unicode_len();
    let np: usize = pat.unicode_len();
    let mut end: usize = ns;
    proof {
        assert(s@.take(ns as int) =~= s@);
    }
    loop
        invariant
            end <= ns,
            ns == s@.len(),
            np == pat@.len(),
            np > 0,
            spec_trim_end(s@.take(end as int), pat@) == spec_trim_end(s@, pat@),
        decreases end,
    {
        let ghost cur = s@.take(end as int);
        if end < np {
            return substring(s, 0, end);
        }
        let m: bool = str_match_at(s, end - np, pat);
        proof {
            assert(cur.subrange(cur.len() - pat@.len(), cur.len() as int) =~= s@.subrange(
                end - np,
                end as int,
            ));
        }
        if !m {
            return substring(s, 0, end);
        }
        proof {
            assert(cur.take(cur.len() - pat@.len()) =~= s@.take(end - np));
        }
        end = end - np;
    }
}

/// `s` with every copy of the prefix `pat` removed, one after the other.
pub open spec fn spec_trim_start(s: Seq<char>, pat: Seq<char>) -> Seq<char>
    decreases s.len(),
    when pat.len() > 0
{
    if s.len() >= pat.len() && s.subrange(0, pat.len() as int) == pat {
        spec_trim_start(s.skip(pat.len() as int), pat)
    } else {
        s
    }
}

/// Remove repeated copies of the prefix `pat` from `s`.
pub fn str_trim_start_matches(s: &str, pat: &str) -> (r: String)
    requires
        pat@.len() > 0,
    ensures
        r@ == spec_trim_start(s@, pat@),
{
    let ns: usize = s.unicode_len();
    let np: usize = pat.unicode_len();
    let mut start: usize = 0;
    proof {
        assert(s@.skip(0) =~= s@);
    }
    loop
        invariant
            start <= ns,
            ns == s@.len(),
            np == pat@.len(),
            np > 0,
            spec_trim_start(s@.skip(start as int), pat@) == spec_trim_start(s@, pat@),
        decreases ns - start,
    {
        let ghost cur = s@.skip(start as int);
        if ns - start < np {
            return substring(s, start, ns);
        }
        let m: bool = str_match_at(s, start, pat);
        proof {
            assert(cur.subrange(0, pat@.len() as int) =~= s@.subrange(start as int, start + np));
        }
        if !m {
            return substring(s, start, ns);
        }
        proof {
            assert(cur.skip(pat@.len() as int) =~= s@.skip(start + np));
        }
        start = start + np;
    }
}

/// Is `c` one of the decimal digit characters?
pub open spec fn is_digit(c: char) -> bool {
    48 <= c as u32 <= 57
}

/// The numeric value of the digit character `c`.
pub open spec fn digit_val(c: char) -> nat {
    (c as u32 - 48) as nat
}

/// Is every character of `s` a decimal digit?
pub open spec fn all_digits(s: Seq<char>) -> bool {
    forall|i: int| 0 <= i < s.len() ==> is_digit(s[i])
}

/// The number written in decimal by the digit characters of `s`.
pub open spec fn digits_val(s: Seq<char>) -> nat
    decreases s.len(),
{
    if s.len() == 0 {
        0
    } else {
        digits_val(s.drop_last()) * 10 + digit_val(s.last())
    }
}

/// What parsing `s` as an unsigned 64-bit decimal number yields: the value
/// when `s` is a non-empty string of digits whose value fits, nothing
/// otherwise.
pub open spec fn spec_parse_u64(s: Seq<char>) -> Option<u64> {
    if s.len() > 0 && all_digits(s) && digits_val(s) <= u64::MAX {
        Some(digits_val(s) as u64)
    } else {
        None
    }
}

/// A prefix of a digit string never reads as a larger number than the whole.
proof fn lemma_digits_val_prefix_le(s: Seq<char>, i: int)
    requires
        0 <= i <= s.len(),
    ensures
        digits_val(s.take(i)) <= digits_val(s),
    decreases s.len() - i,
{
    if i < s.len() {
        lemma_digits_val_prefix_le(s, i + 1);
        assert(s.take(i + 1).drop_last() =~= s.take(i));
        assert(digits_val(s.take(i + 1)) == digits_val(s.take(i)) * 10 + digit_val(
            s.take(i + 1).last(),
        ));
    } else {
        assert(s.take(i) =~= s);
    }
}

/// Parse `s` as an unsigned decimal number.
pub fn parse_u64(s: &str) -> (r: Option<u64>)
    ensures
        r == spec_parse_u64(s@),
{
    let ns: usize = s.unicode_len();
    if ns == 0 {
        return None;
    }
    let mut acc: u128 = 0;
    let mut i: usize = 0;
    proof {
        assert(s@.take(0) =~= Seq::<char>::empty());
    }
    while i < ns
        invariant
            i <= ns,
            ns == s@.len(),
            acc == digits_val(s@.take(i as int)),
            acc <= u64::MAX,
            all_digits(s@.take(i as int)),
        decreases ns - i,
    {
        let c: char = s.get_char(i);
        let cv: u32 = c as u32;
        if cv < 48 || cv > 57 {
            assert(!is_digit(s@[i as int]));
            return None;
        }
        let d: u128 = (cv - 48) as u128;
        acc = acc * 10 + d;
        i = i + 1;
        proof {
            assert(s@.take(i as int).drop_last() =~= s@.take(i - 1));
            assert(s@.take(i as int).last() == c);
        }
        if acc > u64::MAX as u128 {
            proof {
                lemma_digits_val_prefix_le(s@, i as int);
            }
            return None;
        }
    }
    proof {
        assert(s@.take(ns as int) =~= s@);
    }
    Some(acc as u64)
}

/// What parsing `s` as an unsigned machine-word decimal number yields.
pub open spec fn spec_parse_usize(s: Seq<char>) -> Option<usize> {
    if s.len() > 0 && all_digits(s) && digits_val(s) <= usize::MAX {
        Some(digits_val(s) as usize)
    } else {
        None
    }
}

/// Parse `s` as an unsigned decimal number that must fit in a machine word.
pub fn parse_usize(s: &str) -> (r: Option<usize>)
    ensures
        r == spec_parse_usize(s@),
{
    match parse_u64(s) {
        Some(v) => {
            if v <= usize::MAX as u64 {
                Some(v as usize)
            } else {
                None
            }
        },
        None => None,
    }
}

/// The decimal digit character for `d`.
pub open spec fn spec_digit_char(d: nat) -> char {
    (48 + d) as char
}

/// The number of times `c` occurs in `s`.
pub open spec fn spec_count_char(s: Seq<char>, c: char) -> nat
    decreases s.len(),
{
    if s.len() == 0 {
        0
    } else {
        spec_count_char(s.drop_last(), c) + if s.last() == c {
            1nat
        } else {
            0nat
        }
    }
}

/// Occurrences in a concatenation add up.
pub proof fn lemma_count_char_concat(a: Seq<char>, b: Seq<char>, c: char)
    ensures
        spec_count_char(a + b, c) == spec_count_char(a, c) + spec_count_char(b, c),
    decreases b.len(),
{
    if b.len() == 0 {
        assert(a + b =~= a);
    } else {
        lemma_count_char_concat(a, b.drop_last(), c);
        assert((a + b).drop_last() =~= a + b.drop_last());
        assert((a + b).last() == b.last());
    }
}

/// A string in which `c` does not occur counts zero occurrences.
pub proof fn lemma_count_char_zero(s: Seq<char>, c: char)
    requires
        forall|i: int| 0 <= i < s.len() ==> s[i] != c,
    ensures
        spec_count_char(s, c) == 0,
    decreases s.len(),
{
    if s.len() > 0 {
        lemma_count_char_zero(s.drop_last(), c);
    }
}

/// A one-character string holds one occurrence of that character and
/// none of any other.
pub proof fn lemma_count_char_single(x: char, c: char)
    ensures
        spec_count_char(seq![x], c) == if x == c {
            1nat
        } else {
            0nat
        },
{
    reveal_with_fuel(spec_count_char, 2);
    assert(seq![x].drop_last() =~= Seq::<char>::empty());
}

/// A decimal digit character is never a control character such as the
/// newline.
pub proof fn lemma_digit_char_value(d: nat)
    requires
        d <= 9,
    ensures
        spec_digit_char(d) as u32 == 48 + d,
        spec_digit_char(d) != '\n',
{
    assert(spec_digit_char(d) as u32 == 48 + d);
}

/// The decimal rendering of `n`, most significant digit first, no sign and
/// no leading zero (`0` itself is rendered as one digit).
pub open spec fn spec_dec(n: nat) -> Seq<char>
    decreases n,
{
    if n < 10 {
        seq![spec_digit_char(n)]
    } else {
        spec_dec(n / 10).push(spec_digit_char(n % 10))
    }
}

/// Render `n` in decimal.
pub fn u64_to_dec(n: u64) -> (r: String)
    ensures
        r@ == spec_dec(n as nat),
    decreases n,
{
    let d: u8 = (n % 10) as u8;
    let c: char = (48 + d) as char;
    if n < 10 {
        let mut s: String = String::new();
        push_char(&mut s, c);
        proof {
            assert(s@ =~= seq![spec_digit_char(n as nat)]);
        }
        s
    } else {
        let mut s: String = u64_to_dec(n / 10);
        push_char(&mut s, c);
        proof {
            assert(s@ =~= spec_dec((n / 10) as nat).push(spec_digit_char((n % 10) as nat)));
        }
        s
    }
}

/// Append the two-digit zero-padded decimal rendering of `n` to `out`.
pub open spec fn spec_two_digits(n: nat) -> Seq<char> {
    seq![spec_digit_char(n / 10 % 10), spec_digit_char(n % 10)]
}

/// Push `n` as exactly two decimal digits (modulo 100) onto `out`.
pub fn push_two_digits(out: &mut String, n: u8)
    ensures
        final(out)@ == old(out)@ + spec_two_digits(n as nat),
{
    let hi: char = (48 + (n / 10 % 10)) as char;
    let lo: char = (48 + (n % 10)) as char;
    push_char(out, hi);
    push_char(out, lo);
    proof {
        assert(out@ =~= old(out)@ + spec_two_digits(n as nat));
    }
}

} // verus!
