//! Character-level text utilities shared by the lexer, the emitter and the
//! diagnostic formatting: conversions between `&str` / `String` and
//! `Vec<char>`, and comparisons and searches over character sequences.
//!
//! All internal text processing works on `Vec<char>` so that every step is
//! verified; `String` appears only at the public boundaries.

use vstd::prelude::*;

verus! {

/// Copies the characters of a string slice into a vector.
pub fn str_to_chars(s: &str) -> (v: Vec<char>)
    ensures
        v@ == s@,
{
    let n = s.unicode_len();
    let mut v: Vec<char> = Vec::new();
    let mut i: usize = 0;
    while i < n
        invariant
            n == s@.len(),
            i <= n,
            v@ == s@.subrange(0, i as int),
        decreases n - i,
    {
        v.push(s.get_char(i));
        i = i + 1;
        proof {
            assert(v@ =~= s@.subrange(0, i as int));
        }
    }
    proof {
        assert(v@ =~= s@);
    }
    v
}

/// Builds a `String` out of a character vector.
///
/// Relies on `String`'s `FromIterator<char>` implementation: collecting an
/// iterator of characters yields the string consisting of exactly those
/// characters in order.
#[verifier::external_body]
pub fn chars_to_string(v: &Vec<char>) -> (s: String)
    ensures
        s@ == v@,
{
    v.iter().collect()
}

/// Compares a character vector with a string slice.
pub fn chars_eq_str(v: &Vec<char>, s: &str) -> (r: bool)
    ensures
        r == (v@ == s@),
{
    let n = s.unicode_len();
    if v.len() != n {
        return false;
    }
    let mut i: usize = 0;
    while i < n
        invariant
            n == s@.len(),
            v@.len() == n,
            i <= n,
            forall|j: int| 0 <= j < i ==> v@[j] == s@[j],
        decreases n - i,
    {
        if v[i] != s.get_char(i) {
            return false;
        }
        i = i + 1;
    }
    proof {
        assert(v@ =~= s@);
    }
    true
}

/// Compares two string slices by their characters.
pub fn str_eq(a: &str, b: &str) -> (r: bool)
    ensures
        r == (a@ == b@),
{
    let n = a.unicode_len();
    if b.unicode_len() != n {
        return false;
    }
    let mut i: usize = 0;
    while i < n
        invariant
            n == a@.len(),
            b@.len() == n,
            i <= n,
            forall|j: int| 0 <= j < i ==> a@[j] == b@[j],
        decreases n - i,
    {
        if a.get_char(i) != b.get_char(i) {
            return false;
        }
        i = i + 1;
    }
    proof {
        assert(a@ =~= b@);
    }
    true
}

/// Appends every character of `src` to `dst`.
pub fn push_chars(dst: &mut Vec<char>, src: &Vec<char>)
    ensures
        final(dst)@ == old(dst)@ + src@,
{
    let mut i: usize = 0;
    while i < src.len()
        invariant
            i <= src@.len(),
            dst@ == old(dst)@ + src@.subrange(0, i as int),
        decreases src@.len() - i,
    {
        dst.push(src[i]);
        i = i + 1;
        proof {
            assert(dst@ =~= old(dst)@ + src@.subrange(0, i as int));
        }
    }
    proof {
        assert(dst@ =~= old(dst)@ + src@);
    }
}

/// Appends every character of the string slice `src` to `dst`.
pub fn push_str_chars(dst: &mut Vec<char>, src: &str)
    ensures
        final(dst)@ == old(dst)@ + src@,
{
    let n = src.unicode_len();
    let mut i: usize = 0;
    while i < n
        invariant
            n == src@.len(),
            i <= n,
            dst@ == old(dst)@ + src@.subrange(0, i as int),
        decreases n - i,
    {
        dst.push(src.get_char(i));
        i = i + 1;
        proof {
            assert(dst@ =~= old(dst)@ + src@.subrange(0, i as int));
        }
    }
    proof {
        assert(dst@ =~= old(dst)@ + src@);
    }
}

/// Holds when `sub` occurs as a contiguous run inside `s`.
pub open spec fn contains_seq(s: Seq<char>, sub: Seq<char>) -> bool {
    exists|i: int|
        0 <= i && i + sub.len() <= s.len() && #[trigger] s.subrange(i, i + sub.len()) == sub
}

/// Compares the run of `s` starting at `start` with `sub`.
fn matches_at(s: &Vec<char>, sub: &Vec<char>, start: usize) -> (r: bool)
    requires
        start + sub.len() <= s.len(),
    ensures
        r == (s@.subrange(start as int, start + sub@.len()) == sub@),
{
    let m = sub.len();
    let mut k: usize = 0;
    while k < m
        invariant
            m == sub@.len(),
            start + m <= s.len(),
            k <= m,
            forall|j: int| 0 <= j < k ==> s@[start + j] == sub@[j],
        decreases m - k,
    {
        if s[start + k] != sub[k] {
            proof {
                assert(s@.subrange(start as int, start + sub@.len())[k as int] != sub@[k as int]);
            }
            return false;
        }
        k = k + 1;
    }
    proof {
        assert(s@.subrange(start as int, start + sub@.len()) =~= sub@);
    }
    true
}

/// Reports whether `sub` occurs as a contiguous run inside `s`
/// (naive search; the inputs here are short diagnostic messages).
pub fn contains_chars(s: &Vec<char>, sub: &Vec<char>) -> (r: bool)
    ensures
        r == contains_seq(s@, sub@),
{
    let n = s.len();
    let m = sub.len();
    if m > n {
        return false;
    }
    if m == 0 {
        proof {
            assert(s@.subrange(0, 0 + sub@.len() as int) =~= sub@);
        }
        return true;
    }
    let mut start: usize = 0;
    while start <= n - m
        invariant
            0 < m <= n,
            n == s@.len(),
            m == sub@.len(),
            start <= n - m + 1,
            forall|i: int|
                0 <= i < start ==> #[trigger] s@.subrange(i, i + sub@.len()) != sub@,
        decreases n - m + 1 - start,
    {
        if matches_at(s, sub, start) {
            return true;
        }
        start = start + 1;
    }
    false
}

/// The decimal digit character for `d`.
pub open spec fn spec_dec_digit(d: int) -> char {
    if d == 0 {
        '0'
    } else if d == 1 {
        '1'
    } else if d == 2 {
        '2'
    } else if d == 3 {
        '3'
    } else if d == 4 {
        '4'
    } else if d == 5 {
        '5'
    } else if d == 6 {
        '6'
    } else if d == 7 {
        '7'
    } else if d == 8 {
        '8'
    } else {
        '9'
    }
}

/// The decimal rendering of a non-negative integer.
pub open spec fn spec_dec(n: int) -> Seq<char>
    decreases n,
{
    if n < 10 {
        seq![spec_dec_digit(n)]
    } else {
        spec_dec(n / 10) + seq![spec_dec_digit(n % 10)]
    }
}

fn dec_digit(d: usize) -> (c: char)
    requires
        d < 10,
    ensures
        c == spec_dec_digit(d as int),
{
    match d {
        0 => '0',
        1 => '1',
        2 => '2',
        3 => '3',
        4 => '4',
        5 => '5',
        6 => '6',
        7 => '7',
        8 => '8',
        _ => '9',
    }
}

/// Appends the decimal rendering of `n` to `dst`.
pub fn push_dec(dst: &mut Vec<char>, n: usize)
    ensures
        final(dst)@ == old(dst)@ + spec_dec(n as int),
    decreases n,
{
    if n < 10 {
        dst.push(dec_digit(n));
        proof {
            assert(dst@ =~= old(dst)@ + spec_dec(n as int));
        }
    } else {
        push_dec(dst, n / 10);
        dst.push(dec_digit(n % 10));
        proof {
            assert(dst@ =~= old(dst)@ + spec_dec(n as int));
        }
    }
}

/// Reports whether the message `s` contains the literal `sub`.
pub fn string_contains(s: &String, sub: &str) -> (r: bool)
    ensures
        r == contains_seq(s@, sub@),
{
    let sv = str_to_chars(s.as_str());
    let subv = str_to_chars(sub);
    contains_chars(&sv, &subv)
}


/// Copies the characters of `v` between `a` and `b` into a fresh vector.
pub fn copy_range(v: &Vec<char>, a: usize, b: usize) -> (r: Vec<char>)
    requires
        a <= b <= v.len(),
    ensures
        r@ == v@.subrange(a as int, b as int),
{
    let mut r: Vec<char> = Vec::new();
    let mut i = a;
    while i < b
        invariant
            a <= i <= b <= v@.len(),
            r@ == v@.subrange(a as int, i as int),
        decreases b - i,
    {
        r.push(v[i]);
        i = i + 1;
        proof {
            assert(r@ =~= v@.subrange(a as int, i as int));
        }
    }
    proof {
        assert(r@ =~= v@.subrange(a as int, b as int));
    }
    r
}

} // verus!
