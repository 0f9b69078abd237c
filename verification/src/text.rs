//! Small text routines over sequences of characters.
//!
//! Device names, seat names and connector names reach the arbiter as strings.
//! The routines here turn a string into its characters once and then work on
//! the characters, so that each contract can speak of a plain `Seq<char>`.

use vstd::prelude::*;
use vstd::string::*;

verus! {

/// The characters of `s`, in order.
pub fn chars_of(s: &str) -> (r: Vec<char>)
    ensures
        r@ == s@,
{
    let n: usize = s.unicode_len();
    let mut out: Vec<char> = Vec::with_capacity(n);
    let mut i: usize = 0;
    while i < n
        invariant
            n == s@.len(),
            i <= n,
            out@ == s@.subrange(0, i as int),
        decreases n - i,
    {
        out.push(s.get_char(i));
        i += 1;
    }
    assert(s@.subrange(0, n as int) =~= s@);
    out
}

/// The texts of `strings`, in order.
pub open spec fn spec_texts(strings: Seq<String>) -> Seq<Seq<char>> {
    Seq::new(strings.len(), |i: int| strings[i]@)
}

/// Whether `p` stands in `s` at position `at`.
pub open spec fn spec_matches_at(s: Seq<char>, at: int, p: Seq<char>) -> bool {
    0 <= at && at + p.len() <= s.len() && s.subrange(at, at + p.len()) == p
}

/// Whether `s` begins with `p`.
pub open spec fn spec_has_prefix(s: Seq<char>, p: Seq<char>) -> bool {
    spec_matches_at(s, 0, p)
}

/// Whether `p` stands somewhere in `s`.
pub open spec fn spec_contains(s: Seq<char>, p: Seq<char>) -> bool {
    exists|at: int| spec_matches_at(s, at, p)
}

/// Tests whether `p` stands in `s` at position `at`.
pub fn matches_at(s: &Vec<char>, at: usize, p: &Vec<char>) -> (r: bool)
    ensures
        r == spec_matches_at(s@, at as int, p@),
{
    if at > s.len() || p.len() > s.len() - at {
        return false;
    }
    let mut i: usize = 0;
    while i < p.len()
        invariant
            at + p.len() <= s.len(),
            i <= p.len(),
            s@.subrange(at as int, at + i) == p@.subrange(0, i as int),
        decreases p.len() - i,
    {
        if s[at + i] != p[i] {
            proof {
                let whole = s@.subrange(at as int, at + p.len());
                assert(whole[i as int] == s@[at + i]);
            }
            return false;
        }
        assert(s@.subrange(at as int, at + i + 1) =~= s@.subrange(at as int, at + i).push(
            s@[at + i],
        ));
        assert(p@.subrange(0, i + 1) =~= p@.subrange(0, i as int).push(p@[i as int]));
        i += 1;
    }
    assert(p@.subrange(0, p.len() as int) =~= p@);
    true
}

/// Tests whether two vectors hold the same characters.
pub fn same_chars(a: &Vec<char>, b: &Vec<char>) -> (r: bool)
    ensures
        r == (a@ == b@),
{
    if a.len() != b.len() {
        return false;
    }
    let r = matches_at(a, 0, b);
    assert(a@.subrange(0, a.len() as int) =~= a@);
    r
}

/// Tests whether two strings hold the same characters.
pub fn same_text(a: &str, b: &str) -> (r: bool)
    ensures
        r == (a@ == b@),
{
    let x = chars_of(a);
    let y = chars_of(b);
    same_chars(&x, &y)
}

/// Tests whether `p` stands somewhere in `s`.
pub fn contains(s: &Vec<char>, p: &Vec<char>) -> (r: bool)
    ensures
        r == spec_contains(s@, p@),
{
    if p.len() > s.len() {
        assert forall|at: int| !spec_matches_at(s@, at, p@) by {}
        return false;
    }
    let last: usize = s.len() - p.len();
    let mut at: usize = 0;
    while at < last
        invariant
            last == s.len() - p.len(),
            at <= last,
            forall|k: int| 0 <= k < at ==> !spec_matches_at(s@, k, p@),
        decreases last - at,
    {
        if matches_at(s, at, p) {
            return true;
        }
        at += 1;
    }
    matches_at(s, last, p)
}

/// The position of the last `c` in `s`, if there is one.
pub open spec fn spec_last_index_of(s: Seq<char>, c: char) -> Option<int>
    decreases s.len(),
{
    if s.len() == 0 {
        None
    } else if s.last() == c {
        Some(s.len() - 1)
    } else {
        spec_last_index_of(s.drop_last(), c)
    }
}

/// What `spec_last_index_of` finds is a position of `c`, and no `c` follows it.
pub proof fn lemma_last_index_of(s: Seq<char>, c: char)
    ensures
        match spec_last_index_of(s, c) {
            Some(i) => 0 <= i < s.len() && s[i] == c && forall|k: int|
                i < k < s.len() ==> s[k] != c,
            None => forall|k: int| 0 <= k < s.len() ==> s[k] != c,
        },
    decreases s.len(),
{
    if s.len() > 0 && s.last() != c {
        let t = s.drop_last();
        lemma_last_index_of(t, c);
        assert forall|k: int| 0 <= k < t.len() implies t[k] == s[k] by {}
    }
}

/// A position of `c` that no `c` follows is what `spec_last_index_of` finds.
pub proof fn lemma_last_index_of_is(s: Seq<char>, c: char, i: int)
    requires
        0 <= i < s.len(),
        s[i] == c,
        forall|k: int| i < k < s.len() ==> s[k] != c,
    ensures
        spec_last_index_of(s, c) == Some(i),
    decreases s.len(),
{
    if s.last() != c {
        lemma_last_index_of_is(s.drop_last(), c, i);
    }
}

/// Finds the last `c` in `s`.
pub fn last_index_of(s: &Vec<char>, c: char) -> (r: Option<usize>)
    ensures
        match r {
            Some(i) => i < s.len() && spec_last_index_of(s@, c) == Some(i as int),
            None => spec_last_index_of(s@, c).is_none(),
        },
{
    let mut i: usize = s.len();
    while i > 0
        invariant
            i <= s.len(),
            forall|k: int| i <= k < s.len() ==> s@[k] != c,
        decreases i,
    {
        i -= 1;
        if s[i] == c {
            proof {
                lemma_last_index_of_is(s@, c, i as int);
            }
            return Some(i);
        }
    }
    proof {
        lemma_last_index_of(s@, c);
    }
    None
}

/// The value of a decimal digit.
pub open spec fn spec_digit(c: char) -> Option<nat> {
    if '0' <= c && c <= '9' {
        Some((c as u32 - '0' as u32) as nat)
    } else {
        None
    }
}

/// Whether every character of `s` is a decimal digit.
pub open spec fn spec_all_digits(s: Seq<char>) -> bool {
    forall|i: int| 0 <= i < s.len() ==> spec_digit(#[trigger] s[i]).is_some()
}

/// The number that the decimal digits of `s` write.
pub open spec fn spec_digits_value(s: Seq<char>) -> nat
    decreases s.len(),
{
    if s.len() == 0 {
        0
    } else {
        match spec_digit(s.last()) {
            Some(d) => spec_digits_value(s.drop_last()) * 10 + d,
            None => 0,
        }
    }
}

/// The number that `s` writes: an optional `+`, then one decimal digit or
/// more, leading zeros allowed, with a value that fits in 32 bits.
pub open spec fn spec_parse_u32(s: Seq<char>) -> Option<u32> {
    if s.len() > 0 && s[0] == '+' {
        spec_parse_digits(s.drop_first())
    } else {
        spec_parse_digits(s)
    }
}

/// The number that `digits` writes: one decimal digit or more, with a value
/// that fits in 32 bits.
pub open spec fn spec_parse_digits(digits: Seq<char>) -> Option<u32> {
    if digits.len() == 0 || !spec_all_digits(digits) || spec_digits_value(digits) > u32::MAX {
        None
    } else {
        Some(spec_digits_value(digits) as u32)
    }
}

/// Digits written after a number do not make it smaller.
pub proof fn lemma_digits_value_grows(s: Seq<char>, n: int)
    requires
        0 <= n <= s.len(),
        spec_all_digits(s),
    ensures
        spec_digits_value(s.subrange(0, n)) <= spec_digits_value(s),
    decreases s.len(),
{
    if n == s.len() {
        assert(s.subrange(0, n) =~= s);
    } else {
        let t = s.drop_last();
        assert(spec_digit(s.last()).is_some());
        assert forall|i: int| 0 <= i < t.len() implies spec_digit(#[trigger] t[i]).is_some() by {
            assert(t[i] == s[i]);
        }
        lemma_digits_value_grows(t, n);
        assert(t.subrange(0, n) =~= s.subrange(0, n));
    }
}

/// Reads the number that the characters of `s` from position `from` on write.
pub fn parse_u32(s: &Vec<char>, from: usize) -> (r: Option<u32>)
    requires
        from <= s.len(),
    ensures
        r == spec_parse_u32(s@.subrange(from as int, s.len() as int)),
{
    let ghost text = s@.subrange(from as int, s.len() as int);
    let start: usize = if from < s.len() && s[from] == '+' {
        from + 1
    } else {
        from
    };
    let ghost digits = s@.subrange(start as int, s.len() as int);
    proof {
        if start == from {
            assert(digits =~= text);
            if text.len() > 0 {
                assert(text[0] == s@[from as int]);
            }
        } else {
            assert(text[0] == s@[from as int]);
            assert(digits =~= text.drop_first());
        }
    }
    if start == s.len() {
        return None;
    }
    let mut value: u32 = 0;
    let mut i: usize = start;
    while i < s.len()
        invariant
            start <= i <= s.len(),
            from <= s.len(),
            text == s@.subrange(from as int, s.len() as int),
            digits == s@.subrange(start as int, s.len() as int),
            spec_parse_u32(text) == spec_parse_digits(digits),
            spec_all_digits(digits.subrange(0, i - start)),
            value == spec_digits_value(digits.subrange(0, i - start)),
        decreases s.len() - i,
    {
        let c: char = s[i];
        let ghost head = digits.subrange(0, i - start);
        let ghost next = digits.subrange(0, i - start + 1);
        proof {
            assert(digits[i - start] == c);
            assert(next.drop_last() =~= head);
            assert(next.last() == c);
        }
        if c < '0' || c > '9' {
            assert(spec_digit(digits[i - start]).is_none());
            return None;
        }
        let d: u32 = c as u32 - '0' as u32;
        proof {
            assert forall|k: int| 0 <= k < next.len() implies spec_digit(
                #[trigger] next[k],
            ).is_some() by {
                if k < head.len() {
                    assert(next[k] == head[k]);
                }
            }
        }
        if value > (u32::MAX - d) / 10 {
            proof {
                assert(spec_digits_value(next) == value * 10 + d);
                assert(spec_digits_value(next) > u32::MAX);
                if spec_all_digits(digits) {
                    lemma_digits_value_grows(digits, i - start + 1);
                }
            }
            return None;
        }
        value = value * 10 + d;
        i += 1;
    }
    assert(digits.subrange(0, s.len() - start) =~= digits);
    Some(value)
}

} // verus!
