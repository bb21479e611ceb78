//! Whole numbers as text: an optional sign and decimal digits.

use vstd::prelude::*;
use crate::chars::{code, to_chars};

verus! {

/// `c` is one of the digits `0` to `9`.
pub open spec fn is_digit(c: char) -> bool {
    48 <= code(c) <= 57
}

/// `s` is made of digits, and of at least one.
pub open spec fn digits(s: Seq<char>) -> bool {
    &&& s.len() > 0
    &&& forall|i: int| 0 <= i < s.len() ==> is_digit(#[trigger] s[i])
}

/// The number that the digits `s` write.
pub open spec fn number(s: Seq<char>) -> int
    decreases s.len(),
{
    if s.len() == 0 {
        0
    } else {
        10 * number(s.drop_last()) + (code(s.last()) - 48)
    }
}

/// What is left of `s` behind its `+`, if it starts with one.
pub open spec fn without_plus(s: Seq<char>) -> Seq<char> {
    if s.len() > 0 && s[0] == '+' {
        s.drop_first()
    } else {
        s
    }
}

/// What is left of `s` behind its sign, if it starts with one.
pub open spec fn without_sign(s: Seq<char>) -> Seq<char> {
    if s.len() > 0 && (s[0] == '-' || s[0] == '+') {
        s.drop_first()
    } else {
        s
    }
}

/// The number that `s` writes if that is at most `max`: digits and nothing
/// else.
pub open spec fn digits_text(s: Seq<char>, max: int) -> Option<int> {
    if digits(s) && number(s) <= max {
        Some(number(s))
    } else {
        None
    }
}

/// The number that `s` writes: a `+` or a `-` or neither, then digits and
/// nothing else, and a value that an `i32` can hold.
pub open spec fn int_text(s: Seq<char>) -> Option<i32> {
    let value = if s.len() > 0 && s[0] == '-' {
        -number(without_sign(s))
    } else {
        number(without_sign(s))
    };
    if digits(without_sign(s)) && i32::MIN <= value <= i32::MAX {
        Some(value as i32)
    } else {
        None
    }
}

/// The number without sign that `s` writes: a `+` or none, then digits and
/// nothing else, and a value that a `u32` can hold.
pub open spec fn nat_text(s: Seq<char>) -> Option<u32> {
    match digits_text(without_plus(s), u32::MAX as int) {
        Some(value) => Some(value as u32),
        None => None,
    }
}

/// The position that `s` writes: a `+` or none, then digits and nothing
/// else, and a value that a `usize` can hold.
pub open spec fn index_text(s: Seq<char>) -> Option<usize> {
    match digits_text(without_plus(s), usize::MAX as int) {
        Some(value) => Some(value as usize),
        None => None,
    }
}

/// Digits write a number that is not negative.
proof fn lemma_number_positive(s: Seq<char>)
    requires
        forall|i: int| 0 <= i < s.len() ==> is_digit(#[trigger] s[i]),
    ensures
        0 <= number(s),
    decreases s.len(),
{
    if s.len() > 0 {
        lemma_number_positive(s.drop_last());
        assert(is_digit(s[s.len() - 1]));
    }
}

/// Digits write a number that is no smaller than the number that their
/// front writes.
proof fn lemma_number_grows(s: Seq<char>, k: int)
    requires
        0 <= k <= s.len(),
        forall|i: int| 0 <= i < s.len() ==> is_digit(#[trigger] s[i]),
    ensures
        0 <= number(s.take(k)) <= number(s),
    decreases s.len() - k,
{
    if k == s.len() {
        assert(s.take(k) == s);
        lemma_number_positive(s);
    } else {
        lemma_number_grows(s, k + 1);
        assert(s.take(k + 1).drop_last() == s.take(k));
        assert(is_digit(s[k]));
        lemma_number_positive(s.take(k));
    }
}

/// The number that the characters of `v` from `from` on write, see
/// `digits_text`.
fn magnitude(v: &Vec<char>, from: usize, max: u64) -> (value: Option<u64>)
    requires
        from <= v.len(),
    ensures
        match value {
            Some(n) => n <= max && digits_text(
                v@.subrange(from as int, v@.len() as int),
                max as int,
            ) == Some(n as int),
            None => digits_text(v@.subrange(from as int, v@.len() as int), max as int).is_none(),
        },
{
    let ghost body = v@.subrange(from as int, v@.len() as int);
    if from == v.len() {
        return None;
    }
    let mut acc: u128 = 0;
    let mut i: usize = from;
    assert(body.take(0) == Seq::<char>::empty());
    while i < v.len()
        invariant
            from <= i <= v.len(),
            from < v.len(),
            body == v@.subrange(from as int, v@.len() as int),
            forall|j: int| 0 <= j < i - from ==> is_digit(#[trigger] body[j]),
            acc == number(body.take(i - from)),
            0 <= acc <= max,
        decreases v.len() - i,
    {
        let c = v[i] as u32;
        assert(body[i - from] == v@[i as int]);
        if c < 48 || c > 57 {
            assert(!is_digit(body[i - from]));
            return None;
        }
        assert(body.take(i - from + 1).drop_last() == body.take(i - from));
        acc = acc * 10 + (c - 48) as u128;
        i += 1;
        if acc > max as u128 {
            proof {
                if digits(body) {
                    lemma_number_grows(body, i - from);
                }
            }
            return None;
        }
    }
    assert(body.take(i - from) == body);
    Some(acc as u64)
}

/// The number that `s` writes, see `int_text`.
pub fn parse_i32(s: &str) -> (value: Option<i32>)
    ensures
        value == int_text(s@),
{
    let v = to_chars(s);
    let negative = v.len() > 0 && v[0] == '-';
    let from: usize = if v.len() > 0 && (v[0] == '-' || v[0] == '+') {
        1
    } else {
        0
    };
    assert(without_sign(s@) == v@.subrange(from as int, v@.len() as int));
    match magnitude(&v, from, 2147483648) {
        Some(n) => {
            if negative {
                Some((0 - n as i64) as i32)
            } else if n <= 2147483647 {
                Some(n as i32)
            } else {
                None
            }
        },
        None => None,
    }
}

/// The number without sign that `s` writes, see `nat_text`.
pub fn parse_u32(s: &str) -> (value: Option<u32>)
    ensures
        value == nat_text(s@),
{
    let v = to_chars(s);
    let from: usize = if v.len() > 0 && v[0] == '+' {
        1
    } else {
        0
    };
    assert(without_plus(s@) == v@.subrange(from as int, v@.len() as int));
    match magnitude(&v, from, u32::MAX as u64) {
        Some(n) => Some(n as u32),
        None => None,
    }
}

/// The position that `s` writes, see `index_text`.
pub fn parse_usize(s: &str) -> (value: Option<usize>)
    ensures
        value == index_text(s@),
{
    let v = to_chars(s);
    let from: usize = if v.len() > 0 && v[0] == '+' {
        1
    } else {
        0
    };
    assert(without_plus(s@) == v@.subrange(from as int, v@.len() as int));
    match magnitude(&v, from, usize::MAX as u64) {
        Some(n) => Some(n as usize),
        None => None,
    }
}

} // verus!
