//! Whole numbers as text.

use vstd::prelude::*;
use crate::text::{decimal, decimal2, is_ascii_digit, push_decimal};

verus! {

/// The number that a run of digits spells.
pub open spec fn digits_value(s: Seq<char>) -> nat
    decreases s.len(),
{
    if s.len() == 0 {
        0
    } else {
        digits_value(s.drop_last()) * 10 + ((s.last() as u32 - '0' as u32) as nat)
    }
}

/// The text holds digits and nothing else.
pub open spec fn all_digits(s: Seq<char>) -> bool {
    forall|i: int| 0 <= i < s.len() ==> is_ascii_digit(#[trigger] s[i])
}

/// A longer run of digits does not spell a smaller number.
pub proof fn lemma_digits_grow(s: Seq<char>, n: int)
    requires
        0 <= n <= s.len(),
        all_digits(s),
    ensures
        digits_value(s.take(n)) <= digits_value(s),
    decreases s.len() - n,
{
    if n < s.len() {
        lemma_digits_grow(s, n + 1);
        assert(s.take(n + 1).drop_last() =~= s.take(n));
        assert(is_ascii_digit(s[n]));
    } else {
        assert(s.take(n) =~= s);
    }
}

/// The text without the sign that may stand in front of it.
pub open spec fn unsigned_part(s: Seq<char>, minus_too: bool) -> Seq<char> {
    if s.len() > 0 && (s[0] == '+' || (minus_too && s[0] == '-')) {
        s.subrange(1, s.len() as int)
    } else {
        s
    }
}

/// The number that a text spells as `u32::from_str` reads it: digits, with
/// `+` in front or not, that spell a number in range.
pub open spec fn parsed_u32(s: Seq<char>) -> Option<int> {
    let body = unsigned_part(s, false);
    if body.len() > 0 && all_digits(body) && digits_value(body) <= u32::MAX {
        Some(digits_value(body) as int)
    } else {
        None
    }
}

/// The number that a text spells as `i32::from_str` reads it: digits, with
/// `+` or `-` in front or not, that spell a number in range.
pub open spec fn parsed_i32(s: Seq<char>) -> Option<int> {
    let body = unsigned_part(s, true);
    let negative = s.len() > 0 && s[0] == '-';
    if body.len() == 0 || !all_digits(body) {
        None
    } else if negative {
        if digits_value(body) <= 0x8000_0000 {
            Some(-(digits_value(body) as int))
        } else {
            None
        }
    } else if digits_value(body) <= 0x7fff_ffff {
        Some(digits_value(body) as int)
    } else {
        None
    }
}

/// Reads the digits of `s` from `from` on as a number up to `limit`.
fn read_digits(s: &Vec<char>, from: usize, limit: u64) -> (r: Option<u64>)
    requires
        from <= s.len(),
        limit <= 0xffff_ffff,
    ensures
        ({
            let body = s@.subrange(from as int, s.len() as int);
            match r {
                Some(v) => body.len() > 0 && all_digits(body) && v == digits_value(body) && v
                    <= limit,
                None => body.len() == 0 || !all_digits(body) || digits_value(body) > limit,
            }
        }),
{
    let ghost body = s@.subrange(from as int, s.len() as int);
    if from == s.len() {
        return None;
    }
    let mut acc: u64 = 0;
    let mut i: usize = from;
    assert(body.take(0) =~= Seq::<char>::empty());
    while i < s.len()
        invariant
            from <= i <= s.len(),
            limit <= 0xffff_ffff,
            body == s@.subrange(from as int, s.len() as int),
            acc <= limit,
            acc == digits_value(body.take(i - from)),
            forall|j: int| 0 <= j < i - from ==> is_ascii_digit(#[trigger] body[j]),
        decreases s.len() - i,
    {
        let c = s[i];
        assert(body[i - from] == c);
        if !('0' <= c && c <= '9') {
            return None;
        }
        let d: u64 = (c as u32 - '0' as u32) as u64;
        let next: u64 = acc * 10 + d;
        assert(body.take(i - from + 1).drop_last() =~= body.take(i - from));
        assert(body.take(i - from + 1).last() == c);
        if next > limit {
            proof {
                if all_digits(body) {
                    lemma_digits_grow(body, i - from + 1);
                }
            }
            return None;
        }
        acc = next;
        i += 1;
    }
    assert(body.take(s.len() - from) =~= body);
    Some(acc)
}

/// Reads a number as `u32::from_str` does.
pub fn parse_u32(s: &Vec<char>) -> (r: Option<u32>)
    ensures
        match r {
            Some(v) => parsed_u32(s@) == Some(v as int),
            None => parsed_u32(s@).is_none(),
        },
{
    let from: usize = if s.len() > 0 && s[0] == '+' {
        1
    } else {
        0
    };
    assert(s@.subrange(from as int, s.len() as int) =~= unsigned_part(s@, false));
    match read_digits(s, from, 0xffff_ffff) {
        Some(v) => Some(v as u32),
        None => None,
    }
}

/// Reads a number as `i32::from_str` does.
pub fn parse_i32(s: &Vec<char>) -> (r: Option<i32>)
    ensures
        match r {
            Some(v) => parsed_i32(s@) == Some(v as int),
            None => parsed_i32(s@).is_none(),
        },
{
    let negative = s.len() > 0 && s[0] == '-';
    let from: usize = if s.len() > 0 && (s[0] == '+' || s[0] == '-') {
        1
    } else {
        0
    };
    assert(s@.subrange(from as int, s.len() as int) =~= unsigned_part(s@, true));
    if negative {
        match read_digits(s, from, 0x8000_0000) {
            Some(v) => Some((0 - (v as i64)) as i32),
            None => None,
        }
    } else {
        match read_digits(s, from, 0x7fff_ffff) {
            Some(v) => Some(v as i32),
            None => None,
        }
    }
}

/// A whole number as `Display` writes it: its decimal numeral, behind `-`
/// where it is negative.
pub open spec fn signed_decimal(n: int) -> Seq<char> {
    if n < 0 {
        seq!['-'] + decimal((-n) as nat)
    } else {
        decimal(n as nat)
    }
}

/// Appends a number in decimal, with a minus sign where it is negative.
pub fn push_signed(out: &mut Vec<char>, n: i32)
    ensures
        final(out)@ == old(out)@ + signed_decimal(n as int),
{
    if n < 0 {
        out.push('-');
        let m: usize = (0 - (n as i64)) as usize;
        push_decimal(out, m);
        assert(out@ =~= old(out)@ + (seq!['-'] + decimal((-n) as nat)));
    } else {
        push_decimal(out, n as usize);
    }
}

/// Writes a number in at least two digits: see [`decimal2`].
pub fn push_decimal2(out: &mut Vec<char>, n: u32)
    ensures
        final(out)@ == old(out)@ + decimal2(n as nat),
{
    if n < 10 {
        out.push('0');
        push_decimal(out, n as usize);
        assert(out@ =~= old(out)@ + (seq!['0'] + decimal(n as nat)));
    } else {
        push_decimal(out, n as usize);
    }
}

} // verus!
