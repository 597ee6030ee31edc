//! Numbers written in decimal digits.

use vstd::prelude::*;

verus! {

/// Whether a byte is one of the digits `0` to `9`.
pub open spec fn is_digit(byte: u8) -> bool {
    48 <= byte <= 57
}

/// Whether every byte is a digit.
pub open spec fn all_digits(s: Seq<u8>) -> bool {
    forall|i: int| 0 <= i < s.len() ==> is_digit(#[trigger] s[i])
}

/// The number that a run of digits writes.
pub open spec fn decimal_value(s: Seq<u8>) -> nat
    decreases s.len(),
{
    if s.len() == 0 {
        0
    } else {
        decimal_value(s.drop_last()) * 10 + (s.last() - 48) as nat
    }
}

/// The number that `s` writes, if `s` is one digit or more and the number
/// is not above `max`.
pub open spec fn parse_digits(s: Seq<u8>, max: nat) -> Option<nat> {
    if s.len() > 0 && all_digits(s) && decimal_value(s) <= max {
        Some(decimal_value(s))
    } else {
        None
    }
}

/// `s` without a leading `+`.
pub open spec fn without_plus(s: Seq<u8>) -> Seq<u8> {
    if s.len() > 0 && s[0] == 43 {
        s.skip(1)
    } else {
        s
    }
}

/// The length that `s` writes: digits after an optional `+`, no more than
/// a `usize` holds.
pub open spec fn parse_usize(s: Seq<u8>) -> Option<usize> {
    match parse_digits(without_plus(s), usize::MAX as nat) {
        Some(value) => Some(value as usize),
        None => None,
    }
}

/// The integer that `s` writes: digits after an optional `+` or `-`, within
/// the range of an `i32`.
pub open spec fn parse_i32(s: Seq<u8>) -> Option<i32> {
    if s.len() > 0 && s[0] == 45 {
        match parse_digits(s.skip(1), 2147483648) {
            Some(value) => Some((0 - value) as i32),
            None => None,
        }
    } else {
        match parse_digits(without_plus(s), 2147483647) {
            Some(value) => Some(value as i32),
            None => None,
        }
    }
}

/// The digits of `n`, without leading zeros.
pub open spec fn decimal_digits(n: nat) -> Seq<u8>
    decreases n,
{
    if n < 10 {
        seq![(48 + n) as u8]
    } else {
        decimal_digits(n / 10).push((48 + n % 10) as u8)
    }
}

/// A run of digits writes a number no smaller than any of its beginnings.
pub proof fn lemma_decimal_value_grows(s: Seq<u8>, n: int)
    requires
        0 <= n <= s.len(),
    ensures
        decimal_value(s.take(n)) <= decimal_value(s),
    decreases s.len() - n,
{
    if n < s.len() {
        lemma_decimal_value_grows(s, n + 1);
        assert(s.take(n + 1).drop_last() =~= s.take(n));
    } else {
        assert(s.take(n) =~= s);
    }
}

/// Reads the digits from `start` to the end of `bytes`.
fn read_digits(bytes: &[u8], start: usize, max: u64) -> (r: Option<u64>)
    requires
        start <= bytes@.len(),
    ensures
        match parse_digits(bytes@.skip(start as int), max as nat) {
            Some(value) => r == Some(value as u64),
            None => r is None,
        },
{
    let ghost s = bytes@.skip(start as int);
    if start == bytes.len() {
        return None;
    }
    let mut value: u64 = 0;
    let mut i: usize = start;
    while i < bytes.len()
        invariant
            start <= i <= bytes.len(),
            s == bytes@.skip(start as int),
            all_digits(s.take(i - start)),
            value == decimal_value(s.take(i - start)),
            value <= max,
        decreases bytes.len() - i,
    {
        let byte = bytes[i];
        let ghost seen = s.take(i - start);
        let ghost next = s.take(i - start + 1);
        proof {
            assert(next.drop_last() =~= seen);
            assert(next.last() == byte);
            lemma_decimal_value_grows(s, i - start + 1);
        }
        if byte < 48 || byte > 57 {
            assert(!is_digit(s[i - start]));
            return None;
        }
        let digit = (byte - 48) as u64;
        let tens = match value.checked_mul(10) {
            Some(tens) => tens,
            None => {
                return None;
            },
        };
        let sum = match tens.checked_add(digit) {
            Some(sum) => sum,
            None => {
                return None;
            },
        };
        if sum > max {
            return None;
        }
        value = sum;
        i = i + 1;
        proof {
            assert forall|j: int| 0 <= j < next.len() implies is_digit(#[trigger] next[j]) by {
                if j < seen.len() {
                    assert(seen[j] == next[j]);
                }
            }
        }
    }
    proof {
        assert(s.take(i - start) =~= s);
    }
    Some(value)
}

/// Reads a length: digits after an optional `+`.
pub fn read_usize(bytes: &[u8]) -> (r: Option<usize>)
    ensures
        r == parse_usize(bytes@),
{
    let start: usize = if bytes.len() > 0 && bytes[0] == 43 {
        1
    } else {
        0
    };
    assert(bytes@.skip(start as int) =~= without_plus(bytes@));
    match read_digits(bytes, start, usize::MAX as u64) {
        Some(value) => Some(value as usize),
        None => None,
    }
}

/// Reads an integer: digits after an optional `+` or `-`.
pub fn read_i32(bytes: &[u8]) -> (r: Option<i32>)
    ensures
        r == parse_i32(bytes@),
{
    if bytes.len() > 0 && bytes[0] == 45 {
        match read_digits(bytes, 1, 2147483648) {
            Some(value) => Some((0 - value as i64) as i32),
            None => None,
        }
    } else {
        let start: usize = if bytes.len() > 0 && bytes[0] == 43 {
            1
        } else {
            0
        };
        assert(bytes@.skip(start as int) =~= without_plus(bytes@));
        match read_digits(bytes, start, 2147483647) {
            Some(value) => Some(value as i32),
            None => None,
        }
    }
}

/// Appends the digits of `n`.
pub fn write_decimal(writer: &mut Vec<u8>, n: usize)
    ensures
        final(writer)@ == old(writer)@ + decimal_digits(n as nat),
    decreases n,
{
    if n >= 10 {
        write_decimal(writer, n / 10);
    }
    writer.push(48 + (n % 10) as u8);
    proof {
        if n >= 10 {
            assert(writer@ =~= old(writer)@ + decimal_digits(n as nat));
        } else {
            assert(writer@ =~= old(writer)@ + decimal_digits(n as nat));
        }
    }
}

} // verus!
