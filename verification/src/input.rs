//! What a line of input says: a move, or nothing that can be read as one.
//!
//! A move is written as an unsigned decimal number. White space around it,
//! the line ending included, does not count, and a plus sign may precede the
//! digits.

use crate::text::{decimal, digit_char};
use vstd::prelude::*;

verus! {

/// Whether `c` is white space: a character with the Unicode property
/// `White_Space`.
pub open spec fn is_whitespace(c: char) -> bool {
    let u = c as u32;
    9 <= u <= 13 || u == 0x20 || u == 0x85 || u == 0xA0 || u == 0x1680 || 0x2000 <= u <= 0x200A
        || u == 0x2028 || u == 0x2029 || u == 0x202F || u == 0x205F || u == 0x3000
}

/// `s` without the white space at its start.
pub open spec fn trim_start(s: Seq<char>) -> Seq<char>
    decreases s.len(),
{
    if s.len() > 0 && is_whitespace(s[0]) {
        trim_start(s.drop_first())
    } else {
        s
    }
}

/// `s` without the white space at its end.
pub open spec fn trim_end(s: Seq<char>) -> Seq<char>
    decreases s.len(),
{
    if s.len() > 0 && is_whitespace(s.last()) {
        trim_end(s.drop_last())
    } else {
        s
    }
}

/// `s` without the white space at its start and at its end.
pub open spec fn trim(s: Seq<char>) -> Seq<char> {
    trim_end(trim_start(s))
}

/// Whether `c` is one of the decimal digits `0` to `9`.
pub open spec fn is_digit(c: char) -> bool {
    '0' <= c <= '9'
}

/// The value of the decimal digit `c`.
pub open spec fn digit_value(c: char) -> nat {
    (c as u32 - '0' as u32) as nat
}

/// The number that the decimal digits `s` write.
pub open spec fn number(s: Seq<char>) -> nat
    decreases s.len(),
{
    if s.len() == 0 {
        0
    } else {
        10 * number(s.drop_last()) + digit_value(s.last())
    }
}

/// Whether `s` holds decimal digits only.
pub open spec fn all_digits(s: Seq<char>) -> bool {
    forall|i: int| 0 <= i < s.len() ==> is_digit(#[trigger] s[i])
}

/// The number that `s` writes, if `s` is one or more decimal digits and the
/// number fits in 64 bits.
pub open spec fn written(s: Seq<char>) -> Option<u64> {
    if s.len() > 0 && all_digits(s) && number(s) <= u64::MAX {
        Some(number(s) as u64)
    } else {
        None
    }
}

/// The number that `s` writes, with or without a plus sign before the digits.
pub open spec fn unsigned(s: Seq<char>) -> Option<u64> {
    if s.len() > 0 && s[0] == '+' {
        written(s.drop_first())
    } else {
        written(s)
    }
}

/// The move that a line of input names, if it names one.
pub open spec fn choice(line: Seq<char>) -> Option<u64> {
    unsigned(trim(line))
}

/// A number in decimal consists of digits that write that number.
proof fn lemma_decimal_digits(n: nat)
    ensures
        decimal(n).len() > 0,
        all_digits(decimal(n)),
        number(decimal(n)) == n,
    decreases n,
{
    if n < 10 {
        let s = decimal(n);
        assert(s.drop_last() =~= Seq::<char>::empty());
        assert(number(s.drop_last()) == 0);
        assert(s.last() == digit_char(n as int));
    } else {
        lemma_decimal_digits(n / 10);
        let s = decimal(n);
        assert(s.drop_last() =~= decimal(n / 10));
        assert(s.last() == digit_char((n % 10) as int));
        assert forall|i: int| 0 <= i < s.len() implies is_digit(#[trigger] s[i]) by {
            if i < s.len() - 1 {
                assert(s[i] == decimal(n / 10)[i]);
            }
        }
    }
}

/// A number that the session writes in decimal is read back as the same
/// number.
pub proof fn lemma_decimal_is_read_back(n: u64)
    ensures
        choice(decimal(n as nat)) == Some(n),
{
    let s = decimal(n as nat);
    lemma_decimal_digits(n as nat);
    assert(is_digit(s[0]));
    assert(is_digit(s.last()));
}

/// Digits that follow can only make a number larger.
proof fn lemma_number_grows(s: Seq<char>, k: int)
    requires
        0 <= k <= s.len(),
    ensures
        number(s.take(k)) <= number(s),
    decreases s.len() - k,
{
    if k < s.len() {
        lemma_number_grows(s, k + 1);
        assert(s.take(k + 1).drop_last() =~= s.take(k));
    } else {
        assert(s.take(k) =~= s);
    }
}

/// The characters of `line`.
fn chars_of(line: &str) -> (v: Vec<char>)
    ensures
        v@ == line@,
{
    let mut v: Vec<char> = Vec::new();
    for c in it: line.chars()
        invariant
            it.seq() == line@,
            v@ == it.seq().take(it.index()),
    {
        v.push(c);
        assert(it.seq().take(it.index() + 1) =~= it.seq().take(it.index()).push(c));
    }
    assert(line@.take(line@.len() as int) =~= line@);
    v
}

/// Is `c` white space?
fn is_space(c: char) -> (b: bool)
    ensures
        b == is_whitespace(c),
{
    let u = c as u32;
    (9 <= u && u <= 13) || u == 0x20 || u == 0x85 || u == 0xA0 || u == 0x1680 || (0x2000 <= u && u
        <= 0x200A) || u == 0x2028 || u == 0x2029 || u == 0x202F || u == 0x205F || u == 0x3000
}

/// Reads a line of input as a move.
pub fn parse_choice(line: &str) -> (r: Option<u64>)
    ensures
        r == choice(line@),
{
    let chars = chars_of(line);
    let ghost all = chars@;
    let mut start: usize = 0;
    assert(all.skip(0) =~= all);
    while start < chars.len() && is_space(chars[start])
        invariant
            all == chars@,
            start <= all.len(),
            trim_start(all) == trim_start(all.skip(start as int)),
        decreases all.len() - start,
    {
        assert(all.skip(start as int).drop_first() =~= all.skip(start + 1));
        start += 1;
    }
    let ghost tail = all.skip(start as int);
    assert(trim_start(all) == tail);
    let mut end: usize = chars.len();
    assert(tail.take(end - start) =~= tail);
    while end > start && is_space(chars[end - 1])
        invariant
            all == chars@,
            tail == all.skip(start as int),
            start <= end <= all.len(),
            trim_end(tail) == trim_end(tail.take(end - start)),
        decreases end,
    {
        assert(tail.take(end - start).last() == all[end - 1]);
        assert(tail.take(end - start).drop_last() =~= tail.take(end - start - 1));
        end -= 1;
    }
    let ghost trimmed = tail.take(end - start);
    assert(trim(all) == trimmed) by {
        if end > start {
            assert(trimmed.last() == all[end - 1]);
        }
    }
    let mut i: usize = start;
    if i < end && chars[i] == '+' {
        i += 1;
    }
    let first = i;
    let ghost digits = if trimmed.len() > 0 && trimmed[0] == '+' {
        trimmed.drop_first()
    } else {
        trimmed
    };
    assert(digits =~= all.subrange(first as int, end as int));
    if i == end {
        return None;
    }
    let mut value: u64 = 0;
    assert(digits.take(0) =~= Seq::<char>::empty());
    while i < end
        invariant
            all == chars@,
            first <= i <= end <= all.len(),
            digits == all.subrange(first as int, end as int),
            choice(line@) == written(digits),
            all_digits(digits.take(i - first)),
            value == number(digits.take(i - first)),
        decreases end - i,
    {
        let c = chars[i];
        assert(digits[i - first] == c);
        if !('0' <= c && c <= '9') {
            return None;
        }
        let d = (c as u32 - '0' as u32) as u64;
        proof {
            let next = digits.take(i - first + 1);
            assert(next.drop_last() =~= digits.take(i - first));
            assert(next.last() == c);
            lemma_number_grows(digits, i - first + 1);
        }
        let tenfold = match value.checked_mul(10) {
            Some(v) => v,
            None => {
                return None;
            },
        };
        value = match tenfold.checked_add(d) {
            Some(v) => v,
            None => {
                return None;
            },
        };
        i += 1;
    }
    assert(digits.take(i - first) =~= digits);
    Some(value)
}

} // verus!
