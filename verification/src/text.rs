//! Text helpers: decimal parsing of unsigned integers as `str::parse` does it,
//! and comparison of two strings.

use vstd::prelude::*;

verus! {

/// An ASCII decimal digit.
pub open spec fn is_decimal_digit(c: char) -> bool {
    '0' <= c && c <= '9'
}

/// The value of one decimal digit.
pub open spec fn digit_value(c: char) -> nat {
    (c as int - '0' as int) as nat
}

/// The value of a sequence of decimal digits, most significant first.
pub open spec fn digits_value(s: Seq<char>) -> nat
    decreases s.len(),
{
    if s.len() == 0 {
        0
    } else {
        digits_value(s.drop_last()) * 10 + digit_value(s.last())
    }
}

/// The digit part of an unsigned number: the text without one leading `+`.
pub open spec fn unsigned_digits(s: Seq<char>) -> Seq<char> {
    if s.len() > 0 && s[0] == '+' {
        s.drop_first()
    } else {
        s
    }
}

/// What parsing `s` as an unsigned integer type with maximum `max` gives:
/// an optional `+` followed by one or more decimal digits whose value is at
/// most `max`; anything else (empty text, a sign alone, `-`, spaces, other
/// characters, a value above `max`) is refused.
pub open spec fn parse_unsigned(s: Seq<char>, max: nat) -> Option<nat> {
    let d = unsigned_digits(s);
    if d.len() > 0 && (forall|i: int| 0 <= i < d.len() ==> is_decimal_digit(#[trigger] d[i]))
        && digits_value(d) <= max {
        Some(digits_value(d))
    } else {
        None
    }
}

/// More digits never make the value smaller.
proof fn lemma_digits_value_grows(s: Seq<char>, k: int)
    requires
        0 <= k <= s.len(),
        forall|i: int| 0 <= i < s.len() ==> is_decimal_digit(#[trigger] s[i]),
    ensures
        digits_value(s.subrange(0, k)) <= digits_value(s),
    decreases s.len() - k,
{
    if k < s.len() {
        lemma_digits_value_grows(s, k + 1);
        let longer = s.subrange(0, k + 1);
        assert(longer.drop_last() =~= s.subrange(0, k));
    } else {
        assert(s.subrange(0, k) =~= s);
    }
}

/// Parses `s` as an unsigned decimal integer no larger than `max`, with the
/// rules of `str::parse` for unsigned integer types.
pub fn parse_unsigned_decimal(s: &str, max: u64) -> (r: Option<u64>)
    ensures
        match parse_unsigned(s@, max as nat) {
            Some(n) => r == Some(n as u64),
            None => r is None,
        },
{
    let len = s.unicode_len();
    if len == 0 {
        return None;
    }
    let start: usize = if s.get_char(0) == '+' {
        1
    } else {
        0
    };
    let ghost d = unsigned_digits(s@);
    assert(d =~= s@.subrange(start as int, len as int));
    if start == len {
        return None;
    }
    let mut i: usize = start;
    let mut value: u64 = 0;
    assert(d.subrange(0, 0) =~= Seq::<char>::empty());
    while i < len
        invariant
            start <= i <= len,
            len == s@.len(),
            start < len,
            d == unsigned_digits(s@),
            d =~= s@.subrange(start as int, len as int),
            forall|j: int| 0 <= j < i - start ==> is_decimal_digit(#[trigger] d[j]),
            value as nat == digits_value(d.subrange(0, i - start)),
            value <= max,
        decreases len - i,
    {
        let c = s.get_char(i);
        assert(c == d[i - start]);
        if !('0' <= c && c <= '9') {
            assert(!is_decimal_digit(d[i - start]));
            return None;
        }
        let digit: u64 = (c as u32 - '0' as u32) as u64;
        let next: u128 = value as u128 * 10 + digit as u128;
        let ghost prefix = d.subrange(0, i - start + 1);
        assert(prefix.drop_last() =~= d.subrange(0, i - start));
        assert(prefix.last() == c);
        assert(next == digits_value(prefix));
        if next > max as u128 {
            proof {
                if forall|j: int| 0 <= j < d.len() ==> is_decimal_digit(#[trigger] d[j]) {
                    lemma_digits_value_grows(d, i - start + 1);
                    assert(digits_value(d) > max);
                }
                assert(parse_unsigned(s@, max as nat) is None);
            }
            return None;
        }
        value = next as u64;
        i = i + 1;
    }
    assert(d.subrange(0, len - start) =~= d);
    Some(value)
}

/// Parses `s` as `str::parse::<u16>` does.
pub fn parse_u16(s: &str) -> (r: Option<u16>)
    ensures
        match parse_unsigned(s@, u16::MAX as nat) {
            Some(n) => r == Some(n as u16),
            None => r is None,
        },
{
    match parse_unsigned_decimal(s, u16::MAX as u64) {
        Some(n) => Some(n as u16),
        None => None,
    }
}

/// Parses `s` as `str::parse::<usize>` does.
pub fn parse_usize(s: &str) -> (r: Option<usize>)
    ensures
        match parse_unsigned(s@, usize::MAX as nat) {
            Some(n) => r == Some(n as usize),
            None => r is None,
        },
{
    match parse_unsigned_decimal(s, usize::MAX as u64) {
        Some(n) => Some(n as usize),
        None => None,
    }
}

/// Whether two strings hold the same characters.
pub fn same_text(a: &str, b: &str) -> (r: bool)
    ensures
        r == (a@ == b@),
{
    let len = a.unicode_len();
    if len != b.unicode_len() {
        return false;
    }
    let mut i: usize = 0;
    while i < len
        invariant
            i <= len,
            len == a@.len(),
            len == b@.len(),
            forall|j: int| 0 <= j < i ==> a@[j] == b@[j],
        decreases len - i,
    {
        if a.get_char(i) != b.get_char(i) {
            return false;
        }
        i = i + 1;
    }
    assert(a@ =~= b@);
    true
}

/// The character of the decimal digit `d` (below ten).
pub open spec fn digit_char(d: nat) -> char {
    if d == 0 {
        '0'
    } else if d == 1 {
        '1'
    } else if d == 2 {
        '2'
    } else if d == 3 {
        '3'
    } else if d == 4 {
        '4'
    } else if d == 5 {
        '5'
    } else if d == 6 {
        '6'
    } else if d == 7 {
        '7'
    } else if d == 8 {
        '8'
    } else {
        '9'
    }
}

/// The usual decimal text of `n`: its digits, most significant first,
/// without leading zeros.
pub open spec fn decimal_digits(n: nat) -> Seq<char>
    decreases n,
{
    if n < 10 {
        seq![digit_char(n)]
    } else {
        decimal_digits(n / 10).push(digit_char(n % 10))
    }
}

/// The character of a digit is a decimal digit with that value.
proof fn lemma_digit_char(d: nat)
    requires
        d < 10,
    ensures
        is_decimal_digit(digit_char(d)),
        digit_value(digit_char(d)) == d,
{
    assert('0' as int == 48 && '1' as int == 49 && '2' as int == 50 && '3' as int == 51);
    assert('4' as int == 52 && '5' as int == 53 && '6' as int == 54 && '7' as int == 55);
    assert('8' as int == 56 && '9' as int == 57);
}

/// The decimal text of `n` is all digits, does not start with `+`, and has
/// the value `n`.
proof fn lemma_decimal_digits_value(n: nat)
    ensures
        decimal_digits(n).len() > 0,
        forall|i: int|
            0 <= i < decimal_digits(n).len() ==> is_decimal_digit(#[trigger] decimal_digits(n)[i]),
        digits_value(decimal_digits(n)) == n,
    decreases n,
{
    if n < 10 {
        lemma_digit_char(n);
        assert(decimal_digits(n).drop_last() =~= Seq::<char>::empty());
        assert(digits_value(Seq::<char>::empty()) == 0);
    } else {
        lemma_digit_char(n % 10);
        lemma_decimal_digits_value(n / 10);
        let shorter = decimal_digits(n / 10);
        assert(decimal_digits(n).drop_last() =~= shorter);
        assert forall|i: int| 0 <= i < decimal_digits(n).len() implies is_decimal_digit(
            #[trigger] decimal_digits(n)[i],
        ) by {
            if i < shorter.len() {
                assert(decimal_digits(n)[i] == shorter[i]);
            }
        }
        assert(decimal_digits(n).last() == digit_char(n % 10));
        assert(n == (n / 10) * 10 + n % 10);
        assert(digits_value(decimal_digits(n)) == digits_value(shorter) * 10 + digit_value(
            digit_char(n % 10),
        ));
    }
}

/// Parsing the decimal text of a number gives the number back when it is
/// within the maximum, with or without a leading `+`, and is refused above
/// the maximum.
pub proof fn lemma_parse_decimal_digits(n: nat, max: nat)
    ensures
        n <= max ==> parse_unsigned(decimal_digits(n), max) == Some(n),
        n <= max ==> parse_unsigned(seq!['+'] + decimal_digits(n), max) == Some(n),
        n > max ==> parse_unsigned(decimal_digits(n), max) is None,
{
    lemma_decimal_digits_value(n);
    let d = decimal_digits(n);
    assert(is_decimal_digit(d[0]));
    assert(unsigned_digits(d) == d);
    assert((seq!['+'] + d).drop_first() =~= d);
    assert(unsigned_digits(seq!['+'] + d) == d);
}

/// A copy of an optional string.
pub fn clone_text(value: &Option<String>) -> (r: Option<String>)
    ensures
        r == *value,
{
    match value {
        Some(s) => Some(s.clone()),
        None => None,
    }
}

} // verus!
