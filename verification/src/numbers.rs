//! Decimal rendering and parsing of integers.
use crate::text::push_char;
use vstd::prelude::*;

verus! {

/// The decimal digit character of a value below ten.
pub open spec fn digit_char(d: int) -> char {
    ((('0' as int) + d) as char)
}

/// The decimal digits of a natural number, most significant first, without
/// leading zeros ("0" for zero).
pub open spec fn decimal(n: nat) -> Seq<char>
    decreases n,
{
    if n < 10 {
        seq![digit_char(n as int)]
    } else {
        decimal(n / 10).push(digit_char((n % 10) as int))
    }
}

/// The decimal text of a signed integer, with a leading '-' when negative.
pub open spec fn signed_decimal(v: int) -> Seq<char> {
    if v < 0 {
        seq!['-'] + decimal((-v) as nat)
    } else {
        decimal(v as nat)
    }
}

/// Appends the decimal digits of `n`.
pub fn push_decimal(s: &mut String, n: u64)
    ensures
        final(s)@ == old(s)@ + decimal(n as nat),
    decreases n,
{
    if n >= 10 {
        push_decimal(s, n / 10);
    }
    let d = (n % 10) as u8;
    push_char(s, (48 + d) as char);
    proof {
        if n >= 10 {
            assert(decimal(n as nat) == decimal((n / 10) as nat).push(digit_char((n % 10) as int)));
        }
        assert(s@ =~= old(s)@ + decimal(n as nat));
    }
}

/// Appends the decimal text of a 64-bit signed integer.
pub fn push_signed_decimal(s: &mut String, v: i64)
    ensures
        final(s)@ == old(s)@ + signed_decimal(v as int),
{
    if v < 0 {
        push_char(s, '-');
        let magnitude: u64 = if v == i64::MIN {
            9223372036854775808u64
        } else {
            (-v) as u64
        };
        let ghost mid = s@;
        push_decimal(s, magnitude);
        assert(s@ =~= old(s)@ + signed_decimal(v as int));
    } else {
        push_decimal(s, v as u64);
    }
}

/// The decimal text of an `i32`, as `i32::to_string` renders it.
pub fn i32_text(v: i32) -> (s: String)
    ensures
        s@ == signed_decimal(v as int),
{
    let mut s = String::new();
    push_signed_decimal(&mut s, v as i64);
    assert(s@ =~= signed_decimal(v as int));
    s
}

/// Whether a character is an ASCII decimal digit.
pub open spec fn is_digit(c: char) -> bool {
    '0' <= c <= '9'
}

/// The value of a nonempty run of decimal digits.
pub open spec fn digits_value(s: Seq<char>) -> nat
    decreases s.len(),
{
    if s.len() == 0 {
        0
    } else {
        digits_value(s.drop_last()) * 10 + ((s.last() as int - '0' as int) as nat)
    }
}

/// How `FromStr` reads an unsigned integer below `bound`: an optional '+',
/// then one or more decimal digits whose value stays below the bound.
pub open spec fn parse_unsigned(s: Seq<char>, bound: nat) -> Option<nat> {
    let digits = unsigned_digits(s);
    if digits.len() == 0 || !all_digits(digits) || digits_value(digits) >= bound {
        None
    } else {
        Some(digits_value(digits))
    }
}

/// The digits of an unsigned literal: the text after an optional leading '+'.
pub open spec fn unsigned_digits(s: Seq<char>) -> Seq<char> {
    if s.len() > 0 && s[0] == '+' {
        s.drop_first()
    } else {
        s
    }
}

/// Every character is a decimal digit.
pub open spec fn all_digits(s: Seq<char>) -> bool {
    forall|i: int| 0 <= i < s.len() ==> is_digit(#[trigger] s[i])
}

pub proof fn lemma_digits_value_monotone(s: Seq<char>, n: int)
    requires
        0 <= n <= s.len(),
        forall|i: int| 0 <= i < s.len() ==> is_digit(#[trigger] s[i]),
    ensures
        digits_value(s.subrange(0, n)) <= digits_value(s),
    decreases s.len() - n,
{
    if n < s.len() {
        lemma_digits_value_monotone(s, n + 1);
        let t = s.subrange(0, n + 1);
        assert(t.drop_last() =~= s.subrange(0, n));
    } else {
        assert(s.subrange(0, n) =~= s);
    }
}

/// Reads an unsigned integer below `bound` from `chars[start..end]`.
pub fn parse_unsigned_at(chars: &Vec<char>, start: usize, end: usize, bound: u128) -> (r: Option<u64>)
    requires
        start <= end <= chars@.len(),
        0 < bound <= 0x1_0000_0000_0000_0000,
    ensures
        match r {
            Some(v) => parse_unsigned(chars@.subrange(start as int, end as int), bound as nat)
                == Some(v as nat),
            None => parse_unsigned(chars@.subrange(start as int, end as int), bound as nat) is None,
        },
{
    let ghost s = chars@.subrange(start as int, end as int);
    let mut i = start;
    if i < end && chars[i] == '+' {
        i += 1;
    }
    let ghost digits = chars@.subrange(i as int, end as int);
    proof {
        if s.len() > 0 && s[0] == '+' {
            assert(s.drop_first() =~= digits);
        } else {
            assert(s =~= digits);
        }
    }
    if i == end {
        return None;
    }
    let first = i;
    let mut value: u64 = 0;
    while i < end
        invariant
            first <= i <= end <= chars@.len(),
            digits == chars@.subrange(first as int, end as int),
            s == chars@.subrange(start as int, end as int),
            digits == unsigned_digits(s),
            0 < bound <= 0x1_0000_0000_0000_0000,
            forall|j: int| first <= j < i ==> is_digit(#[trigger] chars@[j]),
            value as nat == digits_value(chars@.subrange(first as int, i as int)),
            value < bound,
        decreases end - i,
    {
        let c = chars[i];
        if !('0' <= c && c <= '9') {
            proof {
                assert(digits[i - first] == chars@[i as int]);
                assert(!is_digit(digits[i - first]));
                assert(!all_digits(digits));
                assert(parse_unsigned(s, bound as nat) is None);
            }
            return None;
        }
        let d = (c as u32 - '0' as u32) as u64;
        proof {
            let t = chars@.subrange(first as int, i + 1);
            assert(t.drop_last() =~= chars@.subrange(first as int, i as int));
            assert(t.last() == c);
        }
        let next: u128 = (value as u128) * 10 + (d as u128);
        if next >= bound {
            proof {
                let t = chars@.subrange(first as int, i + 1);
                assert(digits_value(t) >= bound);
                if all_digits(digits) {
                    lemma_digits_value_monotone(digits, i + 1 - first);
                    assert(digits.subrange(0, i + 1 - first) =~= t);
                    assert(digits_value(digits) >= bound);
                }
                assert(parse_unsigned(s, bound as nat) is None);
            }
            return None;
        }
        value = next as u64;
        i += 1;
    }
    proof {
        assert(chars@.subrange(first as int, i as int) =~= digits);
    }
    Some(value)
}

} // verus!
