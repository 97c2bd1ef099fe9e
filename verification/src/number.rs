//! Decimal numbers as text.
use vstd::prelude::*;

use crate::text::chars_of;

verus! {

/// The character of a decimal digit.
pub open spec fn digit_char(d: nat) -> char {
    (48 + d) as char
}

/// The decimal digits of `n`, most significant first, without leading zeros.
pub open spec fn decimal(n: nat) -> Seq<char>
    decreases n,
{
    if n < 10 {
        seq![digit_char(n)]
    } else {
        decimal(n / 10).push(digit_char(n % 10))
    }
}

/// Whether every character is a decimal digit.
pub open spec fn all_digits(s: Seq<char>) -> bool {
    forall|i: int| 0 <= i < s.len() ==> '0' <= #[trigger] s[i] <= '9'
}

/// The number that a sequence of decimal digits stands for.
pub open spec fn digits_value(s: Seq<char>) -> nat
    decreases s.len(),
{
    if s.len() == 0 {
        0
    } else {
        digits_value(s.drop_last()) * 10 + (s.last() as nat - 48) as nat
    }
}

/// The digits of a number in text: a leading `+` is not one of them.
pub open spec fn digits_of(s: Seq<char>) -> Seq<char> {
    if s.len() > 0 && s[0] == '+' {
        s.drop_first()
    } else {
        s
    }
}

/// The whole number that `s` spells, where it fits in 64 bits: at least one
/// decimal digit and nothing else, but for a `+` in front.
pub open spec fn whole_number(s: Seq<char>) -> Option<u64> {
    let digits = digits_of(s);
    if digits.len() > 0 && all_digits(digits) && digits_value(digits) <= u64::MAX {
        Some(digits_value(digits) as u64)
    } else {
        None
    }
}

/// Whether `s` begins with the digits of a number that does not fit in 64 bits.
pub open spec fn exceeds_64_bits(s: Seq<char>) -> bool {
    exists|n: int|
        0 <= n <= digits_of(s).len() && all_digits(#[trigger] digits_of(s).take(n))
            && digits_value(digits_of(s).take(n)) > u64::MAX
}

/// A number that was written in decimal is read back as it was.
pub proof fn decimal_reads_back(n: nat)
    ensures
        decimal(n).len() > 0,
        all_digits(decimal(n)),
        digits_value(decimal(n)) == n,
        n <= u64::MAX ==> whole_number(decimal(n)) == Some(n as u64),
    decreases n,
{
    reveal_with_fuel(digits_value, 2);
    if n >= 10 {
        decimal_reads_back(n / 10);
        assert(decimal(n).drop_last() =~= decimal(n / 10));
    } else {
        assert(decimal(n).drop_last() =~= Seq::empty());
    }
}

fn digit_text(d: u64) -> (r: &'static str)
    requires
        d < 10,
    ensures
        r@ == seq![digit_char(d as nat)],
{
    proof {
        reveal_strlit("0");
        reveal_strlit("1");
        reveal_strlit("2");
        reveal_strlit("3");
        reveal_strlit("4");
        reveal_strlit("5");
        reveal_strlit("6");
        reveal_strlit("7");
        reveal_strlit("8");
        reveal_strlit("9");
    }
    match d {
        0 => "0",
        1 => "1",
        2 => "2",
        3 => "3",
        4 => "4",
        5 => "5",
        6 => "6",
        7 => "7",
        8 => "8",
        _ => "9",
    }
}

/// Writes `n` in decimal.
pub fn decimal_text(n: u64) -> (r: String)
    ensures
        r@ == decimal(n as nat),
    decreases n,
{
    if n < 10 {
        digit_text(n).to_owned()
    } else {
        let mut r = decimal_text(n / 10);
        r.append(digit_text(n % 10));
        assert(r@ =~= decimal(n as nat));
        r
    }
}

proof fn lemma_value_grows(s: Seq<char>, n: int)
    requires
        all_digits(s),
        0 <= n <= s.len(),
    ensures
        digits_value(s.take(n)) <= digits_value(s),
    decreases s.len() - n,
{
    if n < s.len() {
        lemma_value_grows(s, n + 1);
        assert(s.take(n + 1).drop_last() =~= s.take(n));
        assert(s.take(n + 1).last() == s[n]);
    } else {
        assert(s.take(n) =~= s);
    }
}

/// Reads a whole number that fits in 64 bits.
pub fn parse_whole_number(s: &str) -> (r: Option<u64>)
    ensures
        r == whole_number(s@),
{
    let chars = chars_of(s);
    let start: usize = if chars.len() > 0 && chars[0] == '+' {
        1
    } else {
        0
    };
    let ghost digits = digits_of(s@);
    assert(digits =~= s@.skip(start as int));
    if chars.len() == start {
        return None;
    }
    let mut value: u64 = 0;
    let mut i: usize = start;
    assert(digits.take(0).len() == 0);
    while i < chars.len()
        invariant
            chars@ == s@,
            start <= i <= chars@.len(),
            digits == digits_of(s@),
            digits == s@.skip(start as int),
            all_digits(digits.take(i - start)),
            value == digits_value(digits.take(i - start)),
        decreases chars.len() - i,
    {
        let c = chars[i];
        let ghost n = i - start;
        assert(c == digits[n]);
        if c < '0' || '9' < c {
            return None;
        }
        assert(digits.take(n + 1).drop_last() =~= digits.take(n));
        assert forall|k: int| 0 <= k < n + 1 implies '0' <= #[trigger] digits.take(n + 1)[k]
            <= '9' by {
            if k < n {
                assert(digits.take(n + 1)[k] == digits.take(n)[k]);
            }
        }
        let next: u128 = value as u128 * 10 + (c as u32 as u128 - 48);
        assert(next == digits_value(digits.take(n + 1)));
        if next > u64::MAX as u128 {
            proof {
                if all_digits(digits) {
                    lemma_value_grows(digits, n + 1);
                }
            }
            return None;
        }
        value = next as u64;
        i += 1;
    }
    assert(digits.take(i - start) =~= digits);
    Some(value)
}

/// Whether a text is no whole number that fits in 64 bits because of its size: its
/// digits exceed them before anything else is wrong.
pub fn is_too_large(s: &str) -> (yes: bool)
    ensures
        yes == exceeds_64_bits(s@),
{
    let chars = chars_of(s);
    let start: usize = if chars.len() > 0 && chars[0] == '+' {
        1
    } else {
        0
    };
    let ghost digits = digits_of(s@);
    assert(digits =~= s@.skip(start as int));
    let mut value: u64 = 0;
    let mut i: usize = start;
    assert(digits.take(0).len() == 0);
    while i < chars.len()
        invariant
            chars@ == s@,
            start <= i <= chars@.len(),
            digits == digits_of(s@),
            digits == s@.skip(start as int),
            all_digits(digits.take(i - start)),
            value == digits_value(digits.take(i - start)),
        decreases chars.len() - i,
    {
        let c = chars[i];
        let ghost n = i - start;
        assert(c == digits[n]);
        if c < '0' || '9' < c {
            proof {
                lemma_first_fault(digits, n);
            }
            return false;
        }
        assert(digits.take(n + 1).drop_last() =~= digits.take(n));
        assert forall|k: int| 0 <= k < n + 1 implies '0' <= #[trigger] digits.take(n + 1)[k]
            <= '9' by {
            if k < n {
                assert(digits.take(n + 1)[k] == digits.take(n)[k]);
            }
        }
        let next: u128 = value as u128 * 10 + (c as u32 as u128 - 48);
        assert(next == digits_value(digits.take(n + 1)));
        if next > u64::MAX as u128 {
            return true;
        }
        value = next as u64;
        i += 1;
    }
    proof {
        lemma_first_fault(digits, digits.len() as int);
    }
    false
}

/// Digits that fit, up to the first character that is none, do not exceed.
proof fn lemma_first_fault(digits: Seq<char>, end: int)
    requires
        0 <= end <= digits.len(),
        all_digits(digits.take(end)),
        digits_value(digits.take(end)) <= u64::MAX,
        end == digits.len() || !('0' <= digits[end] <= '9'),
    ensures
        forall|n: int|
            0 <= n <= digits.len() && all_digits(#[trigger] digits.take(n)) ==> digits_value(
                digits.take(n),
            ) <= u64::MAX,
{
    assert forall|n: int|
        0 <= n <= digits.len() && all_digits(#[trigger] digits.take(n)) implies digits_value(
        digits.take(n),
    ) <= u64::MAX by {
        if n <= end {
            lemma_value_grows(digits.take(end), n);
            assert(digits.take(end).take(n) =~= digits.take(n));
        } else {
            assert(digits.take(n)[end] == digits[end]);
        }
    }
}

} // verus!
