//! Decimal numbers as text.
use crate::text::to_chars;
use vstd::prelude::*;

verus! {

/// Whether `c` is one of the ten ASCII digits.
pub open spec fn is_digit(c: char) -> bool {
    '0' <= c <= '9'
}

/// The digit for `n`, which is less than ten.
pub open spec fn digit(n: nat) -> char {
    ('0' as u32 + n) as char
}

/// `n` in decimal, without leading zeros.
pub open spec fn decimal(n: nat) -> Seq<char>
    decreases n,
{
    if n < 10 {
        seq![digit(n)]
    } else {
        decimal(n / 10).push(digit(n % 10))
    }
}

/// The number that a sequence of digits stands for.
pub open spec fn digits_value(s: Seq<char>) -> nat
    decreases s.len(),
{
    if s.len() == 0 {
        0
    } else {
        10 * digits_value(s.drop_last()) + (s.last() as u32 - '0' as u32) as nat
    }
}

/// Whether `s` is made of digits and has at least one.
pub open spec fn all_digits(s: Seq<char>) -> bool {
    s.len() > 0 && forall|i: int| 0 <= i < s.len() ==> is_digit(#[trigger] s[i])
}

/// `s` without one plus sign in front.
pub open spec fn without_plus(s: Seq<char>) -> Seq<char> {
    if s.len() > 0 && s[0] == '+' {
        s.drop_first()
    } else {
        s
    }
}

/// The `u32` that `s` denotes: digits, with or without a plus sign in front,
/// whose value a `u32` can hold. Anything else denotes none.
pub open spec fn u32_of(s: Seq<char>) -> Option<u32> {
    let digits = without_plus(s);
    if all_digits(digits) && digits_value(digits) <= u32::MAX {
        Some(digits_value(digits) as u32)
    } else {
        None
    }
}

/// A longer sequence of digits stands for no smaller number.
proof fn lemma_digits_value_grows(s: Seq<char>, n: int)
    requires
        0 <= n <= s.len(),
    ensures
        digits_value(s.take(n)) <= digits_value(s),
    decreases s.len() - n,
{
    if n == s.len() {
        assert(s.take(n) =~= s);
    } else {
        lemma_digits_value_grows(s, n + 1);
        assert(s.take(n + 1).drop_last() =~= s.take(n));
    }
}

/// Reads a `u32` in decimal.
pub fn parse_u32(s: &str) -> (number: Option<u32>)
    ensures
        number == u32_of(s@),
{
    let chars: Vec<char> = to_chars(s);
    let start: usize = if chars.len() > 0 && chars[0] == '+' {
        1
    } else {
        0
    };
    let ghost digits = without_plus(s@);
    assert(digits =~= s@.skip(start as int));
    if start == chars.len() {
        return None;
    }
    let mut value: u64 = 0;
    let mut i: usize = start;
    while i < chars.len()
        invariant
            chars@ == s@,
            start <= i <= chars@.len(),
            digits == without_plus(s@),
            digits == s@.skip(start as int),
            value == digits_value(digits.take(i - start)),
            value <= u32::MAX,
            forall|j: int| 0 <= j < i - start ==> is_digit(#[trigger] digits[j]),
        decreases chars@.len() - i,
    {
        let c: char = chars[i];
        assert(c == digits[i - start]);
        if c < '0' || c > '9' {
            return None;
        }
        let next: u64 = value * 10 + (c as u32 - '0' as u32) as u64;
        assert(digits.take(i + 1 - start).drop_last() =~= digits.take(i - start));
        assert(next == digits_value(digits.take(i + 1 - start)));
        if next > u32::MAX as u64 {
            proof {
                lemma_digits_value_grows(digits, i + 1 - start);
            }
            return None;
        }
        value = next;
        i = i + 1;
    }
    assert(digits.take(i - start) =~= digits);
    Some(value as u32)
}

/// Appends `n` in decimal.
pub fn push_decimal(text: &mut String, n: u64)
    ensures
        final(text)@ == old(text)@ + decimal(n as nat),
    decreases n,
{
    let ghost start = text@;
    if n >= 10 {
        push_decimal(text, n / 10);
    }
    let c: char = (48 + (n % 10) as u8) as char;
    assert(c == digit((n % 10) as nat));
    text.push(c);
    assert(text@ =~= start + decimal(n as nat));
}

/// A decimal number is made of digits and stands for the number that it was
/// written for.
pub proof fn lemma_decimal_value(n: nat)
    ensures
        all_digits(decimal(n)),
        digits_value(decimal(n)) == n,
    decreases n,
{
    if n < 10 {
        assert(digits_value(decimal(n).drop_last()) == 0);
    } else {
        lemma_decimal_value(n / 10);
        let front = decimal(n / 10);
        assert(decimal(n).drop_last() =~= front);
        assert forall|i: int| 0 <= i < decimal(n).len() implies is_digit(
            #[trigger] decimal(n)[i],
        ) by {
            if i < front.len() {
                assert(decimal(n)[i] == front[i]);
            }
        }
    }
}

/// Reading the decimal form of a `u32` gives that `u32` back.
pub proof fn law_decimal_reads_back(n: u32)
    ensures
        u32_of(decimal(n as nat)) == Some(n),
{
    lemma_decimal_value(n as nat);
    let s = decimal(n as nat);
    assert(is_digit(s[0]));
}

/// A number is written digit by digit: one below ten is its digit, and a larger
/// one is the number without its last digit, followed by that digit.
pub proof fn law_decimal_is_positional(n: nat, d: nat)
    requires
        d < 10,
    ensures
        decimal(d).len() == 1,
        decimal(d)[0] as u32 == 48 + d,
        n > 0 ==> decimal(10 * n + d) == decimal(n) + decimal(d),
{
    if n > 0 {
        assert((10 * n + d) / 10 == n);
        assert((10 * n + d) % 10 == d);
        assert(decimal(10 * n + d) =~= decimal(n) + decimal(d));
    }
}

/// Digits are read by their place value, as long as a `u32` can hold the
/// number, and a plus sign in front makes no difference.
pub proof fn law_digits_are_read_by_place(s: Seq<char>, c: char)
    requires
        '0' <= c <= '9',
        s.len() > 0 ==> s[0] != '+',
    ensures
        u32_of(seq![c]) == Some((c as u32 - 48) as u32),
        u32_of(s) matches Some(n) ==> u32_of(s.push(c)) == (if 10 * n + (c as u32 - 48)
            <= u32::MAX {
            Some((10 * n + (c as u32 - 48)) as u32)
        } else {
            None
        }),
        u32_of(s) is None && s.len() > 0 ==> u32_of(s.push(c)) is None,
        u32_of(seq!['+'] + s) == u32_of(s),
{
    let one = seq![c];
    assert(is_digit(one[0]));
    assert(digits_value(one.drop_last()) == 0);
    assert(without_plus(one) == one);
    let more = s.push(c);
    assert(more.drop_last() =~= s);
    assert(more.last() == c);
    if s.len() > 0 {
        assert(more[0] == s[0]);
        if all_digits(s) {
            assert forall|i: int| 0 <= i < more.len() implies is_digit(#[trigger] more[i]) by {
                if i < s.len() {
                    assert(more[i] == s[i]);
                }
            }
        } else {
            let i = choose|i: int| 0 <= i < s.len() && !is_digit(#[trigger] s[i]);
            assert(!is_digit(more[i]));
        }
    }
    assert((seq!['+'] + s).drop_first() =~= s);
}

/// A text that holds anything but digits, after a plus sign, is no number; nor
/// is an empty text or a plus sign alone.
pub proof fn law_only_digits_are_numbers(s: Seq<char>, i: int)
    requires
        0 <= i < s.len(),
        !('0' <= s[i] <= '9'),
        i > 0 || s[0] != '+',
    ensures
        u32_of(s) is None,
        u32_of(Seq::<char>::empty()) is None,
        u32_of(seq!['+']) is None,
{
    let digits = without_plus(s);
    if s[0] == '+' {
        assert(digits[i - 1] == s[i]);
    }
    assert(without_plus(seq!['+']).len() == 0);
}

} // verus!
