//! Numbers as decimal text.
use crate::text::chars_of;
use vstd::prelude::*;

verus! {

/// The decimal digit of a number below ten.
pub open spec fn digit_of(n: nat) -> char {
    (48 + n) as char
}

/// A natural number in decimal, without leading zeros.
pub open spec fn decimal(n: nat) -> Seq<char>
    decreases n,
{
    if n < 10 {
        seq![digit_of(n)]
    } else {
        decimal(n / 10).push(digit_of(n % 10))
    }
}

/// An integer in decimal, with a minus sign if it is negative.
pub open spec fn signed_decimal(n: int) -> Seq<char> {
    if n < 0 {
        seq!['-'] + decimal((-n) as nat)
    } else {
        decimal(n as nat)
    }
}

/// Writes a natural number in decimal.
pub fn decimal_text(n: u128) -> (text: String)
    ensures
        text@ == decimal(n as nat),
    decreases n,
{
    let digit: u8 = 48 + (n % 10) as u8;
    if n < 10 {
        let mut text = String::new();
        text.push(digit as char);
        assert(text@ =~= seq![digit_of(n as nat)]);
        text
    } else {
        let mut text = decimal_text(n / 10);
        text.push(digit as char);
        text
    }
}

/// Writes an integer in decimal.
pub fn signed_decimal_text(n: i64) -> (text: String)
    ensures
        text@ == signed_decimal(n as int),
{
    if n < 0 {
        let mut text = String::new();
        text.push('-');
        let magnitude: i128 = -(n as i128);
        let digits = decimal_text(magnitude as u128);
        text.append(digits.as_str());
        assert(text@ =~= seq!['-'] + digits@);
        text
    } else {
        decimal_text(n as u128)
    }
}

/// Whether `c` is one of the digits `0` to `9`.
pub open spec fn is_digit(c: char) -> bool {
    48 <= c as u32 <= 57
}

/// Whether `s` is a non-empty run of the digits `0` to `9`.
pub open spec fn is_numeral(s: Seq<char>) -> bool {
    s.len() > 0 && forall|i: int| 0 <= i < s.len() ==> is_digit(#[trigger] s[i])
}

/// The number that a run of digits stands for.
pub open spec fn number_of(s: Seq<char>) -> nat
    decreases s.len(),
{
    if s.len() == 0 {
        0
    } else {
        number_of(s.drop_last()) * 10 + (s.last() as u32 - 48) as nat
    }
}

/// `s` without one plus sign at its start.
pub open spec fn unsigned_part(s: Seq<char>) -> Seq<char> {
    if s.len() > 0 && s[0] == '+' {
        s.drop_first()
    } else {
        s
    }
}

/// The number that `s` reads as: digits, with or without a plus sign before them, of a value that
/// 32 bits can hold.
pub open spec fn parsed_u32(s: Seq<char>) -> Option<u32> {
    let digits = unsigned_part(s);
    if is_numeral(digits) && number_of(digits) <= u32::MAX {
        Some(number_of(digits) as u32)
    } else {
        None
    }
}

/// Reads a decimal number of 32 bits.
pub fn parse_u32(text: &str) -> (number: Option<u32>)
    ensures
        number == parsed_u32(text@),
{
    let chars = chars_of(text);
    let start: usize = if chars.len() > 0 && chars[0] == '+' {
        1
    } else {
        0
    };
    let ghost digits = unsigned_part(text@);
    assert(digits =~= chars@.skip(start as int));
    if start == chars.len() {
        return None;
    }
    let mut value: u32 = 0;
    let mut i: usize = start;
    let mut fits: bool = true;
    while i < chars.len()
        invariant
            chars@ == text@,
            start <= i <= chars@.len(),
            digits == unsigned_part(text@),
            digits == chars@.skip(start as int),
            forall|j: int| start <= j < i ==> is_digit(#[trigger] chars@[j]),
            fits ==> value == number_of(digits.take(i - start)),
            !fits ==> number_of(digits.take(i - start)) > u32::MAX,
        decreases chars@.len() - i,
    {
        let c: u32 = chars[i] as u32;
        if c < 48 || c > 57 {
            assert(!is_digit(digits[i - start]));
            return None;
        }
        assert(digits.take(i - start + 1).drop_last() =~= digits.take(i - start));
        assert(digits.take(i - start + 1).last() == chars@[i as int]);
        if fits {
            let next: u64 = value as u64 * 10 + (c - 48) as u64;
            if next > u32::MAX as u64 {
                fits = false;
            } else {
                value = next as u32;
            }
        }
        i += 1;
    }
    assert(digits.take(i - start) =~= digits);
    assert forall|j: int| 0 <= j < digits.len() implies is_digit(#[trigger] digits[j]) by {
        assert(is_digit(chars@[start + j]));
    }
    if fits {
        Some(value)
    } else {
        None
    }
}

/// A number in decimal is a run of digits that stands for it.
proof fn lemma_decimal(n: nat)
    ensures
        is_numeral(decimal(n)),
        number_of(decimal(n)) == n,
    decreases n,
{
    if n >= 10 {
        lemma_decimal(n / 10);
        let front = decimal(n / 10);
        let whole = decimal(n);
        assert(whole.drop_last() =~= front);
        assert forall|i: int| 0 <= i < whole.len() implies is_digit(#[trigger] whole[i]) by {
            if i < front.len() {
                assert(whole[i] == front[i]);
            }
        }
    } else {
        let whole = decimal(n);
        assert(whole.drop_last() =~= seq![]);
        assert(number_of(whole.drop_last()) == 0);
    }
}

/// A number of 32 bits that is written in decimal is read back.
pub proof fn law_numbers_are_read_back(n: u32)
    ensures
        parsed_u32(decimal(n as nat)) == Some(n),
{
    lemma_decimal(n as nat);
    assert(is_digit(decimal(n as nat)[0]));
}

/// Each further digit of a number stands behind the others. A negative number has a minus sign in
/// front of its magnitude.
pub proof fn law_digits_stand_in_their_order(n: nat, digit: nat, c: char)
    requires
        digit < 10,
        c as u32 == '0' as u32 + digit,
    ensures
        decimal(digit) == seq![c],
        n > 0 ==> decimal(n * 10 + digit) == decimal(n) + seq![c],
        signed_decimal(n as int) == decimal(n),
        n > 0 ==> signed_decimal(-n) == seq!['-'] + decimal(n),
{
    assert((48 + digit) as char == c);
    assert(decimal(digit) =~= seq![c]);
    if n > 0 {
        assert((n * 10 + digit) / 10 == n);
        assert((n * 10 + digit) % 10 == digit);
        assert(decimal(n * 10 + digit) =~= decimal(n) + seq![c]);
    }
}

/// A text with a character other than the digits, but for one plus sign in front, is no number, nor
/// is one without any digit. A number that 32 bits cannot hold is not read.
pub proof fn law_other_texts_are_no_numbers(s: Seq<char>, i: int, n: nat)
    ensures
        0 <= i < s.len() && !('0' as u32 <= s[i] as u32 <= '9' as u32) && !(i == 0 && s[i] == '+')
            ==> parsed_u32(s) is None,
        s.len() == 0 ==> parsed_u32(s) is None,
        s == seq!['+'] ==> parsed_u32(s) is None,
        n > u32::MAX ==> parsed_u32(decimal(n)) is None,
{
    let digits = unsigned_part(s);
    if 0 <= i < s.len() && !('0' as u32 <= s[i] as u32 <= '9' as u32) && !(i == 0 && s[i] == '+') {
        if digits.len() < s.len() {
            assert(digits[i - 1] == s[i]);
            assert(!is_digit(digits[i - 1]));
        } else {
            assert(!is_digit(digits[i]));
        }
    }
    lemma_decimal(n);
    assert(is_digit(decimal(n)[0]));
}

proof fn lemma_leading_zero(s: Seq<char>)
    ensures
        number_of(seq!['0'] + s) == number_of(s),
        is_numeral(s) ==> is_numeral(seq!['0'] + s),
    decreases s.len(),
{
    let longer = seq!['0'] + s;
    if s.len() > 0 {
        assert(longer.drop_last() =~= seq!['0'] + s.drop_last());
        assert(longer.last() == s.last());
        lemma_leading_zero(s.drop_last());
    } else {
        assert(longer.drop_last() =~= s);
        assert(longer.last() == '0');
    }
    if is_numeral(s) {
        assert forall|i: int| 0 <= i < longer.len() implies is_digit(#[trigger] longer[i]) by {
            if i > 0 {
                assert(longer[i] == s[i - 1]);
            }
        }
    }
}

/// Zeros in front of a number change nothing, nor does a plus sign.
pub proof fn law_leading_zeros_change_nothing(s: Seq<char>)
    requires
        is_numeral(s),
    ensures
        parsed_u32(seq!['0'] + s) == parsed_u32(s),
        parsed_u32(seq!['+'] + s) == parsed_u32(s),
{
    lemma_leading_zero(s);
    assert(is_digit(s[0]));
    assert((seq!['+'] + s).drop_first() =~= s);
}

} // verus!
