//! Natural numbers written in decimal.

use vstd::prelude::*;

verus! {

/// The character that stands for `digit`, a number below ten.
pub open spec fn digit_char(digit: nat) -> char {
    ('0' as nat + digit) as char
}

/// The number that the decimal digit `c` stands for.
pub open spec fn digit_value(c: char) -> nat {
    (c as nat - '0' as nat) as nat
}

/// Whether `c` is one of the ten decimal digits.
pub open spec fn is_digit(c: char) -> bool {
    '0' <= c <= '9'
}

/// `number` in decimal, without leading zeros: `"0"` for zero.
pub open spec fn digits(number: nat) -> Seq<char>
    decreases number,
{
    if number < 10 {
        seq![digit_char(number)]
    } else {
        digits(number / 10).push(digit_char(number % 10))
    }
}

/// `count` times the character `'0'`.
pub open spec fn zeros(count: nat) -> Seq<char> {
    Seq::new(count, |i: int| '0')
}

/// `number` in decimal, with zeros put before it where it has fewer than
/// `width` digits. A number with more digits is written out in full.
pub open spec fn zero_padded(number: nat, width: nat) -> Seq<char> {
    if digits(number).len() >= width {
        digits(number)
    } else {
        zeros((width - digits(number).len()) as nat) + digits(number)
    }
}

/// The number that a sequence of decimal digits stands for, leading zeros
/// allowed.
pub open spec fn decimal_value(text: Seq<char>) -> nat
    decreases text.len(),
{
    if text.len() == 0 {
        0
    } else {
        decimal_value(text.drop_last()) * 10 + digit_value(text.last())
    }
}

/// Ten to the power of `exponent`.
pub open spec fn pow10(exponent: nat) -> nat
    decreases exponent,
{
    if exponent == 0 {
        1
    } else {
        10 * pow10((exponent - 1) as nat)
    }
}

/// A number is written with decimal digits only, and with at least one.
pub proof fn lemma_digits_are_digits(number: nat)
    ensures
        digits(number).len() >= 1,
        forall|i: int| 0 <= i < digits(number).len() ==> is_digit(#[trigger] digits(number)[i]),
    decreases number,
{
    if number >= 10 {
        lemma_digits_are_digits(number / 10);
    }
}

/// Reading back what was written gives the number.
pub proof fn lemma_digits_value(number: nat)
    ensures
        decimal_value(digits(number)) == number,
    decreases number,
{
    if number < 10 {
        assert(decimal_value(digits(number).drop_last()) == 0);
    } else {
        lemma_digits_value(number / 10);
        assert(digits(number).drop_last() =~= digits(number / 10));
    }
}

/// A number is written with at most `width` digits exactly when it is
/// below ten to the power of `width`.
pub proof fn lemma_digits_len(number: nat, width: nat)
    requires
        width >= 1,
    ensures
        digits(number).len() <= width <==> number < pow10(width),
    decreases width,
{
    reveal_with_fuel(pow10, 2);
    if width > 1 {
        lemma_digits_len(number / 10, (width - 1) as nat);
    }
    if number >= 10 {
        lemma_digits_are_digits(number / 10);
    }
}

/// Leading zeros do not change the number that is read.
pub proof fn lemma_zeros_value(count: nat, text: Seq<char>)
    ensures
        decimal_value(zeros(count) + text) == decimal_value(text),
    decreases text.len(),
{
    if text.len() == 0 {
        lemma_zeros_alone(count);
    } else {
        assert((zeros(count) + text).drop_last() =~= zeros(count) + text.drop_last());
        lemma_zeros_value(count, text.drop_last());
    }
}

/// Zeros alone read as zero.
proof fn lemma_zeros_alone(count: nat)
    ensures
        decimal_value(zeros(count)) == 0,
    decreases count,
{
    if count > 0 {
        assert(zeros(count).drop_last() =~= zeros((count - 1) as nat));
        lemma_zeros_alone((count - 1) as nat);
    }
}

/// A zero-padded number consists of decimal digits, is as long as the
/// longer of its width and its digits, and reads back as the number.
pub proof fn lemma_zero_padded(number: nat, width: nat)
    ensures
        zero_padded(number, width).len() == (if digits(number).len() >= width {
            digits(number).len()
        } else {
            width
        }),
        forall|i: int|
            0 <= i < zero_padded(number, width).len() ==> is_digit(
                #[trigger] zero_padded(number, width)[i],
            ),
        decimal_value(zero_padded(number, width)) == number,
{
    lemma_digits_are_digits(number);
    lemma_digits_value(number);
    if digits(number).len() < width {
        lemma_zeros_value((width - digits(number).len()) as nat, digits(number));
    }
}

/// The text of one decimal digit.
fn digit_text(digit: usize) -> (text: &'static str)
    requires
        digit < 10,
    ensures
        text@ == seq![digit_char(digit as nat)],
{
    proof {
        reveal_strlit("0");
        reveal_strlit("1");
        reveal_strlit("2");
        reveal_strlit("3");
        reveal_strlit("4");
        reveal_strlit("5");
        reveal_strlit("6");
        reveal_strlit("7");
        reveal_strlit("8");
        reveal_strlit("9");
    }
    if digit == 0 {
        "0"
    } else if digit == 1 {
        "1"
    } else if digit == 2 {
        "2"
    } else if digit == 3 {
        "3"
    } else if digit == 4 {
        "4"
    } else if digit == 5 {
        "5"
    } else if digit == 6 {
        "6"
    } else if digit == 7 {
        "7"
    } else if digit == 8 {
        "8"
    } else {
        "9"
    }
}

/// The number of digits that `number` is written with.
pub fn decimal_width(number: usize) -> (width: usize)
    ensures
        width == digits(number as nat).len(),
{
    let mut width: usize = 1;
    let mut rest: usize = number;
    while rest >= 10
        invariant
            width >= 1,
            width + rest <= number + 1,
            digits(number as nat).len() == digits(rest as nat).len() + width - 1,
        decreases rest,
    {
        rest = rest / 10;
        width = width + 1;
    }
    width
}

/// Appends `number` in decimal to `out`.
pub fn append_decimal(out: &mut String, number: usize)
    ensures
        final(out)@ == old(out)@ + digits(number as nat),
    decreases number,
{
    if number >= 10 {
        append_decimal(out, number / 10);
    }
    out.append(digit_text(number % 10));
}

/// Appends `number` in decimal to `out`, after as many zeros as it lacks
/// digits to `width`.
pub fn append_zero_padded(out: &mut String, number: usize, width: usize)
    ensures
        final(out)@ == old(out)@ + zero_padded(number as nat, width as nat),
{
    let mut length: usize = decimal_width(number);
    let ghost written = length;
    while length < width
        invariant
            written <= length,
            length <= width || length == written,
            out@ == old(out)@ + zeros((length - written) as nat),
        decreases width - length,
    {
        out.append("0");
        length = length + 1;
        proof {
            reveal_strlit("0");
        }
    }
    append_decimal(out, number);
}

} // verus!
