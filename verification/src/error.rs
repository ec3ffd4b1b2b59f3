//! The failures of the decimal codec, and the text that describes each.

use vstd::prelude::*;
use vstd::string::StringExecFns;

verus! {

/// Why a decimal column value could not be checked or decoded.
#[derive(Debug)]
pub enum DecimalCqlError {
    /// The column is not a decimal column; the text names both types.
    MismatchedType(String),
    /// No bytes were supplied for the column value.
    FrameHasNoSlice(),
    /// Fewer bytes than the scale field needs; holds the number of bytes seen.
    ByteArrayTooShort(usize),
    /// The mantissa could not be brought to or from its sixteen bytes. The
    /// codec never gives this failure: its contracts rule it out.
    InvalidMantissaConversion(),
}

/// The character for one decimal digit.
pub open spec fn digit_char(digit: nat) -> char {
    if digit == 0 {
        '0'
    } else if digit == 1 {
        '1'
    } else if digit == 2 {
        '2'
    } else if digit == 3 {
        '3'
    } else if digit == 4 {
        '4'
    } else if digit == 5 {
        '5'
    } else if digit == 6 {
        '6'
    } else if digit == 7 {
        '7'
    } else if digit == 8 {
        '8'
    } else {
        '9'
    }
}

/// A number written in decimal, without sign or leading zeros.
pub open spec fn decimal_digits(n: nat) -> Seq<char>
    decreases n,
{
    if n < 10 {
        seq![digit_char(n)]
    } else {
        decimal_digits(n / 10).push(digit_char(n % 10))
    }
}

/// The digit that a character stands for; 0 for any character but `1` to
/// `9`.
pub open spec fn digit_value(c: char) -> nat {
    if c == '1' {
        1
    } else if c == '2' {
        2
    } else if c == '3' {
        3
    } else if c == '4' {
        4
    } else if c == '5' {
        5
    } else if c == '6' {
        6
    } else if c == '7' {
        7
    } else if c == '8' {
        8
    } else if c == '9' {
        9
    } else {
        0
    }
}

/// The number that a text of decimal digits spells.
pub open spec fn digits_value(text: Seq<char>) -> nat
    decreases text.len(),
{
    if text.len() == 0 {
        0
    } else {
        digits_value(text.drop_last()) * 10 + digit_value(text.last())
    }
}

/// The decimal form of a number spells that number, and starts with a zero
/// only where the number is zero.
pub proof fn lemma_decimal_digits_spell(n: nat)
    ensures
        decimal_digits(n).len() >= 1,
        digits_value(decimal_digits(n)) == n,
        decimal_digits(n)[0] == '0' <==> n == 0,
    decreases n,
{
    let text = decimal_digits(n);
    if n < 10 {
        assert(text.drop_last() =~= Seq::<char>::empty());
        assert(digits_value(text.drop_last()) == 0);
        assert(digit_value(text.last()) == n);
    } else {
        lemma_decimal_digits_spell(n / 10);
        assert(text.drop_last() =~= decimal_digits(n / 10));
        assert(digit_value(text.last()) == n % 10);
    }
}

impl DecimalCqlError {
    /// The sentence that describes this failure.
    pub open spec fn message_text(self) -> Seq<char> {
        match self {
            DecimalCqlError::MismatchedType(detail) => "Type Mismatch: "@ + detail@,
            DecimalCqlError::FrameHasNoSlice() => "Frame has no slice"@,
            DecimalCqlError::ByteArrayTooShort(len) => {
                "Byte array too short. Expected at least 4 bytes, got: "@ + decimal_digits(
                    len as nat,
                )
            },
            DecimalCqlError::InvalidMantissaConversion() => "Could not convert array to i128"@,
        }
    }

    /// Describes this failure in a sentence.
    pub fn message(&self) -> (text: String)
        ensures
            text@ == self.message_text(),
    {
        match self {
            DecimalCqlError::MismatchedType(detail) => {
                String::from_str("Type Mismatch: ").concat(detail.as_str())
            },
            DecimalCqlError::FrameHasNoSlice() => String::from_str("Frame has no slice"),
            DecimalCqlError::ByteArrayTooShort(len) => {
                let mut text = String::from_str(
                    "Byte array too short. Expected at least 4 bytes, got: ",
                );
                push_decimal(&mut text, *len);
                text
            },
            DecimalCqlError::InvalidMantissaConversion() => {
                String::from_str("Could not convert array to i128")
            },
        }
    }
}

/// The one-character text of a decimal digit.
fn digit_text(digit: usize) -> (text: &'static str)
    requires
        digit < 10,
    ensures
        text@ == seq![digit_char(digit as nat)],
{
    proof {
        reveal_strlit("0");
        reveal_strlit("1");
        reveal_strlit("2");
        reveal_strlit("3");
        reveal_strlit("4");
        reveal_strlit("5");
        reveal_strlit("6");
        reveal_strlit("7");
        reveal_strlit("8");
        reveal_strlit("9");
    }
    let text = if digit == 0 {
        "0"
    } else if digit == 1 {
        "1"
    } else if digit == 2 {
        "2"
    } else if digit == 3 {
        "3"
    } else if digit == 4 {
        "4"
    } else if digit == 5 {
        "5"
    } else if digit == 6 {
        "6"
    } else if digit == 7 {
        "7"
    } else if digit == 8 {
        "8"
    } else {
        "9"
    };
    assert(text@ =~= seq![digit_char(digit as nat)]);
    text
}

/// Appends `n`, written in decimal, to `out`.
fn push_decimal(out: &mut String, n: usize)
    ensures
        final(out)@ == old(out)@ + decimal_digits(n as nat),
    decreases n,
{
    if n >= 10 {
        push_decimal(out, n / 10);
    }
    out.append(digit_text(n % 10));
}

} // verus!
