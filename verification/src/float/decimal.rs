//! Decimal text as a floating-point number.

use crate::float::signed::{infinity, nearest};
use crate::float::{binary64, F64};
use crate::text::{digits_value, Class};
use vstd::arithmetic::power2::pow2;
use vstd::prelude::*;

verus! {

/// The number that a text other than the name of what is not a number stands for, if it stands for
/// one.
pub uninterp spec fn decimal_float(text: Seq<char>) -> Option<F64>;

/// The number nearest to a whole one of any size.
pub open spec fn whole_float(n: nat) -> F64 {
    F64::of(nearest(binary64(), false, n * pow2(1074), 1))
}

/// Whether a text has a decimal digit.
pub open spec fn has_digit(text: Seq<char>) -> bool {
    exists|i: int| 0 <= i < text.len() && Class::Digit.has(#[trigger] text[i])
}

/// A text without the sign before it.
pub open spec fn without_sign(text: Seq<char>) -> Seq<char> {
    if text.len() > 0 && (text[0] == '+' || text[0] == '-') {
        text.drop_first()
    } else {
        text
    }
}

/// Whether a text is a name in lower case, but for the case of its letters.
pub open spec fn spells(text: Seq<char>, name: Seq<char>) -> bool {
    text.len() == name.len() && forall|i: int|
        0 <= i < name.len() ==> (#[trigger] text[i]) == name[i] || text[i] as u32 + 32
            == name[i] as u32
}

/// Whether a text, after its sign, is one of the two names of infinity.
pub open spec fn names_infinity(text: Seq<char>) -> bool {
    spells(without_sign(text), "inf"@) || spells(without_sign(text), "infinity"@)
}

/// Whether a text, after its sign, is the name of what is not a number.
pub open spec fn names_nan(text: Seq<char>) -> bool {
    spells(without_sign(text), "nan"@)
}

/// What a text is to the reading of numbers, as far as it is told here.
pub ghost enum FloatText {
    /// A row of decimal digits.
    Whole(nat),
    /// A name of infinity, and whether a minus sign stands before it.
    Infinity(bool),
    /// The name of what is not a number.
    Nan,
    /// No name, and without a digit: no number.
    Nothing,
    /// Digits with more: a sign, a point, an exponent, or what makes it no number.
    Other,
}

pub open spec fn float_in(text: Seq<char>) -> FloatText {
    match digits_value(text) {
        Some(n) => FloatText::Whole(n),
        None => if names_infinity(text) {
            FloatText::Infinity(text[0] == '-')
        } else if names_nan(text) {
            FloatText::Nan
        } else if has_digit(text) {
            FloatText::Other
        } else {
            FloatText::Nothing
        },
    }
}

/// `str::parse` of a binary64 number, handed back by its bits. What is not of its grammar is no
/// number; what is gives the nearest number. Of the grammar the contract states the rows of decimal
/// digits, the names of infinity and of what is not a number, and that any other text needs a
/// digit. It leaves signs, points and exponents with digits unsaid, and also which of the patterns
/// of what is not a number its name gives.
#[verifier::external_body]
fn parse_bits(text: &[char]) -> (r: Option<F64>)
    ensures
        !(float_in(text@) is Nan) ==> r == decimal_float(text@),
        match float_in(text@) {
            FloatText::Whole(n) => r == Some(whole_float(n)),
            FloatText::Infinity(negative) => r == Some(F64::of(infinity(binary64(), negative))),
            FloatText::Nan => r is Some,
            FloatText::Nothing => r is None,
            FloatText::Other => true,
        },
        r is Some ==> (r->Some_0.is_nan() <==> float_in(text@) is Nan),
{
    let text: String = text.iter().collect();
    match text.parse::<mlua::Number>() {
        Ok(number) => Some(F64 { bits: number.to_bits() }),
        Err(_) => None,
    }
}

/// The number that a text stands for, if it stands for one. The name of what is not a number gives
/// its quiet pattern.
pub open spec fn float_of(text: Seq<char>) -> Option<F64> {
    if float_in(text) is Nan {
        Some(F64 { bits: 0x7ff8_0000_0000_0000 })
    } else {
        decimal_float(text)
    }
}

/// Reads a number.
pub(crate) fn parse_float(text: &[char]) -> (r: Option<F64>)
    ensures
        r == float_of(text@),
        match float_in(text@) {
            FloatText::Whole(n) => r == Some(whole_float(n)),
            FloatText::Infinity(negative) => r == Some(F64::of(infinity(binary64(), negative))),
            FloatText::Nan => r is Some && r->Some_0.is_nan(),
            FloatText::Nothing => r is None,
            FloatText::Other => true,
        },
        r is Some ==> (r->Some_0.is_nan() <==> float_in(text@) is Nan),
{
    match parse_bits(text) {
        Some(number) => if number.is_nan() {
            Some(F64 { bits: 0x7ff8_0000_0000_0000 })
        } else {
            Some(number)
        },
        None => None,
    }
}

} // verus!
