//! Coordinates: degrees held as integers scaled by ten million (E7), and
//! their spelling as JSON numbers.

use crate::decimal::{digit, digit_char, natural_text, padded_text, push_natural, push_padded};
use vstd::prelude::*;

verus! {

/// The number of E7 units in one degree.
pub const E7_PER_DEGREE: u64 = 10_000_000;

/// The digits after the decimal point: the last `width` digits of `frac`
/// without trailing zeros, of which the first digit always stays.
pub open spec fn fraction_text(frac: nat, width: nat) -> Seq<char>
    decreases width,
{
    if width <= 1 {
        seq![digit_char((frac % 10) as int)]
    } else if frac % 10 == 0 {
        fraction_text(frac / 10, (width - 1) as nat)
    } else {
        padded_text(frac, width)
    }
}

/// A magnitude under a hundred E7 units, which is less than a hundred
/// thousandth of a degree, in scientific notation: `5e-7`, `1e-6`, `2.5e-6`.
pub open spec fn tiny_text(units: nat) -> Seq<char> {
    if units < 10 {
        seq![digit_char(units as int), 'e', '-', '7']
    } else if units % 10 == 0 {
        seq![digit_char((units / 10) as int), 'e', '-', '6']
    } else {
        seq![digit_char((units / 10) as int), '.', digit_char((units % 10) as int), 'e', '-', '6']
    }
}

/// A magnitude of E7 units in degrees: whole degrees, a point and the
/// fraction, or scientific notation below a hundred units. Zero is `0.0`.
pub open spec fn magnitude_text(units: nat) -> Seq<char> {
    if 0 < units < 100 {
        tiny_text(units)
    } else {
        natural_text(units / 10_000_000) + seq!['.'] + fraction_text(units % 10_000_000, 7)
    }
}

/// An E7 coordinate in degrees as a JSON number: `420000000` is `42.0`,
/// `123456789` is `12.3456789`, `-5` is `-5e-7`. The digits are those of the
/// exact quotient. Up to fifteen digits of magnitude, which is far more than
/// a place on the globe takes, this is also how JSON writers spell the
/// double-precision number nearest to the quotient.
pub open spec fn coordinate_text(e7: int) -> Seq<char> {
    if e7 < 0 {
        seq!['-'] + magnitude_text((-e7) as nat)
    } else {
        magnitude_text(e7 as nat)
    }
}

/// Appends the last `width` digits of `frac` without trailing zeros, of
/// which the first digit always stays.
fn push_fraction(out: &mut String, frac: u64, width: u8)
    ensures
        final(out)@ == old(out)@ + fraction_text(frac as nat, width as nat),
    decreases width,
{
    if width <= 1 {
        out.push(digit((frac % 10) as u8));
    } else if frac % 10 == 0 {
        push_fraction(out, frac / 10, width - 1);
    } else {
        push_padded(out, frac, width);
    }
}

/// Appends a magnitude of less than a hundred E7 units in scientific notation.
fn push_tiny(out: &mut String, units: u64)
    requires
        units < 100,
    ensures
        final(out)@ == old(out)@ + tiny_text(units as nat),
{
    if units < 10 {
        out.push(digit(units as u8));
        out.push('e');
        out.push('-');
        out.push('7');
    } else {
        out.push(digit((units / 10) as u8));
        if units % 10 != 0 {
            out.push('.');
            out.push(digit((units % 10) as u8));
        }
        out.push('e');
        out.push('-');
        out.push('6');
    }
    assert(out@ =~= old(out)@ + tiny_text(units as nat));
}

/// Appends an E7 coordinate in degrees.
pub fn push_coordinate(out: &mut String, e7: i64)
    ensures
        final(out)@ == old(out)@ + coordinate_text(e7 as int),
{
    let units: u64 = if e7 >= 0 {
        e7 as u64
    } else if e7 == i64::MIN {
        9_223_372_036_854_775_808u64
    } else {
        (-e7) as u64
    };
    if e7 < 0 {
        out.push('-');
    }
    if 0 < units && units < 100 {
        push_tiny(out, units);
    } else {
        push_natural(out, units / E7_PER_DEGREE);
        out.push('.');
        push_fraction(out, units % E7_PER_DEGREE, 7);
    }
    assert(out@ =~= old(out)@ + coordinate_text(e7 as int));
}

/// An E7 coordinate in degrees, as text.
pub fn coordinate_string(e7: i64) -> (text: String)
    ensures
        text@ == coordinate_text(e7 as int),
{
    let mut text = String::new();
    push_coordinate(&mut text, e7);
    text
}

} // verus!
