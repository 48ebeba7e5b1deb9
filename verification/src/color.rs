//! Colors with integer channels.

use vstd::prelude::*;
use vstd::string::*;
use crate::units::{clamp, floor_div, interpolate, lemma_floor_div_bounds, lemma_lerp_bounds, lerp, FULL};

verus! {

/// A color with red, green, blue and alpha channels.
#[derive(Clone, Copy, PartialEq, Eq, Structural, Debug)]
pub struct Color(pub u8, pub u8, pub u8, pub u8);

/// One channel scaled by `amount / FULL`, rounded down; `amount` is limited to `FULL`.
pub open spec fn darkened(channel: int, amount: int) -> int {
    floor_div(channel * clamp(amount, 0, FULL as int), FULL as int)
}

/// The color reached `progress / FULL` of the way from `from` to `to`, each channel
/// on its own and rounded to the nearest integer.
pub open spec fn blend(from: Color, to: Color, progress: int) -> Color {
    Color(
        lerp(from.0 as int, to.0 as int, progress) as u8,
        lerp(from.1 as int, to.1 as int, progress) as u8,
        lerp(from.2 as int, to.2 as int, progress) as u8,
        lerp(from.3 as int, to.3 as int, progress) as u8,
    )
}

fn darken_channel(channel: u8, amount: u32) -> (r: u8)
    ensures
        r == darkened(channel as int, amount as int),
        r <= channel,
{
    let amount: u64 = if amount > FULL {
        FULL as u64
    } else {
        amount as u64
    };
    proof {
        assert(channel * amount <= 255 * 1_000_000) by (nonlinear_arith)
            requires
                channel <= 255,
                amount <= 1_000_000,
        ;
    }
    let scaled: u64 = channel as u64 * amount;
    let r: u64 = scaled / (FULL as u64);
    proof {
        lemma_floor_div_bounds(scaled as int, FULL as int, r as int);
        assert(r <= channel) by (nonlinear_arith)
            requires
                r * 1_000_000 <= scaled,
                scaled == channel * amount,
                amount <= 1_000_000,
        ;
    }
    r as u8
}

fn blend_channel(from: u8, to: u8, progress: u32) -> (r: u8)
    requires
        progress <= FULL,
    ensures
        r == lerp(from as int, to as int, progress as int),
{
    proof {
        lemma_lerp_bounds(from as int, to as int, progress as int);
    }
    interpolate(from as i64, to as i64, progress) as u8
}

/// The character of a decimal digit.
pub open spec fn digit(d: int) -> char {
    if d == 0 {
        '0'
    } else if d == 1 {
        '1'
    } else if d == 2 {
        '2'
    } else if d == 3 {
        '3'
    } else if d == 4 {
        '4'
    } else if d == 5 {
        '5'
    } else if d == 6 {
        '6'
    } else if d == 7 {
        '7'
    } else if d == 8 {
        '8'
    } else {
        '9'
    }
}

/// The decimal digits of a number, without leading zeros.
pub open spec fn decimal(n: int) -> Seq<char>
    decreases n,
{
    if n < 10 {
        seq![digit(n)]
    } else {
        decimal(n / 10).push(digit(n % 10))
    }
}

/// The color in the notation of style sheets: `rgba(r, g, b, a)`, each channel a
/// decimal number from 0 to 255.
pub open spec fn css_text(c: Color) -> Seq<char> {
    "rgba("@ + decimal(c.0 as int) + ", "@ + decimal(c.1 as int) + ", "@ + decimal(c.2 as int)
        + ", "@ + decimal(c.3 as int) + ")"@
}

fn digit_text(d: u8) -> (s: &'static str)
    requires
        d < 10,
    ensures
        s@ == seq![digit(d as int)],
{
    proof {
        reveal_strlit("0");
        reveal_strlit("1");
        reveal_strlit("2");
        reveal_strlit("3");
        reveal_strlit("4");
        reveal_strlit("5");
        reveal_strlit("6");
        reveal_strlit("7");
        reveal_strlit("8");
        reveal_strlit("9");
    }
    let s: &'static str = match d {
        0 => "0",
        1 => "1",
        2 => "2",
        3 => "3",
        4 => "4",
        5 => "5",
        6 => "6",
        7 => "7",
        8 => "8",
        _ => "9",
    };
    assert(s@ =~= seq![digit(d as int)]);
    s
}

fn append_decimal(text: &mut String, n: u8)
    ensures
        final(text)@ == old(text)@ + decimal(n as int),
{
    if n >= 100 {
        text.append(digit_text(n / 100));
        text.append(digit_text(n / 10 % 10));
        text.append(digit_text(n % 10));
        assert(decimal(n as int / 10 / 10) == seq![digit(n as int / 100)]);
        assert(decimal(n as int / 10) == decimal(n as int / 10 / 10).push(digit(n as int / 10 % 10)));
        assert(text@ =~= old(text)@ + decimal(n as int));
    } else if n >= 10 {
        text.append(digit_text(n / 10));
        text.append(digit_text(n % 10));
        assert(decimal(n as int / 10) == seq![digit(n as int / 10)]);
        assert(text@ =~= old(text)@ + decimal(n as int));
    } else {
        text.append(digit_text(n));
        assert(text@ =~= old(text)@ + decimal(n as int));
    }
}

impl Color {
    /// The color in the notation of style sheets.
    pub fn as_css(&self) -> (text: String)
        ensures
            text@ == css_text(*self),
    {
        let mut text: String = "rgba(".to_owned();
        append_decimal(&mut text, self.0);
        text.append(", ");
        append_decimal(&mut text, self.1);
        text.append(", ");
        append_decimal(&mut text, self.2);
        text.append(", ");
        append_decimal(&mut text, self.3);
        text.append(")");
        text
    }

    /// An opaque color with the given red, green and blue channels.
    pub fn rgb(r: u8, g: u8, b: u8) -> (c: Color)
        ensures
            c == Color(r, g, b, 255),
    {
        Color(r, g, b, 255)
    }

    /// Scales the red, green and blue channels by `amount / FULL`, rounding down.
    /// An `amount` above `FULL` counts as `FULL`; the alpha channel is kept.
    pub fn darken(&self, amount: u32) -> (c: Color)
        ensures
            c == Color(
                darkened(self.0 as int, amount as int) as u8,
                darkened(self.1 as int, amount as int) as u8,
                darkened(self.2 as int, amount as int) as u8,
                self.3,
            ),
    {
        Color(
            darken_channel(self.0, amount),
            darken_channel(self.1, amount),
            darken_channel(self.2, amount),
            self.3,
        )
    }

    /// The color `progress / FULL` of the way from this color to `other`.
    pub fn morph(&self, other: &Color, progress: u32) -> (c: Color)
        requires
            progress <= FULL,
        ensures
            c == blend(*self, *other, progress as int),
    {
        Color(
            blend_channel(self.0, other.0, progress),
            blend_channel(self.1, other.1, progress),
            blend_channel(self.2, other.2, progress),
            blend_channel(self.3, other.3, progress),
        )
    }
}

/// Blending starts at the first color and ends at the second.
pub proof fn lemma_blend_endpoints(from: Color, to: Color)
    ensures
        blend(from, to, 0) == from,
        blend(from, to, FULL as int) == to,
{
    lemma_lerp_bounds(from.0 as int, to.0 as int, 0);
    lemma_lerp_bounds(from.1 as int, to.1 as int, 0);
    lemma_lerp_bounds(from.2 as int, to.2 as int, 0);
    lemma_lerp_bounds(from.3 as int, to.3 as int, 0);
}

} // verus!
