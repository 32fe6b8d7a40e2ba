//! From accumulated colour to the pixels of an image.

use crate::fixed::{spec_sqrt, sqrt, tdiv, Scalar, ONE};
use crate::utils::{clamp, spec_clamp};
use crate::vector::Color;
use vstd::prelude::*;

verus! {

/// The brightest a channel may be before it is scaled to a level: 0.999.
pub const BRIGHTEST: Scalar = 999_000_000;

/// The level, from 0 to 255, of a channel whose values over `samples`
/// samples add up to `total`: the mean is gamma-corrected by a square
/// root, held within `[0, BRIGHTEST]`, multiplied by 256 and rounded down.
/// A negative mean has the square root 0.
pub open spec fn spec_level(total: int, samples: int) -> int {
    spec_clamp(spec_sqrt(tdiv(total, samples)), 0, BRIGHTEST as int) * 256 / (ONE as int)
}

/// The level of one channel.
pub fn channel_level(total: Scalar, samples: usize) -> (r: u8)
    requires
        samples > 0,
    ensures
        r == spec_level(total as int, samples as int),
{
    let n: i128 = samples as i128;
    let mean: i128 = (total as i128) / n;
    assert(mean == tdiv(total as int, samples as int) && -9_223_372_036_854_775_808 <= mean
        <= 9_223_372_036_854_775_807) by (nonlinear_arith)
        requires
            n == samples as int,
            n > 0,
            -9_223_372_036_854_775_808 <= total <= 9_223_372_036_854_775_807,
            mean == (if total >= 0 {
                (total as int) / n as int
            } else {
                -((-(total as int)) / n as int)
            }),
    ;
    let corrected: Scalar = clamp(sqrt(mean as i64), 0, BRIGHTEST);
    let level: i64 = corrected * 256 / ONE;
    level as u8
}

/// The three levels of a pixel whose colour over `samples` samples adds up
/// to `total`: red, green, blue.
pub fn color_levels(total: &Color, samples: usize) -> (r: (u8, u8, u8))
    requires
        samples > 0,
    ensures
        r.0 == spec_level(total@.x, samples as int),
        r.1 == spec_level(total@.y, samples as int),
        r.2 == spec_level(total@.z, samples as int),
{
    (
        channel_level(total.x(), samples),
        channel_level(total.y(), samples),
        channel_level(total.z(), samples),
    )
}

/// The decimal digits of `n`, most significant first, as ASCII codes.
pub open spec fn decimal(n: nat) -> Seq<u8>
    decreases n,
{
    if n < 10 {
        seq![(48 + n) as u8]
    } else {
        decimal(n / 10).push((48 + n % 10) as u8)
    }
}

/// The text of a pixel: its three levels in decimal, separated by single
/// spaces, as ASCII codes.
pub open spec fn pixel_text(red: u8, green: u8, blue: u8) -> Seq<u8> {
    decimal(red as nat).push(32u8) + decimal(green as nat).push(32u8) + decimal(blue as nat)
}

/// Appends the decimal digits of `level` to `text`.
fn push_decimal(text: &mut Vec<u8>, level: u8)
    ensures
        final(text)@ == old(text)@ + decimal(level as nat),
{
    let ghost before = text@;
    if level >= 100 {
        text.push(48 + level / 100);
    }
    if level >= 10 {
        text.push(48 + (level / 10) % 10);
    }
    text.push(48 + level % 10);
    proof {
        reveal_with_fuel(decimal, 3);
        let n = level as nat;
        if level >= 100 {
            assert(decimal(n) == seq![(48 + n / 100) as u8, (48 + (n / 10) % 10) as u8, (48 + n
                % 10) as u8]);
        } else if level >= 10 {
            assert(decimal(n) == seq![(48 + n / 10) as u8, (48 + n % 10) as u8]);
        }
        assert(text@ == before + decimal(n));
    }
}

/// The text of the pixel whose colour over `samples` samples adds up to
/// `pixel_color`: its three levels, red, green, blue.
pub fn write_color(pixel_color: &Color, samples: usize) -> (r: Vec<u8>)
    requires
        samples > 0,
    ensures
        r@ == pixel_text(
            spec_level(pixel_color@.x, samples as int) as u8,
            spec_level(pixel_color@.y, samples as int) as u8,
            spec_level(pixel_color@.z, samples as int) as u8,
        ),
{
    let (red, green, blue) = color_levels(pixel_color, samples);
    let mut text: Vec<u8> = Vec::new();
    push_decimal(&mut text, red);
    text.push(32);
    push_decimal(&mut text, green);
    text.push(32);
    push_decimal(&mut text, blue);
    proof {
        assert(text@ == pixel_text(red, green, blue));
    }
    text
}

/// The column, counted from the left, and the row, counted from the
/// bottom, of the pixel written at place `index`, when an image `width`
/// wide and `height` high is written row by row from the top.
pub fn pixel_position(index: usize, width: usize, height: usize) -> (r: (usize, usize))
    requires
        width > 0,
        index < width * height,
    ensures
        r.0 == index % width,
        r.1 == height - 1 - index / width,
        r.0 < width,
        r.1 < height,
        index == (height - 1 - r.1) * width + r.0,
{
    let row_from_top: usize = index / width;
    proof {
        vstd::arithmetic::div_mod::lemma_fundamental_div_mod(index as int, width as int);
        assert(row_from_top < height) by (nonlinear_arith)
            requires
                index < width * height,
                width * row_from_top <= index,
                width > 0,
        ;
        assert(width * row_from_top == row_from_top * width) by (nonlinear_arith);
    }
    (index % width, height - 1 - row_from_top)
}

} // verus!
