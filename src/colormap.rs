//! A rainbow-like colormap on the normalized level `0..=255` of a scalar.

use vstd::prelude::*;

verus! {

/// `a - b`, floored at zero.
pub open spec fn sat_sub(a: int, b: int) -> int {
    if a - b < 0 { 0 } else { a - b }
}

/// `a + b`, capped at 255.
pub open spec fn sat_add(a: int, b: int) -> int {
    if a + b > 255 { 255 } else { a + b }
}

/// `4 * a`, capped at 255.
pub open spec fn sat_quad(a: int) -> int {
    if 4 * a > 255 { 255 } else { 4 * a }
}

pub open spec fn min3(a: int, b: int, c: int) -> int {
    if a <= b && a <= c { a } else if b <= c { b } else { c }
}

pub open spec fn red_of(level: int) -> int {
    min3(255, sat_quad(sat_sub(level, 96)), 255 - sat_quad(sat_sub(level, 224)))
}

pub open spec fn green_of(level: int) -> int {
    min3(255, sat_quad(sat_sub(level, 32)), 255 - sat_quad(sat_sub(level, 160)))
}

pub open spec fn blue_of(level: int) -> int {
    min3(255, sat_quad(sat_add(level, 127)), 255 - sat_quad(sat_sub(level, 96)))
}

/// The color of a normalized level, as the sequence `[r, g, b]`.
pub open spec fn color_of_level(level: u8) -> Seq<u8> {
    seq![red_of(level as int) as u8, green_of(level as int) as u8, blue_of(level as int) as u8]
}

/// The three ramps of a channel lie in the byte range, so the channel does too.
pub proof fn lemma_channels_in_byte_range(level: u8)
    ensures
        0 <= red_of(level as int) <= 255,
        0 <= green_of(level as int) <= 255,
        0 <= blue_of(level as int) <= 255,
{
}

/// The colormap is a function of the level alone: equal levels give equal colors.
pub proof fn lemma_color_is_deterministic(a: u8, b: u8)
    requires
        a == b,
    ensures
        color_of_level(a) == color_of_level(b),
{
}

/// `max(0, level - threshold) * 4`, saturating at the byte bounds.
fn quad_above(level: u8, threshold: u8) -> (r: u8)
    ensures
        r as int == sat_quad(sat_sub(level as int, threshold as int)),
{
    let d: u8 = match level.checked_sub(threshold) {
        Some(d) => d,
        None => 0,
    };
    match d.checked_mul(4) {
        Some(m) => m,
        None => 255,
    }
}

fn min_of_three(a: u8, b: u8, c: u8) -> (r: u8)
    ensures
        r as int == min3(a as int, b as int, c as int),
{
    if a <= b && a <= c {
        a
    } else if b <= c {
        b
    } else {
        c
    }
}

/// Maps a normalized level to its RGB color.
pub fn rgb_of_level(level: u8) -> (rgb: [u8; 3])
    ensures
        rgb@ == color_of_level(level),
{
    let r = min_of_three(255, quad_above(level, 96), 255 - quad_above(level, 224));
    let g = min_of_three(255, quad_above(level, 32), 255 - quad_above(level, 160));
    let sum: u8 = match level.checked_add(127) {
        Some(s) => s,
        None => 255,
    };
    let rising: u8 = match sum.checked_mul(4) {
        Some(m) => m,
        None => 255,
    };
    let b = min_of_three(255, rising, 255 - quad_above(level, 96));
    let rgb = [r, g, b];
    assert(rgb@ =~= color_of_level(level));
    rgb
}

} // verus!
