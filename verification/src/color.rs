//! RGBA colors and the 256-entry terminal palette.

use vstd::prelude::*;

verus! {

/// An RGBA color. Channel values run from 0 to 255; `a == 0` marks the fully
/// transparent color used as the default background.
#[derive(Clone, Copy, Debug, PartialEq, Eq, Structural)]
pub struct Color {
    pub r: u8,
    pub g: u8,
    pub b: u8,
    pub a: u8,
}

pub open spec fn spec_rgb(r: u8, g: u8, b: u8) -> Color {
    Color { r, g, b, a: 255 }
}

#[verifier::when_used_as_spec(spec_rgb)]
pub fn rgb(r: u8, g: u8, b: u8) -> (c: Color)
    ensures
        c == spec_rgb(r, g, b),
{
    Color { r, g, b, a: 255 }
}

pub open spec fn spec_gray(v: u8) -> Color {
    spec_rgb(v, v, v)
}

#[verifier::when_used_as_spec(spec_gray)]
pub fn gray(v: u8) -> (c: Color)
    ensures
        c == spec_gray(v),
{
    rgb(v, v, v)
}

pub open spec fn spec_black() -> Color {
    spec_rgb(0, 0, 0)
}

#[verifier::when_used_as_spec(spec_black)]
pub fn black() -> (c: Color)
    ensures
        c == spec_black(),
{
    rgb(0, 0, 0)
}

pub open spec fn spec_red() -> Color {
    spec_rgb(255, 0, 0)
}

#[verifier::when_used_as_spec(spec_red)]
pub fn red() -> (c: Color)
    ensures
        c == spec_red(),
{
    rgb(255, 0, 0)
}

pub open spec fn spec_green() -> Color {
    spec_rgb(0, 255, 0)
}

#[verifier::when_used_as_spec(spec_green)]
pub fn green() -> (c: Color)
    ensures
        c == spec_green(),
{
    rgb(0, 255, 0)
}

pub open spec fn spec_yellow() -> Color {
    spec_rgb(255, 255, 0)
}

#[verifier::when_used_as_spec(spec_yellow)]
pub fn yellow() -> (c: Color)
    ensures
        c == spec_yellow(),
{
    rgb(255, 255, 0)
}

pub open spec fn spec_blue() -> Color {
    spec_rgb(0, 0, 255)
}

#[verifier::when_used_as_spec(spec_blue)]
pub fn blue() -> (c: Color)
    ensures
        c == spec_blue(),
{
    rgb(0, 0, 255)
}

pub open spec fn spec_magenta() -> Color {
    spec_rgb(255, 0, 255)
}

#[verifier::when_used_as_spec(spec_magenta)]
pub fn magenta() -> (c: Color)
    ensures
        c == spec_magenta(),
{
    rgb(255, 0, 255)
}

pub open spec fn spec_cyan() -> Color {
    spec_rgb(0, 255, 255)
}

#[verifier::when_used_as_spec(spec_cyan)]
pub fn cyan() -> (c: Color)
    ensures
        c == spec_cyan(),
{
    rgb(0, 255, 255)
}

pub open spec fn spec_white() -> Color {
    spec_rgb(255, 255, 255)
}

#[verifier::when_used_as_spec(spec_white)]
pub fn white() -> (c: Color)
    ensures
        c == spec_white(),
{
    rgb(255, 255, 255)
}

pub open spec fn spec_transparent() -> Color {
    Color { r: 0, g: 0, b: 0, a: 0 }
}

#[verifier::when_used_as_spec(spec_transparent)]
pub fn transparent() -> (c: Color)
    ensures
        c == spec_transparent(),
{
    Color { r: 0, g: 0, b: 0, a: 0 }
}

/// One channel brightened by a fifth of its value, saturating at 255.
pub open spec fn spec_bright_channel(v: u8) -> u8 {
    if v * 6 / 5 > 255 {
        255
    } else {
        (v * 6 / 5) as u8
    }
}

fn bright_channel(v: u8) -> (r: u8)
    ensures
        r == spec_bright_channel(v),
{
    let w: u32 = v as u32 * 6 / 5;
    if w > 255 {
        255
    } else {
        w as u8
    }
}

pub open spec fn spec_to_bright(c: Color) -> Color {
    Color {
        r: spec_bright_channel(c.r),
        g: spec_bright_channel(c.g),
        b: spec_bright_channel(c.b),
        a: 255,
    }
}

/// The "bright" variant of a base color: every channel raised by a fifth,
/// saturating at 255; the result is fully opaque.
#[verifier::when_used_as_spec(spec_to_bright)]
pub fn to_bright(color: Color) -> (c: Color)
    ensures
        c == spec_to_bright(color),
{
    rgb(bright_channel(color.r), bright_channel(color.g), bright_channel(color.b))
}

/// One channel dimmed to four fifths of its value, as the SGR "faint"
/// attribute renders it.
pub open spec fn spec_faint_channel(v: u8) -> u8 {
    (v * 4 / 5) as u8
}

fn faint_channel(v: u8) -> (r: u8)
    ensures
        r == spec_faint_channel(v),
{
    (v as u16 * 4 / 5) as u8
}

pub open spec fn spec_to_faint(c: Color) -> Color {
    Color {
        r: spec_faint_channel(c.r),
        g: spec_faint_channel(c.g),
        b: spec_faint_channel(c.b),
        a: 255,
    }
}

/// A color darkened by a fifth, used to render the SGR "faint" attribute.
#[verifier::when_used_as_spec(spec_to_faint)]
pub fn to_faint(color: Color) -> (c: Color)
    ensures
        c == spec_to_faint(color),
{
    rgb(faint_channel(color.r), faint_channel(color.g), faint_channel(color.b))
}

/// The level of one axis of the 6x6x6 color cube, for an axis index below 6.
pub open spec fn spec_cube_level(x: u8) -> u8 {
    if x == 0 {
        0
    } else if x == 1 {
        95
    } else if x == 2 {
        135
    } else if x == 3 {
        175
    } else if x == 4 {
        215
    } else {
        255
    }
}

fn cube_level(x: u8) -> (r: u8)
    requires
        x < 6,
    ensures
        r == spec_cube_level(x),
{
    match x {
        0 => 0,
        1 => 95,
        2 => 135,
        3 => 175,
        4 => 215,
        _ => 255,
    }
}

/// The color a 256-color palette index denotes: indices 0 to 7 are the eight
/// standard colors, 8 to 15 their bright variants, 16 to 231 a 6x6x6 color
/// cube, and 232 to 255 a grayscale ramp from 8 to 238.
pub open spec fn spec_palette_color(index: u8) -> Color {
    if index == 0 {
        spec_black()
    } else if index == 1 {
        spec_red()
    } else if index == 2 {
        spec_green()
    } else if index == 3 {
        spec_yellow()
    } else if index == 4 {
        spec_blue()
    } else if index == 5 {
        spec_magenta()
    } else if index == 6 {
        spec_cyan()
    } else if index == 7 {
        spec_white()
    } else if index == 8 {
        spec_to_bright(spec_black())
    } else if index == 9 {
        spec_to_bright(spec_red())
    } else if index == 10 {
        spec_to_bright(spec_green())
    } else if index == 11 {
        spec_to_bright(spec_yellow())
    } else if index == 12 {
        spec_to_bright(spec_blue())
    } else if index == 13 {
        spec_to_bright(spec_magenta())
    } else if index == 14 {
        spec_to_bright(spec_cyan())
    } else if index == 15 {
        spec_to_bright(spec_white())
    } else if index < 232 {
        Color {
            r: spec_cube_level(((index - 16) / 36) as u8),
            g: spec_cube_level((((index - 16) % 36) / 6) as u8),
            b: spec_cube_level(((index - 16) % 6) as u8),
            a: 255,
        }
    } else {
        spec_gray(((index - 232) * 10 + 8) as u8)
    }
}

/// Looks a 256-color palette index up.
pub fn process_256_color_palette(color_index: u8) -> (c: Color)
    ensures
        c == spec_palette_color(color_index),
{
    if color_index < 16 {
        match color_index {
            0 => black(),
            1 => red(),
            2 => green(),
            3 => yellow(),
            4 => blue(),
            5 => magenta(),
            6 => cyan(),
            7 => white(),
            8 => to_bright(black()),
            9 => to_bright(red()),
            10 => to_bright(green()),
            11 => to_bright(yellow()),
            12 => to_bright(blue()),
            13 => to_bright(magenta()),
            14 => to_bright(cyan()),
            _ => to_bright(white()),
        }
    } else if color_index < 232 {
        let base = color_index - 16;
        rgb(cube_level(base / 36), cube_level((base % 36) / 6), cube_level(base % 6))
    } else {
        gray((color_index - 232) * 10 + 8)
    }
}

} // verus!
