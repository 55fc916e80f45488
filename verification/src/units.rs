//! Lengths and the fixed page geometry.
//!
//! Every length is a whole number of English Metric Units (EMU). One
//! millimetre is 36000 EMU and one typographic point (1/72 inch) is 12700 EMU,
//! so millimetres, points and hundredths of a point are all exact.

use vstd::prelude::*;

verus! {

/// EMU per millimetre.
pub const MM: u64 = 36000;

/// EMU per typographic point.
pub const PT: u64 = 12700;

/// Width of an A4 page.
pub const PAGE_WIDTH: u64 = 210 * MM;

/// Height of an A4 page.
pub const PAGE_HEIGHT: u64 = 297 * MM;

pub const MARGIN_TOP: u64 = 25 * MM;

pub const MARGIN_BOTTOM: u64 = 25 * MM;

pub const MARGIN_LEFT: u64 = 25 * MM;

pub const MARGIN_RIGHT: u64 = 25 * MM;

/// Width of the text area between the left and right margins.
pub const TEXT_WIDTH: u64 = PAGE_WIDTH - MARGIN_LEFT - MARGIN_RIGHT;

/// Height of the text area between the top and bottom margins.
pub const TEXT_HEIGHT: u64 = PAGE_HEIGHT - MARGIN_TOP - MARGIN_BOTTOM;

/// Height of the cursor at the top of a fresh page, above the bottom edge.
pub const CURSOR_TOP: u64 = PAGE_HEIGHT - MARGIN_TOP;

/// Vertical space around a paragraph, half of it on each side.
pub const PARAGRAPH_SPACING: u64 = 6 * MM;

pub const HEADING_SPACING_BEFORE: u64 = 12 * MM;

pub const HEADING_SPACING_AFTER: u64 = 6 * MM;

pub const CODE_BLOCK_SPACING: u64 = 8 * MM;

/// Horizontal step of one level of list nesting.
pub const LIST_INDENT: u64 = 10 * MM;

/// Extra left indent of the lines of a code block.
pub const CODE_INDENT: u64 = 5 * MM;

/// Font size of the page-number footer, in points.
pub const FOOTER_FONT_SIZE: u64 = 8;

/// Horizontal position of the footer.
pub const FOOTER_X: u64 = PAGE_WIDTH / 2 - 10 * MM;

/// Height of the footer above the bottom edge of the page.
pub const FOOTER_Y: u64 = MARGIN_BOTTOM / 2;

/// The height of one line of text: the font size in points times the
/// line-height multiplier in hundredths, converted to EMU.
pub open spec fn spec_line_height(font_size: nat, multiplier: nat) -> nat {
    font_size * multiplier * PT as nat / 100
}

/// The approximate width of one character: half the font size.
pub open spec fn spec_char_width(font_size: nat) -> nat {
    font_size * PT as nat / 2
}

/// The number of characters of the given font size that fit into
/// `max_width`, rounded down.
pub open spec fn spec_max_chars(max_width: nat, font_size: nat) -> nat
    recommends
        font_size > 0,
{
    max_width / spec_char_width(font_size)
}

/// Computes the height in EMU of one line set in `font_size` points with a
/// line-height multiplier of `multiplier` hundredths.
pub fn line_height(font_size: u64, multiplier: u64) -> (height: u64)
    requires
        font_size * multiplier * PT <= u64::MAX,
    ensures
        height == spec_line_height(font_size as nat, multiplier as nat),
{
    assert(font_size * multiplier * 127 <= font_size * multiplier * PT) by (nonlinear_arith)
        requires
            PT == 12700,
    ;
    assert(font_size * multiplier <= font_size * multiplier * 127) by (nonlinear_arith);
    assert(font_size * multiplier * PT / 100 == font_size * multiplier * 127) by (nonlinear_arith)
        requires
            PT == 12700,
    ;
    font_size * multiplier * 127
}

/// Computes how many characters of `font_size` points fit into `max_width`
/// EMU under the fixed-width approximation.
pub fn max_chars(max_width: u64, font_size: u64) -> (n: u64)
    requires
        font_size > 0,
    ensures
        n == spec_max_chars(max_width as nat, font_size as nat),
{
    assert(font_size * PT / 2 == font_size * 6350) by (nonlinear_arith)
        requires
            PT == 12700,
    ;
    match font_size.checked_mul(6350) {
        Some(width) => max_width / width,
        None => {
            assert(max_width as nat / (font_size * 6350) as nat == 0) by (nonlinear_arith)
                requires
                    max_width < font_size * 6350,
            ;
            0
        },
    }
}

} // verus!
