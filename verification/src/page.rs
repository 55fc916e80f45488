//! Pages and the text placed on them.

use vstd::prelude::*;
use crate::style::FontFace;
use crate::units::{FOOTER_FONT_SIZE, FOOTER_X, FOOTER_Y, PT};

verus! {

/// One line of text at an absolute position on a page, as a mathematical
/// value. Positions are measured from the lower left corner of the page.
pub struct Placed {
    pub text: Seq<char>,
    pub x: nat,
    pub y: nat,
    pub font: FontFace,
    /// The font size in EMU.
    pub size: nat,
}

/// One line of text at an absolute position on a page. Positions and the
/// font size are in EMU; the origin is the lower left corner of the page.
#[derive(Debug)]
pub struct PlacedText {
    pub text: String,
    pub x: u64,
    pub y: u64,
    pub font: FontFace,
    pub size: u64,
}

impl View for PlacedText {
    type V = Placed;

    open spec fn view(&self) -> Placed {
        Placed {
            text: self.text@,
            x: self.x as nat,
            y: self.y as nat,
            font: self.font,
            size: self.size as nat,
        }
    }
}

/// One page: the text placed on it, in the order of placement. The first
/// item of every page of a document is the page-number footer.
#[derive(Debug)]
pub struct Page {
    pub runs: Vec<PlacedText>,
}

impl View for Page {
    type V = Seq<Placed>;

    open spec fn view(&self) -> Seq<Placed> {
        Seq::new(self.runs@.len(), |i: int| self.runs@[i]@)
    }
}

/// The character of a decimal digit.
pub open spec fn digit_char(d: nat) -> char
    recommends
        d < 10,
{
    (48 + d) as u8 as char
}

/// The decimal representation of a number, without leading zeros.
pub open spec fn decimal(n: nat) -> Seq<char>
    decreases n,
{
    if n < 10 {
        seq![digit_char(n)]
    } else {
        decimal(n / 10).push(digit_char(n % 10))
    }
}

/// The text of the footer of the page with the given number: the number
/// between two hyphens.
pub open spec fn footer_text(number: nat) -> Seq<char> {
    seq!['-', ' '] + decimal(number) + seq![' ', '-']
}

/// The footer of the page with the given number.
pub open spec fn footer(number: nat) -> Placed {
    Placed {
        text: footer_text(number),
        x: FOOTER_X as nat,
        y: FOOTER_Y as nat,
        font: FontFace::Regular,
        size: (FOOTER_FONT_SIZE * PT) as nat,
    }
}

/// The number that a sequence of decimal digits stands for.
pub open spec fn decimal_value(digits: Seq<char>) -> nat
    decreases digits.len(),
{
    if digits.len() == 0 {
        0
    } else {
        decimal_value(digits.drop_last()) * 10 + (digits.last() as u32 - 48) as nat
    }
}

/// The number that the footer of a page shows.
pub open spec fn footer_number(run: Placed) -> nat {
    decimal_value(run.text.subrange(2, run.text.len() - 2))
}

/// The decimal representation of a number stands for that number.
pub proof fn lemma_decimal_value(n: nat)
    ensures
        decimal_value(decimal(n)) == n,
    decreases n,
{
    if n < 10 {
        let digits = decimal(n);
        assert(digits.drop_last() =~= Seq::<char>::empty());
        assert(decimal_value(digits.drop_last()) == 0);
        assert(digits.last() == digit_char(n));
    } else {
        lemma_decimal_value(n / 10);
        let digits = decimal(n);
        assert(digits.drop_last() =~= decimal(n / 10));
        assert(digits.last() == digit_char(n % 10));
    }
}

/// The footer of a page shows the number of the page.
pub proof fn lemma_footer_number(number: nat)
    ensures
        footer_number(footer(number)) == number,
{
    let text = footer(number).text;
    assert(text.subrange(2, text.len() - 2) =~= decimal(number));
    lemma_decimal_value(number);
}

/// Appends the decimal representation of `n` to `s`.
pub fn push_decimal(s: &mut String, n: usize)
    ensures
        final(s)@ == old(s)@ + decimal(n as nat),
    decreases n,
{
    if n >= 10 {
        push_decimal(s, n / 10);
    }
    let d: u8 = (n % 10) as u8;
    s.push((48u8 + d) as char);
    proof {
        if n >= 10 {
            assert(s@ =~= old(s)@ + decimal(n as nat));
        } else {
            assert(s@ =~= old(s)@ + decimal(n as nat));
        }
    }
}

/// Builds the footer of the page with the given number.
pub fn make_footer(number: usize) -> (run: PlacedText)
    ensures
        run@ == footer(number as nat),
{
    let mut text: String = String::new();
    text.push('-');
    text.push(' ');
    push_decimal(&mut text, number);
    text.push(' ');
    text.push('-');
    assert(text@ =~= footer_text(number as nat));
    PlacedText {
        text,
        x: FOOTER_X,
        y: FOOTER_Y,
        font: FontFace::Regular,
        size: FOOTER_FONT_SIZE * PT,
    }
}

} // verus!
