//! The style table: what each semantic style means typographically.

use vstd::prelude::*;

verus! {

/// A semantic text style.
#[derive(Clone, Copy, Debug, PartialEq, Eq, Structural)]
pub enum TextStyle {
    H1,
    H2,
    H3,
    H4,
    H5,
    H6,
    Body,
    Code,
    Strong,
    Emphasis,
}

/// One of the five fonts of a document.
#[derive(Clone, Copy, Debug, PartialEq, Eq, Structural)]
pub enum FontFace {
    Regular,
    Bold,
    Italic,
    BoldItalic,
    Mono,
}

/// Font size in points and line-height multiplier in hundredths.
#[derive(Clone, Copy, Debug, PartialEq, Eq, Structural)]
pub struct Metrics {
    pub font_size: u64,
    pub line_height: u64,
}

/// The metrics of the body style: 11 pt at a multiplier of 1.4.
pub open spec fn body_metrics() -> Metrics {
    Metrics { font_size: 11, line_height: 140 }
}

/// The metrics that the style table assigns to a block style. The inline
/// styles `Strong` and `Emphasis` select a font only and have no metrics.
pub open spec fn spec_metrics(style: TextStyle) -> Option<Metrics> {
    match style {
        TextStyle::H1 => Some(Metrics { font_size: 18, line_height: 120 }),
        TextStyle::H2 => Some(Metrics { font_size: 16, line_height: 120 }),
        TextStyle::H3 => Some(Metrics { font_size: 14, line_height: 115 }),
        TextStyle::H4 => Some(Metrics { font_size: 12, line_height: 140 }),
        TextStyle::H5 => Some(Metrics { font_size: 11, line_height: 140 }),
        TextStyle::H6 => Some(Metrics { font_size: 10, line_height: 140 }),
        TextStyle::Body => Some(body_metrics()),
        TextStyle::Code => Some(Metrics { font_size: 9, line_height: 120 }),
        TextStyle::Strong => None,
        TextStyle::Emphasis => None,
    }
}

/// The font that the style table assigns to a style.
pub open spec fn spec_font(style: TextStyle) -> FontFace {
    match style {
        TextStyle::H1 | TextStyle::H2 | TextStyle::H3 | TextStyle::Strong => FontFace::Bold,
        TextStyle::Emphasis => FontFace::Italic,
        TextStyle::Code => FontFace::Mono,
        _ => FontFace::Regular,
    }
}

/// Whether metrics and a font are those that the style table assigns to
/// one of its block styles.
pub open spec fn in_table(m: Metrics, font: FontFace) -> bool {
    exists|style: TextStyle| spec_metrics(style) == Some(m) && spec_font(style) == font
}

/// Looks up the metrics of a style.
pub fn metrics(style: TextStyle) -> (m: Option<Metrics>)
    ensures
        m == spec_metrics(style),
{
    match style {
        TextStyle::H1 => Some(Metrics { font_size: 18, line_height: 120 }),
        TextStyle::H2 => Some(Metrics { font_size: 16, line_height: 120 }),
        TextStyle::H3 => Some(Metrics { font_size: 14, line_height: 115 }),
        TextStyle::H4 => Some(Metrics { font_size: 12, line_height: 140 }),
        TextStyle::H5 => Some(Metrics { font_size: 11, line_height: 140 }),
        TextStyle::H6 => Some(Metrics { font_size: 10, line_height: 140 }),
        TextStyle::Body => Some(Metrics { font_size: 11, line_height: 140 }),
        TextStyle::Code => Some(Metrics { font_size: 9, line_height: 120 }),
        TextStyle::Strong => None,
        TextStyle::Emphasis => None,
    }
}

/// Looks up the font of a style.
pub fn font_for_style(style: TextStyle) -> (font: FontFace)
    ensures
        font == spec_font(style),
{
    match style {
        TextStyle::H1 | TextStyle::H2 | TextStyle::H3 | TextStyle::Strong => FontFace::Bold,
        TextStyle::Emphasis => FontFace::Italic,
        TextStyle::Code => FontFace::Mono,
        _ => FontFace::Regular,
    }
}

/// Every block style of the table has a positive font size of at most
/// 18 pt, a multiplier between 1.15 and 1.4, and the regular, the bold or
/// the monospace font.
pub proof fn lemma_table_bounds(m: Metrics, font: FontFace)
    requires
        in_table(m, font),
    ensures
        1 <= m.font_size <= 18,
        115 <= m.line_height <= 140,
        font == FontFace::Regular || font == FontFace::Bold || font == FontFace::Mono,
{
    let style = choose|style: TextStyle| spec_metrics(style) == Some(m) && spec_font(style) == font;
    assert(spec_metrics(style) == Some(m) && spec_font(style) == font);
}

} // verus!
