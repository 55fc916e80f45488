//! The page manager: the document in progress and the operations that
//! reserve space, break pages and place text.

use vstd::prelude::*;
use vstd::string::StringExecFns;
use crate::layout::Layout;
use crate::page::{footer, make_footer, Page, Placed, PlacedText};
use crate::style::{
    font_for_style, lemma_table_bounds, metrics, spec_font, FontFace, Metrics, TextStyle,
};
use crate::text::{is_blank, physical_lines, split_lines, texts, words, wrap, wrap_text};
use crate::units::{
    line_height, spec_max_chars, CODE_INDENT, CURSOR_TOP, MARGIN_BOTTOM, MARGIN_LEFT, PT,
    TEXT_WIDTH,
};

verus! {

/// A document in progress: the pages laid out so far, the cursor on the
/// current page and the current style.
pub struct PdfRenderer {
    pages: Vec<Page>,
    current_y: u64,
    current_font_size: u64,
    current_line_height: u64,
    current_font: FontFace,
}

impl View for PdfRenderer {
    type V = Layout;

    closed spec fn view(&self) -> Layout {
        Layout {
            pages: Seq::new(self.pages@.len(), |i: int| self.pages@[i]@),
            cursor: self.current_y as nat,
            metrics: Metrics {
                font_size: self.current_font_size,
                line_height: self.current_line_height,
            },
            font: self.current_font,
        }
    }
}

impl PdfRenderer {
    /// Starts a document: one page with its footer, the cursor at the top
    /// margin, the body style with its regular font.
    pub fn new() -> (renderer: Self)
        ensures
            renderer@ == Layout::initial(),
            renderer@.wf(),
    {
        let mut runs: Vec<PlacedText> = Vec::new();
        runs.push(make_footer(1));
        let mut pages: Vec<Page> = Vec::new();
        pages.push(Page { runs });
        let renderer = PdfRenderer {
            pages,
            current_y: CURSOR_TOP,
            current_font_size: 11,
            current_line_height: 140,
            current_font: FontFace::Regular,
        };
        proof {
            assert(renderer.pages@[0]@ =~= seq![footer(1)]);
            assert(renderer@.pages =~= seq![seq![footer(1)]]);
            Layout::lemma_initial();
        }
        renderer
    }

    /// The pages laid out so far; the last one is the current page.
    pub fn pages(&self) -> (pages: &Vec<Page>)
        ensures
            pages@.len() == self@.pages.len(),
            forall|i: int| 0 <= i < pages@.len() ==> (#[trigger] pages@[i])@ == self@.pages[i],
    {
        &self.pages
    }

    /// Gives up the document for its pages.
    pub fn into_pages(self) -> (pages: Vec<Page>)
        ensures
            pages@.len() == self@.pages.len(),
            forall|i: int| 0 <= i < pages@.len() ==> (#[trigger] pages@[i])@ == self@.pages[i],
    {
        self.pages
    }

    /// The number of the current page, counted from 1.
    pub fn page_number(&self) -> (number: usize)
        ensures
            number == self@.page_number(),
    {
        self.pages.len()
    }

    /// The height of the cursor above the bottom edge of the page, in EMU.
    pub fn current_y(&self) -> (y: u64)
        ensures
            y == self@.cursor,
    {
        self.current_y
    }

    /// The current font size in points.
    pub fn font_size(&self) -> (size: u64)
        ensures
            size == self@.font_size(),
    {
        self.current_font_size
    }

    /// The current line-height multiplier in hundredths.
    pub fn line_height(&self) -> (multiplier: u64)
        ensures
            multiplier == self@.line_height(),
    {
        self.current_line_height
    }

    /// The current font.
    pub fn font(&self) -> (font: FontFace)
        ensures
            font == self@.font,
    {
        self.current_font
    }

    /// Makes a style current: a block style sets the metrics and the font
    /// that the style table assigns to it; an inline style leaves both as
    /// they are.
    pub fn set_text_style(&mut self, style: &TextStyle)
        requires
            old(self)@.wf(),
        ensures
            final(self)@ == old(self)@.set_text_style(*style),
            final(self)@.wf(),
    {
        proof {
            old(self)@.lemma_set_text_style(*style);
        }
        match metrics(*style) {
            Some(m) => {
                self.current_font_size = m.font_size;
                self.current_line_height = m.line_height;
                self.current_font = font_for_style(*style);
            },
            None => {},
        }
    }

    /// The font that the style table assigns to a style.
    pub fn get_font_for_style(&self, style: &TextStyle) -> (font: FontFace)
        ensures
            font == spec_font(*style),
    {
        font_for_style(*style)
    }

    /// Puts one item on the current page.
    fn place(&mut self, run: PlacedText)
        requires
            old(self)@.wf(),
        ensures
            final(self)@ == old(self)@.place(run@),
            final(self)@.wf(),
    {
        proof {
            old(self)@.lemma_place(run@);
        }
        let n: usize = self.pages.len();
        self.pages[n - 1].runs.push(run);
        proof {
            assert(self.pages@[n - 1]@ =~= old(self).pages@[n - 1]@.push(run@));
            assert(self@.pages =~= old(self)@.place(run@).pages);
        }
    }

    /// Writes one line of text at an absolute position on the current page,
    /// in the given font at `size` EMU. The cursor stays.
    pub fn place_text(&mut self, text: &str, x: u64, y: u64, font: FontFace, size: u64)
        requires
            old(self)@.wf(),
        ensures
            final(self)@ == old(self)@.place(
                Placed { text: text@, x: x as nat, y: y as nat, font, size: size as nat },
            ),
            final(self)@.wf(),
    {
        self.place(PlacedText { text: String::from_str(text), x, y, font, size });
    }

    /// Starts a new page, stamps its footer and moves the cursor to the top.
    pub fn new_page(&mut self)
        requires
            old(self)@.wf(),
        ensures
            final(self)@ == old(self)@.new_page(),
            final(self)@.wf(),
    {
        proof {
            old(self)@.lemma_new_page();
        }
        self.pages.push(Page { runs: Vec::new() });
        let number: usize = self.pages.len();
        self.pages[number - 1].runs.push(make_footer(number));
        self.current_y = CURSOR_TOP;
        proof {
            assert(self.pages@[number - 1]@ =~= seq![footer(number as nat)]);
            assert(self@.pages =~= old(self)@.new_page().pages);
        }
    }

    /// Reserves vertical space: moves the cursor down by `space`, or starts
    /// a new page if that would take the cursor below the bottom margin.
    pub fn ensure_space(&mut self, space: u64)
        requires
            old(self)@.wf(),
        ensures
            final(self)@ == old(self)@.ensure_space(space as nat),
            final(self)@.wf(),
    {
        proof {
            old(self)@.lemma_ensure_space(space as nat);
        }
        if space > self.current_y - MARGIN_BOTTOM {
            self.new_page();
        } else {
            self.current_y = self.current_y - space;
        }
    }

    /// Advances by one line of the current style.
    pub fn new_line(&mut self)
        requires
            old(self)@.wf(),
        ensures
            final(self)@ == old(self)@.new_line(),
            final(self)@.wf(),
    {
        proof {
            lemma_table_bounds(self@.metrics, self@.font);
            assert(self.current_font_size * self.current_line_height * PT <= 18 * 140 * 12700)
                by (nonlinear_arith)
                requires
                    self.current_font_size <= 18,
                    self.current_line_height <= 140,
                    PT == 12700,
            ;
        }
        let spacing: u64 = line_height(self.current_font_size, self.current_line_height);
        self.ensure_space(spacing);
    }

    /// Places a line in the current font at the current size. The cursor
    /// stays.
    pub fn add_text_at_position(&mut self, text: &str, x: u64, y: u64)
        requires
            old(self)@.wf(),
        ensures
            final(self)@ == old(self)@.add_text_at_position(text@, x as nat, y as nat),
            final(self)@ == old(self)@.place(
                Placed {
                    text: text@,
                    x: x as nat,
                    y: y as nat,
                    font: old(self)@.font,
                    size: old(self)@.font_size() * PT as nat,
                },
            ),
            final(self)@.wf(),
    {
        proof {
            lemma_table_bounds(self@.metrics, self@.font);
        }
        let font: FontFace = self.current_font;
        let size: u64 = self.current_font_size * PT;
        self.place_text(text, x, y, font, size);
    }

    /// Wraps a run to `max_width` EMU at the current font size.
    pub fn wrap_text(&self, text: &str, max_width: u64) -> (lines: Vec<String>)
        requires
            self@.wf(),
        ensures
            texts(lines@) == wrap(text@, spec_max_chars(max_width as nat, self@.font_size())),
            forall|i: int|
                0 <= i < lines@.len() ==> (#[trigger] lines@[i])@.len() <= spec_max_chars(
                    max_width as nat,
                    self@.font_size(),
                ) || words(text@).contains(lines@[i]@),
    {
        proof {
            lemma_table_bounds(self@.metrics, self@.font);
        }
        wrap_text(text, max_width, self.current_font_size)
    }

    /// Wraps a run to the width behind `indent` and sets its lines one
    /// below the other, each at the left margin plus `indent`.
    pub fn add_text_with_indent(&mut self, text: &str, indent: u64)
        requires
            old(self)@.wf(),
            MARGIN_LEFT + indent <= u64::MAX,
        ensures
            final(self)@ == old(self)@.add_text_with_indent(text@, indent as nat),
            final(self)@.wf(),
    {
        let width: u64 = if indent <= TEXT_WIDTH {
            TEXT_WIDTH - indent
        } else {
            0
        };
        let lines: Vec<String> = self.wrap_text(text, width);
        let ghost all = texts(lines@);
        let n: usize = lines.len();
        let mut i: usize = 0;
        assert(all.take(0) =~= Seq::<Seq<char>>::empty());
        while i < n
            invariant
                n == lines.len(),
                all == texts(lines@),
                i <= n,
                MARGIN_LEFT + indent <= u64::MAX,
                self@.wf(),
                self@ == old(self)@.add_lines(all.take(i as int), indent as nat),
            decreases n - i,
        {
            let line: &String = &lines[i];
            proof {
                assert(all.take(i + 1).drop_last() =~= all.take(i as int));
                assert(all.take(i + 1).last() == line@);
            }
            if !is_blank(line.as_str()) {
                let y: u64 = self.current_y;
                self.add_text_at_position(line.as_str(), MARGIN_LEFT + indent, y);
            }
            self.new_line();
            i += 1;
        }
        assert(all.take(n as int) =~= all);
    }

    /// Wraps a run to the full text width and sets its lines.
    pub fn add_text(&mut self, text: &str)
        requires
            old(self)@.wf(),
        ensures
            final(self)@ == old(self)@.add_text(text@),
            final(self)@.wf(),
    {
        self.add_text_with_indent(text, 0)
    }

    /// Sets the physical lines of a preformatted run one below the other,
    /// each as it is, in the monospace font.
    pub fn add_code_block(&mut self, code: &str)
        requires
            old(self)@.wf(),
        ensures
            final(self)@ == old(self)@.add_code_block(code@),
            final(self)@.wf(),
            final(self)@.lines_added(
                old(self)@,
                physical_lines(code@),
                (MARGIN_LEFT + CODE_INDENT) as nat,
                FontFace::Mono,
            ),
    {
        proof {
            old(self)@.lemma_add_code_lines(physical_lines(code@));
        }
        let lines: Vec<String> = split_lines(code);
        let ghost all = texts(lines@);
        let n: usize = lines.len();
        let mut i: usize = 0;
        assert(all.take(0) =~= Seq::<Seq<char>>::empty());
        while i < n
            invariant
                n == lines.len(),
                all == texts(lines@),
                i <= n,
                self@.wf(),
                self@ == old(self)@.add_code_lines(all.take(i as int)),
            decreases n - i,
        {
            proof {
                assert(all.take(i + 1).drop_last() =~= all.take(i as int));
                assert(all.take(i + 1).last() == lines@[i as int]@);
                lemma_table_bounds(self@.metrics, self@.font);
            }
            let run = PlacedText {
                text: lines[i].clone(),
                x: MARGIN_LEFT + CODE_INDENT,
                y: self.current_y,
                font: FontFace::Mono,
                size: self.current_font_size * PT,
            };
            self.place(run);
            self.new_line();
            i += 1;
        }
        assert(all.take(n as int) =~= all);
    }

    /// Places an inline code span at the cursor, in the monospace font at
    /// nine tenths of the current size. The cursor stays.
    pub fn add_inline_code(&mut self, code: &str)
        requires
            old(self)@.wf(),
        ensures
            final(self)@ == old(self)@.add_inline_code(code@),
            final(self)@.wf(),
    {
        proof {
            lemma_table_bounds(self@.metrics, self@.font);
            assert(self.current_font_size * PT * 9 / 10 == self.current_font_size * 11430)
                by (nonlinear_arith)
                requires
                    PT == 12700,
            ;
        }
        let y: u64 = self.current_y;
        let size: u64 = self.current_font_size * 11430;
        self.place_text(code, MARGIN_LEFT, y, FontFace::Mono, size);
    }
}

} // verus!
