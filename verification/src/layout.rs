//! The mathematical model of a document in progress and of the operations
//! of the page manager on it.

use vstd::prelude::*;
use crate::page::{footer, Placed};
use crate::style::{
    body_metrics, in_table, spec_font, spec_metrics, FontFace, Metrics, TextStyle,
};
use crate::text::{physical_lines, spec_is_blank, wrap};
use crate::units::{
    spec_line_height, spec_max_chars, CODE_INDENT, CURSOR_TOP, MARGIN_BOTTOM, MARGIN_LEFT, PT,
    TEXT_WIDTH,
};

verus! {

/// A document in progress.
pub struct Layout {
    /// The pages so far, each with the text placed on it. The last page is
    /// the current one.
    pub pages: Seq<Seq<Placed>>,
    /// The height of the write position above the bottom edge of the
    /// current page, in EMU.
    pub cursor: nat,
    /// The current style: the font size in points and the line-height
    /// multiplier in hundredths.
    pub metrics: Metrics,
    /// The current font: that of the block style that was made current
    /// last.
    pub font: FontFace,
}

/// The text placed on a sequence of pages besides the footers, in the order
/// of the pages and of placement.
pub open spec fn body_of(pages: Seq<Seq<Placed>>) -> Seq<Placed>
    decreases pages.len(),
{
    if pages.len() == 0 {
        Seq::empty()
    } else {
        body_of(pages.drop_last()) + pages.last().skip(1)
    }
}

/// The lines that are not blank, in their order.
pub open spec fn visible(lines: Seq<Seq<char>>) -> Seq<Seq<char>>
    decreases lines.len(),
{
    if lines.len() == 0 {
        Seq::empty()
    } else if spec_is_blank(lines.last()) {
        visible(lines.drop_last())
    } else {
        visible(lines.drop_last()).push(lines.last())
    }
}

/// The width left for text behind an indent.
pub open spec fn spec_text_width(indent: nat) -> nat {
    if indent <= TEXT_WIDTH {
        (TEXT_WIDTH - indent) as nat
    } else {
        0
    }
}

impl Layout {
    /// A fresh document: one page that holds its footer, the cursor at the
    /// top, the body style with its regular font.
    pub open spec fn initial() -> Layout {
        Layout {
            pages: seq![seq![footer(1)]],
            cursor: CURSOR_TOP as nat,
            metrics: body_metrics(),
            font: spec_font(TextStyle::Body),
        }
    }

    /// The current font size in points.
    pub open spec fn font_size(self) -> nat {
        self.metrics.font_size as nat
    }

    /// The current line-height multiplier in hundredths.
    pub open spec fn line_height(self) -> nat {
        self.metrics.line_height as nat
    }

    /// What holds of every document: it has a page; every page starts with
    /// the footer that shows its number, counted from 1; the cursor lies
    /// between the bottom margin and the top margin; the current style is
    /// one of the style table.
    pub open spec fn wf(self) -> bool {
        &&& self.pages.len() >= 1
        &&& forall|i: int|
            0 <= i < self.pages.len() ==> (#[trigger] self.pages[i]).len() >= 1 && self.pages[i][0]
                == footer((i + 1) as nat)
        &&& MARGIN_BOTTOM <= self.cursor <= CURSOR_TOP
        &&& in_table(self.metrics, self.font)
    }

    /// The number of the current page.
    pub open spec fn page_number(self) -> nat {
        self.pages.len()
    }

    /// The height of one line in the current style.
    pub open spec fn line_spacing(self) -> nat {
        spec_line_height(self.font_size(), self.line_height())
    }

    /// Puts one item on the current page.
    pub open spec fn place(self, run: Placed) -> Layout {
        Layout {
            pages: self.pages.update(self.pages.len() - 1, self.pages.last().push(run)),
            ..self
        }
    }

    /// Starts a new page, stamps its footer and moves the cursor to the top.
    pub open spec fn new_page(self) -> Layout {
        Layout {
            pages: self.pages.push(seq![footer(self.pages.len() + 1)]),
            cursor: CURSOR_TOP as nat,
            ..self
        }
    }

    /// Reserves vertical space: moves the cursor down by `space`, or starts
    /// a new page if that would take the cursor below the bottom margin.
    pub open spec fn ensure_space(self, space: nat) -> Layout {
        if self.cursor - space < MARGIN_BOTTOM {
            self.new_page()
        } else {
            Layout { cursor: (self.cursor - space) as nat, ..self }
        }
    }

    /// Advances by one line of the current style.
    pub open spec fn new_line(self) -> Layout {
        self.ensure_space(self.line_spacing())
    }

    /// Makes a style current: a block style sets the metrics and the font
    /// that the style table assigns to it; an inline style leaves both as
    /// they are.
    pub open spec fn set_text_style(self, style: TextStyle) -> Layout {
        match spec_metrics(style) {
            Some(m) => Layout { metrics: m, font: spec_font(style), ..self },
            None => self,
        }
    }

    /// Places a line in the current font at the current size.
    pub open spec fn add_text_at_position(self, text: Seq<char>, x: nat, y: nat) -> Layout {
        self.place(
            Placed {
                text,
                x,
                y,
                font: self.font,
                size: self.font_size() * PT as nat,
            },
        )
    }

    /// Sets wrapped lines one below the other. A blank line is not placed
    /// but takes its height.
    pub open spec fn add_lines(self, lines: Seq<Seq<char>>, indent: nat) -> Layout
        decreases lines.len(),
    {
        if lines.len() == 0 {
            self
        } else {
            let before = self.add_lines(lines.drop_last(), indent);
            let line = lines.last();
            if spec_is_blank(line) {
                before.new_line()
            } else {
                before.add_text_at_position(
                    line,
                    MARGIN_LEFT as nat + indent,
                    before.cursor,
                ).new_line()
            }
        }
    }

    /// Wraps a run to the width behind `indent` and sets its lines.
    pub open spec fn add_text_with_indent(self, text: Seq<char>, indent: nat) -> Layout {
        self.add_lines(
            wrap(text, spec_max_chars(spec_text_width(indent), self.font_size())),
            indent,
        )
    }

    /// Wraps a run to the full text width and sets its lines.
    pub open spec fn add_text(self, text: Seq<char>) -> Layout {
        self.add_text_with_indent(text, 0)
    }

    /// One line of a code block at the cursor.
    pub open spec fn code_line(self, line: Seq<char>) -> Placed {
        Placed {
            text: line,
            x: (MARGIN_LEFT + CODE_INDENT) as nat,
            y: self.cursor,
            font: FontFace::Mono,
            size: self.font_size() * PT as nat,
        }
    }

    /// Sets preformatted lines one below the other, each as it is.
    pub open spec fn add_code_lines(self, lines: Seq<Seq<char>>) -> Layout
        decreases lines.len(),
    {
        if lines.len() == 0 {
            self
        } else {
            let before = self.add_code_lines(lines.drop_last());
            before.place(before.code_line(lines.last())).new_line()
        }
    }

    /// Sets the physical lines of a preformatted run.
    pub open spec fn add_code_block(self, code: Seq<char>) -> Layout {
        self.add_code_lines(physical_lines(code))
    }

    /// Places an inline code span at the cursor, in the monospace font at
    /// nine tenths of the current size. The cursor stays.
    pub open spec fn add_inline_code(self, code: Seq<char>) -> Layout {
        self.place(
            Placed {
                text: code,
                x: MARGIN_LEFT as nat,
                y: self.cursor,
                font: FontFace::Mono,
                size: self.font_size() * PT as nat * 9 / 10,
            },
        )
    }
}

impl Layout {
    /// The text placed in the document besides the footers.
    pub open spec fn body(self) -> Seq<Placed> {
        body_of(self.pages)
    }

    /// Whether the document has the style of `other`: its metrics and its
    /// font.
    pub open spec fn same_style(self, other: Layout) -> bool {
        self.metrics == other.metrics && self.font == other.font
    }

    /// Whether the document continues `before`: no page is removed, no page
    /// before the current one of `before` is touched, and what the current
    /// page of `before` held is still there, in front of what was added.
    pub open spec fn extends(self, before: Layout) -> bool {
        &&& before.pages.len() <= self.pages.len()
        &&& forall|i: int|
            0 <= i < before.pages.len() - 1 ==> #[trigger] self.pages[i] == before.pages[i]
        &&& before.pages.last().is_prefix_of(self.pages[before.pages.len() - 1])
    }

    /// Whether the body of the document is that of `before` followed by one
    /// item for each of `lines`, in their order: the line as it is, at `x`,
    /// at a height inside the text area, in `font` at the size of `before`.
    pub open spec fn lines_added(
        self,
        before: Layout,
        lines: Seq<Seq<char>>,
        x: nat,
        font: FontFace,
    ) -> bool {
        &&& self.body().len() == before.body().len() + lines.len()
        &&& before.body().is_prefix_of(self.body())
        &&& forall|k: int|
            0 <= k < lines.len() ==> {
                let run = #[trigger] self.body()[before.body().len() + k];
                &&& run.text == lines[k]
                &&& run.x == x
                &&& MARGIN_BOTTOM <= run.y <= CURSOR_TOP
                &&& run.font == font
                &&& run.size == before.font_size() * PT
            }
    }

    /// A fresh document is well formed and has an empty body.
    pub proof fn lemma_initial()
        ensures
            Layout::initial().wf(),
            Layout::initial().body() == Seq::<Placed>::empty(),
    {
        let pages = Layout::initial().pages;
        assert(spec_metrics(TextStyle::Body) == Some(Layout::initial().metrics) && spec_font(
            TextStyle::Body,
        ) == Layout::initial().font);
        assert(pages.drop_last() =~= Seq::<Seq<Placed>>::empty());
        assert(body_of(pages.drop_last()) =~= Seq::<Placed>::empty());
        assert(body_of(pages) =~= Seq::<Placed>::empty());
    }

    /// A document continues itself.
    pub proof fn lemma_extends_itself(self)
        requires
            self.pages.len() >= 1,
        ensures
            self.extends(self),
    {
        let last = self.pages.last();
        assert(last =~= last.subrange(0, last.len() as int));
    }

    /// To continue a document is transitive.
    pub proof fn lemma_extends_transitive(self, middle: Layout, before: Layout)
        requires
            before.pages.len() >= 1,
            middle.pages.len() >= 1,
            self.extends(middle),
            middle.extends(before),
        ensures
            self.extends(before),
    {
        let n = before.pages.len() - 1;
        assert forall|i: int| 0 <= i < n implies #[trigger] self.pages[i] == before.pages[i] by {
            assert(middle.pages[i] == before.pages[i]);
            assert(self.pages[i] == middle.pages[i]);
        }
        if n < middle.pages.len() - 1 {
            assert(self.pages[n] == middle.pages[n]);
        } else {
            let x = before.pages[n];
            let y = middle.pages[n];
            let z = self.pages[n];
            assert(x == y.subrange(0, x.len() as int));
            assert(y == z.subrange(0, y.len() as int));
            assert(x =~= z.subrange(0, x.len() as int));
        }
    }

    /// Placing an item keeps the document well formed, continues it and
    /// appends the item to its body.
    pub proof fn lemma_place(self, run: Placed)
        requires
            self.wf(),
        ensures
            self.place(run).wf(),
            self.place(run).extends(self),
            self.place(run).body() == self.body().push(run),
    {
        let after = self.place(run);
        assert forall|i: int| 0 <= i < after.pages.len() implies (#[trigger] after.pages[i]).len()
            >= 1 && after.pages[i][0] == footer((i + 1) as nat) by {
            assert(self.pages[i].len() >= 1);
        }
        assert(self.pages.last() =~= after.pages[self.pages.len() - 1].subrange(
            0,
            self.pages.last().len() as int,
        ));
        assert(after.pages.drop_last() =~= self.pages.drop_last());
        assert(self.pages[self.pages.len() - 1].len() >= 1);
        assert(after.pages.last().skip(1) =~= self.pages.last().skip(1).push(run));
        assert(body_of(after.pages) =~= body_of(self.pages).push(run));
    }

    /// A page break keeps the document well formed, continues it and
    /// leaves its body as it is.
    pub proof fn lemma_new_page(self)
        requires
            self.wf(),
        ensures
            self.new_page().wf(),
            self.new_page().extends(self),
            self.new_page().body() == self.body(),
    {
        let after = self.new_page();
        assert forall|i: int| 0 <= i < after.pages.len() implies (#[trigger] after.pages[i]).len()
            >= 1 && after.pages[i][0] == footer((i + 1) as nat) by {
            if i < self.pages.len() {
                assert(self.pages[i].len() >= 1);
            }
        }
        let last = self.pages.last();
        assert(last =~= last.subrange(0, last.len() as int));
        assert(after.pages.drop_last() =~= self.pages);
        assert(after.pages.last().skip(1) =~= Seq::<Placed>::empty());
        assert(body_of(after.pages) =~= body_of(self.pages));
    }

    /// Reserving space keeps the document well formed, continues it and
    /// leaves its body as it is.
    pub proof fn lemma_ensure_space(self, space: nat)
        requires
            self.wf(),
        ensures
            self.ensure_space(space).wf(),
            self.ensure_space(space).extends(self),
            self.ensure_space(space).body() == self.body(),
    {
        self.lemma_new_page();
        self.lemma_extends_itself();
    }

    /// A change of style keeps the document well formed.
    pub proof fn lemma_set_text_style(self, style: TextStyle)
        requires
            self.wf(),
        ensures
            self.set_text_style(style).wf(),
    {
        let after = self.set_text_style(style);
        if let Some(m) = spec_metrics(style) {
            assert(spec_metrics(style) == Some(after.metrics) && spec_font(style) == after.font);
        }
    }

    /// One more line, placed at the cursor and followed by a line advance,
    /// is one more item of the body.
    pub proof fn lemma_line_added(
        self,
        origin: Layout,
        lines: Seq<Seq<char>>,
        run: Placed,
    )
        requires
            origin.wf(),
            self.wf(),
            self.extends(origin),
            self.same_style(origin),
            self.lines_added(origin, lines, run.x, run.font),
            run.y == self.cursor,
            run.size == self.font_size() * PT,
        ensures
            self.place(run).new_line().wf(),
            self.place(run).new_line().extends(origin),
            self.place(run).new_line().same_style(origin),
            self.place(run).new_line().lines_added(origin, lines.push(run.text), run.x, run.font),
    {
        let placed = self.place(run);
        let after = placed.new_line();
        self.lemma_place(run);
        placed.lemma_ensure_space(placed.line_spacing());
        placed.lemma_extends_transitive(self, origin);
        after.lemma_extends_transitive(placed, origin);
        let old_body = origin.body();
        let more = lines.push(run.text);
        assert(after.body() == self.body().push(run));
        assert(old_body =~= after.body().subrange(0, old_body.len() as int)) by {
            assert(old_body == self.body().subrange(0, old_body.len() as int));
        }
        assert forall|k: int| 0 <= k < more.len() implies {
            let r = #[trigger] after.body()[old_body.len() + k];
            &&& r.text == more[k]
            &&& r.x == run.x
            &&& MARGIN_BOTTOM <= r.y <= CURSOR_TOP
            &&& r.font == run.font
            &&& r.size == origin.font_size() * PT
        } by {
            if k < lines.len() {
                assert(after.body()[old_body.len() + k] == self.body()[old_body.len() + k]);
            }
        }
    }

    /// Wrapped lines keep the document well formed and its style, continue
    /// it, and add to its body those of them that are not blank, in the
    /// current font at the left margin plus the indent.
    pub proof fn lemma_add_lines(self, lines: Seq<Seq<char>>, indent: nat)
        requires
            self.wf(),
        ensures
            self.add_lines(lines, indent).wf(),
            self.add_lines(lines, indent).extends(self),
            self.add_lines(lines, indent).same_style(self),
            self.add_lines(lines, indent).lines_added(
                self,
                visible(lines),
                MARGIN_LEFT as nat + indent,
                self.font,
            ),
        decreases lines.len(),
    {
        if lines.len() == 0 {
            self.lemma_extends_itself();
            assert(self.body() =~= self.body().subrange(0, self.body().len() as int));
        } else {
            let before = self.add_lines(lines.drop_last(), indent);
            self.lemma_add_lines(lines.drop_last(), indent);
            let line = lines.last();
            if spec_is_blank(line) {
                before.lemma_ensure_space(before.line_spacing());
                before.new_line().lemma_extends_transitive(before, self);
            } else {
                let run = Placed {
                    text: line,
                    x: MARGIN_LEFT as nat + indent,
                    y: before.cursor,
                    font: before.font,
                    size: before.font_size() * PT as nat,
                };
                assert(before.place(run) == before.add_text_at_position(
                    line,
                    MARGIN_LEFT as nat + indent,
                    before.cursor,
                ));
                before.lemma_line_added(self, visible(lines.drop_last()), run);
            }
        }
    }

    /// Preformatted lines keep the document well formed and its style,
    /// continue it, and add each of them to its body, in the monospace font
    /// at the indent of code.
    pub proof fn lemma_add_code_lines(self, lines: Seq<Seq<char>>)
        requires
            self.wf(),
        ensures
            self.add_code_lines(lines).wf(),
            self.add_code_lines(lines).extends(self),
            self.add_code_lines(lines).same_style(self),
            self.add_code_lines(lines).lines_added(
                self,
                lines,
                (MARGIN_LEFT + CODE_INDENT) as nat,
                FontFace::Mono,
            ),
        decreases lines.len(),
    {
        if lines.len() == 0 {
            self.lemma_extends_itself();
            assert(self.body() =~= self.body().subrange(0, self.body().len() as int));
        } else {
            let before = self.add_code_lines(lines.drop_last());
            self.lemma_add_code_lines(lines.drop_last());
            before.lemma_line_added(self, lines.drop_last(), before.code_line(lines.last()));
            assert(lines.drop_last().push(lines.last()) =~= lines);
        }
    }
}

} // verus!
