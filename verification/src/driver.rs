//! The layout driver: a state machine over markup events that sequences the
//! text flow engine and the page manager.

use vstd::prelude::*;
use crate::event::{Event, HeadingLevel, Tag, TagEnd};
use crate::layout::{spec_text_width, Layout};
use crate::page::Placed;
use crate::renderer::PdfRenderer;
use crate::style::{body_metrics, FontFace, TextStyle};
use crate::text::{physical_lines, wrap};
use crate::units::{
    spec_max_chars, CODE_BLOCK_SPACING, HEADING_SPACING_AFTER, HEADING_SPACING_BEFORE,
    LIST_INDENT, MARGIN_LEFT, PARAGRAPH_SPACING, PT,
};

verus! {

/// The deepest list nesting that is counted; deeper lists count as this.
pub const MAX_LIST_LEVEL: u32 = 0xffff_ffff;

/// What the driver remembers between events besides the document, as a
/// mathematical value.
pub struct Context {
    /// The inline styles that are open, innermost last. The stack is kept
    /// but takes no part in the choice of a font.
    pub style_stack: Seq<TextStyle>,
    pub in_code_block: bool,
    /// The number of lists that are open.
    pub list_level: nat,
}

/// What the driver remembers between events besides the document.
#[derive(Debug)]
pub struct LayoutContext {
    pub style_stack: Vec<TextStyle>,
    pub in_code_block: bool,
    pub list_level: u32,
}

impl View for LayoutContext {
    type V = Context;

    open spec fn view(&self) -> Context {
        Context {
            style_stack: self.style_stack@,
            in_code_block: self.in_code_block,
            list_level: self.list_level as nat,
        }
    }
}

/// A document together with the driver's context.
pub struct RenderState {
    pub layout: Layout,
    pub context: Context,
}

/// The style of a heading of the given level.
pub open spec fn heading_style(level: HeadingLevel) -> TextStyle {
    match level {
        HeadingLevel::H1 => TextStyle::H1,
        HeadingLevel::H2 => TextStyle::H2,
        HeadingLevel::H3 => TextStyle::H3,
        HeadingLevel::H4 => TextStyle::H4,
        HeadingLevel::H5 => TextStyle::H5,
        HeadingLevel::H6 => TextStyle::H6,
    }
}

/// The bullet of a list item: a filled one on the first level, a hollow one
/// elsewhere.
pub open spec fn bullet(list_level: nat) -> Seq<char> {
    if list_level == 1 {
        seq!['\u{2022}']
    } else {
        seq!['\u{25e6}']
    }
}

/// The horizontal position of the bullet of a list item: one indent step to
/// the left of the item's text.
pub open spec fn bullet_x(list_level: nat) -> nat {
    (MARGIN_LEFT + list_level * LIST_INDENT - LIST_INDENT) as nat
}

/// The indent of text inside lists of the given nesting.
pub open spec fn list_indent(list_level: nat) -> nat {
    list_level * LIST_INDENT as nat
}

impl Context {
    /// The context at the start of a traversal.
    pub open spec fn initial() -> Context {
        Context { style_stack: Seq::empty(), in_code_block: false, list_level: 0 }
    }

    /// The context with one more list open.
    pub open spec fn enter_list(self) -> Context {
        Context {
            list_level: if self.list_level < MAX_LIST_LEVEL {
                self.list_level + 1
            } else {
                self.list_level
            },
            ..self
        }
    }

    /// The context with one list closed, if any is open.
    pub open spec fn leave_list(self) -> Context {
        Context {
            list_level: if self.list_level > 0 {
                (self.list_level - 1) as nat
            } else {
                0
            },
            ..self
        }
    }

    /// The context with one more inline style open.
    pub open spec fn push_style(self, style: TextStyle) -> Context {
        Context { style_stack: self.style_stack.push(style), ..self }
    }

    /// The context with the innermost inline style closed, if any is open.
    pub open spec fn pop_style(self) -> Context {
        Context {
            style_stack: if self.style_stack.len() > 0 {
                self.style_stack.drop_last()
            } else {
                self.style_stack
            },
            ..self
        }
    }
}

impl RenderState {
    /// The state before the first event of a traversal of `layout`.
    pub open spec fn begin(layout: Layout) -> RenderState {
        RenderState { layout, context: Context::initial() }
    }

    /// The state after the start of an element.
    pub open spec fn start(self, tag: Tag) -> RenderState {
        match tag {
            Tag::Heading(level) => RenderState {
                layout: self.layout.ensure_space(HEADING_SPACING_BEFORE as nat).set_text_style(
                    heading_style(level),
                ),
                ..self
            },
            Tag::Paragraph => RenderState {
                layout: self.layout.ensure_space((PARAGRAPH_SPACING / 2) as nat).set_text_style(
                    TextStyle::Body,
                ),
                ..self
            },
            Tag::CodeBlock => RenderState {
                layout: self.layout.ensure_space(CODE_BLOCK_SPACING as nat).set_text_style(
                    TextStyle::Code,
                ),
                context: Context { in_code_block: true, ..self.context },
            },
            Tag::List => RenderState {
                layout: self.layout.ensure_space((PARAGRAPH_SPACING / 2) as nat),
                context: self.context.enter_list(),
            },
            Tag::Item => RenderState {
                layout: self.layout.add_text_at_position(
                    bullet(self.context.list_level),
                    bullet_x(self.context.list_level),
                    self.layout.cursor,
                ),
                ..self
            },
            Tag::Strong => RenderState {
                context: self.context.push_style(TextStyle::Strong),
                ..self
            },
            Tag::Emphasis => RenderState {
                context: self.context.push_style(TextStyle::Emphasis),
                ..self
            },
            Tag::Other => self,
        }
    }

    /// The state after the end of an element.
    pub open spec fn end(self, tag: TagEnd) -> RenderState {
        match tag {
            TagEnd::Heading => RenderState {
                layout: self.layout.ensure_space(HEADING_SPACING_AFTER as nat).set_text_style(
                    TextStyle::Body,
                ),
                ..self
            },
            TagEnd::Paragraph => RenderState {
                layout: self.layout.ensure_space((PARAGRAPH_SPACING / 2) as nat),
                ..self
            },
            TagEnd::CodeBlock => RenderState {
                layout: self.layout.ensure_space(CODE_BLOCK_SPACING as nat).set_text_style(
                    TextStyle::Body,
                ),
                context: Context { in_code_block: false, ..self.context },
            },
            TagEnd::List => RenderState {
                layout: self.layout.ensure_space((PARAGRAPH_SPACING / 2) as nat),
                context: self.context.leave_list(),
            },
            TagEnd::Strong | TagEnd::Emphasis => RenderState {
                context: self.context.pop_style(),
                ..self
            },
            TagEnd::Item | TagEnd::Other => self,
        }
    }

    /// The state after a run of text: inside a code block the run is
    /// preformatted; elsewhere it is wrapped behind the indent of the open
    /// lists.
    pub open spec fn text(self, run: Seq<char>) -> RenderState {
        RenderState {
            layout: if self.context.in_code_block {
                self.layout.add_code_block(run)
            } else {
                self.layout.add_text_with_indent(run, list_indent(self.context.list_level))
            },
            ..self
        }
    }

    /// The state after one event. A soft break counts as a run of text that
    /// holds one space.
    pub open spec fn step(self, event: Event) -> RenderState {
        match event {
            Event::Start(tag) => self.start(tag),
            Event::End(tag) => self.end(tag),
            Event::Text(text) => self.text(text@),
            Event::Code(code) => RenderState { layout: self.layout.add_inline_code(code@), ..self },
            Event::SoftBreak => self.text(seq![' ']),
            Event::HardBreak => RenderState { layout: self.layout.new_line(), ..self },
            Event::Other => self,
        }
    }

    /// The state after a sequence of events, in their order.
    pub open spec fn run(self, events: Seq<Event>) -> RenderState
        decreases events.len(),
    {
        if events.len() == 0 {
            self
        } else {
            self.run(events.drop_last()).step(events.last())
        }
    }
}

impl LayoutContext {
    /// The context at the start of a traversal: no style open, outside any
    /// code block and any list.
    pub fn new() -> (context: Self)
        ensures
            context@ == Context::initial(),
    {
        LayoutContext { style_stack: Vec::new(), in_code_block: false, list_level: 0 }
    }
}

/// Maps a heading level to its style.
pub fn style_of_heading(level: HeadingLevel) -> (style: TextStyle)
    ensures
        style == heading_style(level),
{
    match level {
        HeadingLevel::H1 => TextStyle::H1,
        HeadingLevel::H2 => TextStyle::H2,
        HeadingLevel::H3 => TextStyle::H3,
        HeadingLevel::H4 => TextStyle::H4,
        HeadingLevel::H5 => TextStyle::H5,
        HeadingLevel::H6 => TextStyle::H6,
    }
}

impl PdfRenderer {
    /// Lays out the start of an element.
    pub fn handle_start(&mut self, context: &mut LayoutContext, tag: &Tag)
        requires
            old(self)@.wf(),
        ensures
            (RenderState { layout: final(self)@, context: final(context)@ }) == (RenderState {
                layout: old(self)@,
                context: old(context)@,
            }).start(*tag),
            final(self)@.wf(),
    {
        match tag {
            Tag::Heading(level) => {
                self.ensure_space(HEADING_SPACING_BEFORE);
                let style: TextStyle = style_of_heading(*level);
                self.set_text_style(&style);
            },
            Tag::Paragraph => {
                self.ensure_space(PARAGRAPH_SPACING / 2);
                self.set_text_style(&TextStyle::Body);
            },
            Tag::CodeBlock => {
                self.ensure_space(CODE_BLOCK_SPACING);
                context.in_code_block = true;
                self.set_text_style(&TextStyle::Code);
            },
            Tag::List => {
                if context.list_level < MAX_LIST_LEVEL {
                    context.list_level = context.list_level + 1;
                }
                self.ensure_space(PARAGRAPH_SPACING / 2);
            },
            Tag::Item => {
                let level: u64 = context.list_level as u64;
                assert(level * LIST_INDENT <= 0xffff_ffff * LIST_INDENT) by (nonlinear_arith)
                    requires
                        level <= 0xffff_ffff,
                ;
                let x: u64 = MARGIN_LEFT + level * LIST_INDENT - LIST_INDENT;
                let mut glyph: String = String::new();
                if context.list_level == 1 {
                    glyph.push('\u{2022}');
                } else {
                    glyph.push('\u{25e6}');
                }
                assert(glyph@ =~= bullet(context.list_level as nat));
                let y: u64 = self.current_y();
                self.add_text_at_position(glyph.as_str(), x, y);
            },
            Tag::Strong => {
                context.style_stack.push(TextStyle::Strong);
            },
            Tag::Emphasis => {
                context.style_stack.push(TextStyle::Emphasis);
            },
            Tag::Other => {},
        }
    }

    /// Lays out the end of an element.
    pub fn handle_end(&mut self, context: &mut LayoutContext, tag: &TagEnd)
        requires
            old(self)@.wf(),
        ensures
            (RenderState { layout: final(self)@, context: final(context)@ }) == (RenderState {
                layout: old(self)@,
                context: old(context)@,
            }).end(*tag),
            final(self)@.wf(),
            *tag == TagEnd::Heading || *tag == TagEnd::CodeBlock ==> final(self)@.metrics
                == body_metrics() && final(self)@.font == FontFace::Regular,
    {
        match tag {
            TagEnd::Heading => {
                self.ensure_space(HEADING_SPACING_AFTER);
                self.set_text_style(&TextStyle::Body);
            },
            TagEnd::Paragraph => {
                self.ensure_space(PARAGRAPH_SPACING / 2);
            },
            TagEnd::CodeBlock => {
                context.in_code_block = false;
                self.ensure_space(CODE_BLOCK_SPACING);
                self.set_text_style(&TextStyle::Body);
            },
            TagEnd::List => {
                if context.list_level > 0 {
                    context.list_level = context.list_level - 1;
                }
                self.ensure_space(PARAGRAPH_SPACING / 2);
            },
            TagEnd::Strong | TagEnd::Emphasis => {
                context.style_stack.pop();
                assert(context.style_stack@ =~= old(context)@.pop_style().style_stack);
            },
            TagEnd::Item | TagEnd::Other => {},
        }
    }

    /// Lays out a run of text.
    pub fn handle_text(&mut self, context: &LayoutContext, text: &str)
        requires
            old(self)@.wf(),
        ensures
            (RenderState { layout: final(self)@, context: context@ }) == (RenderState {
                layout: old(self)@,
                context: context@,
            }).text(text@),
            final(self)@.wf(),
    {
        if context.in_code_block {
            self.add_code_block(text);
        } else {
            let level: u64 = context.list_level as u64;
            assert(level * LIST_INDENT <= 0xffff_ffff * LIST_INDENT) by (nonlinear_arith)
                requires
                    level <= 0xffff_ffff,
            ;
            self.add_text_with_indent(text, level * LIST_INDENT);
        }
    }

    /// Lays out one event.
    pub fn handle_event(&mut self, context: &mut LayoutContext, event: &Event)
        requires
            old(self)@.wf(),
        ensures
            (RenderState { layout: final(self)@, context: final(context)@ }) == (RenderState {
                layout: old(self)@,
                context: old(context)@,
            }).step(*event),
            final(self)@.wf(),
    {
        match event {
            Event::Start(tag) => {
                self.handle_start(context, tag);
            },
            Event::End(tag) => {
                self.handle_end(context, tag);
            },
            Event::Text(text) => {
                self.handle_text(context, text.as_str());
            },
            Event::Code(code) => {
                self.add_inline_code(code.as_str());
            },
            Event::SoftBreak => {
                proof {
                    reveal_strlit(" ");
                    assert(" "@ =~= seq![' ']);
                }
                self.handle_text(context, " ");
            },
            Event::HardBreak => {
                self.new_line();
            },
            Event::Other => {},
        }
    }

    /// Lays out a sequence of events, in their order, on the document as it
    /// stands. The traversal starts outside any list, code block and inline
    /// style.
    pub fn render_events(&mut self, events: &[Event])
        requires
            old(self)@.wf(),
        ensures
            final(self)@ == RenderState::begin(old(self)@).run(events@).layout,
            final(self)@.wf(),
    {
        let mut context: LayoutContext = LayoutContext::new();
        let n: usize = events.len();
        let mut i: usize = 0;
        assert(events@.take(0) =~= Seq::<Event>::empty());
        while i < n
            invariant
                n == events.len(),
                i <= n,
                self@.wf(),
                (RenderState { layout: self@, context: context@ }) == RenderState::begin(
                    old(self)@,
                ).run(events@.take(i as int)),
            decreases n - i,
        {
            proof {
                assert(events@.take(i + 1).drop_last() =~= events@.take(i as int));
                assert(events@.take(i + 1).last() == events@[i as int]);
            }
            self.handle_event(&mut context, &events[i]);
            i += 1;
        }
        assert(events@.take(n as int) =~= events@);
    }
}

/// Whether an event leaves the current style as it is: any event but the
/// start of a heading, a paragraph or a code block and the end of a heading
/// or a code block.
pub open spec fn keeps_style(event: Event) -> bool {
    match event {
        Event::Start(Tag::Heading(_)) => false,
        Event::Start(Tag::Paragraph) => false,
        Event::Start(Tag::CodeBlock) => false,
        Event::End(TagEnd::Heading) => false,
        Event::End(TagEnd::CodeBlock) => false,
        _ => true,
    }
}

impl RenderState {
    /// The start of an element keeps the document well formed and
    /// continues it.
    pub proof fn lemma_start(self, tag: Tag)
        requires
            self.layout.wf(),
        ensures
            self.start(tag).layout.wf(),
            self.start(tag).layout.extends(self.layout),
            keeps_style(Event::Start(tag)) ==> self.start(tag).layout.same_style(self.layout),
    {
        let layout = self.layout;
        layout.lemma_extends_itself();
        match tag {
            Tag::Heading(level) => {
                layout.lemma_ensure_space(HEADING_SPACING_BEFORE as nat);
                layout.ensure_space(HEADING_SPACING_BEFORE as nat).lemma_set_text_style(
                    heading_style(level),
                );
            },
            Tag::Paragraph => {
                layout.lemma_ensure_space((PARAGRAPH_SPACING / 2) as nat);
                layout.ensure_space((PARAGRAPH_SPACING / 2) as nat).lemma_set_text_style(
                    TextStyle::Body,
                );
            },
            Tag::CodeBlock => {
                layout.lemma_ensure_space(CODE_BLOCK_SPACING as nat);
                layout.ensure_space(CODE_BLOCK_SPACING as nat).lemma_set_text_style(
                    TextStyle::Code,
                );
            },
            Tag::List => {
                layout.lemma_ensure_space((PARAGRAPH_SPACING / 2) as nat);
            },
            Tag::Item => {
                layout.lemma_place(
                    Placed {
                        text: bullet(self.context.list_level),
                        x: bullet_x(self.context.list_level),
                        y: layout.cursor,
                        font: layout.font,
                        size: layout.font_size() * PT as nat,
                    },
                );
            },
            _ => {},
        }
    }

    /// The end of an element keeps the document well formed and continues
    /// it.
    pub proof fn lemma_end(self, tag: TagEnd)
        requires
            self.layout.wf(),
        ensures
            self.end(tag).layout.wf(),
            self.end(tag).layout.extends(self.layout),
            keeps_style(Event::End(tag)) ==> self.end(tag).layout.same_style(self.layout),
    {
        let layout = self.layout;
        layout.lemma_extends_itself();
        match tag {
            TagEnd::Heading => {
                layout.lemma_ensure_space(HEADING_SPACING_AFTER as nat);
                layout.ensure_space(HEADING_SPACING_AFTER as nat).lemma_set_text_style(
                    TextStyle::Body,
                );
            },
            TagEnd::CodeBlock => {
                layout.lemma_ensure_space(CODE_BLOCK_SPACING as nat);
                layout.ensure_space(CODE_BLOCK_SPACING as nat).lemma_set_text_style(
                    TextStyle::Body,
                );
            },
            TagEnd::Paragraph | TagEnd::List => {
                layout.lemma_ensure_space((PARAGRAPH_SPACING / 2) as nat);
            },
            _ => {},
        }
    }

    /// A run of text keeps the document well formed and its style, and
    /// continues it.
    pub proof fn lemma_text(self, run: Seq<char>)
        requires
            self.layout.wf(),
        ensures
            self.text(run).layout.wf(),
            self.text(run).layout.extends(self.layout),
            self.text(run).layout.same_style(self.layout),
    {
        let layout = self.layout;
        if self.context.in_code_block {
            layout.lemma_add_code_lines(physical_lines(run));
        } else {
            let indent = list_indent(self.context.list_level);
            layout.lemma_add_lines(
                wrap(run, spec_max_chars(spec_text_width(indent), layout.font_size())),
                indent,
            );
        }
    }

    /// One event keeps the document well formed and continues it; and an
    /// event that keeps the style leaves the metrics as they are.
    pub proof fn lemma_step(self, event: Event)
        requires
            self.layout.wf(),
        ensures
            self.step(event).layout.wf(),
            self.step(event).layout.extends(self.layout),
            keeps_style(event) ==> self.step(event).layout.same_style(self.layout),
    {
        let layout = self.layout;
        layout.lemma_extends_itself();
        match event {
            Event::Start(tag) => {
                self.lemma_start(tag);
            },
            Event::End(tag) => {
                self.lemma_end(tag);
            },
            Event::Text(text) => {
                self.lemma_text(text@);
            },
            Event::Code(code) => {
                layout.lemma_place(
                    Placed {
                        text: code@,
                        x: MARGIN_LEFT as nat,
                        y: layout.cursor,
                        font: FontFace::Mono,
                        size: layout.font_size() * PT as nat * 9 / 10,
                    },
                );
            },
            Event::SoftBreak => {
                self.lemma_text(seq![' ']);
            },
            Event::HardBreak => {
                layout.lemma_ensure_space(layout.line_spacing());
            },
            Event::Other => {},
        }
    }

    /// A sequence of events keeps the document well formed and continues
    /// it.
    pub proof fn lemma_run(self, events: Seq<Event>)
        requires
            self.layout.wf(),
        ensures
            self.run(events).layout.wf(),
            self.run(events).layout.extends(self.layout),
        decreases events.len(),
    {
        if events.len() == 0 {
            self.layout.lemma_extends_itself();
        } else {
            let before = self.run(events.drop_last());
            self.lemma_run(events.drop_last());
            before.lemma_step(events.last());
            before.step(events.last()).layout.lemma_extends_transitive(before.layout, self.layout);
        }
    }

    /// A sequence of events that keep the style leaves the metrics of the
    /// document as they are.
    pub proof fn lemma_run_keeps_style(self, events: Seq<Event>)
        requires
            self.layout.wf(),
            forall|i: int| 0 <= i < events.len() ==> keeps_style(#[trigger] events[i]),
        ensures
            self.run(events).layout.same_style(self.layout),
        decreases events.len(),
    {
        if events.len() > 0 {
            let front = events.drop_last();
            assert forall|i: int| 0 <= i < front.len() implies keeps_style(#[trigger] front[i]) by {
                assert(front[i] == events[i]);
            }
            self.lemma_run_keeps_style(front);
            self.lemma_run(front);
            assert(keeps_style(events[events.len() - 1]));
            self.run(front).lemma_step(events.last());
        }
    }
}

} // verus!
