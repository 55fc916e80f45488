//! What holds of every layout: the laws of pagination, of wrapping and of
//! the event state machine.

use vstd::prelude::*;
use crate::driver::{heading_style, keeps_style, list_indent, RenderState};
use crate::event::{Event, HeadingLevel, Tag, TagEnd};
use crate::layout::{spec_text_width, visible, Layout};
use crate::page::{footer, footer_number, lemma_footer_number, Placed};
use crate::style::{body_metrics, spec_font, spec_metrics, FontFace};
use crate::text::{
    join, lemma_pack_bound, lemma_pack_join, lemma_pack_len, lemma_words, lemma_wrap_not_blank,
    pack, physical_lines, spec_is_blank, spec_is_whitespace, words, wrap,
};
use crate::units::{
    spec_max_chars, CODE_INDENT, CURSOR_TOP, MARGIN_BOTTOM, MARGIN_LEFT, PT, TEXT_HEIGHT,
};

verus! {

/// The sum of a sequence of heights.
pub open spec fn total(amounts: Seq<nat>) -> nat
    decreases amounts.len(),
{
    if amounts.len() == 0 {
        0
    } else {
        total(amounts.drop_last()) + amounts.last()
    }
}

/// The document after a sequence of space reservations, in their order.
pub open spec fn reserve_all(layout: Layout, amounts: Seq<nat>) -> Layout
    decreases amounts.len(),
{
    if amounts.len() == 0 {
        layout
    } else {
        reserve_all(layout, amounts.drop_last()).ensure_space(amounts.last())
    }
}

/// A run of `count` ends of a list.
pub open spec fn list_ends(count: nat) -> Seq<Event> {
    Seq::new(count, |i: int| Event::End(TagEnd::List))
}

/// Reservations keep a document well formed and leave its body as it is;
/// and those after which it has no more pages than before have moved the
/// cursor down by their sum.
pub proof fn reservations(layout: Layout, amounts: Seq<nat>)
    requires
        layout.wf(),
    ensures
        reserve_all(layout, amounts).wf(),
        reserve_all(layout, amounts).body() == layout.body(),
        reserve_all(layout, amounts).pages.len() >= layout.pages.len(),
        reserve_all(layout, amounts).pages.len() == layout.pages.len() ==> reserve_all(
            layout,
            amounts,
        ).cursor + total(amounts) == layout.cursor,
    decreases amounts.len(),
{
    if amounts.len() > 0 {
        reservations(layout, amounts.drop_last());
        reserve_all(layout, amounts.drop_last()).lemma_ensure_space(amounts.last());
    }
}

/// Pagination: reservations that, counted from the top of the current page,
/// add up to more than the height of the text area give the document more
/// than one page; and every page of the document is stamped with its
/// number, counted from 1.
pub proof fn pagination_trigger(layout: Layout, amounts: Seq<nat>)
    requires
        layout.wf(),
        (CURSOR_TOP - layout.cursor) + total(amounts) > TEXT_HEIGHT,
    ensures
        reserve_all(layout, amounts).pages.len() > layout.pages.len(),
        reserve_all(layout, amounts).pages.len() > 1,
        forall|i: int|
            0 <= i < reserve_all(layout, amounts).pages.len() ==> (#[trigger] reserve_all(
                layout,
                amounts,
            ).pages[i])[0] == footer((i + 1) as nat),
{
    reservations(layout, amounts);
}

/// Page numbers: every page of a well-formed document starts with a footer
/// that shows the number of the page, so the numbers shown start at 1 and
/// grow by one from page to page; and the cursor lies between the bottom
/// margin and the top of the text area.
pub proof fn page_numbers(layout: Layout, i: int)
    requires
        layout.wf(),
        0 <= i < layout.pages.len(),
    ensures
        layout.pages[i].len() >= 1,
        layout.pages[i][0] == footer((i + 1) as nat),
        footer_number(layout.pages[i][0]) == i + 1,
        MARGIN_BOTTOM <= layout.cursor <= CURSOR_TOP,
{
    lemma_footer_number((i + 1) as nat);
}

/// Word wrap bound: every line of a run wrapped to `max_width` at
/// `font_size` holds at most as many characters as fit into that width, or
/// is a single word of the run that alone is longer.
pub proof fn wrap_bound(text: Seq<char>, max_width: nat, font_size: nat)
    requires
        font_size > 0,
    ensures
        forall|i: int|
            0 <= i < wrap(text, spec_max_chars(max_width, font_size)).len() ==> (#[trigger] wrap(
                text,
                spec_max_chars(max_width, font_size),
            )[i]).len() <= spec_max_chars(max_width, font_size) || words(text).contains(
                wrap(text, spec_max_chars(max_width, font_size))[i],
            ),
{
    lemma_pack_bound(words(text), spec_max_chars(max_width, font_size));
}

/// Wrapping changes no word: the lines of a wrapped run, joined by single
/// spaces, are the words of the run joined by single spaces.
pub proof fn wrap_keeps_words(text: Seq<char>, max_chars: nat)
    ensures
        join(wrap(text, max_chars)) == join(words(text)),
{
    lemma_pack_join(words(text), max_chars);
    if pack(words(text), max_chars).len() == 0 {
        lemma_pack_len(words(text), max_chars);
        assert(join(seq![Seq::<char>::empty()]) == Seq::<char>::empty());
    }
}

/// List depth floor: ends of lists lower the nesting by one each until it
/// is zero, and leave it at zero from then on.
pub proof fn list_depth_floor(state: RenderState, count: nat)
    ensures
        state.run(list_ends(count)).context.list_level == if state.context.list_level >= count {
            state.context.list_level - count
        } else {
            0
        },
    decreases count,
{
    if count > 0 {
        list_depth_floor(state, (count - 1) as nat);
        assert(list_ends(count).drop_last() =~= list_ends((count - 1) as nat));
    }
}

/// Empty input: laying out no events leaves a document as it is, and a
/// fresh document is one page that holds the footer of page 1 and no other
/// text.
pub proof fn empty_stream(layout: Layout)
    ensures
        RenderState::begin(layout).run(Seq::empty()).layout == layout,
        RenderState::begin(Layout::initial()).run(Seq::empty()).layout.pages == seq![
            seq![footer(1)],
        ],
        RenderState::begin(Layout::initial()).run(Seq::empty()).layout.body() == Seq::<
            Placed,
        >::empty(),
{
    Layout::lemma_initial();
}

/// Code block fidelity: a code block adds to the body of the document one
/// item for each physical line of its text, in their order, each holding
/// the line as it is, whatever its length, in the monospace font.
pub proof fn code_block_fidelity(layout: Layout, code: Seq<char>)
    requires
        layout.wf(),
    ensures
        layout.add_code_block(code).lines_added(
            layout,
            physical_lines(code),
            (MARGIN_LEFT + CODE_INDENT) as nat,
            FontFace::Mono,
        ),
{
    layout.lemma_add_code_lines(physical_lines(code));
}

/// Text fidelity: a run with a word adds to the body of the document one
/// item for each line that it is wrapped into, in their order, in the
/// current font behind the indent; a blank run adds nothing.
pub proof fn text_fidelity(layout: Layout, text: Seq<char>, indent: nat)
    requires
        layout.wf(),
    ensures
        !spec_is_blank(text) ==> layout.add_text_with_indent(text, indent).lines_added(
            layout,
            wrap(text, spec_max_chars(spec_text_width(indent), layout.font_size())),
            MARGIN_LEFT as nat + indent,
            layout.font,
        ),
        spec_is_blank(text) ==> layout.add_text_with_indent(text, indent).body() == layout.body(),
        spec_is_blank(text) ==> layout.add_text_with_indent(text, indent) == layout.new_line(),
{
    let max_chars = spec_max_chars(spec_text_width(indent), layout.font_size());
    let lines = wrap(text, max_chars);
    layout.lemma_add_lines(lines, indent);
    if spec_is_blank(text) {
        lemma_words(text);
        assert(pack(words(text), max_chars) =~= Seq::<Seq<char>>::empty());
        assert(lines =~= seq![Seq::<char>::empty()]);
        assert(lines.drop_last() =~= Seq::<Seq<char>>::empty());
        assert(spec_is_blank(lines.last()));
        assert(layout.add_lines(lines.drop_last(), indent) == layout);
        layout.lemma_ensure_space(layout.line_spacing());
    } else {
        lemma_wrap_not_blank(text, max_chars);
        lemma_all_visible(lines);
    }
}

/// Lines none of which is blank are all visible.
pub proof fn lemma_all_visible(lines: Seq<Seq<char>>)
    requires
        forall|i: int| 0 <= i < lines.len() ==> !spec_is_blank(#[trigger] lines[i]),
    ensures
        visible(lines) == lines,
    decreases lines.len(),
{
    if lines.len() > 0 {
        let front = lines.drop_last();
        assert forall|i: int| 0 <= i < front.len() implies !spec_is_blank(#[trigger] front[i]) by {
            assert(front[i] == lines[i]);
        }
        lemma_all_visible(front);
        assert(!spec_is_blank(lines[lines.len() - 1]));
        assert(front.push(lines.last()) =~= lines);
    } else {
        assert(visible(lines) =~= lines);
    }
}

/// Style reset: after the end of a heading or of a code block the current
/// style is the body style, 11 pt at a multiplier of 1.4 in the regular
/// font, whatever it was before and whatever inline styles are open.
pub proof fn style_reset(state: RenderState, tag: TagEnd)
    requires
        tag == TagEnd::Heading || tag == TagEnd::CodeBlock,
    ensures
        state.step(Event::End(tag)).layout.metrics == body_metrics(),
        state.step(Event::End(tag)).layout.font_size() == 11,
        state.step(Event::End(tag)).layout.line_height() == 140,
        state.step(Event::End(tag)).layout.font == FontFace::Regular,
{
}

/// Style reset for a paragraph: after the start of a paragraph, events that
/// keep the style and the end of the paragraph, the current style is the
/// body style in the regular font, whatever it was before.
pub proof fn style_reset_paragraph(state: RenderState, inner: Seq<Event>)
    requires
        state.layout.wf(),
        forall|i: int| 0 <= i < inner.len() ==> keeps_style(#[trigger] inner[i]),
    ensures
        state.step(Event::Start(Tag::Paragraph)).run(inner).step(
            Event::End(TagEnd::Paragraph),
        ).layout.metrics == body_metrics(),
        state.step(Event::Start(Tag::Paragraph)).run(inner).step(
            Event::End(TagEnd::Paragraph),
        ).layout.font == FontFace::Regular,
{
    let started = state.step(Event::Start(Tag::Paragraph));
    state.lemma_step(Event::Start(Tag::Paragraph));
    started.lemma_run_keeps_style(inner);
}

/// Heading font: text laid out after the start of a heading of the first
/// three levels is placed in the bold font, and after the start of a
/// heading of a lower level in the regular font, at the size of the level.
pub proof fn heading_font(
    state: RenderState,
    level: HeadingLevel,
    text: Seq<char>,
    x: nat,
    y: nat,
)
    ensures
        state.step(Event::Start(Tag::Heading(level))).layout.font == spec_font(
            heading_style(level),
        ),
        state.step(Event::Start(Tag::Heading(level))).layout.font == if level == HeadingLevel::H1
            || level == HeadingLevel::H2 || level == HeadingLevel::H3 {
            FontFace::Bold
        } else {
            FontFace::Regular
        },
        state.step(Event::Start(Tag::Heading(level))).layout.add_text_at_position(text, x, y)
            == state.step(Event::Start(Tag::Heading(level))).layout.place(
            Placed {
                text,
                x,
                y,
                font: spec_font(heading_style(level)),
                size: spec_metrics(heading_style(level))->0.font_size as nat * PT as nat,
            },
        ),
{
}

/// No backward writes: whatever the events, the document stays well
/// formed, keeps every page, leaves the pages before the current one
/// untouched and only adds to the current one.
pub proof fn no_backward_writes(layout: Layout, events: Seq<Event>)
    requires
        layout.wf(),
    ensures
        RenderState::begin(layout).run(events).layout.wf(),
        RenderState::begin(layout).run(events).layout.extends(layout),
{
    RenderState::begin(layout).lemma_run(events);
}

/// Order: laying out one sequence of events after another is laying out
/// the two in a row.
pub proof fn run_in_order(state: RenderState, first: Seq<Event>, second: Seq<Event>)
    ensures
        state.run(first + second) == state.run(first).run(second),
    decreases second.len(),
{
    if second.len() == 0 {
        assert(first + second =~= first);
    } else {
        run_in_order(state, first, second.drop_last());
        assert((first + second).drop_last() =~= first + second.drop_last());
        assert((first + second).last() == second.last());
    }
}

/// A soft break outside a code block advances by one line and places
/// nothing.
pub proof fn soft_break_advances(state: RenderState)
    requires
        state.layout.wf(),
        !state.context.in_code_block,
    ensures
        state.step(Event::SoftBreak).layout == state.layout.new_line(),
{
    let s = seq![' '];
    assert(spec_is_whitespace(s[0]));
    text_fidelity(state.layout, s, list_indent(state.context.list_level));
}

} // verus!
