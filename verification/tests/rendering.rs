use markdown_to_pdf::driver::LayoutContext;
use markdown_to_pdf::event::{Event, HeadingLevel, Tag, TagEnd};
use markdown_to_pdf::page::{make_footer, Page, PlacedText};
use markdown_to_pdf::renderer::PdfRenderer;
use markdown_to_pdf::style::{FontFace, TextStyle};
use markdown_to_pdf::units::{
    CODE_INDENT, CURSOR_TOP, FOOTER_X, FOOTER_Y, LIST_INDENT, MARGIN_BOTTOM, MARGIN_LEFT, MM, PT,
};

fn text(s: &str) -> Event {
    Event::Text(s.to_string())
}

fn body(page: &Page) -> &[PlacedText] {
    &page.runs[1..]
}

fn assert_footers(renderer: &PdfRenderer) {
    for (index, page) in renderer.pages().iter().enumerate() {
        let footer = &page.runs[0];
        assert_eq!(footer.text, format!("- {} -", index + 1));
        assert_eq!(footer.x, 95 * MM);
        assert_eq!(footer.y, 12 * MM + MM / 2);
        assert_eq!(footer.font, FontFace::Regular);
        assert_eq!(footer.size, 8 * PT);
    }
}

#[test]
fn fresh_document() {
    let renderer = PdfRenderer::new();
    assert_eq!(renderer.pages().len(), 1);
    assert_eq!(renderer.page_number(), 1);
    assert_eq!(renderer.pages()[0].runs.len(), 1);
    assert_eq!(renderer.current_y(), 272 * MM);
    assert_eq!(renderer.font_size(), 11);
    assert_eq!(renderer.line_height(), 140);
    assert_eq!(renderer.font(), FontFace::Regular);
    assert_footers(&renderer);
    assert_eq!(FOOTER_X, 95 * MM);
    assert_eq!(FOOTER_Y, 450000);
}

#[test]
fn footer_numbers_are_decimal() {
    assert_eq!(make_footer(0).text, "- 0 -");
    assert_eq!(make_footer(7).text, "- 7 -");
    assert_eq!(make_footer(10).text, "- 10 -");
    assert_eq!(make_footer(4096).text, "- 4096 -");
    assert_eq!(make_footer(usize::MAX).text, format!("- {} -", usize::MAX));
}

#[test]
fn empty_stream_gives_one_page_with_its_footer() {
    let mut renderer = PdfRenderer::new();
    renderer.render_events(&[]);
    assert_eq!(renderer.pages().len(), 1);
    assert_eq!(renderer.pages()[0].runs.len(), 1);
    assert_eq!(renderer.pages()[0].runs[0].text, "- 1 -");
    assert_eq!(renderer.current_y(), CURSOR_TOP);
    assert_eq!(renderer.font_size(), 11);
    assert_eq!(renderer.line_height(), 140);
}

#[test]
fn heading_then_paragraph() {
    let events = vec![
        Event::Start(Tag::Heading(HeadingLevel::H1)),
        text("Title"),
        Event::End(TagEnd::Heading),
        Event::Start(Tag::Paragraph),
        text("Hello world"),
        Event::End(TagEnd::Paragraph),
    ];
    let mut renderer = PdfRenderer::new();
    renderer.render_events(&events);
    assert_eq!(renderer.pages().len(), 1);
    assert_footers(&renderer);
    let runs = body(&renderer.pages()[0]);
    assert_eq!(runs.len(), 2);
    assert_eq!(runs[0].text, "Title");
    assert_eq!(runs[0].size, 18 * PT);
    assert_eq!(runs[0].x, 25 * MM);
    assert_eq!(runs[0].y, (272 - 12) * MM);
    assert_eq!(runs[0].font, FontFace::Bold);
    assert_eq!(runs[1].text, "Hello world");
    assert_eq!(runs[1].font, FontFace::Regular);
    assert_eq!(runs[1].size, 11 * PT);
    assert_eq!(runs[1].x, 25 * MM);
    let h1_line = 18 * 120 * 127;
    let body_line = 11 * 140 * 127;
    assert_eq!(runs[1].y, 272 * MM - 12 * MM - h1_line - 6 * MM - 3 * MM);
    let descent = 12 * MM + h1_line + 6 * MM + 3 * MM + body_line + 3 * MM;
    assert_eq!(renderer.current_y(), CURSOR_TOP - descent);
    assert_eq!(renderer.font_size(), 11);
    assert_eq!(renderer.line_height(), 140);
}

#[test]
fn reserving_space_moves_the_cursor_down() {
    let mut renderer = PdfRenderer::new();
    renderer.ensure_space(12 * MM);
    assert_eq!(renderer.current_y(), 260 * MM);
    renderer.ensure_space(0);
    assert_eq!(renderer.current_y(), 260 * MM);
    renderer.ensure_space(235 * MM);
    assert_eq!(renderer.current_y(), MARGIN_BOTTOM);
    assert_eq!(renderer.pages().len(), 1);
}

#[test]
fn reserving_beyond_the_bottom_margin_breaks_the_page() {
    let mut renderer = PdfRenderer::new();
    renderer.ensure_space(247 * MM);
    assert_eq!(renderer.pages().len(), 1);
    assert_eq!(renderer.current_y(), MARGIN_BOTTOM);
    renderer.ensure_space(1);
    assert_eq!(renderer.pages().len(), 2);
    assert_eq!(renderer.current_y(), CURSOR_TOP);
    renderer.ensure_space(u64::MAX);
    assert_eq!(renderer.pages().len(), 3);
    assert_eq!(renderer.current_y(), CURSOR_TOP);
    assert_footers(&renderer);
}

#[test]
fn pagination_trigger() {
    // 25 reservations of 10 mm add up to 250 mm, more than the 247 mm of the text area.
    let mut renderer = PdfRenderer::new();
    for _ in 0..24 {
        renderer.ensure_space(10 * MM);
    }
    assert_eq!(renderer.pages().len(), 1);
    assert_eq!(renderer.current_y(), 32 * MM);
    renderer.ensure_space(10 * MM);
    assert_eq!(renderer.pages().len(), 2);
    assert_eq!(renderer.page_number(), 2);
    assert_eq!(renderer.current_y(), CURSOR_TOP);
    assert_footers(&renderer);
}

#[test]
fn page_numbers_increase() {
    let mut renderer = PdfRenderer::new();
    for _ in 0..11 {
        renderer.new_page();
    }
    assert_eq!(renderer.pages().len(), 12);
    assert_footers(&renderer);
    assert_eq!(renderer.pages()[9].runs[0].text, "- 10 -");
    assert_eq!(renderer.pages()[11].runs[0].text, "- 12 -");
    let pages = renderer.into_pages();
    assert_eq!(pages.len(), 12);
    assert_eq!(pages[11].runs[0].text, "- 12 -");
}

#[test]
fn long_paragraph_flows_over_pages() {
    let word = "word ".repeat(4000);
    let events = vec![Event::Start(Tag::Paragraph), text(&word), Event::End(TagEnd::Paragraph)];
    let mut renderer = PdfRenderer::new();
    renderer.render_events(&events);
    assert!(renderer.pages().len() > 1);
    assert_footers(&renderer);
    let mut words = 0;
    for page in renderer.pages() {
        let mut last_y = u64::MAX;
        for run in body(page) {
            assert!(run.text.chars().count() <= 82);
            assert!(run.y < last_y);
            assert!(run.y >= MARGIN_BOTTOM && run.y <= CURSOR_TOP);
            last_y = run.y;
            words += run.text.split(' ').count();
        }
    }
    assert_eq!(words, 4000);
    // 16 words of five characters and their spaces fit into 82 characters.
    assert_eq!(body(&renderer.pages()[0])[0].text, "word ".repeat(16).trim_end());
}

#[test]
fn set_text_style_follows_the_table() {
    let mut renderer = PdfRenderer::new();
    renderer.set_text_style(&TextStyle::H3);
    assert_eq!((renderer.font_size(), renderer.line_height()), (14, 115));
    assert_eq!(renderer.font(), FontFace::Bold);
    renderer.set_text_style(&TextStyle::Strong);
    assert_eq!((renderer.font_size(), renderer.line_height()), (14, 115));
    assert_eq!(renderer.font(), FontFace::Bold);
    renderer.set_text_style(&TextStyle::H4);
    assert_eq!((renderer.font_size(), renderer.line_height()), (12, 140));
    assert_eq!(renderer.font(), FontFace::Regular);
    renderer.set_text_style(&TextStyle::Emphasis);
    assert_eq!((renderer.font_size(), renderer.line_height()), (12, 140));
    assert_eq!(renderer.font(), FontFace::Regular);
    renderer.set_text_style(&TextStyle::Code);
    assert_eq!((renderer.font_size(), renderer.line_height()), (9, 120));
    assert_eq!(renderer.font(), FontFace::Mono);
    renderer.set_text_style(&TextStyle::Strong);
    assert_eq!(renderer.font(), FontFace::Mono);
    renderer.set_text_style(&TextStyle::Body);
    assert_eq!((renderer.font_size(), renderer.line_height()), (11, 140));
    assert_eq!(renderer.font(), FontFace::Regular);
    assert_eq!(renderer.get_font_for_style(&TextStyle::H2), FontFace::Bold);
    assert_eq!(renderer.get_font_for_style(&TextStyle::Emphasis), FontFace::Italic);
}

#[test]
fn new_line_advances_by_the_line_height() {
    let mut renderer = PdfRenderer::new();
    renderer.new_line();
    assert_eq!(renderer.current_y(), CURSOR_TOP - 195580);
    renderer.set_text_style(&TextStyle::H1);
    renderer.new_line();
    assert_eq!(renderer.current_y(), CURSOR_TOP - 195580 - 274320);
    assert_eq!(renderer.pages()[0].runs.len(), 1);
}

#[test]
fn hard_and_soft_break_advance_one_line() {
    let mut renderer = PdfRenderer::new();
    renderer.render_events(&[Event::HardBreak]);
    assert_eq!(renderer.current_y(), CURSOR_TOP - 195580);
    renderer.render_events(&[Event::SoftBreak]);
    assert_eq!(renderer.current_y(), CURSOR_TOP - 2 * 195580);
    assert_eq!(renderer.pages()[0].runs.len(), 1);
}

#[test]
fn style_is_body_after_heading_and_code_block() {
    let levels = [
        HeadingLevel::H1,
        HeadingLevel::H2,
        HeadingLevel::H3,
        HeadingLevel::H4,
        HeadingLevel::H5,
        HeadingLevel::H6,
    ];
    for level in levels {
        let mut renderer = PdfRenderer::new();
        let mut context = LayoutContext::new();
        renderer.handle_event(&mut context, &Event::Start(Tag::Strong));
        renderer.handle_event(&mut context, &Event::Start(Tag::Heading(level)));
        renderer.handle_event(&mut context, &Event::End(TagEnd::Heading));
        assert_eq!((renderer.font_size(), renderer.line_height()), (11, 140));
        assert_eq!(renderer.font(), FontFace::Regular);
        assert_eq!(context.style_stack, vec![TextStyle::Strong]);
    }
    let mut renderer = PdfRenderer::new();
    let mut context = LayoutContext::new();
    renderer.handle_event(&mut context, &Event::Start(Tag::CodeBlock));
    assert_eq!((renderer.font_size(), renderer.line_height()), (9, 120));
    assert_eq!(renderer.font(), FontFace::Mono);
    assert!(context.in_code_block);
    renderer.handle_event(&mut context, &Event::End(TagEnd::CodeBlock));
    assert_eq!((renderer.font_size(), renderer.line_height()), (11, 140));
    assert_eq!(renderer.font(), FontFace::Regular);
    assert!(!context.in_code_block);
    assert_eq!(renderer.current_y(), CURSOR_TOP - 16 * MM);
}

#[test]
fn end_of_paragraph_keeps_the_style() {
    let mut renderer = PdfRenderer::new();
    let mut context = LayoutContext::new();
    renderer.handle_event(&mut context, &Event::Start(Tag::Paragraph));
    renderer.handle_event(&mut context, &text("some text"));
    renderer.handle_event(&mut context, &Event::End(TagEnd::Paragraph));
    assert_eq!((renderer.font_size(), renderer.line_height()), (11, 140));
    assert_eq!(renderer.font(), FontFace::Regular);
    renderer.handle_event(&mut context, &Event::Start(Tag::Heading(HeadingLevel::H1)));
    renderer.handle_event(&mut context, &Event::End(TagEnd::Paragraph));
    assert_eq!((renderer.font_size(), renderer.line_height()), (18, 120));
    assert_eq!(renderer.font(), FontFace::Bold);
}

#[test]
fn each_heading_level_sets_its_style() {
    let table = [
        (HeadingLevel::H1, 18, 120, FontFace::Bold),
        (HeadingLevel::H2, 16, 120, FontFace::Bold),
        (HeadingLevel::H3, 14, 115, FontFace::Bold),
        (HeadingLevel::H4, 12, 140, FontFace::Regular),
        (HeadingLevel::H5, 11, 140, FontFace::Regular),
        (HeadingLevel::H6, 10, 140, FontFace::Regular),
    ];
    for (level, size, multiplier, font) in table {
        let mut renderer = PdfRenderer::new();
        renderer.render_events(&[Event::Start(Tag::Heading(level)), text("T")]);
        assert_eq!((renderer.font_size(), renderer.line_height()), (size, multiplier));
        assert_eq!(renderer.font(), font);
        let run = &renderer.pages()[0].runs[1];
        assert_eq!(run.font, font);
        assert_eq!(run.size, size * PT);
        assert_eq!(run.y, CURSOR_TOP - 12 * MM);
        assert_eq!(renderer.current_y(), CURSOR_TOP - 12 * MM - size * multiplier * 127);
    }
}

#[test]
fn list_depth_never_falls_below_zero() {
    let mut renderer = PdfRenderer::new();
    let mut context = LayoutContext::new();
    renderer.handle_event(&mut context, &Event::End(TagEnd::List));
    assert_eq!(context.list_level, 0);
    renderer.handle_event(&mut context, &Event::Start(Tag::List));
    renderer.handle_event(&mut context, &Event::Start(Tag::List));
    assert_eq!(context.list_level, 2);
    for expected in [1, 0, 0, 0] {
        renderer.handle_event(&mut context, &Event::End(TagEnd::List));
        assert_eq!(context.list_level, expected);
    }
    assert_eq!(renderer.current_y(), CURSOR_TOP - 7 * 3 * MM);
}

#[test]
fn list_depth_saturates_at_the_top() {
    let mut renderer = PdfRenderer::new();
    let mut context = LayoutContext::new();
    context.list_level = u32::MAX - 1;
    renderer.handle_event(&mut context, &Event::Start(Tag::List));
    assert_eq!(context.list_level, u32::MAX);
    renderer.handle_event(&mut context, &Event::Start(Tag::List));
    assert_eq!(context.list_level, u32::MAX);
    renderer.handle_event(&mut context, &Event::Start(Tag::Item));
    renderer.handle_event(&mut context, &text("deep"));
    let runs = body(&renderer.pages()[0]);
    assert_eq!(runs[0].x, MARGIN_LEFT + (u32::MAX as u64 - 1) * LIST_INDENT);
    assert_eq!(runs[1].x, MARGIN_LEFT + u32::MAX as u64 * LIST_INDENT);
    assert_eq!(runs[1].text, "deep");
}

#[test]
fn list_items_get_bullets_and_indents() {
    let events = vec![
        Event::Start(Tag::List),
        Event::Start(Tag::Item),
        text("first"),
        Event::Start(Tag::List),
        Event::Start(Tag::Item),
        text("nested"),
        Event::End(TagEnd::Item),
        Event::End(TagEnd::List),
        Event::End(TagEnd::Item),
        Event::End(TagEnd::List),
    ];
    let mut renderer = PdfRenderer::new();
    renderer.render_events(&events);
    let runs = body(&renderer.pages()[0]);
    assert_eq!(runs.len(), 4);
    let first_y = CURSOR_TOP - 3 * MM;
    assert_eq!((runs[0].text.as_str(), runs[0].x, runs[0].y), ("\u{2022}", 25 * MM, first_y));
    assert_eq!((runs[1].text.as_str(), runs[1].x, runs[1].y), ("first", 35 * MM, first_y));
    let second_y = first_y - 195580 - 3 * MM;
    assert_eq!((runs[2].text.as_str(), runs[2].x, runs[2].y), ("\u{25e6}", 35 * MM, second_y));
    assert_eq!((runs[3].text.as_str(), runs[3].x, runs[3].y), ("nested", 45 * MM, second_y));
    assert_eq!(renderer.current_y(), second_y - 195580 - 6 * MM);
}

#[test]
fn item_outside_a_list() {
    let mut renderer = PdfRenderer::new();
    renderer.render_events(&[Event::Start(Tag::Item)]);
    let runs = body(&renderer.pages()[0]);
    assert_eq!(runs.len(), 1);
    assert_eq!(runs[0].text, "\u{25e6}");
    assert_eq!(runs[0].x, 15 * MM);
    assert_eq!(runs[0].y, CURSOR_TOP);
    assert_eq!(renderer.current_y(), CURSOR_TOP);
}

#[test]
fn list_text_wraps_to_the_narrower_width() {
    let mut renderer = PdfRenderer::new();
    let run_of_words = "x ".repeat(60);
    renderer.render_events(&[Event::Start(Tag::List), text(&run_of_words)]);
    let runs = body(&renderer.pages()[0]);
    // 150 mm hold 77 characters of 11 pt: 39 words of one character.
    assert_eq!(runs[0].text, "x ".repeat(39).trim_end());
    assert_eq!(runs[1].text, "x ".repeat(21).trim_end());
    assert_eq!(runs.len(), 2);
    assert_eq!(runs[0].x, MARGIN_LEFT + LIST_INDENT);
}

#[test]
fn indent_beyond_the_text_width() {
    let mut renderer = PdfRenderer::new();
    renderer.add_text_with_indent("a b", 161 * MM);
    let runs = body(&renderer.pages()[0]);
    assert_eq!(runs.len(), 2);
    assert_eq!((runs[0].text.as_str(), runs[0].x), ("a", 186 * MM));
    assert_eq!((runs[1].text.as_str(), runs[1].x), ("b", 186 * MM));
}

#[test]
fn code_block_keeps_its_lines() {
    let long = "x".repeat(500);
    let code = format!("fn main() {{\n    let long = \"{}\";\n\n}}\n", long);
    let events = vec![Event::Start(Tag::CodeBlock), text(&code), Event::End(TagEnd::CodeBlock)];
    let mut renderer = PdfRenderer::new();
    renderer.render_events(&events);
    let runs = body(&renderer.pages()[0]);
    let expected: Vec<&str> = code.lines().collect();
    assert_eq!(expected.len(), 4);
    assert_eq!(runs.len(), 4);
    for (index, run) in runs.iter().enumerate() {
        assert_eq!(run.text, expected[index]);
        assert_eq!(run.font, FontFace::Mono);
        assert_eq!(run.size, 9 * PT);
        assert_eq!(run.x, MARGIN_LEFT + CODE_INDENT);
        assert_eq!(run.y, CURSOR_TOP - 8 * MM - index as u64 * 137160);
    }
    assert_eq!(renderer.current_y(), CURSOR_TOP - 16 * MM - 4 * 137160);
    assert_eq!(renderer.font_size(), 11);
}

#[test]
fn code_block_flows_over_pages_in_order() {
    let code: String = (0..200).map(|i| format!("line {}\n", i)).collect();
    let mut renderer = PdfRenderer::new();
    renderer.render_events(&[Event::Start(Tag::CodeBlock), text(&code)]);
    assert!(renderer.pages().len() > 1);
    assert_footers(&renderer);
    let mut placed: Vec<String> = Vec::new();
    for page in renderer.pages() {
        for run in body(page) {
            placed.push(run.text.clone());
        }
    }
    let expected: Vec<String> = (0..200).map(|i| format!("line {}", i)).collect();
    assert_eq!(placed, expected);
}

#[test]
fn inline_code_is_placed_at_the_cursor() {
    let mut renderer = PdfRenderer::new();
    renderer.render_events(&[Event::Start(Tag::Paragraph), Event::Code("a  b".to_string())]);
    let runs = body(&renderer.pages()[0]);
    assert_eq!(runs.len(), 1);
    assert_eq!(runs[0].text, "a  b");
    assert_eq!(runs[0].font, FontFace::Mono);
    assert_eq!(runs[0].size, 125730);
    assert_eq!(runs[0].x, MARGIN_LEFT);
    assert_eq!(runs[0].y, CURSOR_TOP - 3 * MM);
    assert_eq!(renderer.current_y(), CURSOR_TOP - 3 * MM);
}

#[test]
fn inline_styles_are_only_counted() {
    let mut renderer = PdfRenderer::new();
    let mut context = LayoutContext::new();
    renderer.handle_event(&mut context, &Event::End(TagEnd::Strong));
    assert!(context.style_stack.is_empty());
    renderer.handle_event(&mut context, &Event::Start(Tag::Strong));
    renderer.handle_event(&mut context, &Event::Start(Tag::Emphasis));
    assert_eq!(context.style_stack, vec![TextStyle::Strong, TextStyle::Emphasis]);
    renderer.handle_event(&mut context, &text("both"));
    renderer.handle_event(&mut context, &Event::End(TagEnd::Emphasis));
    assert_eq!(context.style_stack, vec![TextStyle::Strong]);
    renderer.handle_event(&mut context, &Event::End(TagEnd::Strong));
    assert!(context.style_stack.is_empty());
    let runs = body(&renderer.pages()[0]);
    assert_eq!(runs[0].font, FontFace::Regular);
    assert_eq!(runs[0].size, 11 * PT);
}

#[test]
fn other_events_change_nothing() {
    let mut renderer = PdfRenderer::new();
    renderer.render_events(&[
        Event::Other,
        Event::Start(Tag::Other),
        Event::End(TagEnd::Other),
        Event::End(TagEnd::Item),
    ]);
    assert_eq!(renderer.pages().len(), 1);
    assert_eq!(renderer.pages()[0].runs.len(), 1);
    assert_eq!(renderer.current_y(), CURSOR_TOP);
}

#[test]
fn blank_text_takes_a_line_and_places_nothing() {
    let mut renderer = PdfRenderer::new();
    renderer.add_text("   ");
    renderer.add_text("");
    assert_eq!(renderer.pages()[0].runs.len(), 1);
    assert_eq!(renderer.current_y(), CURSOR_TOP - 2 * 195580);
}

#[test]
fn text_at_position_uses_the_current_font() {
    let mut renderer = PdfRenderer::new();
    renderer.add_text_at_position("plain", 1, 2);
    renderer.set_text_style(&TextStyle::H1);
    renderer.add_text_at_position("here", 7, 9);
    renderer.set_text_style(&TextStyle::Emphasis);
    renderer.add_text_at_position("still", 3, 4);
    renderer.set_text_style(&TextStyle::H6);
    renderer.add_text_at_position("small", 5, 6);
    renderer.set_text_style(&TextStyle::Code);
    renderer.add_text_at_position("code", 8, 8);
    let runs = body(&renderer.pages()[0]);
    assert_eq!((runs[0].text.as_str(), runs[0].x, runs[0].y), ("plain", 1, 2));
    assert_eq!((runs[0].font, runs[0].size), (FontFace::Regular, 11 * PT));
    assert_eq!((runs[1].text.as_str(), runs[1].x, runs[1].y), ("here", 7, 9));
    assert_eq!((runs[1].font, runs[1].size), (FontFace::Bold, 18 * PT));
    assert_eq!((runs[2].font, runs[2].size), (FontFace::Bold, 18 * PT));
    assert_eq!((runs[3].font, runs[3].size), (FontFace::Regular, 10 * PT));
    assert_eq!((runs[4].font, runs[4].size), (FontFace::Mono, 9 * PT));
    assert_eq!(renderer.current_y(), CURSOR_TOP);
}

#[test]
fn heading_text_is_bold_on_every_line() {
    let title = "Heading ".repeat(12);
    let mut renderer = PdfRenderer::new();
    renderer.render_events(&[
        Event::Start(Tag::Heading(HeadingLevel::H2)),
        text(&title),
        Event::End(TagEnd::Heading),
        text("after"),
    ]);
    let runs = body(&renderer.pages()[0]);
    assert_eq!(runs.len(), 3);
    assert_eq!((runs[0].font, runs[0].size), (FontFace::Bold, 16 * PT));
    assert_eq!((runs[1].font, runs[1].size), (FontFace::Bold, 16 * PT));
    assert_eq!((runs[2].text.as_str(), runs[2].font), ("after", FontFace::Regular));
    assert_eq!(runs[2].size, 11 * PT);
}

#[test]
fn renderer_wraps_at_its_font_size() {
    let mut renderer = PdfRenderer::new();
    let words = "abcd ".repeat(20);
    assert_eq!(renderer.wrap_text(&words, 160 * MM).len(), 2);
    renderer.set_text_style(&TextStyle::H1);
    // 50 characters of 18 pt fit: ten words of four characters.
    let lines = renderer.wrap_text(&words, 160 * MM);
    assert_eq!(lines, vec!["abcd ".repeat(10).trim_end().to_string(); 2]);
}

#[test]
fn first_line_after_a_break_is_at_the_top() {
    let mut renderer = PdfRenderer::new();
    renderer.ensure_space(246 * MM);
    renderer.render_events(&[text("one two")]);
    assert_eq!(renderer.pages().len(), 2);
    assert_eq!(body(&renderer.pages()[0])[0].y, 26 * MM);
    assert_eq!(renderer.current_y(), CURSOR_TOP);
    renderer.render_events(&[text("three")]);
    assert_eq!(body(&renderer.pages()[1])[0].y, CURSOR_TOP);
    assert_eq!(body(&renderer.pages()[0]).len(), 1);
}

#[test]
fn soft_break_is_a_run_of_one_space() {
    let mut with_break = PdfRenderer::new();
    with_break.render_events(&[Event::Start(Tag::CodeBlock), Event::SoftBreak]);
    let mut with_text = PdfRenderer::new();
    with_text.render_events(&[Event::Start(Tag::CodeBlock), text(" ")]);
    let broken = body(&with_break.pages()[0]);
    let written = body(&with_text.pages()[0]);
    assert_eq!(broken.len(), 1);
    assert_eq!(written.len(), 1);
    assert_eq!(broken[0].text, " ");
    assert_eq!(broken[0].text, written[0].text);
    assert_eq!(broken[0].font, FontFace::Mono);
    assert_eq!(with_break.current_y(), with_text.current_y());
    assert_eq!(with_break.current_y(), CURSOR_TOP - 8 * MM - 137160);

    let mut in_list = PdfRenderer::new();
    in_list.render_events(&[Event::Start(Tag::List), Event::SoftBreak]);
    assert_eq!(in_list.pages()[0].runs.len(), 1);
    assert_eq!(in_list.current_y(), CURSOR_TOP - 3 * MM - 195580);
}

#[test]
fn cursor_stays_inside_the_text_area() {
    let mut renderer = PdfRenderer::new();
    let paragraph = "Sphinx of black quartz, judge my vow. ".repeat(30);
    let mut events: Vec<Event> = Vec::new();
    for round in 0..40 {
        events.push(Event::Start(Tag::Heading(HeadingLevel::H2)));
        events.push(text(&format!("Section {}", round)));
        events.push(Event::End(TagEnd::Heading));
        events.push(Event::Start(Tag::Paragraph));
        events.push(text(&paragraph));
        events.push(Event::End(TagEnd::Paragraph));
    }
    for event in &events {
        let pages_before = renderer.pages().len();
        let runs_before = renderer.pages()[pages_before - 1].runs.len();
        renderer.render_events(std::slice::from_ref(event));
        assert!(renderer.current_y() >= MARGIN_BOTTOM);
        assert!(renderer.current_y() <= CURSOR_TOP);
        assert!(renderer.pages().len() >= pages_before);
        assert!(renderer.pages()[pages_before - 1].runs.len() >= runs_before);
    }
    assert!(renderer.pages().len() > 3);
    assert_footers(&renderer);
}

#[test]
fn place_text_writes_where_it_is_told() {
    let mut renderer = PdfRenderer::new();
    renderer.place_text("note", 3 * MM, 4 * MM, FontFace::BoldItalic, 7 * PT);
    let run = &renderer.pages()[0].runs[1];
    assert_eq!(run.text, "note");
    assert_eq!((run.x, run.y, run.size), (3 * MM, 4 * MM, 7 * PT));
    assert_eq!(run.font, FontFace::BoldItalic);
    assert_eq!(renderer.current_y(), CURSOR_TOP);
    renderer.new_page();
    renderer.place_text("next", 0, 0, FontFace::Italic, 0);
    assert_eq!(renderer.pages()[0].runs.len(), 2);
    assert_eq!(renderer.pages()[1].runs.len(), 2);
    assert_eq!(renderer.pages()[1].runs[1].text, "next");
}
