use pulldown_cmark::Options;
use std::collections::HashMap;
use std::sync::{Arc, Mutex};

use the_other_tui_markdown::converter::{heading_prefix, pad_cell, Converter};
use the_other_tui_markdown::events::{parse_markdown, MdEvent, MdTag, MARKDOWN_OPTIONS};
use the_other_tui_markdown::strings::{split_newlines, trim, trim_end_carriage_returns, u64_to_decimal};
use the_other_tui_markdown::style::{Alignment, Color, Modifier, Rect, Style};
use the_other_tui_markdown::text::{Line, Span, Text};
use the_other_tui_markdown::unicode::{char_is_whitespace, graphemes, str_width};
use the_other_tui_markdown::wrap::{is_whitespace, line_symbols, process_input, wrapped_rows};
use the_other_tui_markdown::{
    into_document, into_document_with_renderer, into_text, into_text_with_renderer, into_text_with_theme, ElementKind, ParagraphView,
    RendererBuilder, Theme,
};

fn line_texts(text: &Text) -> Vec<String> {
    text.lines.iter().map(|l| l.spans.iter().map(|s| s.content.as_str()).collect()).collect()
}

fn line_width(line: &Line) -> u16 {
    line.spans.iter().map(|s| str_width(&s.content) as u16).sum()
}

// ── Outside calls, through public functions ───────────────────────────────────

#[test]
fn display_width_of_wide_and_narrow_text() {
    assert_eq!(str_width("你好"), 4);
    assert_eq!(str_width("ab"), 2);
    assert_eq!(pad_cell("你", 4), "你  ");
}

#[test]
fn graphemes_keep_combining_marks_together() {
    let gs = graphemes("e\u{301}x");
    assert_eq!(gs, vec!["e\u{301}".to_string(), "x".to_string()]);
}

#[test]
fn whitespace_classification() {
    assert!(is_whitespace(" "));
    assert!(is_whitespace("\u{3000}"));
    assert!(is_whitespace("\u{200b}"));
    assert!(!is_whitespace("\u{a0}"));
    assert!(!is_whitespace("a"));
    assert!(is_whitespace("\t"));
    assert!(is_whitespace("\u{2028}"));
    assert!(!is_whitespace("\u{200c}"));
    for c in ['\t', '\n', ' ', '\u{85}', '\u{a0}', '\u{1680}', '\u{2000}', '\u{200a}', '\u{202f}', '\u{205f}', '\u{3000}', 'a', '\u{200b}', '\u{feff}'] {
        assert_eq!(char_is_whitespace(c), c.is_whitespace(), "{c:?}");
    }
}

#[test]
fn white_space_matches_std_for_every_char() {
    for n in 0u32..=0x10FFFF {
        if let Some(c) = char::from_u32(n) {
            assert_eq!(char_is_whitespace(c), c.is_whitespace(), "U+{n:04X}");
        }
    }
}

#[test]
fn markdown_options_are_the_enabled_extensions() {
    let o = Options::ENABLE_STRIKETHROUGH
        | Options::ENABLE_TABLES
        | Options::ENABLE_GFM
        | Options::ENABLE_TASKLISTS
        | Options::ENABLE_FOOTNOTES
        | Options::ENABLE_MATH
        | Options::ENABLE_SUPERSCRIPT
        | Options::ENABLE_SUBSCRIPT
        | Options::ENABLE_DEFINITION_LIST;
    assert_eq!(MARKDOWN_OPTIONS, o.bits());
}

#[test]
fn parser_events_for_a_heading() {
    let events = parse_markdown("# Hi", MARKDOWN_OPTIONS);
    assert_eq!(events.len(), 3);
    assert!(matches!(&events[0], MdEvent::Start(MdTag::Heading(1))));
    assert!(matches!(&events[1], MdEvent::Text(t) if t == "Hi"));
    assert!(matches!(&events[2], MdEvent::End));
}

#[test]
fn parser_events_for_a_fenced_code_block() {
    let events = parse_markdown("```rust\nx\n```", MARKDOWN_OPTIONS);
    assert!(matches!(&events[0], MdEvent::Start(MdTag::CodeBlock(Some(l))) if l == "rust"));
    assert!(matches!(&events[1], MdEvent::Text(t) if t == "x\n"));
}

// ── String helpers ────────────────────────────────────────────────────────────

#[test]
fn string_helpers() {
    assert_eq!(heading_prefix(1), "# ");
    assert_eq!(heading_prefix(3), "### ");
    assert_eq!(u64_to_decimal(0), "0");
    assert_eq!(u64_to_decimal(12345), "12345");
    assert_eq!(split_newlines("a\nb\n"), vec!["a".to_string(), "b".to_string(), String::new()]);
    assert_eq!(trim("  x y \t"), "x y");
    assert_eq!(trim_end_carriage_returns("x\r\r"), "x");
    assert_eq!(pad_cell("ab", 4), "ab  ");
    assert_eq!(pad_cell("abcdef", 4), "abcdef");
}

// ── Rendering scenarios ───────────────────────────────────────────────────────

#[test]
fn empty_markdown_gives_no_lines() {
    assert!(into_text("").lines.is_empty());
    assert!(into_document("").text().lines.is_empty());
}

#[test]
fn text_takes_the_theme_base_style() {
    let mut theme = Theme::default();
    theme.base = Style::new().fg(Color::Magenta);
    let text = into_text_with_theme("hello", theme);
    assert_eq!(text.style, theme.base);
    assert_eq!(text.alignment, None);
}

#[test]
fn paragraphs_are_separated_by_one_blank_line() {
    let text = into_text("First.\n\nSecond.");
    assert_eq!(line_texts(&text), vec!["First.", "", "Second."]);
}

#[test]
fn table_columns_are_padded() {
    let text = into_text("| A | Longer |\n|---|---|\n| 1 | 2 |");
    assert_eq!(line_texts(&text), vec!["A │ Longer", "──┼───────", "1 │ 2     "]);
}

#[test]
fn footnotes_come_last_after_a_rule() {
    let text = into_text("a[^x]\n\n[^x]: note");
    let lines = line_texts(&text);
    let n = lines.len();
    assert_eq!(lines[0], "a[^x]");
    assert_eq!(lines[n - 3], "");
    assert_eq!(lines[n - 2], "─".repeat(40));
    assert_eq!(lines[n - 1], "[x]: note");
}

#[test]
fn code_block_lines_without_trailing_empty_line() {
    let text = into_text("```py\na\nb\n```");
    assert_eq!(line_texts(&text), vec!["[py]", "a", "b"]);
}

#[test]
fn ordered_list_counts_from_its_start() {
    let text = into_text("3. a\n4. b");
    assert_eq!(line_texts(&text), vec!["3. a", "4. b"]);
}

#[test]
fn nested_list_is_indented() {
    let text = into_text("- a\n  - b");
    assert_eq!(line_texts(&text), vec!["• a", "  • b"]);
}

#[test]
fn definition_is_indented() {
    let text = into_text("Term\n:   Def");
    assert_eq!(line_texts(&text), vec!["Term", "  Def"]);
}

#[test]
fn html_block_is_verbatim() {
    let text = into_text("<div>\nhi\n</div>");
    assert_eq!(line_texts(&text), vec!["<div>", "hi", "</div>"]);
}

#[test]
fn link_renderer_replaces_only_the_link_spans() {
    let renderer = RendererBuilder::new().with_link(|_alt, _url| vec![Span::raw("X")]).build();
    let doc = into_document_with_renderer("go [docs](u) now", &renderer);
    assert_eq!(line_texts(doc.text()), vec!["go X now"]);
}

#[test]
fn image_default_rendering_shows_alt_and_url() {
    let text = into_text("![a *b*](p.png)");
    assert_eq!(line_texts(&text), vec!["🖼 a b(p.png)"]);
}

#[test]
fn link_default_rendering_is_bracketed() {
    let theme = Theme::default();
    let text = into_text("[click](https://example.com)");
    assert_eq!(line_texts(&text), vec!["[click](https://example.com)"]);
    let spans = &text.lines[0].spans;
    assert_eq!(spans[0].content, "[");
    assert_eq!(spans[0].style, theme.link);
    assert_eq!(spans.last().unwrap().content, "](https://example.com)");
    assert_eq!(spans.last().unwrap().style, theme.link);
    let doc = into_document("a [x](y) b");
    assert_eq!(line_texts(doc.text()), vec!["a [x](y) b"]);
    for col in 2..8 {
        assert!(matches!(doc.element_at(0, col).unwrap().kind, ElementKind::Link { .. }), "{col}");
    }
}

#[test]
fn heading_span_styles() {
    let text = into_text("## T");
    let spans = &text.lines[0].spans;
    assert_eq!(spans[0].content, "## ");
    assert_eq!(spans[0].style, Theme::default().h2);
    assert_eq!(spans[1].content, "T");
    assert_eq!(spans[1].style, Theme::default().h2);
}

// ── Hit-testing laws on concrete documents ────────────────────────────────────

#[test]
fn every_content_cell_hits_and_nothing_past_the_end() {
    let doc = into_document("a **bold** and _it_ [l](u)\n\n> quote `c`");
    for (row, line) in doc.text().lines.iter().enumerate() {
        let w = line_width(line);
        for col in 0..w {
            assert!(doc.element_at(row as u16, col).is_some(), "({row}, {col})");
        }
        assert!(doc.element_at(row as u16, w).is_none());
    }
}

#[test]
fn each_cell_hits_its_own_span_element() {
    let doc = into_document("x **bold** y");
    let line = &doc.text().lines[0];
    let mut col: u16 = 0;
    for span in &line.spans {
        let w = str_width(&span.content) as u16;
        let first = doc.element_at(0, col).unwrap().clone();
        for c in col..col + w {
            assert_eq!(doc.element_at(0, c).unwrap(), &first);
        }
        col += w;
    }
    assert!(matches!(doc.element_at(0, 2).unwrap().kind, ElementKind::Strong));
}

#[test]
fn ancestors_are_innermost_first() {
    let doc = into_document("> a **b**");
    let (row, col) = (0u16, 4u16);
    let hit = doc.element_at(row, col).unwrap();
    assert!(matches!(hit.kind, ElementKind::Strong));
    let kinds: Vec<&ElementKind> = doc.ancestors_of(hit).into_iter().map(|e| &e.kind).collect();
    assert!(matches!(kinds[0], ElementKind::Paragraph));
    assert!(matches!(kinds[1], ElementKind::BlockQuote { kind: None }));
    assert_eq!(kinds.len(), 2);
}

#[test]
fn rule_lines_belong_to_the_rule() {
    let renderer = RendererBuilder::new().with_rule(|| vec![Line::raw("***")]).build();
    let doc = into_document_with_renderer("---", &renderer);
    assert_eq!(line_texts(doc.text()), vec!["", "***"]);
    assert!(matches!(doc.element_at(1, 1).unwrap().kind, ElementKind::Rule));
}

#[test]
fn screen_hit_outside_area_is_none() {
    let doc = into_document("text");
    let view = ParagraphView::new(Rect::new(2, 2, 0, 5));
    assert!(doc.element_at_screen(2, 2, &view).is_none());
    let view = ParagraphView::new(Rect::new(2, 2, 10, 5));
    assert!(matches!(doc.element_at_screen(2, 2, &view).unwrap().kind, ElementKind::Paragraph));
}

#[test]
fn screen_hit_at_the_origin_matches_text_hit() {
    let doc = into_document("a **bold** 你好 [l](u)\n\n> quote `c`");
    let view = ParagraphView::new(Rect::new(0, 0, 40, 10));
    for (row, line) in doc.text().lines.iter().enumerate() {
        let w = line_width(line);
        for col in 0..w {
            let on_screen = doc.element_at_screen(row as u16, col, &view).cloned();
            let in_text = doc.element_at(row as u16, col).cloned();
            assert_eq!(on_screen, in_text, "({row}, {col})");
        }
    }
}

// ── Wrapping ──────────────────────────────────────────────────────────────────

#[test]
fn an_empty_line_still_takes_one_row() {
    let line = Line::from_spans(vec![]);
    assert_eq!(wrapped_rows(&line, 10, true).len(), 1);
    assert_eq!(wrapped_rows(&line, 10, false).len(), 1);
}

#[test]
fn wrapping_splits_at_word_boundaries() {
    let line = Line::raw("aaa bbb ccc");
    let rows = wrapped_rows(&line, 7, true);
    assert_eq!(rows.len(), 2);
    assert_eq!(rows[0].width, 7);
    assert_eq!(rows[1].width, 3);
}

// ── Builders and views ────────────────────────────────────────────────────────

#[test]
fn paragraph_view_setters() {
    let v = ParagraphView::new(Rect::new(1, 2, 3, 4)).scroll(5, 6).wrap(false).alignment(Alignment::Right);
    assert_eq!(v.area, Rect::new(1, 2, 3, 4));
    assert_eq!(v.scroll, (5, 6));
    assert_eq!(v.wrap, Some(false));
    assert_eq!(v.alignment, Alignment::Right);
}

#[test]
fn with_theme_keeps_custom_renderers() {
    let r = RendererBuilder::new()
        .with_link(|a, _| vec![Span::raw(a)])
        .with_theme(Theme::default())
        .build();
    assert!(r.link.is_some());
    assert!(r.image.is_none());
}

#[test]
fn modifier_operations() {
    let m = Modifier::bold().union(Modifier::italic());
    assert!(m.contains(Modifier::bold()));
    assert!(!m.difference(Modifier::bold()).contains(Modifier::bold()));
    assert!(Modifier::empty().is_empty());
    let s = Style::new().add_modifier(Modifier::bold()).patch(Style::new().remove_modifier(Modifier::bold()));
    assert!(!s.add_modifier.contains(Modifier::bold()));
}

#[test]
fn converter_runs_on_given_events() {
    let renderer = RendererBuilder::new().build();
    let events = vec![
        MdEvent::Start(MdTag::Paragraph),
        MdEvent::Text("one\ntwo".to_string()),
        MdEvent::End,
    ];
    let doc = Converter::new(&renderer).render_events(events);
    assert_eq!(line_texts(doc.text()), vec!["one", "two"]);
}

#[test]
fn text_from_lines_is_plain() {
    let t = Text::from_lines(vec![Line::raw("a"), Line::raw("b")]);
    assert_eq!(line_texts(&t), vec!["a", "b"]);
    assert_eq!(t.style, Style::new());
    assert_eq!(t.alignment, None);
}

// ── Scenarios from the crate documentation ───────────────────────────────────

#[test]
fn documented_mouse_click_on_a_link() {
    let doc = into_document("Click [a link](https://example.com)!");
    let view = ParagraphView::new(Rect::new(0, 0, 40, 10)).wrap(true);
    let hit = doc.element_at_screen(0, 7, &view).expect("hit");
    assert!(matches!(&hit.kind, ElementKind::Link { url, .. } if url == "https://example.com"));
}

#[test]
fn documented_link_hints() {
    let hints: Arc<Mutex<HashMap<String, u32>>> = Arc::new(Mutex::new(HashMap::new()));
    let hints_clone = Arc::clone(&hints);
    let renderer = RendererBuilder::new()
        .with_link(move |alt, url| {
            let mut map = hints_clone.lock().unwrap();
            let next = map.len() as u32 + 1;
            let n = *map.entry(url.to_owned()).or_insert(next);
            vec![Span::raw(&format!("[{}]({})", alt, n))]
        })
        .build();
    let text = into_text_with_renderer("Visit [the docs](https://docs.rs) and [crates.io](https://crates.io).", &renderer);
    assert_eq!(line_texts(&text), vec!["Visit [the docs](1) and [crates.io](2)."]);
    let map = hints.lock().unwrap();
    assert_eq!(map.get("https://docs.rs"), Some(&1));
    assert_eq!(map.get("https://crates.io"), Some(&2));
}

#[test]
fn default_rendering_leaves_lines_unstyled() {
    let text = into_text("# H\n\npara **b**\n\n```rs\ncode\n```\n\n---\n\n| a | b |\n|---|---|\n| 1 | 2 |\n\nx[^1]\n\n[^1]: note");
    assert!(!text.lines.is_empty());
    for line in &text.lines {
        assert_eq!(line.style, Style::new());
        assert_eq!(line.alignment, None);
    }
}

#[test]
fn vertical_scroll_shows_rows_further_down() {
    let doc = into_document("one two three four five six seven\n\nsecond paragraph here\n\n- item a\n- item b");
    for wrap in [None, Some(true), Some(false)] {
        for s in 0u16..4 {
            let mut view = ParagraphView::new(Rect::new(2, 1, 12, 5)).scroll(s, 0);
            let mut tall = ParagraphView::new(Rect::new(2, 1, 12, 5 + s)).scroll(0, 0);
            if let Some(t) = wrap {
                view = view.wrap(t);
                tall = tall.wrap(t);
            }
            for r in 0u16..5 {
                for c in 0u16..16 {
                    let a = doc.element_at_screen(1 + r, c, &view).cloned();
                    let b = doc.element_at_screen(1 + r + s, c, &tall).cloned();
                    assert_eq!(a, b, "wrap {wrap:?} scroll {s} ({r}, {c})");
                }
            }
        }
    }
}

#[test]
fn horizontal_scroll_ignored_when_wrapping_or_not_left_aligned() {
    let doc = into_document("see [docs](https://docs.rs) here and more");
    let cases = [
        ParagraphView::new(Rect::new(0, 0, 20, 4)).wrap(true),
        ParagraphView::new(Rect::new(0, 0, 20, 4)).alignment(Alignment::Center),
        ParagraphView::new(Rect::new(0, 0, 20, 4)).alignment(Alignment::Right),
    ];
    for view in cases {
        for x in [0u16, 3, 9] {
            let moved = view.scroll(0, x);
            for r in 0u16..4 {
                for c in 0u16..20 {
                    assert_eq!(
                        doc.element_at_screen(r, c, &view).cloned(),
                        doc.element_at_screen(r, c, &moved).cloned(),
                        "({r}, {c}) x {x}"
                    );
                }
            }
        }
    }
}

#[test]
fn trimmed_rows_never_start_with_whitespace() {
    let line = Line::raw("  lead   spaces and   more    words here  ");
    for w in 1u16..12 {
        let syms = line_symbols(&line);
        let rows = process_input(syms, w, true);
        for r in &rows {
            if let Some(first) = r.first() {
                assert!(!first.ws, "width {w}: {r:?}");
            }
        }
    }
}

#[test]
fn a_wide_symbol_after_a_long_word_can_overflow_a_row() {
    let rows = wrapped_rows(&Line::raw("aaaaaaaaa\u{4f60} b"), 10, true);
    assert_eq!(rows[0].width, 11);
}

#[test]
fn past_the_end_nothing_is_hit() {
    let doc = into_document("short\n\nlonger line");
    let view = ParagraphView::new(Rect::new(0, 0, 30, 6));
    for (row, line) in doc.text().lines.iter().enumerate() {
        for col in line_width(line)..30 {
            assert!(doc.element_at_screen(row as u16, col, &view).is_none());
            assert!(doc.element_at(row as u16, col).is_none());
        }
    }
    assert!(doc.element_at_screen(5, 0, &view).is_none());
}

#[test]
fn wrapping_keeps_every_visible_symbol_that_fits() {
    let line = Line::raw("  one \u{4f60}\u{597d} three   four five\u{200b}six  ");
    for w in 1u16..14 {
        for trim in [true, false] {
            let syms = line_symbols(&line);
            let want: Vec<usize> = syms.iter().filter(|s| !s.ws && s.width <= w).map(|s| s.gi).collect();
            let rows = process_input(syms, w, trim);
            let got: Vec<usize> = rows.iter().flatten().filter(|s| !s.ws).map(|s| s.gi).collect();
            assert_eq!(got, want, "width {w} trim {trim}");
        }
    }
}
