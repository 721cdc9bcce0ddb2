use ratatui::backend::TestBackend;
use ratatui::widgets::{Paragraph, Wrap};
use ratatui::style::Color as R;
use ratatui::Terminal;

use the_other_tui_markdown::style::{Alignment, Color, Rect, Style};
use the_other_tui_markdown::text::{Line, Span, Text};
use the_other_tui_markdown::unicode::str_width;
use the_other_tui_markdown::wrap::{line_graphemes, line_offset, wrapped_rows};
use the_other_tui_markdown::{
    into_document, into_document_with_renderer, into_text, Element, ElementKind, MarkdownDocument, ParagraphView,
    QuoteKind, RendererBuilder,
};

// ── Helpers ───────────────────────────────────────────────────────────────────

/// The (row, display column) of the first occurrence of `needle`.
fn find_pos(doc: &MarkdownDocument, needle: &str) -> (u16, u16) {
    for (i, line) in doc.text().lines.iter().enumerate() {
        let s: String = line.spans.iter().map(|sp| sp.content.as_str()).collect();
        if let Some(byte) = s.find(needle) {
            let col = str_width(&s[..byte]) as u16;
            return (i as u16, col);
        }
    }
    panic!("'{needle}' not found in document");
}

fn hit_kind<'a>(doc: &'a MarkdownDocument, needle: &str) -> &'a ElementKind {
    let (row, col) = find_pos(doc, needle);
    &doc.element_at(row, col).unwrap_or_else(|| panic!("no element at '{needle}' ({row}, {col})")).kind
}

fn ancestor_kinds<'a>(doc: &'a MarkdownDocument, el: &'a Element) -> Vec<&'a ElementKind> {
    doc.ancestors_of(el).into_iter().map(|e| &e.kind).collect()
}

fn rt_color(c: Color) -> ratatui::style::Color {
    match c {
        Color::Reset => R::Reset,
        Color::Black => R::Black,
        Color::Red => R::Red,
        Color::Green => R::Green,
        Color::Yellow => R::Yellow,
        Color::Blue => R::Blue,
        Color::Magenta => R::Magenta,
        Color::Cyan => R::Cyan,
        Color::Gray => R::Gray,
        Color::DarkGray => R::DarkGray,
        Color::LightRed => R::LightRed,
        Color::LightGreen => R::LightGreen,
        Color::LightYellow => R::LightYellow,
        Color::LightBlue => R::LightBlue,
        Color::LightMagenta => R::LightMagenta,
        Color::LightCyan => R::LightCyan,
        Color::White => R::White,
        Color::Rgb(r, g, b) => R::Rgb(r, g, b),
        Color::Indexed(i) => R::Indexed(i),
    }
}

fn rt_style(s: Style) -> ratatui::style::Style {
    let mut st = ratatui::style::Style::default();
    st.fg = s.fg.map(rt_color);
    st.bg = s.bg.map(rt_color);
    st.add_modifier = ratatui::style::Modifier::from_bits_truncate(s.add_modifier.bits);
    st.sub_modifier = ratatui::style::Modifier::from_bits_truncate(s.sub_modifier.bits);
    st
}

fn rt_alignment(a: Alignment) -> ratatui::layout::Alignment {
    match a {
        Alignment::Left => ratatui::layout::Alignment::Left,
        Alignment::Center => ratatui::layout::Alignment::Center,
        Alignment::Right => ratatui::layout::Alignment::Right,
    }
}

fn rt_text(text: &Text) -> ratatui::text::Text<'static> {
    let lines: Vec<ratatui::text::Line<'static>> = text
        .lines
        .iter()
        .map(|l| {
            let spans: Vec<ratatui::text::Span<'static>> = l
                .spans
                .iter()
                .map(|s| ratatui::text::Span::styled(s.content.clone(), rt_style(s.style)))
                .collect();
            let mut line = ratatui::text::Line::from(spans).style(rt_style(l.style));
            line.alignment = l.alignment.map(rt_alignment);
            line
        })
        .collect();
    let mut t = ratatui::text::Text::from(lines);
    t.style = rt_style(text.style);
    t
}

/// Renders `text` with a real `Paragraph` and extracts the buffer rows.
fn render_rows(
    text: &Text,
    width: u16,
    height: u16,
    trim: bool,
    scroll: (u16, u16),
    alignment: Alignment,
) -> Vec<String> {
    let backend = TestBackend::new(width, height);
    let mut terminal = Terminal::new(backend).unwrap();
    terminal
        .draw(|f| {
            let p = Paragraph::new(rt_text(text))
                .wrap(Wrap { trim })
                .scroll(scroll)
                .alignment(rt_alignment(alignment));
            f.render_widget(p, f.area());
        })
        .unwrap();
    let buf = terminal.backend().buffer().clone();
    (0..height)
        .map(|y| {
            let mut row = String::new();
            let mut x = 0;
            while x < width {
                let sym = buf.cell((x, y)).unwrap().symbol();
                row.push_str(sym);
                x += (str_width(sym) as u16).max(1);
            }
            row
        })
        .collect()
}

/// The predicted wrapped layout (row strings incl. alignment padding),
/// after applying vertical scroll.
fn predicted_rows(text: &Text, width: u16, trim: bool, scroll_y: u16, alignment: Alignment) -> Vec<String> {
    let mut rows = Vec::new();
    for line in &text.lines {
        let align = line.alignment.unwrap_or(alignment);
        let gs = line_graphemes(line);
        for r in wrapped_rows(line, width, trim) {
            let mut s = " ".repeat(line_offset(r.width, width, align) as usize);
            for seg in &r.segs {
                s.push_str(&gs[seg.gi]);
            }
            rows.push(s);
        }
    }
    rows.into_iter().skip(scroll_y as usize).collect()
}

fn assert_layout_matches(text: &Text, width: u16, height: u16, trim: bool, scroll: (u16, u16), alignment: Alignment) {
    let buffer = render_rows(text, width, height, trim, scroll, alignment);
    let predicted = predicted_rows(text, width, trim, scroll.0, alignment);
    for (y, pred) in predicted.iter().enumerate().take(height as usize) {
        assert_eq!(
            buffer[y].trim_end(),
            pred.trim_end(),
            "row {y} mismatch (width={width}, trim={trim}, scroll={scroll:?}, {alignment:?})\nbuffer: {:?}",
            buffer
        );
    }
    for (y, row) in buffer.iter().enumerate().skip(predicted.len()) {
        assert!(row.trim().is_empty(), "row {y} should be blank, got {row:?} (predicted only {} rows)", predicted.len());
    }
}

const LONG_TEXT: &str = "The quick brown fox jumps over the lazy dog. \
    Pack my box with five dozen liquor jugs. How vexingly quick daft \
    zebras jump!";

fn long_text() -> Text {
    into_text(LONG_TEXT)
}

fn find_on_screen(
    doc: &MarkdownDocument,
    width: u16,
    height: u16,
    trim: bool,
    scroll: (u16, u16),
    alignment: Alignment,
    needle: &str,
) -> (u16, u16) {
    let rows = render_rows(doc.text(), width, height, trim, scroll, alignment);
    for (y, row) in rows.iter().enumerate() {
        if let Some(x) = row.find(needle) {
            return (y as u16, x as u16);
        }
    }
    panic!("'{needle}' not visible on screen: {rows:?}");
}

// ── Blocks & inline elements ──────────────────────────────────────────────────

#[test]
fn paragraph_text() {
    let doc = into_document("Hello, world.");
    assert!(matches!(hit_kind(&doc, "world"), ElementKind::Paragraph));
}

#[test]
fn heading_with_level() {
    let doc = into_document("## Title");
    assert!(matches!(hit_kind(&doc, "Title"), ElementKind::Heading { level: 2 }), "got {:?}", hit_kind(&doc, "Title"));
    assert!(matches!(hit_kind(&doc, "##"), ElementKind::Heading { level: 2 }));
}

#[test]
fn strong_and_emphasis() {
    let doc = into_document("a **bold** and _it_");
    assert!(matches!(hit_kind(&doc, "bold"), ElementKind::Strong));
    assert!(matches!(hit_kind(&doc, "it"), ElementKind::Emphasis));
    let (row, col) = find_pos(&doc, "bold");
    let hit = doc.element_at(row, col).unwrap();
    assert!(ancestor_kinds(&doc, hit).iter().any(|k| matches!(k, ElementKind::Paragraph)));
}

#[test]
fn inline_code() {
    let doc = into_document("Use `code` here.");
    assert!(matches!(hit_kind(&doc, "code"), ElementKind::InlineCode));
}

#[test]
fn code_block_with_lang() {
    let doc = into_document("```rust\nlet x = 1;\n```");
    assert!(matches!(
        hit_kind(&doc, "let x"),
        ElementKind::CodeBlock { lang: Some(l) } if l == "rust"
    ));
    assert!(matches!(
        hit_kind(&doc, "[rust]"),
        ElementKind::CodeBlock { lang: Some(l) } if l == "rust"
    ));
}

#[test]
fn block_quote() {
    let doc = into_document("> quoted text");
    let (row, col) = find_pos(&doc, "quoted");
    let hit = doc.element_at(row, col).unwrap();
    assert!(
        ancestor_kinds(&doc, hit).iter().any(|k| matches!(k, ElementKind::BlockQuote { kind: None })),
        "ancestors: {:?}",
        ancestor_kinds(&doc, hit)
    );
    assert!(matches!(hit_kind(&doc, "▌"), ElementKind::BlockQuote { kind: None }));
}

#[test]
fn gfm_alert_quote_kind() {
    let doc = into_document("> [!NOTE]\n> pay attention");
    let (row, col) = find_pos(&doc, "pay attention");
    let hit = doc.element_at(row, col).unwrap();
    assert!(
        ancestor_kinds(&doc, hit)
            .iter()
            .any(|k| matches!(k, ElementKind::BlockQuote { kind: Some(QuoteKind::Note) })),
        "ancestors: {:?}",
        ancestor_kinds(&doc, hit)
    );
}

// ── Lists ─────────────────────────────────────────────────────────────────────

#[test]
fn list_item_and_marker() {
    let doc = into_document("- Apple\n- Banana");
    let (row, col) = find_pos(&doc, "Apple");
    let hit = doc.element_at(row, col).unwrap();
    let mut kinds = vec![&hit.kind];
    kinds.extend(ancestor_kinds(&doc, hit));
    assert!(kinds.iter().any(|k| matches!(k, ElementKind::ListItem { checked: None })), "kinds: {kinds:?}");
    assert!(kinds.iter().any(|k| matches!(k, ElementKind::List { ordered: false })), "kinds: {kinds:?}");
    assert!(matches!(hit_kind(&doc, "•"), ElementKind::ListItem { checked: None }));
}

#[test]
fn document_ordered_list() {
    let doc = into_document("1. First\n2. Second");
    let (row, col) = find_pos(&doc, "Second");
    let hit = doc.element_at(row, col).unwrap();
    assert!(ancestor_kinds(&doc, hit).iter().any(|k| matches!(k, ElementKind::List { ordered: true })));
}

#[test]
fn task_list_checked_state() {
    let doc = into_document("- [x] Done\n- [ ] Todo");
    let (row, col) = find_pos(&doc, "[x]");
    let hit = doc.element_at(row, col).unwrap();
    assert!(matches!(hit.kind, ElementKind::ListItem { checked: Some(true) }), "got {:?}", hit.kind);
    let (row, col) = find_pos(&doc, "[ ]");
    let hit = doc.element_at(row, col).unwrap();
    assert!(matches!(hit.kind, ElementKind::ListItem { checked: Some(false) }), "got {:?}", hit.kind);
}

#[test]
fn nested_list_indent_columns() {
    let doc = into_document("- parent\n  - child");
    let (row, col) = find_pos(&doc, "child");
    assert_eq!(col, 4);
    let hit = doc.element_at(row, col).unwrap();
    assert!(ancestor_kinds(&doc, hit).iter().any(|k| matches!(k, ElementKind::ListItem { .. })));
}

// ── Links & images ────────────────────────────────────────────────────────────

#[test]
fn link_alt_and_url_suffix() {
    let doc = into_document("see [click](https://example.com)!");
    let (row, col) = find_pos(&doc, "click");
    let hit = doc.element_at(row, col).unwrap();
    assert!(
        matches!(&hit.kind, ElementKind::Link { alt, url } if alt == "click" && url == "https://example.com"),
        "got {:?}",
        hit.kind
    );
    let (row, col) = find_pos(&doc, "https://example.com");
    let hit = doc.element_at(row, col).unwrap();
    assert!(matches!(hit.kind, ElementKind::Link { .. }));
}

#[test]
fn link_with_custom_renderer() {
    let renderer = RendererBuilder::new()
        .with_link(|alt, url| vec![Span::raw(&format!("[{alt}→{url}]"))])
        .build();
    let doc = into_document_with_renderer("go [docs](https://docs.rs) now", &renderer);
    let (row, col) = find_pos(&doc, "[docs→");
    let hit = doc.element_at(row, col).unwrap();
    assert!(
        matches!(&hit.kind, ElementKind::Link { alt, url } if alt == "docs" && url == "https://docs.rs"),
        "got {:?}",
        hit.kind
    );
}

#[test]
fn multiple_links_keep_their_urls() {
    let doc = into_document("[a](l1) foo [b](l2)");
    let (row, col) = find_pos(&doc, "(l2)");
    let hit = doc.element_at(row, col).unwrap();
    assert!(
        matches!(&hit.kind, ElementKind::Link { alt, url } if alt == "b" && url == "l2"),
        "got {:?}",
        hit.kind
    );
}

#[test]
fn image() {
    let doc = into_document("a ![cat](cat.png) b");
    let (row, col) = find_pos(&doc, "cat.png");
    let hit = doc.element_at(row, col).unwrap();
    assert!(
        matches!(&hit.kind, ElementKind::Image { alt, url } if alt == "cat" && url == "cat.png"),
        "got {:?}",
        hit.kind
    );
}

// ── Tables ────────────────────────────────────────────────────────────────────

#[test]
fn table_cells_and_separator() {
    let doc = into_document("| Name | Age |\n|------|-----|\n| Alice | 30 |");
    assert!(
        matches!(hit_kind(&doc, "Name"), ElementKind::TableCell { row: 0, col: 0, header: true }),
        "got {:?}",
        hit_kind(&doc, "Name")
    );
    assert!(
        matches!(hit_kind(&doc, "Age"), ElementKind::TableCell { row: 0, col: 1, header: true }),
        "got {:?}",
        hit_kind(&doc, "Age")
    );
    assert!(
        matches!(hit_kind(&doc, "Alice"), ElementKind::TableCell { row: 1, col: 0, header: false }),
        "got {:?}",
        hit_kind(&doc, "Alice")
    );
    assert!(
        matches!(hit_kind(&doc, "30"), ElementKind::TableCell { row: 1, col: 1, header: false }),
        "got {:?}",
        hit_kind(&doc, "30")
    );
    let (row, _) = find_pos(&doc, "Alice");
    let sep = doc.element_at(row - 1, 1).expect("separator hit");
    assert!(matches!(sep.kind, ElementKind::Table));
}

// ── Footnotes ─────────────────────────────────────────────────────────────────

#[test]
fn footnote_ref_and_def() {
    let doc = into_document("See[^1].\n\n[^1]: The note.");
    assert!(
        matches!(hit_kind(&doc, "[^1]"), ElementKind::FootnoteRef { label } if label == "1"),
        "got {:?}",
        hit_kind(&doc, "[^1]")
    );
    assert!(
        matches!(hit_kind(&doc, "The note"), ElementKind::FootnoteDef { label } if label == "1"),
        "got {:?}",
        hit_kind(&doc, "The note")
    );
}

// ── Miscellaneous ─────────────────────────────────────────────────────────────

#[test]
fn document_thematic_break() {
    let doc = into_document("Before\n\n---\n\nAfter");
    assert!(matches!(hit_kind(&doc, "────"), ElementKind::Rule));
}

#[test]
fn inline_math() {
    let doc = into_document("formula $x^2$ here");
    assert!(matches!(hit_kind(&doc, "x^2"), ElementKind::Math { display: false }), "got {:?}", hit_kind(&doc, "x^2"));
}

#[test]
fn definition_list() {
    let doc = into_document("Term\n:   A definition");
    assert!(matches!(hit_kind(&doc, "Term"), ElementKind::DefinitionTitle));
    assert!(matches!(hit_kind(&doc, "A definition"), ElementKind::Definition));
}

#[test]
fn cjk_wide_chars_column_math() {
    let doc = into_document("你好 **世界**");
    let (row, col) = find_pos(&doc, "世界");
    assert_eq!(col, 5);
    let hit = doc.element_at(row, col).unwrap();
    assert!(matches!(hit.kind, ElementKind::Strong));
    let hit = doc.element_at(row, col + 1).unwrap();
    assert!(matches!(hit.kind, ElementKind::Strong));
    let hit = doc.element_at(row, 1).unwrap();
    assert!(matches!(hit.kind, ElementKind::Paragraph));
}

// ── Misses ────────────────────────────────────────────────────────────────────

#[test]
fn blank_line_returns_none() {
    let doc = into_document("First.\n\nSecond.");
    assert!(doc.element_at(1, 0).is_none());
}

#[test]
fn past_end_of_line_returns_none() {
    let doc = into_document("short");
    assert!(doc.element_at(0, 100).is_none());
}

#[test]
fn out_of_bounds_row_returns_none() {
    let doc = into_document("one line");
    assert!(doc.element_at(42, 0).is_none());
}

// ── Layout against a real ratatui Paragraph ───────────────────────────────────

#[test]
fn layout_wrap_trim_true() {
    let text = long_text();
    for width in [10, 20, 25, 40] {
        assert_layout_matches(&text, width, 20, true, (0, 0), Alignment::Left);
    }
}

#[test]
fn layout_wrap_trim_false() {
    let text = long_text();
    for width in [10, 20, 25, 40] {
        assert_layout_matches(&text, width, 20, false, (0, 0), Alignment::Left);
    }
}

#[test]
fn layout_long_word_hard_split() {
    let text = into_text("supercalifragilisticexpialidocious ok");
    for trim in [true, false] {
        assert_layout_matches(&text, 10, 8, trim, (0, 0), Alignment::Left);
    }
}

#[test]
fn layout_cjk_wrap() {
    let text = into_text("你好世界，这是一个测试。再来一行。");
    for trim in [true, false] {
        for width in [10, 11, 12] {
            assert_layout_matches(&text, width, 10, trim, (0, 0), Alignment::Left);
        }
    }
}

#[test]
fn layout_wrap_with_scroll() {
    let text = long_text();
    assert_layout_matches(&text, 20, 6, true, (3, 0), Alignment::Left);
    assert_layout_matches(&text, 20, 6, false, (5, 0), Alignment::Left);
}

#[test]
fn layout_wrap_with_alignment() {
    let text = into_text("short words here and there");
    for alignment in [Alignment::Center, Alignment::Right] {
        assert_layout_matches(&text, 12, 8, true, (0, 0), alignment);
        assert_layout_matches(&text, 12, 8, false, (0, 0), alignment);
    }
}

#[test]
fn layout_blank_lines() {
    let text = into_text("First.\n\nSecond paragraph that is long enough to wrap.");
    assert_layout_matches(&text, 15, 10, true, (0, 0), Alignment::Left);
    assert_layout_matches(&text, 15, 10, false, (0, 0), Alignment::Left);
}

// ── element_at_screen ─────────────────────────────────────────────────────────

#[test]
fn screen_wrapped_link_hit() {
    let doc = into_document(
        "Intro text here [examplelink](https://example.com) and more \
         text to make the paragraph wrap around the link.",
    );
    let view = ParagraphView::new(Rect::new(0, 0, 25, 20)).wrap(true);
    let (row, col) = find_on_screen(&doc, 25, 20, true, (0, 0), Alignment::Left, "examplelink");
    for x in col..col + "examplelink".len() as u16 {
        let hit = doc.element_at_screen(row, x, &view).unwrap_or_else(|| panic!("no hit at ({row}, {x})"));
        assert!(
            matches!(&hit.kind, ElementKind::Link { alt, url } if alt == "examplelink" && url == "https://example.com"),
            "at ({row}, {x}): {:?}",
            hit.kind
        );
    }
    let (row, col) = find_on_screen(&doc, 25, 20, true, (0, 0), Alignment::Left, "Intro");
    let hit = doc.element_at_screen(row, col, &view).unwrap();
    assert!(matches!(hit.kind, ElementKind::Paragraph));
}

#[test]
fn screen_every_content_cell_hits() {
    let doc = into_document(
        "Words [a link](https://a.b) words words words words words words \
         words words words words words.",
    );
    let (w, h) = (18, 12);
    let view = ParagraphView::new(Rect::new(0, 0, w, h)).wrap(true);
    let rows = render_rows(doc.text(), w, h, true, (0, 0), Alignment::Left);
    for (y, row) in rows.iter().enumerate() {
        for (x, _) in row.char_indices().filter(|(_, c)| *c != ' ') {
            let hit = doc.element_at_screen(y as u16, x as u16, &view);
            assert!(hit.is_some(), "non-space cell ({y}, {x}) of {row:?} should hit an element");
        }
    }
}

#[test]
fn screen_wrapped_link_with_scroll() {
    let doc = into_document(
        "Some leading text that takes up space [examplelink](https://example.com) \
         and trailing text that wraps further down the screen.",
    );
    let scroll = (2u16, 0u16);
    let view = ParagraphView::new(Rect::new(0, 0, 20, 20)).wrap(true).scroll(2, 0);
    let (row, col) = find_on_screen(&doc, 20, 20, true, scroll, Alignment::Left, "examplelink");
    let hit = doc.element_at_screen(row, col, &view).unwrap();
    assert!(
        matches!(&hit.kind, ElementKind::Link { url, .. } if url == "https://example.com"),
        "got {:?}",
        hit.kind
    );
}

#[test]
fn screen_no_wrap_table_hit() {
    let doc = into_document("| Name | Age |\n|------|-----|\n| Alice | 30 |");
    let view = ParagraphView::new(Rect::new(0, 0, 30, 10));
    let (row, col) = find_on_screen(&doc, 30, 10, true, (0, 0), Alignment::Left, "Alice");
    let hit = doc.element_at_screen(row, col, &view).unwrap();
    assert!(
        matches!(hit.kind, ElementKind::TableCell { row: 1, col: 0, header: false }),
        "got {:?}",
        hit.kind
    );
}

#[test]
fn screen_center_aligned_hit() {
    let doc = into_document("go [examplelink](https://example.com) now");
    let view = ParagraphView::new(Rect::new(0, 0, 40, 10)).alignment(Alignment::Center);
    let (row, col) = find_on_screen(&doc, 40, 10, true, (0, 0), Alignment::Center, "examplelink");
    let hit = doc.element_at_screen(row, col, &view).unwrap();
    assert!(
        matches!(&hit.kind, ElementKind::Link { url, .. } if url == "https://example.com"),
        "got {:?}",
        hit.kind
    );
}

#[test]
fn screen_right_aligned_wrapped_hit() {
    let doc = into_document("go [examplelink](https://example.com) now with more words");
    let view = ParagraphView::new(Rect::new(0, 0, 20, 10)).wrap(true).alignment(Alignment::Right);
    let (row, col) = find_on_screen(&doc, 20, 10, true, (0, 0), Alignment::Right, "examplelink");
    let hit = doc.element_at_screen(row, col, &view).unwrap();
    assert!(
        matches!(&hit.kind, ElementKind::Link { url, .. } if url == "https://example.com"),
        "got {:?}",
        hit.kind
    );
}

#[test]
fn screen_horizontal_scroll_no_wrap() {
    let doc = into_document("see [docs](https://docs.rs) here");
    let view = ParagraphView::new(Rect::new(0, 0, 30, 10)).scroll(0, 4);
    let (row, col) = find_on_screen(&doc, 30, 10, true, (0, 4), Alignment::Left, "docs");
    let hit = doc.element_at_screen(row, col, &view).unwrap();
    assert!(
        matches!(&hit.kind, ElementKind::Link { url, .. } if url == "https://docs.rs"),
        "got {:?}",
        hit.kind
    );
}

#[test]
fn screen_offset_area() {
    let doc = into_document("[examplelink](https://example.com)");
    let view = ParagraphView::new(Rect::new(5, 3, 30, 10));
    let hit = doc.element_at_screen(3, 5, &view).unwrap();
    assert!(matches!(hit.kind, ElementKind::Link { .. }));
    assert!(doc.element_at_screen(2, 5, &view).is_none());
    assert!(doc.element_at_screen(3, 4, &view).is_none());
    assert!(doc.element_at_screen(0, 0, &view).is_none());
}

#[test]
fn screen_per_line_alignment_override() {
    let renderer = RendererBuilder::new()
        .with_heading(|_, spans| vec![Line::from_spans(spans).alignment(Alignment::Right)])
        .build();
    let doc = into_document_with_renderer("# Head\n\nbody text here", &renderer);
    assert_layout_matches(doc.text(), 20, 6, true, (0, 0), Alignment::Left);
    let view = ParagraphView::new(Rect::new(0, 0, 20, 6));
    let (row, col) = find_on_screen(&doc, 20, 6, true, (0, 0), Alignment::Left, "Head");
    let hit = doc.element_at_screen(row, col, &view).unwrap();
    assert!(matches!(hit.kind, ElementKind::Heading { level: 1 }), "got {:?}", hit.kind);
}

#[test]
fn screen_padding_returns_none() {
    let doc = into_document("tiny");
    let view = ParagraphView::new(Rect::new(0, 0, 30, 10));
    assert!(doc.element_at_screen(0, 10, &view).is_none());
    assert!(doc.element_at_screen(5, 0, &view).is_none());
}
