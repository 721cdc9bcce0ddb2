use std::sync::{Arc, Mutex};

use the_other_tui_markdown::style::{Color, Modifier, Style};
use the_other_tui_markdown::text::{Line, Span, Text};
use the_other_tui_markdown::{into_text, into_text_with_renderer, Renderer, RendererBuilder, Theme};

fn plain_text(text: &Text) -> String {
    text.lines
        .iter()
        .map(|l| l.spans.iter().map(|s| s.content.as_str()).collect::<String>())
        .collect::<Vec<_>>()
        .join("\n")
}

fn all_spans(text: &Text) -> Vec<(String, Style)> {
    text.lines
        .iter()
        .flat_map(|l| l.spans.iter().map(|s| (s.content.clone(), s.style)))
        .collect()
}

fn convert(md: &str) -> Text {
    into_text(md)
}

fn convert_with(md: &str, renderer: &Renderer) -> Text {
    into_text_with_renderer(md, renderer)
}

#[test]
fn plain_paragraph() {
    let text = convert("Hello, world.");
    let spans = all_spans(&text);
    assert!(spans.iter().any(|(c, _)| c == "Hello, world."));
}

#[test]
fn two_paragraphs_have_blank_line_between() {
    let text = convert("First.\n\nSecond.");
    assert!(text.lines.iter().any(|l| l.spans.is_empty()));
}

#[test]
fn h1_prefix_and_text() {
    let text = convert("# Hello");
    let p = plain_text(&text);
    assert!(p.contains("# "));
    assert!(p.contains("Hello"));
}

#[test]
fn heading_levels_all_prefixes() {
    let md = "# H1\n\n## H2\n\n### H3\n\n#### H4\n\n##### H5\n\n###### H6";
    let p = plain_text(&convert(md));
    for prefix in &["# ", "## ", "### ", "#### ", "##### ", "###### "] {
        assert!(p.contains(prefix), "missing prefix '{prefix}'");
    }
}

#[test]
fn h1_uses_bold() {
    let text = convert("# Bold heading");
    let spans = all_spans(&text);
    let heading: Vec<_> = spans.iter().filter(|(c, _)| c == "Bold heading").collect();
    assert!(!heading.is_empty());
    for (_, style) in heading {
        assert!(style.add_modifier.contains(Modifier::bold()));
    }
}

#[test]
fn bold() {
    let spans = all_spans(&convert("Normal **bold** normal."));
    let bold: Vec<_> = spans.iter().filter(|(c, _)| c == "bold").collect();
    assert!(!bold.is_empty());
    for (_, s) in bold {
        assert!(s.add_modifier.contains(Modifier::bold()));
    }
}

#[test]
fn italic() {
    let spans = all_spans(&convert("Normal _italic_ normal."));
    let it: Vec<_> = spans.iter().filter(|(c, _)| c == "italic").collect();
    assert!(!it.is_empty());
    for (_, s) in it {
        assert!(s.add_modifier.contains(Modifier::italic()));
    }
}

#[test]
fn strikethrough() {
    let spans = all_spans(&convert("Normal ~~struck~~ normal."));
    let st: Vec<_> = spans.iter().filter(|(c, _)| c == "struck").collect();
    assert!(!st.is_empty());
    for (_, s) in st {
        assert!(s.add_modifier.contains(Modifier::crossed_out()));
    }
}

#[test]
fn nested_bold_italic() {
    let spans = all_spans(&convert("_italic **bold-italic** italic_"));
    let bi: Vec<_> = spans.iter().filter(|(c, _)| c == "bold-italic").collect();
    assert!(!bi.is_empty());
    for (_, s) in bi {
        assert!(s.add_modifier.contains(Modifier::bold()));
        assert!(s.add_modifier.contains(Modifier::italic()));
    }
}

#[test]
fn superscript_uses_dim() {
    let spans = all_spans(&convert("footnote ^note^"));
    let sup: Vec<_> = spans.iter().filter(|(c, _)| c == "note").collect();
    assert!(!sup.is_empty(), "no superscript span, got {:?}", spans);
    for (_, s) in sup {
        assert!(s.add_modifier.contains(Modifier::dim()));
    }
}

#[test]
fn subscript_uses_dim() {
    let spans = all_spans(&convert("water ~2~ rest"));
    let sub: Vec<_> = spans.iter().filter(|(c, _)| c == "2").collect();
    assert!(!sub.is_empty(), "no subscript span, got {:?}", spans);
    for (_, s) in sub {
        assert!(s.add_modifier.contains(Modifier::dim()));
    }
}

#[test]
fn inline_code_theme_color() {
    let renderer = RendererBuilder::new().build();
    let text = convert_with("Use `code` here.", &renderer);
    let spans = all_spans(&text);
    let code: Vec<_> = spans.iter().filter(|(c, _)| c == "code").collect();
    assert!(!code.is_empty());
    for (_, s) in code {
        assert_eq!(s.fg, renderer.theme().inline_code.fg);
    }
}

#[test]
fn inline_code_custom_renderer() {
    let renderer = RendererBuilder::new()
        .with_inline_code(|code| vec![Span::raw(&format!("`{code}`"))])
        .build();
    let text = convert_with("Use `foo` here.", &renderer);
    let p = plain_text(&text);
    assert!(p.contains("`foo`"), "custom inline code not applied: {p}");
}

#[test]
fn fenced_code_block_content() {
    let p = plain_text(&convert("```\nlet x = 1;\n```"));
    assert!(p.contains("let x = 1;"));
}

#[test]
fn fenced_code_block_language_label() {
    let p = plain_text(&convert("```rust\nlet x = 1;\n```"));
    assert!(p.contains("[rust]"));
    assert!(p.contains("let x = 1;"));
}

#[test]
fn fenced_code_block_custom_renderer() {
    let renderer = RendererBuilder::new()
        .with_code_block(|lang, content| vec![Line::raw(&format!("LANG={lang} CODE={content}"))])
        .build();
    let p = plain_text(&convert_with("```python\npass\n```", &renderer));
    assert!(p.contains("LANG=python"), "lang not passed: {p}");
    assert!(p.contains("CODE="), "content not passed: {p}");
}

#[test]
fn code_block_style() {
    let renderer = RendererBuilder::new().build();
    let text = convert_with("```\nhello\n```", &renderer);
    let spans = all_spans(&text);
    let code: Vec<_> = spans.iter().filter(|(c, _)| c == "hello").collect();
    assert!(!code.is_empty());
    for (_, s) in code {
        assert_eq!(s.fg, renderer.theme().code_block.fg);
    }
}

#[test]
fn block_quote_prefix() {
    let p = plain_text(&convert("> This is a quote."));
    assert!(p.contains('▌'));
    assert!(p.contains("This is a quote."));
}

#[test]
fn block_quote_style() {
    let renderer = RendererBuilder::new().build();
    let text = convert_with("> quote text", &renderer);
    let spans = all_spans(&text);
    let qs: Vec<_> = spans.iter().filter(|(c, _)| c == "quote text").collect();
    assert!(!qs.is_empty());
    for (_, s) in qs {
        assert_eq!(s.fg, renderer.theme().block_quote.fg);
    }
}

#[test]
fn unordered_list() {
    let p = plain_text(&convert("- Apple\n- Banana"));
    assert!(p.contains('•'));
    assert!(p.contains("Apple"));
    assert!(p.contains("Banana"));
}

#[test]
fn converter_ordered_list() {
    let p = plain_text(&convert("1. First\n2. Second\n3. Third"));
    assert!(p.contains("1. "));
    assert!(p.contains("2. "));
    assert!(p.contains("3. "));
}

#[test]
fn task_list() {
    let p = plain_text(&convert("- [x] Done\n- [ ] Todo"));
    assert!(p.contains("[x] "));
    assert!(p.contains("[ ] "));
}

#[test]
fn converter_thematic_break() {
    let p = plain_text(&convert("Before\n\n---\n\nAfter"));
    assert!(p.contains('─'));
}

#[test]
fn thematic_break_custom_renderer() {
    let renderer = RendererBuilder::new().with_rule(|| vec![Line::raw("=====")]).build();
    let p = plain_text(&convert_with("---", &renderer));
    assert!(p.contains("====="), "custom rule not applied: {p}");
}

#[test]
fn hard_break_creates_new_line() {
    let text = convert("Line one  \nLine two");
    let line_contents: Vec<String> = text
        .lines
        .iter()
        .map(|l| l.spans.iter().map(|s| s.content.as_str()).collect())
        .collect();
    let i1 = line_contents.iter().position(|l| l.contains("Line one"));
    let i2 = line_contents.iter().position(|l| l.contains("Line two"));
    assert!(i1.is_some() && i2.is_some());
    assert_ne!(i1.unwrap(), i2.unwrap());
}

#[test]
fn soft_break_becomes_space() {
    let spans = all_spans(&convert("word1\nword2"));
    let combined: String = spans.iter().map(|(c, _)| c.as_str()).collect();
    assert!(combined.contains("word1") && combined.contains("word2"));
    assert!(spans.iter().any(|(c, _)| c == " "));
}

#[test]
fn link_default_rendering() {
    let p = plain_text(&convert("[click](https://example.com)"));
    assert!(p.contains("click"), "alt text missing: {p}");
    assert!(p.contains("https://example.com"), "url missing: {p}");
}

#[test]
fn link_alt_text_in_link_style() {
    let renderer = RendererBuilder::new().build();
    let text = convert_with("[click here](https://example.com)", &renderer);
    let spans = all_spans(&text);
    let ls: Vec<_> = spans.iter().filter(|(c, _)| c == "click here").collect();
    assert!(!ls.is_empty());
    for (_, s) in ls {
        assert_eq!(s.fg, renderer.theme().link.fg);
    }
}

#[test]
fn link_custom_renderer_hint_number() {
    let renderer = RendererBuilder::new()
        .with_link(|alt, _url| vec![Span::raw(&format!("[{}](42)", alt))])
        .build();
    let p = plain_text(&convert_with("[docs](https://example.com)", &renderer));
    assert!(p.contains("[docs](42)"), "link hint not applied: {p}");
}

#[test]
fn link_custom_renderer_receives_url() {
    let captured: Arc<Mutex<String>> = Arc::new(Mutex::new(String::new()));
    let sink = Arc::clone(&captured);
    let renderer = RendererBuilder::new()
        .with_link(move |_alt, url| {
            *sink.lock().unwrap() = url.to_owned();
            vec![Span::raw("link")]
        })
        .build();
    convert_with("[x](https://test.org)", &renderer);
    let received_url = captured.lock().unwrap().clone();
    assert_eq!(received_url, "https://test.org");
}

#[test]
fn image_default_rendering() {
    let p = plain_text(&convert("![cat](cat.png)"));
    assert!(p.contains("cat"), "alt text missing: {p}");
    assert!(p.contains("cat.png"), "url missing: {p}");
}

#[test]
fn image_custom_renderer() {
    let renderer = RendererBuilder::new()
        .with_image(|alt, url| vec![Span::raw(&format!("IMAGE:{alt}@{url}"))])
        .build();
    let p = plain_text(&convert_with("![kitten](kitten.jpg)", &renderer));
    assert!(p.contains("IMAGE:kitten@kitten.jpg"), "custom image renderer not applied: {p}");
}

#[test]
fn table_header_row_present() {
    let md = "| Name | Age |\n|------|-----|\n| Alice | 30 |";
    let p = plain_text(&convert(md));
    assert!(p.contains("Name"), "header 'Name' missing: {p}");
    assert!(p.contains("Age"), "header 'Age' missing: {p}");
}

#[test]
fn table_body_row_present() {
    let md = "| Name | Age |\n|------|-----|\n| Alice | 30 |";
    let p = plain_text(&convert(md));
    assert!(p.contains("Alice"), "body cell 'Alice' missing: {p}");
    assert!(p.contains("30"), "body cell '30' missing: {p}");
}

#[test]
fn table_separator_line_present() {
    let md = "| A | B |\n|---|---|\n| 1 | 2 |";
    let text = convert(md);
    let has_sep = text.lines.iter().any(|l| {
        l.spans.iter().any(|s| s.content.contains('─')) && l.spans.iter().any(|s| s.content.contains('┼'))
    });
    assert!(has_sep, "table separator line missing");
}

#[test]
fn table_header_uses_bold_style() {
    let renderer = RendererBuilder::new().build();
    let text = convert_with("| Col |\n|-----|\n| val |", &renderer);
    let spans = all_spans(&text);
    let header: Vec<_> = spans.iter().filter(|(c, _)| c.trim() == "Col").collect();
    assert!(!header.is_empty(), "header span not found, spans: {:?}", spans);
    for (_, s) in header {
        assert!(s.add_modifier.contains(Modifier::bold()), "table header should be BOLD, got {:?}", s);
    }
}

#[test]
fn footnote_reference_rendered() {
    let md = "See note[^1].\n\n[^1]: The note text.";
    let p = plain_text(&convert(md));
    assert!(p.contains("[^1]"), "footnote ref missing: {p}");
}

#[test]
fn footnote_definition_rendered_at_end() {
    let md = "See[^1].\n\n[^1]: Footnote content.";
    let p = plain_text(&convert(md));
    assert!(p.contains("Footnote content"), "footnote def missing: {p}");
}

#[test]
fn footnote_ref_custom_renderer() {
    let renderer = RendererBuilder::new()
        .with_footnote_ref(|label| vec![Span::raw(&format!("(note {label})"))])
        .build();
    let p = plain_text(&convert_with("Text[^abc].\n\n[^abc]: Content.", &renderer));
    assert!(p.contains("(note abc)"), "custom footnote ref not applied: {p}");
}

#[test]
fn inline_html_verbatim() {
    let p = plain_text(&convert("Some <em>html</em> here."));
    assert!(p.contains("html"), "html content missing: {p}");
}

#[test]
fn custom_theme_h1_color() {
    let mut theme = Theme::default();
    theme.h1 = Style::new().fg(Color::Red).add_modifier(Modifier::bold());
    let renderer = RendererBuilder::new().with_theme(theme).build();
    let text = convert_with("# Title", &renderer);
    let spans = all_spans(&text);
    let title: Vec<_> = spans.iter().filter(|(c, _)| c == "Title").collect();
    assert!(!title.is_empty());
    for (_, s) in title {
        assert_eq!(s.fg, Some(Color::Red));
    }
}

#[test]
fn custom_heading_renderer() {
    let renderer = RendererBuilder::new()
        .with_heading(|level, spans| {
            let content: String = spans.iter().map(|s| s.content.as_str()).collect();
            vec![Line::raw(&format!("H{level}: {content}"))]
        })
        .build();
    let p = plain_text(&convert_with("# My Title", &renderer));
    assert!(p.contains("H1: My Title"), "custom heading not applied: {p}");
}

#[test]
fn empty_input() {
    let text = convert("");
    assert!(text.lines.is_empty());
}

#[test]
fn whitespace_only_input() {
    let _ = convert("   \n\n  ");
}

#[test]
fn nested_list_items_on_separate_lines() {
    let text = convert("- parent\n  - child\n  - sibling\n- next");
    let lines: Vec<String> = text
        .lines
        .iter()
        .map(|l| l.spans.iter().map(|s| s.content.as_str()).collect())
        .filter(|s: &String| !s.trim().is_empty())
        .collect();
    assert!(lines.iter().any(|l| l.contains("parent")), "parent not found: {lines:?}");
    assert!(lines.iter().any(|l| l.contains("child")), "child not found: {lines:?}");
    assert!(lines.iter().any(|l| l.contains("sibling")), "sibling not found: {lines:?}");
    assert!(
        !lines.iter().any(|l| l.contains("parent") && l.contains("child")),
        "parent and child on same line: {lines:?}"
    );
    assert!(
        !lines.iter().any(|l| l.contains("child") && l.contains("sibling")),
        "child and sibling on same line: {lines:?}"
    );
}
