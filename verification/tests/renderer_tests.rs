use the_other_tui_markdown::style::{Color, Modifier, Style};
use the_other_tui_markdown::text::{Line, Span};
use the_other_tui_markdown::{RendererBuilder, Theme};

#[test]
fn builder_default_has_no_custom_renderers() {
    let r = RendererBuilder::new().build();
    assert!(r.link.is_none());
    assert!(r.image.is_none());
    assert!(r.inline_code.is_none());
    assert!(r.code_block.is_none());
    assert!(r.heading.is_none());
    assert!(r.rule.is_none());
    assert!(r.footnote_ref.is_none());
}

#[test]
fn builder_with_link_stores_closure() {
    let r = RendererBuilder::new().with_link(|alt, _url| vec![Span::raw(alt)]).build();
    assert!(r.link.is_some());
    let spans = r.link.as_ref().unwrap().call("hello", "http://x");
    assert_eq!(spans[0].content, "hello");
}

#[test]
fn builder_with_image_stores_closure() {
    let r = RendererBuilder::new()
        .with_image(|alt, url| vec![Span::raw(&format!("IMG:{alt}@{url}"))])
        .build();
    assert!(r.image.is_some());
    let spans = r.image.as_ref().unwrap().call("cat", "cat.png");
    assert_eq!(spans[0].content, "IMG:cat@cat.png");
}

#[test]
fn builder_with_inline_code_stores_closure() {
    let r = RendererBuilder::new()
        .with_inline_code(|code| vec![Span::raw(&format!("`{code}`"))])
        .build();
    let spans = r.inline_code.as_ref().unwrap().call("foo");
    assert_eq!(spans[0].content, "`foo`");
}

#[test]
fn builder_with_code_block_stores_closure() {
    let r = RendererBuilder::new()
        .with_code_block(|lang, content| vec![Line::raw(&format!("{lang}: {content}"))])
        .build();
    let lines = r.code_block.as_ref().unwrap().call("rust", "fn main() {}");
    assert_eq!(lines[0].spans[0].content, "rust: fn main() {}");
}

#[test]
fn builder_with_rule_stores_closure() {
    let r = RendererBuilder::new().with_rule(|| vec![Line::raw("---")]).build();
    let lines = r.rule.as_ref().unwrap().call();
    assert_eq!(lines[0].spans[0].content, "---");
}

#[test]
fn builder_with_footnote_ref_stores_closure() {
    let r = RendererBuilder::new()
        .with_footnote_ref(|label| vec![Span::raw(&format!("[^{label}]"))])
        .build();
    let spans = r.footnote_ref.as_ref().unwrap().call("42");
    assert_eq!(spans[0].content, "[^42]");
}

#[test]
fn builder_with_theme_replaces_theme() {
    let mut custom = Theme::default();
    custom.h1 = Style::new().fg(Color::Red);
    let r = RendererBuilder::new().with_theme(custom).build();
    assert_eq!(r.theme.h1.fg, Some(Color::Red));
}

#[test]
fn builder_default_impl_same_as_new() {
    let r = RendererBuilder::default().build();
    assert!(r.link.is_none());
}

#[test]
fn builder_with_heading_stores_closure() {
    let r = RendererBuilder::new()
        .with_heading(|level, spans| vec![Line::raw(&format!("H{level}:{}", spans.len()))])
        .build();
    let lines = r.heading.as_ref().unwrap().call(3, vec![Span::raw("a"), Span::raw("b")]);
    assert_eq!(lines[0].spans[0].content, "H3:2");
    assert!(r.theme.h1.add_modifier.contains(Modifier::bold()));
}
