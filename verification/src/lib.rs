//! Convert Markdown into styled terminal text, and map screen positions in
//! the rendered output back to the Markdown elements that produced them.
//!
//! The `into_text*` functions return the styled [`Text`]; the
//! `into_document*` functions return a [`MarkdownDocument`], which also
//! remembers which Markdown element produced every span, for hit-testing
//! (see [`MarkdownDocument::element_at_screen`]).

pub mod style;
pub mod text;
pub mod theme;
pub mod unicode;
pub mod events;
pub mod document;
pub mod wrap;
pub mod renderer;
pub mod strings;
pub mod converter;

pub use document::{Element, ElementId, ElementKind, MarkdownDocument, ParagraphView, QuoteKind};
pub use renderer::{
    CodeBlockFn, FootnoteRefFn, HeadingFn, ImageFn, InlineCodeFn, LinkFn, Renderer, RendererBuilder, RuleFn,
};
pub use theme::Theme;

use vstd::prelude::*;

use crate::converter::{converted, plain_lines, Converter};
use crate::events::{markdown_events, MARKDOWN_OPTIONS};
use crate::text::Text;
use crate::theme::default_theme;

verus! {

/// Converts Markdown to [`Text`] using the default theme and no custom
/// element renderers. Lines carry no style or alignment of their own.
pub fn into_text(markdown: &str) -> (t: Text)
    ensures
        exists|r: Renderer, d: MarkdownDocument|
            r.theme == default_theme() && r.is_plain() && converted(r, markdown_events(markdown@, MARKDOWN_OPTIONS), d) && t
                == d.rendered(),
        t.style == default_theme().base,
        t.alignment is None,
        plain_lines(t.lines@),
        markdown_events(markdown@, MARKDOWN_OPTIONS).len() == 0 ==> t.lines@.len() == 0,
{
    let d = into_document(markdown);
    let ghost dd = d;
    let t = d.into_text();
    assert(t == dd.rendered());
    t
}

/// Converts Markdown to [`Text`] using the given theme and no custom
/// element renderers.
pub fn into_text_with_theme(markdown: &str, theme: Theme) -> (t: Text)
    ensures
        exists|r: Renderer, d: MarkdownDocument|
            r.theme == theme && r.is_plain() && converted(r, markdown_events(markdown@, MARKDOWN_OPTIONS), d) && t == d.rendered(),
        t.style == theme.base,
        t.alignment is None,
        plain_lines(t.lines@),
        markdown_events(markdown@, MARKDOWN_OPTIONS).len() == 0 ==> t.lines@.len() == 0,
{
    let d = into_document_with_theme(markdown, theme);
    let ghost dd = d;
    let t = d.into_text();
    assert(t == dd.rendered());
    t
}

/// Converts Markdown to [`Text`] using a fully configured [`Renderer`].
pub fn into_text_with_renderer(markdown: &str, renderer: &Renderer) -> (t: Text)
    ensures
        exists|d: MarkdownDocument| converted(*renderer, markdown_events(markdown@, MARKDOWN_OPTIONS), d) && t == d.rendered(),
        t.style == renderer.theme.base,
        t.alignment is None,
        renderer.is_plain() ==> plain_lines(t.lines@),
        markdown_events(markdown@, MARKDOWN_OPTIONS).len() == 0 ==> t.lines@.len() == 0,
{
    let d = into_document_with_renderer(markdown, renderer);
    let ghost dd = d;
    let t = d.into_text();
    assert(t == dd.rendered());
    t
}

/// Converts Markdown to a [`MarkdownDocument`] using the default theme and
/// no custom element renderers.
pub fn into_document(markdown: &str) -> (d: MarkdownDocument)
    ensures
        exists|r: Renderer| r.theme == default_theme() && r.is_plain() && converted(r, markdown_events(markdown@, MARKDOWN_OPTIONS), d),
        d.valid(),
        d.rendered().style == default_theme().base,
        d.rendered().alignment is None,
        plain_lines(d.rendered().lines@),
        markdown_events(markdown@, MARKDOWN_OPTIONS).len() == 0 ==> d.rendered().lines@.len() == 0,
{
    let renderer = RendererBuilder::new().build();
    let d = into_document_with_renderer(markdown, &renderer);
    assert(renderer.theme == default_theme() && renderer.is_plain());
    d
}

/// Converts Markdown to a [`MarkdownDocument`] using the given theme.
pub fn into_document_with_theme(markdown: &str, theme: Theme) -> (d: MarkdownDocument)
    ensures
        exists|r: Renderer| r.theme == theme && r.is_plain() && converted(r, markdown_events(markdown@, MARKDOWN_OPTIONS), d),
        d.valid(),
        d.rendered().style == theme.base,
        d.rendered().alignment is None,
        plain_lines(d.rendered().lines@),
        markdown_events(markdown@, MARKDOWN_OPTIONS).len() == 0 ==> d.rendered().lines@.len() == 0,
{
    let renderer = RendererBuilder::new().with_theme(theme).build();
    let d = into_document_with_renderer(markdown, &renderer);
    assert(renderer.theme == theme && renderer.is_plain());
    d
}

/// Converts Markdown to a [`MarkdownDocument`] using a fully configured
/// [`Renderer`]. Spans and lines produced by custom renderers are annotated
/// with the element they were invoked for.
pub fn into_document_with_renderer(markdown: &str, renderer: &Renderer) -> (d: MarkdownDocument)
    ensures
        converted(*renderer, markdown_events(markdown@, MARKDOWN_OPTIONS), d),
        d.valid(),
        d.rendered().style == renderer.theme.base,
        d.rendered().alignment is None,
        renderer.is_plain() ==> plain_lines(d.rendered().lines@),
        markdown_events(markdown@, MARKDOWN_OPTIONS).len() == 0 ==> d.rendered().lines@.len() == 0,
{
    let conv = Converter::new(renderer);
    let ghost c0 = conv;
    let d = conv.convert(markdown);
    assert(c0.initial(*renderer) && c0.renders(markdown_events(markdown@, MARKDOWN_OPTIONS), d));
    d
}

} // verus!
