# the_other_tui_markdown

Markdown to styled terminal text, with hit-testing: every span of the
rendered text remembers the Markdown element that produced it, so a mouse
position over a paragraph widget can be mapped back to a link, a list item,
a table cell, and so on.

The library is written in Verus; its contracts are proved.

## Layout

- `src/lib.rs` — the conversion functions (`into_text*`, `into_document*`).
- `src/converter.rs` — the event-driven converter. Each event's effect on the
  converter is a spec predicate; `Converter::renders` ties a whole event
  sequence to the resulting document.
- `src/document.rs` — `MarkdownDocument`, element identities, `element_at`
  and `element_at_screen`, and the hit-testing laws.
- `src/wrap.rs` — the paragraph layout (word wrapping and truncation) as a
  step-by-step model, and the row-to-source-column mapping.
- `src/events.rs` — pulldown-cmark's events as plain values (the parser call
  is a trusted wrapper).
- `src/unicode.rs` — display widths and grapheme clusters (trusted
  wrappers around unicode-width and unicode-segmentation), and the
  White_Space property of characters, verified against its definition.
- `src/style.rs`, `src/text.rs`, `src/theme.rs`, `src/renderer.rs`,
  `src/strings.rs` — styles, styled text, the theme, the renderer builder and
  string helpers.
- `tests/` — scenario tests, including layout checks against a real ratatui
  `Paragraph`.
- `app/` — conversions between the library's text types and ratatui-core's.
