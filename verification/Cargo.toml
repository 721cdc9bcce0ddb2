[package]
name = "the_other_tui_markdown"
version = "0.2.0"
edition = "2021"
publish = false

[dependencies]
pulldown-cmark = { version = "0.13", default-features = false }
ratatui-core = "0.1"
unicode-segmentation = "1"
unicode-width = "0.2"

[dev-dependencies]
ratatui = "0.30"
