use the_other_tui_markdown::style::{Color, Modifier, Style};
use the_other_tui_markdown::Theme;

#[test]
fn default_theme_h1_is_bold() {
    let t = Theme::default();
    assert!(t.h1.add_modifier.contains(Modifier::bold()));
}

#[test]
fn default_theme_h1_fg_is_cyan() {
    let t = Theme::default();
    assert_eq!(t.h1.fg, Some(Color::Cyan));
}

#[test]
fn default_theme_emphasis_is_italic() {
    let t = Theme::default();
    assert!(t.emphasis.add_modifier.contains(Modifier::italic()));
}

#[test]
fn default_theme_strong_is_bold() {
    let t = Theme::default();
    assert!(t.strong.add_modifier.contains(Modifier::bold()));
}

#[test]
fn default_theme_strikethrough_is_crossed_out() {
    let t = Theme::default();
    assert!(t.strikethrough.add_modifier.contains(Modifier::crossed_out()));
}

#[test]
fn theme_is_cloneable() {
    let _cloned = Theme::default().clone();
}

#[test]
fn theme_fields_can_be_overridden() {
    let mut t = Theme::default();
    t.h1 = Style::new().fg(Color::Red);
    assert_eq!(t.h1.fg, Some(Color::Red));
    assert_eq!(t.h2.fg, Some(Color::Cyan));
}
