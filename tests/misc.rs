use vis_grep::colors::{LogColorPreset, LogColorScheme};
use vis_grep::config::{default_poll_interval, LogFormatConfig};
use vis_grep::input::InputHandler;
use vis_grep::theme::Theme;

#[test]
fn theme_names_and_cycle() {
    let mut t = Theme::default();
    assert_eq!(t.name(), "Dark");
    t.cycle();
    assert_eq!(t, Theme::Light);
    assert_eq!(t.name(), "Light");
    t.cycle();
    assert_eq!(t, Theme::Dark);
}

#[test]
fn presets_have_their_colours() {
    let v = LogColorScheme::from_preset(LogColorPreset::Vibrant);
    assert_eq!(v.error, "#EF4444");
    assert_eq!(v.fatal, "#DC2626");
    let s = LogColorScheme::subtle();
    assert_eq!(s.debug, "#93C5FD");
    let m = LogColorScheme::monochrome();
    assert_eq!(m.trace, "#4B5563");
    assert_eq!(m.unknown, "#9CA3AF");
    assert_eq!(LogColorScheme::default().info, "#D1D5DB");
}

#[test]
fn custom_colours_win_over_the_preset() {
    let mut c = LogFormatConfig::default();
    assert_eq!(c.get_color_scheme().warn, "#FBBF24");
    c.color_preset = LogColorPreset::Monochrome;
    assert_eq!(c.get_color_scheme().warn, "#D1D5DB");
    let mut custom = LogColorScheme::subtle();
    custom.warn = "#123456".to_string();
    c.custom_colors = Some(custom);
    assert_eq!(c.get_color_scheme().warn, "#123456");
    assert_eq!(default_poll_interval(), 250);
}

#[test]
fn status_shows_count_then_keys() {
    let mut h = InputHandler::new();
    assert_eq!(h.get_status(), "");
    h.count_buffer = "3".to_string();
    h.pending_keys = "g".to_string();
    assert_eq!(h.get_status(), "3g");
    h.reset();
    assert_eq!(h.get_status(), "");
    assert!(!h.waiting_for_mark_char);
}
