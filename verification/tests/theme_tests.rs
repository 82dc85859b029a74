use mdless::style::Color;
use mdless::theme::{Theme, ThemeColors, default_syntect_theme, terminal_has_light_background};

#[test]
fn colorfgbg_background_seven_is_light() {
    assert!(terminal_has_light_background(Some("0;7")));
    assert!(!terminal_has_light_background(Some("15;0")));
    assert!(!terminal_has_light_background(Some("7")));
    assert!(!terminal_has_light_background(Some("0;77")));
    assert!(terminal_has_light_background(Some("0;7;1")));
    assert!(!terminal_has_light_background(Some("")));
    assert!(!terminal_has_light_background(None));
}

#[test]
fn theme_palettes() {
    let dracula = ThemeColors::from_theme(Theme::Dracula, false);
    assert_eq!(dracula.heading_h1, Color::Rgb(255, 121, 198));
    assert_eq!(dracula.border, Color::Rgb(98, 114, 164));
    let index = ThemeColors::from_theme(Theme::Index, true);
    assert_eq!(index.heading_h2, Color::Indexed(4));
    let sol = ThemeColors::from_theme(Theme::SolarizedDark, false);
    assert_eq!(sol.image_placeholder, Color::Rgb(101, 185, 202));
}

#[test]
fn heading_color_by_level() {
    let c = ThemeColors::from_theme(Theme::Index, false);
    assert_eq!(c.heading_color(1), Color::Indexed(5));
    assert_eq!(c.heading_color(2), Color::Indexed(4));
    assert_eq!(c.heading_color(3), Color::Indexed(6));
    assert_eq!(c.heading_color(6), Color::Indexed(6));
}

#[test]
fn default_theme_is_index() {
    assert_eq!(Theme::default(), Theme::Index);
}

#[test]
fn code_theme_follows_background() {
    let light = default_syntect_theme(true).name.unwrap_or_default();
    let dark = default_syntect_theme(false).name.unwrap_or_default();
    assert!(light.contains("Solarized") && light.contains("light"));
    assert!(dark.contains("Solarized") && dark.contains("dark"));
}

#[test]
fn palette_keeps_code_theme_for_background() {
    for theme in [Theme::Index, Theme::Dracula, Theme::SolarizedDark] {
        let light = ThemeColors::from_theme(theme, true).syntect_theme.name.unwrap_or_default();
        let dark = ThemeColors::from_theme(theme, false).syntect_theme.name.unwrap_or_default();
        assert!(light.contains("light"));
        assert!(dark.contains("dark"));
    }
}
