use bd_watcher::theme::{resolve, resolve_in_mode, Color, ThemeName};

#[test]
fn parse_accepts_kebab_and_snake_names_in_any_case() {
    assert_eq!(ThemeName::parse("default"), Some(ThemeName::Default));
    assert_eq!(ThemeName::parse("LIGHT"), Some(ThemeName::Light));
    assert_eq!(ThemeName::parse("Solarized-Dark"), Some(ThemeName::SolarizedDark));
    assert_eq!(ThemeName::parse("solarized_dark"), Some(ThemeName::SolarizedDark));
    assert_eq!(ThemeName::parse("solarized-light"), Some(ThemeName::SolarizedLight));
    assert_eq!(ThemeName::parse("SOLARIZED_LIGHT"), Some(ThemeName::SolarizedLight));
    assert_eq!(ThemeName::parse("gruvbox"), Some(ThemeName::Gruvbox));
    assert_eq!(ThemeName::parse("Dracula"), Some(ThemeName::Dracula));
    assert_eq!(ThemeName::parse("high-contrast"), Some(ThemeName::HighContrast));
    assert_eq!(ThemeName::parse("high_contrast"), Some(ThemeName::HighContrast));
    assert_eq!(ThemeName::parse("neon"), None);
    assert_eq!(ThemeName::parse(""), None);
    assert_eq!(ThemeName::parse(" dracula"), None);
}

#[test]
fn resolve_prefers_cli_then_env_then_default() {
    assert_eq!(
        resolve(Some(ThemeName::Gruvbox), Some("dracula")),
        ThemeName::Gruvbox.theme()
    );
    assert_eq!(resolve(None, Some("Dracula")), ThemeName::Dracula.theme());
    assert_eq!(resolve(None, Some("nope")), ThemeName::Default.theme());
    assert_eq!(resolve(None, None), ThemeName::Default.theme());
}

#[test]
fn palettes_hold_their_colours() {
    let d = ThemeName::Default.theme();
    assert_eq!(d.bg, Color::Reset);
    assert_eq!(d.accent, Color::Cyan);
    let s = ThemeName::SolarizedDark.theme();
    assert_eq!(s.bg, Color::Rgb(0, 43, 54));
    assert_eq!(s.selection_fg, Color::Rgb(253, 246, 227));
    let h = ThemeName::HighContrast.theme();
    assert_eq!(h.selection_bg, Color::Rgb(0, 128, 255));
    assert_eq!(ThemeName::Light.theme().status_in_progress, Color::Rgb(176, 112, 0));
}

#[test]
fn tv_mode_falls_back_to_high_contrast() {
    assert_eq!(resolve_in_mode(None, None, true), ThemeName::HighContrast.theme());
    assert_eq!(resolve_in_mode(None, Some("bogus"), true), ThemeName::HighContrast.theme());
    assert_eq!(resolve_in_mode(None, Some("light"), true), ThemeName::Light.theme());
    assert_eq!(
        resolve_in_mode(Some(ThemeName::Dracula), Some("light"), true),
        ThemeName::Dracula.theme()
    );
    assert_eq!(resolve_in_mode(None, None, false), ThemeName::Default.theme());
}
