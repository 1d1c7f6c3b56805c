//! Colours of the terminal and the theme.

use tui::render::out::Color;
use tui::theme::{
    accent, accent_value, colorfgbg_is_light, detect_background, detect_light_background, is_light,
    parse_osc11_response, preset_by_name, presets, set_accent, set_light, set_slug_color, slug_color,
    slug_color_value, Theme,
};

/// How bright a colour is, from 0 to 1.
fn luma(rgb: (u8, u8, u8)) -> f64 {
    let (r, g, b) = rgb;
    (0.299 * r as f64 + 0.587 * g as f64 + 0.114 * b as f64) / 255.0
}

#[test]
fn parse_osc11_dark_background() {
    let resp = "\x1b]11;rgb:1c1c/1c1c/1c1c\x1b\\";
    let luma = luma(parse_osc11_response(resp).unwrap());
    assert!(luma < 0.2, "luma {luma} should indicate dark");
}

#[test]
fn parse_osc11_light_background() {
    let resp = "\x1b]11;rgb:ffff/ffff/ffff\x1b\\";
    let luma = luma(parse_osc11_response(resp).unwrap());
    assert!(luma > 0.9, "luma {luma} should indicate light");
}

#[test]
fn parse_osc11_mid_tone() {
    let resp = "\x1b]11;rgb:8080/8080/8080\x1b\\";
    let luma = luma(parse_osc11_response(resp).unwrap());
    assert!(
        (0.4..0.6).contains(&luma),
        "luma {luma} should be mid-range"
    );
}

#[test]
fn parse_osc11_short_hex() {
    let resp = "\x1b]11;rgb:ff/ff/ff\x1b\\";
    let luma = luma(parse_osc11_response(resp).unwrap());
    assert!(luma > 0.9);
}

#[test]
fn parse_osc11_garbage() {
    assert!(parse_osc11_response("garbage").is_none());
    assert!(parse_osc11_response("").is_none());
}

#[test]
fn osc11_components_are_read() {
    assert_eq!(
        parse_osc11_response("\x1b]11;rgb:12ab/34cd/56ef\x07"),
        Some((0x12, 0x34, 0x56))
    );
    assert!(parse_osc11_response("rgb:1/2/3").is_none());
    assert!(parse_osc11_response("rgb:zz/00/00").is_none());
}

#[test]
fn colorfgbg_tells_the_background() {
    assert_eq!(colorfgbg_is_light("0;15"), Some(true));
    assert_eq!(colorfgbg_is_light("15;0"), Some(false));
    assert_eq!(colorfgbg_is_light("0;default;7"), Some(true));
    assert_eq!(colorfgbg_is_light("0;8"), Some(false));
    assert_eq!(colorfgbg_is_light("7"), None);
    assert_eq!(colorfgbg_is_light("0;x"), None);
    assert_eq!(colorfgbg_is_light("0;300"), None);
}

#[test]
fn the_terminal_answers_before_the_environment() {
    assert_eq!(detect_light_background(Some(true), Some("15;0")), Some(true));
    assert_eq!(detect_light_background(None, Some("15;0")), Some(false));
    assert_eq!(detect_light_background(None, None), None);
    let mut theme = Theme::default();
    detect_background(&mut theme, Some(true), None);
    assert!(is_light(&theme));
    detect_background(&mut theme, None, None);
    assert!(is_light(&theme));
    set_light(&mut theme, false);
    assert!(!is_light(&theme));
}

#[test]
fn accents_and_presets() {
    let mut theme = Theme::default();
    for p in presets() {
        assert_eq!(preset_by_name(p.name), Some(p.value));
        set_accent(&mut theme, p.value);
        assert_eq!(accent_value(&theme), p.value);
    }
    assert_eq!(preset_by_name("no such preset"), None);
    set_slug_color(&mut theme, 0);
    assert_eq!(slug_color(&theme), accent(&theme));
    set_slug_color(&mut theme, 42);
    assert_eq!(slug_color(&theme), Color::AnsiValue(42));
    assert_eq!(slug_color_value(&theme), 42);
}
