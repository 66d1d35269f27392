use ziro::icons::{IconEnv, IconMode, Icons};
use ziro::term::{bool_to_flag, detect_profile, should_use_alt_screen, ProfileFlags, TermSigns};
use ziro::theme::Theme;

fn quiet_env() -> IconEnv {
    IconEnv {
        plain: false,
        ascii: false,
        unicode: false,
        narrow: false,
        likely_non_utf8: false,
        unicode_support: true,
    }
}

#[test]
fn test_icon_creation() {
    let icons = Icons::new();
    let check = icons.check();
    assert!(!check.as_str().is_empty());
}

#[test]
fn test_detect_mode_precedence() {
    let mut env = quiet_env();
    env.plain = true;
    env.unicode = true;
    assert_eq!(Icons::detect_mode(&env), IconMode::Ascii);

    let mut env = quiet_env();
    env.unicode = true;
    env.narrow = true;
    assert_eq!(Icons::detect_mode(&env), IconMode::Unicode);

    let mut env = quiet_env();
    env.narrow = true;
    assert_eq!(Icons::detect_mode(&env), IconMode::Narrow);

    let mut env = quiet_env();
    env.likely_non_utf8 = true;
    assert_eq!(Icons::detect_mode(&env), IconMode::Ascii);

    assert_eq!(Icons::detect_mode(&quiet_env()), IconMode::Unicode);

    let mut env = quiet_env();
    env.unicode_support = false;
    assert_eq!(Icons::detect_mode(&env), IconMode::Ascii);
}

#[test]
fn test_icon_tiers() {
    let ascii = Icons::with_env(&IconEnv { ascii: true, ..quiet_env() });
    assert_eq!(ascii.check().as_str(), "+");
    assert_eq!(ascii.cross().as_str(), "x");
    assert_eq!(ascii.folder().as_str(), "[D]");
    let unicode = Icons::new();
    assert_eq!(unicode.check().as_str(), "\u{2714}");
    assert_eq!(unicode.link().as_str(), "\u{1F517}");
}

#[test]
fn test_theme_icons() {
    let t = Theme::new();
    assert!(t.use_color);
    assert_eq!(t.icon_folder(), "\u{1F4C2}");
    assert_eq!(t.icon_file(), "\u{1F4C4}");
    assert_eq!(t.icon_link(), "\u{1F517}");
}

#[test]
fn test_is_truthy() {
    assert!(Theme::is_truthy("1"));
    assert!(Theme::is_truthy("true"));
    assert!(Theme::is_truthy("yes"));
    assert!(Theme::is_truthy("on"));
    assert!(!Theme::is_truthy("0"));
    assert!(!Theme::is_truthy("off"));
    assert!(!Theme::is_truthy(""));
}

#[test]
fn test_bool_to_flag() {
    assert_eq!(bool_to_flag(true), "1");
    assert_eq!(bool_to_flag(false), "0");
}

fn capable_signs() -> TermSigns {
    TermSigns {
        windows: false,
        looks_modern: true,
        utf8_ok: true,
        powershell_legacy: false,
        in_ansi_terminal: true,
        traditional_console: false,
        very_modern: true,
    }
}

fn no_flags() -> ProfileFlags {
    ProfileFlags { plain: false, ascii: false, no_color: false, narrow: false }
}

#[test]
fn test_detect_profile_capable_terminal() {
    let p = detect_profile(&no_flags(), &capable_signs());
    assert!(!p.plain);
    assert!(p.alt_screen);
    assert!(p.incremental);
}

#[test]
fn test_detect_profile_degrades_whole_profile() {
    let signs = TermSigns { utf8_ok: false, ..capable_signs() };
    let p = detect_profile(&no_flags(), &signs);
    assert!(p.plain && p.ascii_icons && p.no_color && p.narrow);
    assert!(!p.alt_screen && !p.incremental);
}

#[test]
fn test_detect_profile_windows_traditional_console_degrades() {
    let signs = TermSigns {
        windows: true,
        looks_modern: false,
        utf8_ok: true,
        powershell_legacy: false,
        in_ansi_terminal: false,
        traditional_console: true,
        very_modern: false,
    };
    let p = detect_profile(&no_flags(), &signs);
    assert!(p.plain);
}

#[test]
fn test_explicit_plain_wins() {
    let p = detect_profile(&ProfileFlags { plain: true, ..no_flags() }, &capable_signs());
    assert!(p.plain && !p.incremental);
}

#[test]
fn test_should_use_alt_screen() {
    let p = detect_profile(&no_flags(), &capable_signs());
    assert!(should_use_alt_screen(&p, &capable_signs()));
    let degraded = detect_profile(&ProfileFlags { plain: true, ..no_flags() }, &capable_signs());
    assert!(!should_use_alt_screen(&degraded, &capable_signs()));
}
