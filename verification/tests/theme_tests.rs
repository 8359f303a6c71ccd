use typingterm::theme::{hex_is_readable, hex_to_color, Color, RawTheme, Theme, ThemeCatalog};

fn raw(colors: [&str; 8]) -> RawTheme {
    RawTheme {
        bg: colors[0].to_string(),
        main: colors[1].to_string(),
        caret: colors[2].to_string(),
        sub: colors[3].to_string(),
        sub_alt: colors[4].to_string(),
        text: colors[5].to_string(),
        error: colors[6].to_string(),
        error_extra: colors[7].to_string(),
    }
}

/// A few of the monkeytype themes, in file order (not sorted).
fn sample_catalog() -> ThemeCatalog {
    let entries = vec![
        ("serika_dark".to_string(), raw(["#323437", "#e2b714", "#e2b714", "#646669", "#2c2e31", "#d1d0c5", "#ca4754", "#7e2a33"])),
        ("dracula".to_string(), raw(["#282a36", "#f2f2f2", "#f2f2f2", "#bd93f9", "#20222c", "#f2f2f2", "#f758a0", "#732e51"])),
        ("nord".to_string(), raw(["#242933", "#d8dee9", "#d8dee9", "#617b94", "#1b1f27", "#d8dee9", "#bf616a", "#793e44"])),
        ("dark".to_string(), raw(["#111", "#eee", "#eee", "#444", "#191919", "#eee", "#da3333", "#791717"])),
        ("dark_magic_girl".to_string(), raw(["#091f2c", "#f5b1cc", "#a288d9", "#93e8d3", "#0e2a3a", "#a288d9", "#e45c96", ""])),
        ("bento".to_string(), raw(["#2d394d", "#ff7a90", "#ff7a90", "#4a768d", "#263041", "#fffaf8", "#ee2a3a", "#f04040"])),
    ];
    ThemeCatalog::from_entries(entries)
}

#[test]
fn test_hex_to_color() {
    assert_eq!(hex_to_color("#ff0000"), Color::Rgb(255, 0, 0));
    assert_eq!(hex_to_color("#00ff00"), Color::Rgb(0, 255, 0));
    assert_eq!(hex_to_color("#333a45"), Color::Rgb(51, 58, 69));
    // 3-char hex codes
    assert_eq!(hex_to_color("#111"), Color::Rgb(17, 17, 17));
    assert_eq!(hex_to_color("#eee"), Color::Rgb(238, 238, 238));
    assert_eq!(hex_to_color("#f00"), Color::Rgb(255, 0, 0));
}

#[test]
fn test_hex_edge_cases() {
    // no '#', several '#', upper case, longer codes
    assert_eq!(hex_to_color("abcdef"), Color::Rgb(171, 205, 239));
    assert_eq!(hex_to_color("##ABCDEF"), Color::Rgb(171, 205, 239));
    assert_eq!(hex_to_color("#12345678"), Color::Rgb(18, 52, 86));
    // too short: white
    assert_eq!(hex_to_color("#12"), Color::White);
    assert_eq!(hex_to_color(""), Color::White);
    assert_eq!(hex_to_color("#1234"), Color::White);
    // a pair that is not hex reads as 255; a '+' before one digit is accepted
    assert_eq!(hex_to_color("#zz0000"), Color::Rgb(255, 0, 0));
    assert_eq!(hex_to_color("#+f+1-1"), Color::Rgb(15, 1, 255));
    assert!(hex_is_readable("#ff0000"));
    assert!(hex_is_readable("#é"));
    assert!(!hex_is_readable("#aé"));
    assert!(!hex_is_readable("#aéabc"));
    // a channel that starts inside a character cannot be read, one that is a whole
    // character reads as 255
    assert!(hex_is_readable("#éabcd"));
    assert_eq!(hex_to_color("#éabcd"), Color::Rgb(255, 171, 205));
}

#[test]
fn test_get_known_theme() {
    let catalog = sample_catalog();
    let theme = catalog.get("dracula");
    // Should not fall back to default
    assert_ne!(theme.bg, Color::Rgb(50, 52, 55), "Should have loaded dracula, not default");
    assert_eq!(theme.bg, Color::Rgb(40, 42, 54));
    assert_eq!(theme.name, "dracula");
}

#[test]
fn test_search() {
    let catalog = sample_catalog();
    let results = catalog.search("dark");
    assert!(!results.is_empty());
    for r in &results {
        assert!(r.to_lowercase().contains("dark"));
    }
}

#[test]
fn test_all_themes_parse_colors() {
    // Ensure no theme results in all-white due to bad hex parsing
    let catalog = sample_catalog();
    for name in catalog.names() {
        let theme = catalog.get(name);
        // bg should not be white (Color::White is the error fallback)
        assert_ne!(theme.bg, Color::White, "Theme '{}' has unparseable bg color", name);
    }
}

#[test]
fn test_catalog_names_sorted() {
    let catalog = sample_catalog();
    let names: Vec<&str> = catalog.names().iter().map(|s| s.as_str()).collect();
    assert_eq!(names, vec!["bento", "dark", "dark_magic_girl", "dracula", "nord", "serika_dark"]);
    assert_eq!(catalog.count(), 6);
}

#[test]
fn test_catalog_last_entry_wins() {
    let entries = vec![
        ("b".to_string(), raw(["#010101", "#000", "#000", "#000", "", "#000", "#000", ""])),
        ("a".to_string(), raw(["#020202", "#000", "#000", "#000", "", "#000", "#000", ""])),
        ("b".to_string(), raw(["#030303", "#000", "#000", "#000", "", "#000", "#000", ""])),
    ];
    let catalog = ThemeCatalog::from_entries(entries);
    assert_eq!(catalog.count(), 2);
    assert_eq!(catalog.names().to_vec(), vec!["a".to_string(), "b".to_string()]);
    assert_eq!(catalog.get("b").bg, Color::Rgb(3, 3, 3));
    assert_eq!(catalog.get("a").bg, Color::Rgb(2, 2, 2));
}

#[test]
fn test_unknown_theme_is_serika_dark() {
    let catalog = sample_catalog();
    let theme = catalog.get("no such theme");
    let default = Theme::default();
    assert_eq!(theme.name, "serika_dark");
    assert_eq!(theme.bg, Color::Rgb(50, 52, 55));
    assert_eq!(theme.caret, Color::Rgb(226, 183, 20));
    assert_eq!(default.extra, Color::Rgb(126, 50, 50));
    assert_eq!(default.text_dim, default.sub);
}

#[test]
fn test_from_raw_roles() {
    let catalog = sample_catalog();
    // without error_extra, extra and the error background use the error colour
    let girl = catalog.get("dark_magic_girl");
    assert_eq!(girl.incorrect, Color::Rgb(228, 92, 150));
    assert_eq!(girl.extra, girl.incorrect);
    assert_eq!(girl.error_bg, girl.incorrect);
    assert_eq!(girl.caret, Color::Rgb(162, 136, 217));
    // with it, they use error_extra
    let nord = catalog.get("nord");
    assert_eq!(nord.extra, Color::Rgb(121, 62, 68));
    assert_eq!(nord.correct, nord.text);
    assert_eq!(nord.text_dim, Color::Rgb(97, 123, 148));
    let dark = catalog.get("dark");
    assert_eq!(dark.bg, Color::Rgb(17, 17, 17));
}

#[test]
fn test_search_ignores_case() {
    let catalog = sample_catalog();
    let results = catalog.search("DARK");
    assert_eq!(results, vec!["dark", "dark_magic_girl", "serika_dark"]);
    assert!(catalog.search("zzz").is_empty());
    assert_eq!(catalog.search("").len(), 6);
}

#[test]
fn test_raw_theme_readable() {
    assert!(raw(["#111", "#eee", "#eee", "#444", "", "#eee", "#da3333", ""]).is_readable());
    assert!(!raw(["#é1", "#eee", "#eee", "#444", "", "#eee", "#da3333", ""]).is_readable());
}
