use typingterm::app::{Action, App, Key, KeyPress, MenuRow, Screen};
use typingterm::config::{Language, TestMode, TimeDuration, WordCount};
use typingterm::persist::PersistentConfig;
use typingterm::theme::{Color, RawTheme, ThemeCatalog};

fn raw(bg: &str) -> RawTheme {
    RawTheme {
        bg: bg.to_string(),
        main: "#e2b714".to_string(),
        caret: "#e2b714".to_string(),
        sub: "#646669".to_string(),
        sub_alt: String::new(),
        text: "#d1d0c5".to_string(),
        error: "#ca4754".to_string(),
        error_extra: String::new(),
    }
}

fn catalog() -> ThemeCatalog {
    ThemeCatalog::from_entries(vec![
        ("serika_dark".to_string(), raw("#323437")),
        ("dracula".to_string(), raw("#282a36")),
        ("nord".to_string(), raw("#242933")),
    ])
}

fn key(k: Key) -> KeyPress {
    KeyPress { key: k, ctrl: false, alt: false }
}

fn fresh_app() -> App {
    App::new(PersistentConfig::default(), catalog())
}

#[test]
fn test_menu_row_index_roundtrip() {
    for (i, row) in MenuRow::all().iter().enumerate() {
        assert_eq!(row.index(), i);
        assert_eq!(MenuRow::from_index(row.index()), *row);
    }
    assert_eq!(MenuRow::from_index(9), MenuRow::Mode);
}

#[test]
fn test_app_new_defaults() {
    let app = fresh_app();
    assert_eq!(app.screen, Screen::Menu);
    assert!(app.test.is_none());
    assert_eq!(app.theme.name, "serika_dark");
    // names are sorted: dracula, nord, serika_dark
    assert_eq!(app.theme_index, 2);
    assert_eq!(app.config.mode, TestMode::Time);
    assert_eq!(app.config.language, Language::English);
    assert_eq!(app.language_index, 0);
    assert_eq!(app.language_names.len(), 19);
    assert_eq!(app.menu_row, MenuRow::Mode);
}

#[test]
fn test_app_new_from_saved() {
    let saved = PersistentConfig {
        theme: Some("nord".to_string()),
        language: Some("spanish".to_string()),
        mode: Some("words".to_string()),
        time_duration: Some(60),
        word_count: Some(50),
        punctuation: Some(true),
        numbers: None,
    };
    let app = App::new(saved, catalog());
    assert_eq!(app.theme.name, "nord");
    assert_eq!(app.theme.bg, Color::Rgb(36, 41, 51));
    assert_eq!(app.theme_index, 1);
    assert_eq!(app.config.language, Language::Spanish);
    assert_eq!(app.language_index, 4);
    assert!(app.config.punctuation);
    assert!(!app.config.numbers);
    // the mode and its lengths come back too
    assert_eq!(app.config.mode, TestMode::Words);
    assert_eq!(app.config.word_count, WordCount::Fifty);
    assert_eq!(app.config.time_duration, TimeDuration::Sixty);
}

#[test]
fn test_app_new_unknown_saved_theme() {
    let saved = PersistentConfig { theme: Some("gone".to_string()), ..PersistentConfig::default() };
    let app = App::new(saved, catalog());
    // the catalog's first theme
    assert_eq!(app.theme.name, "dracula");
    assert_eq!(app.theme_index, 0);
    let empty = App::new(PersistentConfig::default(), ThemeCatalog::from_entries(Vec::new()));
    assert_eq!(empty.theme.name, "serika_dark");
    assert_eq!(empty.theme_index, 0);
}

#[test]
fn test_menu_navigation() {
    let mut app = fresh_app();
    assert!(!app.menu_left());
    assert!(app.menu_right());
    assert_eq!(app.config.mode, TestMode::Words);
    app.menu_down();
    assert_eq!(app.menu_row, MenuRow::SubMode);
    // the column follows the word count (25 is the second)
    assert_eq!(app.menu_col, 1);
    assert!(app.menu_right());
    assert_eq!(app.config.word_count, WordCount::Fifty);
    app.menu_up();
    app.menu_up();
    assert_eq!(app.menu_row, MenuRow::Mode);
    assert_eq!(app.menu_col, 1);
    for _ in 0..10 {
        app.menu_down();
    }
    assert_eq!(app.menu_row, MenuRow::Numbers);
    assert_eq!(app.menu_col, 1);
    assert!(app.menu_left());
    assert!(app.config.numbers);
    assert!(!app.menu_left());
    let saved = app.save_config();
    assert_eq!(saved.mode.as_deref(), Some("words"));
    assert_eq!(saved.word_count, Some(50));
    assert_eq!(saved.numbers, Some(true));
    assert_eq!(saved.theme.as_deref(), Some("serika_dark"));
    assert_eq!(saved.language.as_deref(), Some("english"));
    assert_eq!(saved.time_duration, Some(30));
}

#[test]
fn test_theme_row_applies_theme() {
    let mut app = fresh_app();
    app.menu_row = MenuRow::Theme;
    app.menu_col = 2;
    assert!(!app.menu_right());
    assert!(app.menu_left());
    assert_eq!(app.theme.name, "nord");
    assert_eq!(app.theme_index, 1);
}

#[test]
fn test_search_language() {
    let mut app = fresh_app();
    app.menu_row = MenuRow::Language;
    app.start_search();
    assert!(app.search_active);
    assert_eq!(app.search_row, MenuRow::Language);
    assert_eq!(app.search_results.len(), 19);
    app.search_type_char('F');
    app.search_type_char('r');
    assert_eq!(app.search_results, vec!["french".to_string()]);
    app.search_backspace();
    assert_eq!(app.search_query, "F");
    assert!(app.search_results.contains(&"french".to_string()));
    app.search_type_char('r');
    assert!(app.search_confirm());
    assert!(!app.search_active);
    assert!(app.search_results.is_empty());
    assert_eq!(app.config.language, Language::French);
    assert_eq!(app.language_index, 5);
}

#[test]
fn test_search_theme() {
    let mut app = fresh_app();
    app.menu_row = MenuRow::Theme;
    app.start_search();
    assert_eq!(app.search_results, vec!["dracula".to_string(), "nord".to_string(), "serika_dark".to_string()]);
    app.search_down();
    app.search_down();
    app.search_down();
    assert_eq!(app.search_selected, 2);
    app.search_up();
    assert_eq!(app.search_selected, 1);
    app.search_confirm();
    assert_eq!(app.theme.name, "nord");
    assert_eq!(app.theme_index, 1);
    // a search on another row lists nothing
    app.menu_row = MenuRow::Mode;
    app.start_search();
    assert!(app.search_results.is_empty());
    app.cancel_search();
    assert!(!app.search_active);
}

#[test]
fn test_key_actions() {
    let mut app = fresh_app();
    assert_eq!(app.action_for(KeyPress { key: Key::Char('c'), ctrl: true, alt: false }), Action::Quit);
    assert_eq!(app.action_for(key(Key::Char('/'))), Action::Nothing);
    assert_eq!(app.action_for(key(Key::Char('j'))), Action::MenuDown);
    assert_eq!(app.action_for(key(Key::Enter)), Action::StartTest);
    app.screen = Screen::Typing;
    assert_eq!(app.action_for(KeyPress { key: Key::Backspace, ctrl: false, alt: true }), Action::DeleteWord);
    assert_eq!(app.action_for(key(Key::Backspace)), Action::Backspace);
    assert_eq!(app.action_for(key(Key::Char('q'))), Action::TypeChar('q'));
    app.screen = Screen::Results;
    assert_eq!(app.action_for(key(Key::Char('q'))), Action::BackToMenu);
    assert_eq!(app.action_for(key(Key::Tab)), Action::RestartTest);
    app.screen = Screen::Menu;
    app.menu_row = MenuRow::Theme;
    assert_eq!(app.action_for(key(Key::Char('/'))), Action::StartSearch);
    app.start_search();
    assert_eq!(app.action_for(key(Key::Backspace)), Action::CancelSearch);
    assert_eq!(app.action_for(key(Key::Char('q'))), Action::SearchChar('q'));
}

#[test]
fn test_handle_input_quit() {
    let mut app = fresh_app();
    let r = app.handle_input(KeyPress { key: Key::Char('c'), ctrl: true, alt: false });
    assert!(r.quit);
    assert!(!app.should_quit);
    let r = app.handle_input(key(Key::Char('q')));
    assert!(r.quit);
    assert!(app.should_quit);
}

#[test]
fn test_typing_through_keys() {
    let mut app = fresh_app();
    app.config.mode = TestMode::Words;
    app.config.word_count = WordCount::Ten;
    let r = app.handle_input(key(Key::Enter));
    assert!(!r.quit && !r.save);
    assert_eq!(app.screen, Screen::Typing);
    let test = app.test.as_ref().unwrap();
    assert_eq!(test.words.len(), 10);
    assert_eq!(test.word_limit, Some(10));
    assert_eq!(test.time_limit, None);
    let first: String = test.words[0].target.iter().collect();
    for c in first.chars() {
        app.handle_input(key(Key::Char(c)));
    }
    assert!(app.test.as_ref().unwrap().words[0].is_correct());
    app.handle_input(key(Key::Backspace));
    assert_eq!(app.test.as_ref().unwrap().words[0].typed.len(), first.chars().count() - 1);
    app.handle_input(KeyPress { key: Key::Backspace, ctrl: true, alt: false });
    assert_eq!(app.test.as_ref().unwrap().words[0].typed.len(), 0);
    app.handle_input(key(Key::Esc));
    assert_eq!(app.screen, Screen::Menu);
    assert!(app.test.is_none());
}

#[test]
fn test_finishing_shows_results() {
    let mut app = fresh_app();
    app.config.mode = TestMode::Words;
    app.config.word_count = WordCount::Ten;
    app.start_test();
    let words: Vec<String> = app.test.as_ref().unwrap().words.iter().map(|w| w.target.iter().collect()).collect();
    for (i, w) in words.iter().enumerate() {
        for c in w.chars() {
            app.handle_input(key(Key::Char(c)));
        }
        if i + 1 < words.len() {
            app.handle_input(key(Key::Char(' ')));
        }
    }
    assert!(app.test.as_ref().unwrap().finished);
    assert_eq!(app.screen, Screen::Results);
    app.handle_input(key(Key::Tab));
    assert_eq!(app.screen, Screen::Typing);
    assert!(!app.test.as_ref().unwrap().finished);
}

#[test]
fn test_start_test_modes() {
    let mut app = fresh_app();
    app.start_test();
    let test = app.test.as_ref().unwrap();
    assert_eq!(test.words.len(), 200);
    assert_eq!(test.time_limit, Some(30));
    assert!(!test.code_mode);
    app.config.mode = TestMode::Zen;
    app.restart_test();
    assert_eq!(app.test.as_ref().unwrap().words.len(), 500);
    assert_eq!(app.test.as_ref().unwrap().time_limit, None);
    app.config.mode = TestMode::Quote;
    app.start_test();
    let test = app.test.as_ref().unwrap();
    assert!(!test.words.is_empty());
    for w in &test.words {
        assert!(!w.target.is_empty());
        assert!(!w.target.iter().any(|c| c.is_whitespace()));
    }
    app.config.language = Language::CodeRust;
    app.config.mode = TestMode::Time;
    app.start_test();
    let test = app.test.as_ref().unwrap();
    assert!(test.code_mode);
    assert!(!test.code_lines.is_empty());
    assert_eq!(test.time_limit, Some(30));
}

#[test]
fn test_tick_and_poll() {
    let mut app = fresh_app();
    assert_eq!(app.poll_millis(), 100);
    app.start_test();
    assert_eq!(app.poll_millis(), 50);
    app.tick();
    // a timed test that has not started does not end
    assert_eq!(app.screen, Screen::Typing);
    assert!(!app.test.as_ref().unwrap().finished);
}

#[test]
fn test_settings_round_trip() {
    let mut app = fresh_app();
    app.config.language = Language::CodeCpp;
    app.config.punctuation = true;
    app.config.mode = TestMode::Quote;
    app.config.time_duration = TimeDuration::OneHundredTwenty;
    app.config.word_count = WordCount::Hundred;
    app.menu_row = MenuRow::Theme;
    app.menu_col = 1;
    app.menu_left();
    assert_eq!(app.theme.name, "dracula");
    let saved = app.save_config();
    let again = App::new(saved, catalog());
    assert_eq!(again.config.mode, app.config.mode);
    assert_eq!(again.config.time_duration, app.config.time_duration);
    assert_eq!(again.config.word_count, app.config.word_count);
    assert_eq!(again.config.language, Language::CodeCpp);
    assert!(again.config.punctuation);
    assert!(!again.config.numbers);
    assert_eq!(again.theme.name, "dracula");
    assert_eq!(again.theme_index, 0);
    assert_eq!(again.language_index, 17);
}

#[test]
fn test_search_type_then_erase() {
    let mut app = fresh_app();
    app.menu_row = MenuRow::Language;
    app.start_search();
    app.search_type_char('c');
    let before = app.search_results.clone();
    app.search_type_char('o');
    app.search_backspace();
    assert_eq!(app.search_query, "c");
    assert_eq!(app.search_results, before);
    assert_eq!(app.search_selected, 0);
}

#[test]
fn test_unknown_saved_lengths_fall_back() {
    let saved = PersistentConfig {
        mode: Some("marathon".to_string()),
        time_duration: Some(45),
        word_count: Some(7),
        ..PersistentConfig::default()
    };
    let app = App::new(saved, catalog());
    assert_eq!(app.config.mode, TestMode::Time);
    assert_eq!(app.config.time_duration, TimeDuration::Thirty);
    assert_eq!(app.config.word_count, WordCount::TwentyFive);
}

#[test]
fn applied_column_syncs_back() {
    for row in MenuRow::all().iter() {
        for mode in [TestMode::Time, TestMode::Words, TestMode::Quote] {
            let mut app = fresh_app();
            app.config.mode = mode;
            app.menu_row = *row;
            let len = match row {
                MenuRow::Mode => TestMode::all().len(),
                MenuRow::SubMode => match mode {
                    TestMode::Time => TimeDuration::all().len(),
                    TestMode::Words => WordCount::all().len(),
                    _ => 0,
                },
                MenuRow::Language => app.language_names.len(),
                MenuRow::Theme => app.theme_catalog.count(),
                MenuRow::Punctuation | MenuRow::Numbers => 2,
            };
            for k in 0..len {
                app.menu_col = k;
                app.apply_menu_selection();
                app.menu_col = 0;
                app.sync_menu_col();
                assert_eq!(app.menu_col, k, "{:?} column {}", row, k);
            }
        }
    }
}
