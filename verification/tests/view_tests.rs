use typingterm::app::{App, MenuRow};
use typingterm::config::TestMode;
use typingterm::persist::PersistentConfig;
use typingterm::theme::ThemeCatalog;
use typingterm::typing::{TypingTest, Word};
use typingterm::view::{
    center_vertical, code_cursor, cursor_cell, cursor_char, item_look, line_glyph, menu_lines,
    menu_window, progress, render_word, result_row, scroll_offset, search_popup, show_indent,
    word_layout, wrap_words, Area, ItemLook, Look, Progress,
};

#[test]
fn test_center_vertical() {
    let area = Area { x: 2, y: 1, width: 80, height: 24 };
    assert_eq!(center_vertical(area, 10), Area { x: 2, y: 8, width: 80, height: 10 });
    assert_eq!(center_vertical(area, 31), area);
}

#[test]
fn test_search_popup() {
    let area = Area { x: 0, y: 0, width: 100, height: 40 };
    assert_eq!(search_popup(area), Area { x: 30, y: 12, width: 40, height: 16 });
    let small = Area { x: 1, y: 1, width: 10, height: 3 };
    assert_eq!(search_popup(small), Area { x: 3, y: 2, width: 6, height: 0 });
}

#[test]
fn test_scroll_offset() {
    assert_eq!(scroll_offset(3, 14), 0);
    assert_eq!(scroll_offset(14, 14), 1);
    assert_eq!(scroll_offset(20, 14), 7);
    assert_eq!(scroll_offset(0, 0), 1);
}

#[test]
fn test_result_row() {
    assert_eq!(result_row("nord", 8), " nord   ");
    assert_eq!(result_row("serika_dark", 5), " serika_dark");
}

#[test]
fn test_menu_window() {
    let w = menu_window(19, 10);
    assert_eq!((w.start, w.end, w.selected, w.more_left, w.more_right), (7, 14, 3, true, true));
    let w = menu_window(19, 1);
    assert_eq!((w.start, w.end, w.selected, w.more_left, w.more_right), (0, 7, 1, false, true));
    let w = menu_window(19, 18);
    assert_eq!((w.start, w.end, w.selected, w.more_left, w.more_right), (12, 19, 6, true, false));
    let w = menu_window(4, 2);
    assert_eq!((w.start, w.end, w.selected, w.more_left, w.more_right), (0, 4, 2, false, false));
}

#[test]
fn test_item_look() {
    assert_eq!(item_look(true, true), ItemLook::Highlighted);
    assert_eq!(item_look(true, false), ItemLook::Selected);
    assert_eq!(item_look(false, true), ItemLook::Focused);
    assert_eq!(item_look(false, false), ItemLook::Dimmed);
}

#[test]
fn test_render_word() {
    let mut w = Word::new("cat");
    w.type_char('c');
    w.type_char('o');
    assert_eq!(render_word(&w), vec![('c', Look::Correct), ('o', Look::Incorrect), ('t', Look::Pending)]);
    w.type_char('t');
    w.type_char('s');
    assert_eq!(render_word(&w).last(), Some(&('s', Look::Extra)));
    assert_eq!(render_word(&w).len(), 4);
    assert_eq!(cursor_char(&w), ' ');
    assert_eq!(cursor_char(&Word::new("dog")), 'd');
}

#[test]
fn test_line_glyph() {
    assert_eq!(line_glyph(1, 5), '│');
    assert_eq!(line_glyph(5, 1), '─');
    assert_eq!(line_glyph(2, 2), '╲');
    assert_eq!(line_glyph(-2, -2), '╲');
    assert_eq!(line_glyph(2, -2), '╱');
}

#[test]
fn test_wrap_words() {
    let layout = wrap_words(&vec![5, 5, 5], 11, 10, 2);
    assert_eq!(layout.lines, vec![vec![(0, false), (1, true)], vec![(2, false)]]);
    assert_eq!(layout.cursor, Some((1, 0)));
    let layout = wrap_words(&vec![5, 5, 5], 11, 10, 1);
    assert_eq!(layout.cursor, Some((0, 6)));
    // a full screen stops the layout before the word that does not fit
    let layout = wrap_words(&vec![5, 5, 5], 11, 1, 2);
    assert_eq!(layout.lines, vec![vec![(0, false), (1, true)]]);
    assert_eq!(layout.cursor, None);
    // a word wider than the line gets a line of its own
    let layout = wrap_words(&vec![20, 3], 10, 5, 0);
    assert_eq!(layout.lines, vec![vec![(0, false)], vec![(1, false)]]);
    assert_eq!(layout.cursor, Some((0, 0)));
    assert!(wrap_words(&vec![], 10, 5, 0).lines.is_empty());
}

#[test]
fn test_word_layout_of_test() {
    let words = vec!["hello".to_string(), "big".to_string(), "world".to_string()];
    let mut test = TypingTest::new(words, None, None);
    for c in "hello ".chars() {
        test.type_char(c);
    }
    let layout = word_layout(&test, 9, 5);
    assert_eq!(layout.lines, vec![vec![(0, false), (1, true)], vec![(2, false)]]);
    assert_eq!(layout.cursor, Some((0, 6)));
}

#[test]
fn test_code_cursor_and_indent() {
    assert_eq!(show_indent("\t  "), "      ");
    let test = TypingTest::new_code(vec!["fn f() {".to_string(), "\tx".to_string()], None);
    assert_eq!(code_cursor(&test), Some((0, 0)));
    let mut test = test;
    for c in "fn f() {".chars() {
        test.type_char(c);
    }
    test.enter_key();
    assert_eq!(code_cursor(&test), Some((1, 4)));
}

#[test]
fn test_cursor_cell() {
    let area = Area { x: 4, y: 2, width: 10, height: 3 };
    assert_eq!(cursor_cell(area, 3, 5, 1), Some((9, 4)));
    assert_eq!(cursor_cell(area, 4, 5, 1), None);
    assert_eq!(cursor_cell(area, 0, 10, 0), None);
}

#[test]
fn test_menu_lines() {
    let catalog = ThemeCatalog::from_entries(Vec::new());
    let mut app = App::new(PersistentConfig::default(), catalog);
    let lines = menu_lines(&app);
    assert_eq!(lines.len(), 6);
    assert_eq!(lines[0].label, "mode");
    assert_eq!(lines[0].items, vec!["time", "words", "quote", "zen"]);
    assert!(lines[0].focused);
    assert_eq!(lines[1].items, vec!["15", "30", "60", "120"]);
    assert_eq!(lines[1].selected, 1);
    assert_eq!(lines[2].items.len(), 19);
    assert_eq!(lines[4].items, vec!["on", "off"]);
    assert_eq!(lines[4].selected, 1);
    app.config.mode = TestMode::Zen;
    app.menu_row = MenuRow::Numbers;
    let lines = menu_lines(&app);
    assert_eq!(lines[1].hint, "zen mode - no limits");
    assert!(lines[1].items.is_empty());
    assert!(lines[5].focused);
    assert!(!lines[0].focused);
}

#[test]
fn test_progress() {
    let catalog = ThemeCatalog::from_entries(Vec::new());
    let mut app = App::new(PersistentConfig::default(), catalog);
    assert_eq!(progress(&app), None);
    app.start_test();
    assert_eq!(progress(&app), Some(Progress::TimeLeft));
    app.config.mode = TestMode::Words;
    app.start_test();
    assert_eq!(progress(&app), Some(Progress::Words { done: 0, total: 25 }));
    app.config.mode = TestMode::Zen;
    app.start_test();
    assert_eq!(progress(&app), Some(Progress::Elapsed));
}

#[test]
fn test_wrapped_lines_fit() {
    let widths = vec![3, 4, 2, 9, 1, 1, 5];
    let layout = wrap_words(&widths, 8, 100, 0);
    for line in &layout.lines {
        let width: usize = line.iter().map(|&(i, space)| widths[i] + if space { 1 } else { 0 }).sum();
        assert!(width <= 8 || line.len() == 1);
    }
    assert_eq!(layout.lines.len(), 5);
}
