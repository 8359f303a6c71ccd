use typingterm::typing::{CharState, TypingTest, Word};

#[test]
fn test_word_correct_typing() {
    let mut word = Word::new("hello");
    for c in "hello".chars() {
        word.type_char(c);
    }
    assert!(word.is_correct());
    assert_eq!(word.correct_chars(), 5);
    assert_eq!(word.incorrect_chars(), 0);
}

#[test]
fn test_word_incorrect_typing() {
    let mut word = Word::new("hello");
    for c in "hxllo".chars() {
        word.type_char(c);
    }
    assert!(!word.is_correct());
    assert_eq!(word.correct_chars(), 4);
    assert_eq!(word.incorrect_chars(), 1);
}

#[test]
fn test_word_extra_chars() {
    let mut word = Word::new("hi");
    for c in "hiiii".chars() {
        word.type_char(c);
    }
    assert_eq!(word.extra_chars(), 3);
}

#[test]
fn test_word_backspace() {
    let mut word = Word::new("hello");
    word.type_char('h');
    word.type_char('x');
    word.backspace();
    assert_eq!(word.typed.len(), 1);
    assert_eq!(word.states[1], CharState::Pending);
    word.type_char('e');
    assert_eq!(word.states[1], CharState::Correct);
}

#[test]
fn test_typing_test_basic() {
    let words = vec!["hello".to_string(), "world".to_string()];
    let mut test = TypingTest::new(words, None, None);

    for c in "hello".chars() {
        test.type_char(c);
    }
    test.type_char(' ');
    assert_eq!(test.current_word, 1);
    assert_eq!(test.words_completed(), 1);
}

#[test]
fn test_delete_word() {
    let words = vec!["hello".to_string(), "world".to_string()];
    let mut test = TypingTest::new(words, None, None);

    test.type_char('h');
    test.type_char('x');
    test.type_char('l');
    test.delete_word();

    assert_eq!(test.words[0].typed.len(), 0);
    assert!(test.words[0].states.iter().all(|s| *s == CharState::Pending));
}

#[test]
fn test_delete_word_in_code_mode() {
    // In code mode, Ctrl+Backspace should delete back to previous word boundary
    let lines = vec!["hello world foo".to_string()];
    let mut test = TypingTest::new_code(lines, None);

    // Type "hello world f"
    for c in "hello world f".chars() {
        test.type_char(c);
    }
    assert_eq!(test.code_lines[0].content.typed.len(), 13);

    // Delete word: should remove "f" back to the space
    test.delete_word();
    let typed: String = test.code_lines[0].content.typed.iter().collect();
    assert_eq!(typed, "hello world ", "Should delete back to space boundary");

    // Delete again: should remove "world"
    test.delete_word();
    let typed: String = test.code_lines[0].content.typed.iter().collect();
    assert_eq!(typed, "hello ", "Should delete 'world' and trailing space");
}

#[test]
fn test_code_mode_basic() {
    let lines = vec![
        "fn main() {".to_string(),
        "    println!(\"hello\");".to_string(),
        "}".to_string(),
    ];
    let mut test = TypingTest::new_code(lines, None);
    assert!(test.code_mode);
    assert_eq!(test.code_lines.len(), 3);

    // First line has no indent
    assert_eq!(test.code_lines[0].indent, "");
    assert_eq!(test.code_lines[0].content.target.iter().collect::<String>(), "fn main() {");

    // Second line has 4-space indent, user only types the content
    assert_eq!(test.code_lines[1].indent, "    ");
    assert_eq!(test.code_lines[1].content.target.iter().collect::<String>(), "println!(\"hello\");");

    // Type first line and press enter
    for c in "fn main() {".chars() {
        test.type_char(c);
    }
    test.enter_key();
    assert_eq!(test.current_line, 1);
    assert!(test.code_lines[0].content.completed);
}

#[test]
fn test_auto_complete_last_word() {
    // Last word should auto-complete without needing a space
    let words = vec!["hi".to_string(), "ok".to_string()];
    let mut test = TypingTest::new(words, None, None);

    // Type "hi "
    for c in "hi".chars() { test.type_char(c); }
    test.type_char(' ');
    assert_eq!(test.current_word, 1);

    // Type "ok" - should auto-finish without space
    for c in "ok".chars() { test.type_char(c); }
    assert!(test.words[1].completed, "Last word should auto-complete");
    assert!(test.finished, "Test should be finished after typing last word");
}

#[test]
fn test_auto_complete_last_code_line() {
    let lines = vec!["x = 1".to_string(), "y = 2".to_string()];
    let mut test = TypingTest::new_code(lines, None);

    // Type first line and enter
    for c in "x = 1".chars() { test.type_char(c); }
    test.enter_key();

    // Type last line - should auto-finish without enter
    for c in "y = 2".chars() { test.type_char(c); }
    assert!(test.code_lines[1].content.completed, "Last code line should auto-complete");
    assert!(test.finished, "Code test should finish after typing last line");
}

#[test]
fn test_delete_word_stops_only_at_spaces() {
    let mut test = TypingTest::new_code(vec!["foo.bar baz".to_string()], None);
    for c in "foo.bar ba".chars() {
        test.type_char(c);
    }
    test.delete_word();
    let typed: String = test.code_lines[0].content.typed.iter().collect();
    assert_eq!(typed, "foo.bar ");
    assert_eq!(test.words[0].typed, test.code_lines[0].content.typed);
    test.delete_word();
    let typed: String = test.code_lines[0].content.typed.iter().collect();
    assert_eq!(typed, "");
}

#[test]
fn test_finished_test_ignores_keys() {
    let mut test = TypingTest::new(vec!["a".to_string()], None, None);
    test.type_char('a');
    assert!(test.finished);
    let keys = test.total_keystrokes;
    test.type_char('b');
    assert_eq!(test.total_keystrokes, keys);
    assert_eq!(test.words[0].typed, vec!['a']);
}

#[test]
fn test_elapsed_before_start_is_zero() {
    let test = TypingTest::new(vec!["a".to_string()], None, None);
    assert_eq!(test.elapsed_nanos(), 0);
}
