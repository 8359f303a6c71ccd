use typingterm::config::Language;
use typingterm::words::{pick_word, normalize, capitalize, generate_words, get_code_snippet, get_random_quote, get_word_list, punctuate, split_quote, u32_to_string};

#[test]
fn test_generate_words_basic() {
    let words = generate_words(Language::English, 25, false, false);
    assert_eq!(words.len(), 25);
    for w in &words {
        assert!(!w.is_empty());
    }
}

#[test]
fn test_no_consecutive_repeats() {
    // Generate a large batch and check no consecutive repeats
    let words = generate_words(Language::English, 200, false, false);
    for i in 1..words.len() {
        assert_ne!(
            words[i].to_lowercase(),
            words[i - 1].to_lowercase(),
            "Consecutive repeat at index {}: '{}'",
            i,
            words[i]
        );
    }
}

#[test]
fn test_generate_words_with_punctuation() {
    let words = generate_words(Language::English, 100, true, false);
    assert_eq!(words.len(), 100);
    // First word should be capitalized
    let first_char = words[0].chars().next().unwrap();
    assert!(first_char.is_uppercase() || first_char == '"');
}

#[test]
fn test_generate_words_with_numbers() {
    let words = generate_words(Language::English, 200, false, true);
    assert_eq!(words.len(), 200);
    // Should have at least some numbers with 200 words at 10% rate
    let has_number = words.iter().any(|w| w.chars().next().map_or(false, |c| c.is_ascii_digit()));
    assert!(has_number, "Expected at least one number in 200 words");
}

#[test]
fn test_natural_languages_load() {
    for lang in Language::natural_languages() {
        let words = get_word_list(*lang);
        assert!(!words.is_empty(), "Language {:?} has no words", lang);
    }
}

#[test]
fn test_code_snippets_load() {
    for lang in Language::code_languages() {
        let lines = get_code_snippet(*lang);
        assert!(!lines.is_empty(), "Code language {:?} has no snippets", lang);
        assert!(lines[0] != "// no code snippets available", "No snippets for {:?}", lang);
    }
}

#[test]
fn test_get_random_quote() {
    let (source, text) = get_random_quote();
    assert!(!source.is_empty());
    assert!(!text.is_empty());
}

#[test]
fn code_snippet_for_a_word_language_says_so() {
    assert_eq!(get_code_snippet(Language::English), vec!["// no code snippets available".to_string()]);
}

#[test]
fn word_list_for_a_code_language_is_empty() {
    assert!(get_word_list(Language::CodeRust).is_empty());
    assert_eq!(generate_words(Language::CodeGo, 5, false, false), vec!["error loading words".to_string()]);
}

#[test]
fn generated_words_are_lower_case_list_words() {
    let list = get_word_list(Language::Spanish);
    for w in generate_words(Language::Spanish, 50, false, false) {
        assert!(list.iter().any(|l| l.to_lowercase() == w), "{} is not a list word", w);
    }
}

#[test]
fn last_punctuated_word_ends_with_period() {
    for _ in 0..20 {
        let words = generate_words(Language::English, 7, true, false);
        assert!(words[6].ends_with('.'), "{:?}", words);
    }
}

#[test]
fn decimal_strings() {
    assert_eq!(u32_to_string(0), "0");
    assert_eq!(u32_to_string(7), "7");
    assert_eq!(u32_to_string(9999), "9999");
    assert_eq!(u32_to_string(4294967295), "4294967295");
}

#[test]
fn capitalize_first_letter() {
    assert_eq!(capitalize("hello"), "Hello");
    assert_eq!(capitalize(""), "");
    assert_eq!(capitalize("ßa"), "SSa");
}

#[test]
fn punctuation_by_roll() {
    // The roll's top 53 bits select the mark.
    assert_eq!(punctuate("word", false, 0, 10, 0), ("word,".to_string(), false));
    assert_eq!(punctuate("word", true, 0, 10, 0), ("Word,".to_string(), false));
    assert_eq!(punctuate("word", false, 0, 10, 600000000000000u64 << 11), ("word.".to_string(), true));
    assert_eq!(punctuate("word", false, 0, 10, 1000000000000000u64 << 11), ("word!".to_string(), true));
    assert_eq!(punctuate("word", false, 0, 10, 1500000000000000u64 << 11), ("\"word\"".to_string(), false));
    assert_eq!(punctuate("word", false, 0, 10, u64::MAX), ("word".to_string(), false));
    // The last word always ends a sentence with a period.
    assert_eq!(punctuate("word", false, 9, 10, u64::MAX), ("word.".to_string(), false));
}

#[test]
fn test_normalize_strips_punctuation() {
    assert_eq!(normalize("\"Hello,\""), "hello");
    assert_eq!(normalize("Don't!"), "dont");
    assert_eq!(normalize("42."), "42");
    assert_eq!(normalize("Été"), "été");
}

#[test]
fn test_pick_word() {
    let draws: Vec<String> = vec!["i".into(), "cat".into(), "dog".into(), "sun".into()];
    assert_eq!(pick_word(&draws, &"cat".to_string(), &"x".to_string()), "dog");
    assert_eq!(pick_word(&draws, &"".to_string(), &"".to_string()), "cat");
    let bad: Vec<String> = vec!["i".into(), "cat".into()];
    // none may be used: the last draw
    assert_eq!(pick_word(&bad, &"cat".to_string(), &"".to_string()), "cat");
}

#[test]
fn quote_lines_split_at_first_tab() {
    assert_eq!(
        split_quote("Author\tSome words.\tmore"),
        ("Author".to_string(), "Some words.\tmore".to_string())
    );
    assert_eq!(split_quote("\tText"), ("".to_string(), "Text".to_string()));
    assert_eq!(
        split_quote("No tab"),
        ("No tab".to_string(), "The quick brown fox jumps over the lazy dog.".to_string())
    );
}

#[test]
fn capital_exactly_after_sentence_end() {
    for _ in 0..20 {
        let words = generate_words(Language::English, 60, true, true);
        for k in 0..words.len() {
            let first = words[k].trim_start_matches('"').chars().next().unwrap();
            if first.is_ascii_digit() {
                continue;
            }
            let starts = k == 0
                || words[k - 1].ends_with('.')
                || words[k - 1].ends_with('?')
                || words[k - 1].ends_with('!');
            assert_eq!(first.is_uppercase(), starts, "word {} of {:?}", k, words);
        }
    }
}
