use vstd::prelude::*;
use crate::config::{Language, TestConfig, TestMode, TimeDuration, WordCount, law_seconds_match_label, law_count_matches_label};
use crate::persist::PersistentConfig;
use crate::text::{chars_of, contains_text, has_substring, same_text, str_lower, string_from_chars, to_lowercase};
use crate::theme::{search_hits, Theme, ThemeCatalog, ThemeView};
use crate::text::{split_whitespace, words_from};
use crate::typing::{TestModel, TypingTest};
use std::time::Instant;
use crate::words::{decimal, are_generated_words, generate_words, get_code_snippet, get_random_quote, is_quote, is_snippet_for};

verus! {

/// The screen on show.
#[derive(Debug, Clone, Copy, PartialEq, Eq, Structural)]
pub enum Screen {
    Menu,
    Typing,
    Results,
}

/// A row of the menu, from top to bottom.
#[derive(Debug, Clone, Copy, PartialEq, Eq, Structural)]
pub enum MenuRow {
    Mode,
    SubMode,
    Language,
    Theme,
    Punctuation,
    Numbers,
}

impl MenuRow {
    /// Every row, from top to bottom.
    pub open spec fn spec_all() -> Seq<MenuRow> {
        seq![
            MenuRow::Mode,
            MenuRow::SubMode,
            MenuRow::Language,
            MenuRow::Theme,
            MenuRow::Punctuation,
            MenuRow::Numbers,
        ]
    }

    /// Every row, from top to bottom.
    pub fn all() -> (r: &'static [MenuRow])
        ensures
            r@ == Self::spec_all(),
    {
        &[
            MenuRow::Mode,
            MenuRow::SubMode,
            MenuRow::Language,
            MenuRow::Theme,
            MenuRow::Punctuation,
            MenuRow::Numbers,
        ]
    }

    /// The position of the row, counted from the top.
    pub open spec fn spec_index(self) -> usize {
        match self {
            MenuRow::Mode => 0,
            MenuRow::SubMode => 1,
            MenuRow::Language => 2,
            MenuRow::Theme => 3,
            MenuRow::Punctuation => 4,
            MenuRow::Numbers => 5,
        }
    }

    /// The position of the row, counted from the top.
    pub fn index(&self) -> (r: usize)
        ensures
            r == self.spec_index(),
    {
        match self {
            MenuRow::Mode => 0,
            MenuRow::SubMode => 1,
            MenuRow::Language => 2,
            MenuRow::Theme => 3,
            MenuRow::Punctuation => 4,
            MenuRow::Numbers => 5,
        }
    }

    /// The row at position `i`; the top row past the last.
    pub open spec fn spec_from_index(i: usize) -> MenuRow {
        if i == 1 {
            MenuRow::SubMode
        } else if i == 2 {
            MenuRow::Language
        } else if i == 3 {
            MenuRow::Theme
        } else if i == 4 {
            MenuRow::Punctuation
        } else if i == 5 {
            MenuRow::Numbers
        } else {
            MenuRow::Mode
        }
    }

    /// The row at position `i` from the top; the top row for a position past the last.
    pub fn from_index(i: usize) -> (r: Self)
        ensures
            r == Self::spec_from_index(i),
    {
        match i {
            0 => MenuRow::Mode,
            1 => MenuRow::SubMode,
            2 => MenuRow::Language,
            3 => MenuRow::Theme,
            4 => MenuRow::Punctuation,
            5 => MenuRow::Numbers,
            _ => MenuRow::Mode,
        }
    }
}

/// A row's index finds the row again, an index below six finds a row with that index, and
/// a row's index is its place in the list of all rows.
pub proof fn law_menu_row_index(r: MenuRow, i: usize)
    ensures
        MenuRow::spec_from_index(r.spec_index()) == r,
        i < 6 ==> MenuRow::spec_from_index(i).spec_index() == i,
        r.spec_index() < MenuRow::spec_all().len(),
        MenuRow::spec_all()[r.spec_index() as int] == r,
{
}


/// The texts of a list of strings.
pub open spec fn string_views(v: Seq<String>) -> Seq<Seq<char>> {
    v.map_values(|s: String| s@)
}

/// The texts of a list of string slices.
pub open spec fn str_views(v: Seq<&str>) -> Seq<Seq<char>> {
    v.map_values(|s: &str| s@)
}

/// The labels of all languages, in menu order.
pub open spec fn language_labels() -> Seq<Seq<char>> {
    Language::spec_all().map_values(|l: Language| l.spec_label())
}

/// `x` is at `i` in `s`, and nowhere before.
pub open spec fn is_first_at(s: Seq<Seq<char>>, x: Seq<char>, i: int) -> bool {
    &&& 0 <= i < s.len()
    &&& s[i] == x
    &&& forall|j: int| 0 <= j < i ==> s[j] != x
}

/// The first position of `x` in `s`, or 0 when it is not there.
pub open spec fn position_or_zero(s: Seq<Seq<char>>, x: Seq<char>) -> int {
    if s.contains(x) {
        choose|i: int| is_first_at(s, x, i)
    } else {
        0
    }
}

/// The first position of `x` is the one where it first occurs.
pub proof fn lemma_first_at(s: Seq<Seq<char>>, x: Seq<char>, i: int)
    requires
        is_first_at(s, x, i),
    ensures
        s.contains(x),
        position_or_zero(s, x) == i,
{
    assert(s[i] == x);
    let k = position_or_zero(s, x);
    assert(is_first_at(s, x, k));
    if k < i {
        assert(s[k] == x);
    } else if k > i {
        assert(s[i] == x);
    }
}

/// The first position of `x` among `names`.
fn find_first(names: &[String], x: &str) -> (r: Option<usize>)
    ensures
        match r {
            Some(i) => is_first_at(string_views(names@), x@, i as int),
            None => !string_views(names@).contains(x@),
        },
{
    let ghost vs = string_views(names@);
    let mut i: usize = 0;
    while i < names.len()
        invariant
            vs == string_views(names@),
            i <= names@.len(),
            forall|j: int| 0 <= j < i ==> vs[j] != x@,
        decreases names@.len() - i,
    {
        if same_text(names[i].as_str(), x) {
            return Some(i);
        }
        i = i + 1;
    }
    None
}

/// The first position of `x` among `names`.
fn find_first_str(names: &Vec<&'static str>, x: &str) -> (r: Option<usize>)
    ensures
        match r {
            Some(i) => is_first_at(str_views(names@), x@, i as int),
            None => !str_views(names@).contains(x@),
        },
{
    let ghost vs = str_views(names@);
    let mut i: usize = 0;
    while i < names.len()
        invariant
            vs == str_views(names@),
            i <= names@.len(),
            forall|j: int| 0 <= j < i ==> vs[j] != x@,
        decreases names@.len() - i,
    {
        if same_text(names[i], x) {
            return Some(i);
        }
        i = i + 1;
    }
    None
}

/// The labels of all languages, in menu order.
fn all_language_names() -> (r: Vec<&'static str>)
    ensures
        str_views(r@) == language_labels(),
{
    let all = Language::all();
    let mut out: Vec<&'static str> = Vec::new();
    let mut i: usize = 0;
    while i < all.len()
        invariant
            all@ == Language::spec_all(),
            i <= all@.len(),
            str_views(out@) == language_labels().take(i as int),
        decreases all@.len() - i,
    {
        let l = all[i].label();
        let ghost prev = out@;
        proof {
            assert(language_labels()[i as int] == l@);
        }
        out.push(l);
        proof {
            assert(out@ == prev.push(l));
            assert(str_views(out@) =~= str_views(prev).push(l@));
            assert(language_labels().take(i + 1) =~= language_labels().take(i as int).push(l@));
        }
        i = i + 1;
    }
    proof {
        assert(language_labels().take(i as int) =~= language_labels());
    }
    out
}

/// The theme a session starts with: the saved one when the catalog has it, else the
/// catalog's first, else serika dark.
pub open spec fn chosen_theme(saved: Option<String>, names: Seq<Seq<char>>) -> Seq<char> {
    let wanted = match saved {
        Some(t) => t@,
        None => "serika_dark"@,
    };
    if names.contains(wanted) {
        wanted
    } else if names.len() > 0 {
        names[0]
    } else {
        "serika_dark"@
    }
}

/// The language saved under a label: the first language with that label, or English.
pub open spec fn saved_language(saved: Option<String>) -> Language {
    match saved {
        Some(s) => if language_labels().contains(s@) {
            Language::spec_all()[position_or_zero(language_labels(), s@)]
        } else {
            Language::English
        },
        None => Language::English,
    }
}

/// The mode saved under a label, or a timed test when there is none that matches.
pub open spec fn saved_mode(saved: Option<String>) -> TestMode {
    match saved {
        Some(s) => if s@ == "time"@ {
            TestMode::Time
        } else if s@ == "words"@ {
            TestMode::Words
        } else if s@ == "quote"@ {
            TestMode::Quote
        } else if s@ == "zen"@ {
            TestMode::Zen
        } else {
            TestMode::Time
        },
        None => TestMode::Time,
    }
}

/// The duration saved in seconds, or thirty seconds when no duration has that length.
pub open spec fn saved_duration(saved: Option<u64>) -> TimeDuration {
    match saved {
        Some(15) => TimeDuration::Fifteen,
        Some(60) => TimeDuration::Sixty,
        Some(120) => TimeDuration::OneHundredTwenty,
        _ => TimeDuration::Thirty,
    }
}

/// The word count saved, or twenty-five when no count has that number.
pub open spec fn saved_count(saved: Option<usize>) -> WordCount {
    match saved {
        Some(10) => WordCount::Ten,
        Some(50) => WordCount::Fifty,
        Some(100) => WordCount::Hundred,
        _ => WordCount::TwentyFive,
    }
}

/// The mode saved under a label.
fn mode_from_saved(saved: &Option<String>) -> (r: TestMode)
    ensures
        r == saved_mode(*saved),
{
    match saved {
        Some(s) => if same_text(s.as_str(), "time") {
            TestMode::Time
        } else if same_text(s.as_str(), "words") {
            TestMode::Words
        } else if same_text(s.as_str(), "quote") {
            TestMode::Quote
        } else if same_text(s.as_str(), "zen") {
            TestMode::Zen
        } else {
            TestMode::Time
        },
        None => TestMode::Time,
    }
}

/// The duration saved in seconds.
fn duration_from_saved(saved: Option<u64>) -> (r: TimeDuration)
    ensures
        r == saved_duration(saved),
{
    match saved {
        Some(15) => TimeDuration::Fifteen,
        Some(60) => TimeDuration::Sixty,
        Some(120) => TimeDuration::OneHundredTwenty,
        _ => TimeDuration::Thirty,
    }
}

/// The word count saved.
fn count_from_saved(saved: Option<usize>) -> (r: WordCount)
    ensures
        r == saved_count(saved),
{
    match saved {
        Some(10) => WordCount::Ten,
        Some(50) => WordCount::Fifty,
        Some(100) => WordCount::Hundred,
        _ => WordCount::TwentyFive,
    }
}

/// The theme that the catalog gives for a name.
pub open spec fn catalog_theme(c: ThemeCatalog, name: Seq<char>) -> ThemeView {
    if c@.dom().contains(name) {
        ThemeView::from_raw(name, c@[name])
    } else {
        ThemeView::serika_dark()
    }
}

/// The names that a search on `row` for `query` lists: for languages, the labels whose
/// lower-case form holds the lower-cased query; for themes, the catalog's search for the
/// lower-cased query; every name for an empty query; nothing on other rows.
pub open spec fn results_for(row: MenuRow, query: Seq<char>, theme_names: Seq<Seq<char>>) -> Seq<Seq<char>> {
    let q = str_lower(query);
    match row {
        MenuRow::Language => if q.len() == 0 {
            language_labels()
        } else {
            search_hits(language_labels(), q)
        },
        MenuRow::Theme => if q.len() == 0 {
            theme_names
        } else {
            search_hits(theme_names, str_lower(q))
        },
        _ => Seq::empty(),
    }
}

/// The settings after picking column `col` of `row`; a column past the row's end changes
/// nothing.
pub open spec fn chosen_config(c: TestConfig, row: MenuRow, col: usize) -> TestConfig {
    match row {
        MenuRow::Mode => if col < TestMode::spec_all().len() {
            TestConfig { mode: TestMode::spec_all()[col as int], ..c }
        } else {
            c
        },
        MenuRow::SubMode => match c.mode {
            TestMode::Time => if col < TimeDuration::spec_all().len() {
                TestConfig { time_duration: TimeDuration::spec_all()[col as int], ..c }
            } else {
                c
            },
            TestMode::Words => if col < WordCount::spec_all().len() {
                TestConfig { word_count: WordCount::spec_all()[col as int], ..c }
            } else {
                c
            },
            _ => c,
        },
        MenuRow::Language => if col < Language::spec_all().len() {
            TestConfig { language: Language::spec_all()[col as int], ..c }
        } else {
            c
        },
        MenuRow::Theme => c,
        MenuRow::Punctuation => TestConfig { punctuation: col == 0, ..c },
        MenuRow::Numbers => TestConfig { numbers: col == 0, ..c },
    }
}

/// The number of words generated for a word test of the given mode.
pub open spec fn word_target(c: TestConfig) -> usize {
    match c.mode {
        TestMode::Time => 200,
        TestMode::Words => c.word_count.spec_count(),
        TestMode::Quote => 0,
        TestMode::Zen => 500,
    }
}

/// The time limit of a test: the duration in a timed test, none otherwise.
pub open spec fn time_limit_of(c: TestConfig) -> Option<u64> {
    match c.mode {
        TestMode::Time => Some(c.time_duration.spec_seconds()),
        _ => None,
    }
}

/// The word limit of a test: the word count in a word-count test, none otherwise.
pub open spec fn word_limit_of(c: TestConfig) -> Option<usize> {
    match c.mode {
        TestMode::Words => Some(c.word_count.spec_count()),
        _ => None,
    }
}

/// `t` is a fresh test for the settings `c`: a code snippet of a code language, the words
/// of a quote in quote mode, or generated words otherwise, with the limits of the mode.
pub open spec fn is_test_for(c: TestConfig, t: TestModel) -> bool {
    if c.language.spec_is_code() {
        exists|lines: Seq<String>|
            is_snippet_for(c.language, #[trigger] string_views(lines)) && t == TestModel::fresh_code(
                lines,
                time_limit_of(c),
            )
    } else if c.mode == TestMode::Quote {
        exists|source: Seq<char>, text: Seq<char>, ws: Seq<String>|
            #![trigger is_quote(source, text), string_views(ws)]
            is_quote(source, text) && string_views(ws) == words_from(text, 0) && t
                == TestModel::fresh_words(ws, None, None)
    } else {
        exists|ws: Seq<String>|
            are_generated_words(
                c.language,
                word_target(c),
                c.punctuation,
                c.numbers,
                #[trigger] string_views(ws),
            ) && t == TestModel::fresh_words(ws, time_limit_of(c), word_limit_of(c))
    }
}

/// A key as the program tells keys apart.
#[derive(Debug, Clone, Copy, PartialEq, Eq, Structural)]
pub enum Key {
    Char(char),
    Enter,
    Esc,
    Tab,
    Backspace,
    Up,
    Down,
    Left,
    Right,
    Other,
}

/// A key press with the modifiers that matter.
#[derive(Debug, Clone, Copy, PartialEq, Eq, Structural)]
pub struct KeyPress {
    pub key: Key,
    pub ctrl: bool,
    pub alt: bool,
}

/// What a key press asks the program to do.
#[derive(Debug, Clone, Copy, PartialEq, Eq, Structural)]
pub enum Action {
    /// Ctrl+C: stop at once.
    Quit,
    /// Leave from the menu.
    Leave,
    CancelSearch,
    ConfirmSearch,
    SearchUp,
    SearchDown,
    SearchBackspace,
    SearchChar(char),
    StartSearch,
    MenuUp,
    MenuDown,
    MenuLeft,
    MenuRight,
    StartTest,
    RestartTest,
    BackToMenu,
    EnterKey,
    Backspace,
    DeleteWord,
    TypeChar(char),
    Nothing,
}

/// What the caller is to do after a key: stop the program, save the settings.
#[derive(Debug, Clone, Copy, PartialEq, Eq, Structural)]
pub struct Reaction {
    pub quit: bool,
    pub save: bool,
}

/// The action of a key: Ctrl+C stops everything; an open search takes every other key;
/// otherwise the screen decides (arrows or `hjkl` move in the menu, `/` searches the
/// language and theme rows, Enter starts a test; while typing, Esc leaves, Tab restarts and
/// Ctrl or Alt with Backspace deletes a word; on the results, Tab restarts and Esc or `q`
/// go back).
pub open spec fn spec_action(
    search_active: bool,
    screen: Screen,
    row: MenuRow,
    query_empty: bool,
    k: KeyPress,
) -> Action {
    if k.ctrl && k.key == Key::Char('c') {
        Action::Quit
    } else if search_active {
        match k.key {
            Key::Esc => Action::CancelSearch,
            Key::Enter => Action::ConfirmSearch,
            Key::Up => Action::SearchUp,
            Key::Down => Action::SearchDown,
            Key::Backspace => if query_empty {
                Action::CancelSearch
            } else {
                Action::SearchBackspace
            },
            Key::Char(c) => Action::SearchChar(c),
            _ => Action::Nothing,
        }
    } else {
        match screen {
            Screen::Menu => if k.key == Key::Char('q') || k.key == Key::Esc {
                Action::Leave
            } else if k.key == Key::Char('/') {
                if row == MenuRow::Language || row == MenuRow::Theme {
                    Action::StartSearch
                } else {
                    Action::Nothing
                }
            } else if k.key == Key::Up || k.key == Key::Char('k') {
                Action::MenuUp
            } else if k.key == Key::Down || k.key == Key::Char('j') {
                Action::MenuDown
            } else if k.key == Key::Left || k.key == Key::Char('h') {
                Action::MenuLeft
            } else if k.key == Key::Right || k.key == Key::Char('l') {
                Action::MenuRight
            } else if k.key == Key::Enter {
                Action::StartTest
            } else {
                Action::Nothing
            },
            Screen::Typing => match k.key {
                Key::Esc => Action::BackToMenu,
                Key::Tab => Action::RestartTest,
                Key::Enter => Action::EnterKey,
                Key::Backspace => if k.ctrl || k.alt {
                    Action::DeleteWord
                } else {
                    Action::Backspace
                },
                Key::Char(c) => Action::TypeChar(c),
                _ => Action::Nothing,
            },
            Screen::Results => if k.key == Key::Tab {
                Action::RestartTest
            } else if k.key == Key::Esc || k.key == Key::Char('q') {
                Action::BackToMenu
            } else {
                Action::Nothing
            },
        }
    }
}

/// The screen after a step of the test: the results once it has finished.
pub open spec fn screen_after(screen: Screen, t: TestModel) -> Screen {
    if t.finished {
        Screen::Results
    } else {
        screen
    }
}

/// `b` is `a` with the search opened on the current row, with an empty query.
pub open spec fn search_started(a: App, b: App) -> bool {
    &&& b == (App {
        search_active: true,
        search_query: b.search_query,
        search_selected: 0,
        search_row: a.menu_row,
        search_results: b.search_results,
        ..a
    })
    &&& b.search_query@ == Seq::<char>::empty()
    &&& string_views(b.search_results@) == results_for(a.menu_row, Seq::empty(), a.theme_catalog.spec_names())
}

/// `b` is `a` with the search closed, its query and results forgotten.
pub open spec fn search_cancelled(a: App, b: App) -> bool {
    &&& b == (App {
        search_active: false,
        search_query: b.search_query,
        search_results: b.search_results,
        ..a
    })
    &&& b.search_query@ == Seq::<char>::empty()
    &&& b.search_results@.len() == 0
}

/// `b` is `a` with `c` added to the query, searched again from the top.
pub open spec fn search_char_typed(a: App, b: App, c: char) -> bool {
    &&& b == (App {
        search_query: b.search_query,
        search_selected: 0,
        search_results: b.search_results,
        ..a
    })
    &&& b.search_query@ == a.search_query@.push(c)
    &&& string_views(b.search_results@) == results_for(a.search_row, b.search_query@, a.theme_catalog.spec_names())
}

/// `b` is `a` with the last character of the query, if any, removed, searched again from
/// the top.
pub open spec fn search_char_erased(a: App, b: App) -> bool {
    &&& b == (App {
        search_query: b.search_query,
        search_selected: 0,
        search_results: b.search_results,
        ..a
    })
    &&& b.search_query@ == (if a.search_query@.len() > 0 {
        a.search_query@.drop_last()
    } else {
        a.search_query@
    })
    &&& string_views(b.search_results@) == results_for(a.search_row, b.search_query@, a.theme_catalog.spec_names())
}

/// `b` is `a` with the selection one result up, stopping at the first.
pub open spec fn selection_moved_up(a: App, b: App) -> bool {
    b == (App {
        search_selected: if a.search_selected > 0 {
            (a.search_selected - 1) as usize
        } else {
            a.search_selected
        },
        ..a
    })
}

/// `b` is `a` with the selection one result down, stopping at the last.
pub open spec fn selection_moved_down(a: App, b: App) -> bool {
    b == (App {
        search_selected: if a.search_selected + 1 < a.search_results@.len() {
            (a.search_selected + 1) as usize
        } else {
            a.search_selected
        },
        ..a
    })
}

/// `b` is `a` with the selected result, if there is one, picked for the searched row (a
/// language by its label, a theme by its name), and the search closed.
pub open spec fn search_confirmed(a: App, b: App) -> bool {
    let sel = a.search_selected as int;
    let results = string_views(a.search_results@);
    let picked = 0 <= sel < results.len();
    let name = results[sel];
    &&& !b.search_active
    &&& b.search_query@ == Seq::<char>::empty()
    &&& b.search_results@.len() == 0
    &&& b.screen == a.screen
    &&& b.test == a.test
    &&& b.theme_catalog == a.theme_catalog
    &&& b.should_quit == a.should_quit
    &&& b.menu_row == a.menu_row
    &&& b.menu_col == a.menu_col
    &&& b.language_names == a.language_names
    &&& b.search_selected == a.search_selected
    &&& b.search_row == a.search_row
    &&& if picked && a.search_row == MenuRow::Language && language_labels().contains(name) {
        &&& b.config == (TestConfig {
            language: Language::spec_all()[position_or_zero(language_labels(), name)],
            ..a.config
        })
        &&& b.language_index == position_or_zero(language_labels(), name)
    } else {
        b.config == a.config && b.language_index == a.language_index
    }
    &&& if picked && a.search_row == MenuRow::Theme {
        &&& b.theme@ == catalog_theme(a.theme_catalog, name)
        &&& b.theme_index == position_or_zero(a.theme_catalog.spec_names(), name)
    } else {
        b.theme == a.theme && b.theme_index == a.theme_index
    }
}

/// `b` is `a` moved to the row above, if any, with the column on that row's setting.
pub open spec fn moved_up(a: App, b: App) -> bool {
    if a.menu_row.spec_index() > 0 {
        let moved = App { menu_row: MenuRow::spec_from_index((a.menu_row.spec_index() - 1) as usize), ..a };
        b == (App { menu_col: moved.synced_col(), ..moved })
    } else {
        b == a
    }
}

/// `b` is `a` moved to the row below, if any, with the column on that row's setting.
pub open spec fn moved_down(a: App, b: App) -> bool {
    if a.menu_row.spec_index() + 1 < MenuRow::spec_all().len() {
        let moved = App { menu_row: MenuRow::spec_from_index((a.menu_row.spec_index() + 1) as usize), ..a };
        b == (App { menu_col: moved.synced_col(), ..moved })
    } else {
        b == a
    }
}

/// `b` is `a` with the column moved left and applied, when it is not the first.
pub open spec fn moved_left(a: App, b: App) -> bool {
    if a.menu_col > 0 {
        b.menu_col == a.menu_col - 1 && a.selection_applied(b)
    } else {
        b == a
    }
}

/// `b` is `a` with the column moved right and applied, when it is not the last.
pub open spec fn moved_right(a: App, b: App) -> bool {
    if a.menu_col + 1 < a.row_len() {
        b.menu_col == a.menu_col + 1 && a.selection_applied(b)
    } else {
        b == a
    }
}

/// `b` is `a` showing a fresh test for its settings.
pub open spec fn test_started(a: App, b: App) -> bool {
    &&& b == (App { screen: Screen::Typing, test: b.test, ..a })
    &&& b.test matches Some(t) && is_test_for(a.config, t@)
}

/// `b` is `a` after the test took the character `c` (at some instant), showing the results
/// once the test has finished; with no test, or a test that cannot take a key, nothing
/// changes.
pub open spec fn char_typed(a: App, b: App, c: char) -> bool {
    match a.test {
        Some(t) => if t@.has_room() && (t@.finished || t@.words.len() > 0) {
            b.test matches Some(t2) && (exists|now: Instant, e: u64|
                t2@ == t@.step_char(c, now, e)) && b == (App {
                test: b.test,
                screen: screen_after(a.screen, t2@),
                ..a
            })
        } else {
            b == a
        },
        None => b == a,
    }
}

/// `b` is `a` after Enter: a code test moves to the next line (at some instant), showing
/// the results once the test has finished; a word test ignores Enter.
pub open spec fn enter_pressed(a: App, b: App) -> bool {
    match a.test {
        Some(t) => if t@.code_mode && t@.has_room() && (t@.finished || t@.lines.len() > 0) {
            b.test matches Some(t2) && (exists|now: Instant, e: u64| t2@ == t@.step_enter(now, e))
                && b == (App { test: b.test, screen: screen_after(a.screen, t2@), ..a })
        } else {
            b == a
        },
        None => b == a,
    }
}

/// `b` is `a` after Backspace in the test.
pub open spec fn char_erased(a: App, b: App) -> bool {
    match a.test {
        Some(t) => b.test matches Some(t2) && t2@ == t@.step_backspace() && b == (App {
            test: b.test,
            ..a
        }),
        None => b == a,
    }
}

/// `b` is `a` after the test deleted a word.
pub open spec fn word_deleted(a: App, b: App) -> bool {
    match a.test {
        Some(t) => b.test matches Some(t2) && t2@ == t@.step_delete_word() && b == (App {
            test: b.test,
            ..a
        }),
        None => b == a,
    }
}

/// `b` is `a` after `action`, and `r` is what the caller is to do: stop when the program
/// is to quit, save the settings after a confirmed search or a moved column.
pub open spec fn acted(a: App, b: App, action: Action, r: Reaction) -> bool {
    &&& r.quit == (action == Action::Quit || b.should_quit)
    &&& r.save == match action {
        Action::ConfirmSearch => true,
        Action::MenuLeft => a.menu_col > 0,
        Action::MenuRight => a.menu_col + 1 < a.row_len(),
        _ => false,
    }
    &&& match action {
        Action::Quit => b == a,
        Action::Leave => b == (App { should_quit: true, ..a }),
        Action::CancelSearch => search_cancelled(a, b),
        Action::ConfirmSearch => search_confirmed(a, b),
        Action::SearchUp => selection_moved_up(a, b),
        Action::SearchDown => selection_moved_down(a, b),
        Action::SearchBackspace => search_char_erased(a, b),
        Action::SearchChar(c) => search_char_typed(a, b, c),
        Action::StartSearch => search_started(a, b),
        Action::MenuUp => moved_up(a, b),
        Action::MenuDown => moved_down(a, b),
        Action::MenuLeft => moved_left(a, b),
        Action::MenuRight => moved_right(a, b),
        Action::StartTest => test_started(a, b),
        Action::RestartTest => test_started(a, b),
        Action::BackToMenu => b == (App { screen: Screen::Menu, test: None, ..a }),
        Action::EnterKey => enter_pressed(a, b),
        Action::Backspace => char_erased(a, b),
        Action::DeleteWord => word_deleted(a, b),
        Action::TypeChar(c) => char_typed(a, b, c),
        Action::Nothing => b == a,
    }
}

/// `p` holds the settings of `a`: the theme's name, the language's and the mode's labels,
/// the duration in seconds, the word count and the two switches.
pub open spec fn saved_settings(a: App, p: PersistentConfig) -> bool {
    &&& p.theme == Some(a.theme.name)
    &&& p.language matches Some(l) && l@ == a.config.language.spec_label()
    &&& p.mode matches Some(m) && m@ == a.config.mode.spec_label()
    &&& p.time_duration == Some(a.config.time_duration.spec_seconds())
    &&& p.word_count == Some(a.config.word_count.spec_count())
    &&& p.punctuation == Some(a.config.punctuation)
    &&& p.numbers == Some(a.config.numbers)
}

/// The state of the whole program: the screen, the settings, the test and the menu.
pub struct App {
    pub screen: Screen,
    pub config: TestConfig,
    pub test: Option<TypingTest>,
    pub theme: Theme,
    pub theme_catalog: ThemeCatalog,
    pub should_quit: bool,
    // Menu state
    pub menu_row: MenuRow,
    pub menu_col: usize,
    pub language_names: Vec<&'static str>,
    pub language_index: usize,
    pub theme_index: usize,
    // Search mode
    pub search_active: bool,
    pub search_query: String,
    pub search_results: Vec<String>,
    pub search_selected: usize,
    pub search_row: MenuRow,
}

impl App {
    /// The catalog is well formed, the language names are the labels of all languages,
    /// and a test in progress keeps its own invariant.
    pub open spec fn inv(&self) -> bool {
        &&& self.theme_catalog.wf()
        &&& str_views(self.language_names@) == language_labels()
        &&& (self.test matches Some(t) ==> t@.inv())
    }

    /// The program as it starts, on the menu, with the saved settings and the catalog.
    pub fn new(saved: PersistentConfig, catalog: ThemeCatalog) -> (r: Self)
        requires
            catalog.wf(),
        ensures
            r.inv(),
            r.screen == Screen::Menu,
            r.test is None,
            !r.should_quit,
            r.theme_catalog == catalog,
            r.theme@ == catalog_theme(catalog, chosen_theme(saved.theme, catalog.spec_names())),
            r.theme_index == position_or_zero(
                catalog.spec_names(),
                chosen_theme(saved.theme, catalog.spec_names()),
            ),
            r.config == (TestConfig {
                language: saved_language(saved.language),
                punctuation: match saved.punctuation {
                    Some(p) => p,
                    None => false,
                },
                numbers: match saved.numbers {
                    Some(n) => n,
                    None => false,
                },
                mode: saved_mode(saved.mode),
                time_duration: saved_duration(saved.time_duration),
                word_count: saved_count(saved.word_count),
            }),
            r.language_index == position_or_zero(language_labels(), r.config.language.spec_label()),
            r.menu_row == MenuRow::Mode,
            r.menu_col == 0,
            !r.search_active,
            r.search_query@ == Seq::<char>::empty(),
            r.search_results@.len() == 0,
            r.search_selected == 0,
            r.search_row == MenuRow::Language,
    {
        let names = catalog.names();
        let ghost ns = catalog.spec_names();
        let wanted: &str = match &saved.theme {
            Some(t) => t.as_str(),
            None => "serika_dark",
        };
        let theme_name: &str = match find_first(names, wanted) {
            Some(_) => wanted,
            None => if names.len() > 0 {
                names[0].as_str()
            } else {
                "serika_dark"
            },
        };
        proof {
            assert(theme_name@ == chosen_theme(saved.theme, ns));
        }
        let theme = catalog.get(theme_name);
        let theme_index = match find_first(names, theme_name) {
            Some(i) => {
                proof {
                    lemma_first_at(ns, theme_name@, i as int);
                }
                i
            },
            None => 0,
        };
        let mut config = TestConfig::default();
        let language_names = all_language_names();
        if let Some(lang_str) = &saved.language {
            match find_first_str(&language_names, lang_str.as_str()) {
                Some(i) => {
                    proof {
                        lemma_first_at(language_labels(), lang_str@, i as int);
                    }
                    config.language = Language::all()[i];
                },
                None => {},
            }
        }
        if let Some(p) = saved.punctuation {
            config.punctuation = p;
        }
        if let Some(n) = saved.numbers {
            config.numbers = n;
        }
        config.mode = mode_from_saved(&saved.mode);
        config.time_duration = duration_from_saved(saved.time_duration);
        config.word_count = count_from_saved(saved.word_count);
        let language_index = match find_first_str(&language_names, config.language.label()) {
            Some(i) => {
                proof {
                    lemma_first_at(language_labels(), config.language.spec_label(), i as int);
                }
                i
            },
            None => 0,
        };
        App {
            screen: Screen::Menu,
            config,
            test: None,
            theme,
            theme_catalog: catalog,
            should_quit: false,
            menu_row: MenuRow::Mode,
            menu_col: 0,
            language_names,
            language_index,
            theme_index,
            search_active: false,
            search_query: String::new(),
            search_results: Vec::new(),
            search_selected: 0,
            search_row: MenuRow::Language,
        }
    }

    /// The number of columns of the current menu row.
    pub open spec fn row_len(&self) -> nat {
        match self.menu_row {
            MenuRow::Mode => TestMode::spec_all().len(),
            MenuRow::SubMode => match self.config.mode {
                TestMode::Time => TimeDuration::spec_all().len(),
                TestMode::Words => WordCount::spec_all().len(),
                _ => 0,
            },
            MenuRow::Language => language_labels().len(),
            MenuRow::Theme => self.theme_catalog.spec_names().len(),
            MenuRow::Punctuation => 2,
            MenuRow::Numbers => 2,
        }
    }

    /// The column that shows the current setting of the current row: "on" is the first
    /// column of a switch and "off" the second.
    pub open spec fn synced_col(&self) -> usize {
        match self.menu_row {
            MenuRow::Mode => self.config.mode.spec_index(),
            MenuRow::SubMode => match self.config.mode {
                TestMode::Time => self.config.time_duration.spec_index(),
                TestMode::Words => self.config.word_count.spec_index(),
                _ => 0,
            },
            MenuRow::Language => self.language_index,
            MenuRow::Theme => self.theme_index,
            MenuRow::Punctuation => if self.config.punctuation {
                0
            } else {
                1
            },
            MenuRow::Numbers => if self.config.numbers {
                0
            } else {
                1
            },
        }
    }

    /// `after` is this state with the selection at `after.menu_col` applied: the setting
    /// of the row is set from that column, and for the language and theme rows the index
    /// follows it.
    pub open spec fn selection_applied(self, after: App) -> bool {
        let col = after.menu_col;
        let names = self.theme_catalog.spec_names();
        &&& after.config == chosen_config(self.config, self.menu_row, col)
        &&& if self.menu_row == MenuRow::Language && col < language_labels().len() {
            after.language_index == col
        } else {
            after.language_index == self.language_index
        }
        &&& if self.menu_row == MenuRow::Theme && col < names.len() {
            after.theme@ == catalog_theme(self.theme_catalog, names[col as int])
                && after.theme_index == col
        } else {
            after.theme == self.theme && after.theme_index == self.theme_index
        }
        &&& after.screen == self.screen
        &&& after.test == self.test
        &&& after.theme_catalog == self.theme_catalog
        &&& after.should_quit == self.should_quit
        &&& after.menu_row == self.menu_row
        &&& after.language_names == self.language_names
        &&& after.search_active == self.search_active
        &&& after.search_query == self.search_query
        &&& after.search_results == self.search_results
        &&& after.search_selected == self.search_selected
        &&& after.search_row == self.search_row
    }

    /// The settings to save, as `PersistentConfig::save` writes them: the theme's name, the
    /// language's and the mode's labels, the duration in seconds, the word count and the
    /// two switches.
    pub fn save_config(&self) -> (r: PersistentConfig)
        ensures
            saved_settings(*self, r),
    {
        PersistentConfig {
            theme: Some(self.theme.name.clone()),
            language: Some(self.config.language.label().to_owned()),
            mode: Some(self.config.mode.label().to_owned()),
            time_duration: Some(self.config.time_duration.seconds()),
            word_count: Some(self.config.word_count.count()),
            punctuation: Some(self.config.punctuation),
            numbers: Some(self.config.numbers),
        }
    }
}


/// The copies of a list of names.
fn copy_names(names: &[String]) -> (r: Vec<String>)
    ensures
        string_views(r@) == string_views(names@),
{
    let mut out: Vec<String> = Vec::new();
    let mut i: usize = 0;
    while i < names.len()
        invariant
            i <= names@.len(),
            string_views(out@) == string_views(names@).take(i as int),
        decreases names@.len() - i,
    {
        let ghost prev = out@;
        out.push(names[i].clone());
        proof {
            assert(string_views(out@) =~= string_views(prev).push(names@[i as int]@));
            assert(string_views(names@).take(i + 1) =~= string_views(names@).take(i as int).push(
                names@[i as int]@,
            ));
        }
        i = i + 1;
    }
    proof {
        assert(string_views(names@).take(i as int) =~= string_views(names@));
    }
    out
}

/// Owned copies of borrowed names.
fn own_names(names: Vec<&str>) -> (r: Vec<String>)
    ensures
        string_views(r@) == str_views(names@),
{
    let mut out: Vec<String> = Vec::new();
    let mut i: usize = 0;
    while i < names.len()
        invariant
            i <= names@.len(),
            string_views(out@) == str_views(names@).take(i as int),
        decreases names@.len() - i,
    {
        let ghost prev = out@;
        out.push(names[i].to_owned());
        proof {
            assert(string_views(out@) =~= string_views(prev).push(names@[i as int]@));
            assert(str_views(names@).take(i + 1) =~= str_views(names@).take(i as int).push(
                names@[i as int]@,
            ));
        }
        i = i + 1;
    }
    proof {
        assert(str_views(names@).take(i as int) =~= str_views(names@));
    }
    out
}

/// The labels among `names` whose lower-case form holds `q`.
fn matching_labels(names: &Vec<&'static str>, q: &str) -> (r: Vec<String>)
    ensures
        string_views(r@) == search_hits(str_views(names@), q@),
{
    let ghost ns = str_views(names@);
    let mut out: Vec<String> = Vec::new();
    let mut i: usize = 0;
    while i < names.len()
        invariant
            ns == str_views(names@),
            i <= names@.len(),
            string_views(out@) == search_hits(ns.take(i as int), q@),
        decreases names@.len() - i,
    {
        let name = names[i];
        let low = to_lowercase(name);
        proof {
            assert(ns.take(i + 1).drop_last() =~= ns.take(i as int));
            assert(ns.take(i + 1).last() == name@);
        }
        if contains_text(low.as_str(), q) {
            let ghost prev = out@;
            out.push(name.to_owned());
            proof {
                assert(string_views(out@) =~= string_views(prev).push(name@));
            }
        }
        i = i + 1;
    }
    proof {
        assert(ns.take(i as int) =~= ns);
    }
    out
}

/// The column of a mode in the mode row.
pub fn mode_position(m: TestMode) -> (r: usize)
    ensures
        r == m.spec_index(),
{
    match m {
        TestMode::Time => 0,
        TestMode::Words => 1,
        TestMode::Quote => 2,
        TestMode::Zen => 3,
    }
}

/// The column of a duration in the duration row.
pub fn duration_position(d: TimeDuration) -> (r: usize)
    ensures
        r == d.spec_index(),
{
    match d {
        TimeDuration::Fifteen => 0,
        TimeDuration::Thirty => 1,
        TimeDuration::Sixty => 2,
        TimeDuration::OneHundredTwenty => 3,
    }
}

/// The column of a word count in the word-count row.
pub fn count_position(w: WordCount) -> (r: usize)
    ensures
        r == w.spec_index(),
{
    match w {
        WordCount::Ten => 0,
        WordCount::TwentyFive => 1,
        WordCount::Fifty => 2,
        WordCount::Hundred => 3,
    }
}

impl App {
    /// Lists the results of the query on the searched row.
    fn update_search_results(&mut self)
        requires
            old(self).inv(),
        ensures
            *final(self) == (App { search_results: final(self).search_results, ..*old(self) }),
            string_views(final(self).search_results@) == results_for(
                old(self).search_row,
                old(self).search_query@,
                old(self).theme_catalog.spec_names(),
            ),
    {
        let q = to_lowercase(self.search_query.as_str());
        match self.search_row {
            MenuRow::Language => {
                if q.as_str().is_empty() {
                    let all = own_names(self.language_names.clone());
                    self.search_results = all;
                } else {
                    self.search_results = matching_labels(&self.language_names, q.as_str());
                }
            },
            MenuRow::Theme => {
                if q.as_str().is_empty() {
                    let names = copy_names(self.theme_catalog.names());
                    self.search_results = names;
                } else {
                    let hits = self.theme_catalog.search(q.as_str());
                    self.search_results = own_names(hits);
                }
            },
            _ => {
                self.search_results = Vec::new();
            },
        }
    }

    /// Opens the search on the current row, with an empty query.
    pub fn start_search(&mut self)
        requires
            old(self).inv(),
        ensures
            final(self).inv(),
            search_started(*old(self), *final(self)),
    {
        self.search_active = true;
        self.search_query = String::new();
        self.search_selected = 0;
        self.search_row = self.menu_row;
        self.update_search_results();
    }

    /// Closes the search, forgetting the query and the results.
    pub fn cancel_search(&mut self)
        requires
            old(self).inv(),
        ensures
            final(self).inv(),
            search_cancelled(*old(self), *final(self)),
    {
        self.search_active = false;
        self.search_query = String::new();
        self.search_results = Vec::new();
    }

    /// Adds a character to the query and searches again from the top.
    pub fn search_type_char(&mut self, c: char)
        requires
            old(self).inv(),
        ensures
            final(self).inv(),
            search_char_typed(*old(self), *final(self), c),
    {
        let mut cs = chars_of(self.search_query.as_str());
        cs.push(c);
        self.search_query = string_from_chars(cs.as_slice());
        self.search_selected = 0;
        self.update_search_results();
    }

    /// Removes the last character of the query, if any, and searches again from the top.
    pub fn search_backspace(&mut self)
        requires
            old(self).inv(),
        ensures
            final(self).inv(),
            search_char_erased(*old(self), *final(self)),
    {
        let mut cs = chars_of(self.search_query.as_str());
        if cs.len() > 0 {
            cs.pop();
        }
        self.search_query = string_from_chars(cs.as_slice());
        self.search_selected = 0;
        self.update_search_results();
    }

    /// Picks the selected result, if there is one, for the searched row, then closes the
    /// search. Returns `true`: the settings are to be saved.
    pub fn search_confirm(&mut self) -> (save: bool)
        requires
            old(self).inv(),
        ensures
            save,
            final(self).inv(),
            search_confirmed(*old(self), *final(self)),
    {
        if self.search_selected < self.search_results.len() {
            let selected = self.search_results[self.search_selected].clone();
            match self.search_row {
                MenuRow::Language => {
                    match find_first_str(&self.language_names, selected.as_str()) {
                        Some(idx) => {
                            proof {
                                lemma_first_at(language_labels(), selected@, idx as int);
                            }
                            self.config.language = Language::all()[idx];
                            self.language_index = idx;
                        },
                        None => {},
                    }
                },
                MenuRow::Theme => {
                    self.theme = self.theme_catalog.get(selected.as_str());
                    self.theme_index = match find_first(self.theme_catalog.names(), selected.as_str()) {
                        Some(i) => {
                            proof {
                                lemma_first_at(self.theme_catalog.spec_names(), selected@, i as int);
                            }
                            i
                        },
                        None => 0,
                    };
                },
                _ => {},
            }
        }
        self.cancel_search();
        true
    }

    /// The number of columns of the current menu row.
    fn menu_row_len(&self) -> (r: usize)
        requires
            self.inv(),
        ensures
            r == self.row_len(),
    {
        match self.menu_row {
            MenuRow::Mode => TestMode::all().len(),
            MenuRow::SubMode => match self.config.mode {
                TestMode::Time => TimeDuration::all().len(),
                TestMode::Words => WordCount::all().len(),
                _ => 0,
            },
            MenuRow::Language => self.language_names.len(),
            MenuRow::Theme => self.theme_catalog.count(),
            MenuRow::Punctuation => 2,
            MenuRow::Numbers => 2,
        }
    }

    /// Moves the column to the current setting of the current row.
    pub fn sync_menu_col(&mut self)
        ensures
            *final(self) == (App { menu_col: old(self).synced_col(), ..*old(self) }),
    {
        self.menu_col = match self.menu_row {
            MenuRow::Mode => mode_position(self.config.mode),
            MenuRow::SubMode => match self.config.mode {
                TestMode::Time => duration_position(self.config.time_duration),
                TestMode::Words => count_position(self.config.word_count),
                _ => 0,
            },
            MenuRow::Language => self.language_index,
            MenuRow::Theme => self.theme_index,
            MenuRow::Punctuation => if self.config.punctuation {
                0
            } else {
                1
            },
            MenuRow::Numbers => if self.config.numbers {
                0
            } else {
                1
            },
        };
    }

    /// Applies the column under the cursor to the setting of the current row.
    #[verifier::rlimit(30)]
    pub fn apply_menu_selection(&mut self)
        requires
            old(self).inv(),
        ensures
            final(self).inv(),
            final(self).menu_col == old(self).menu_col,
            old(self).selection_applied(*final(self)),
    {
        let col = self.menu_col;
        match self.menu_row {
            MenuRow::Mode => {
                let all = TestMode::all();
                if col < all.len() {
                    self.config.mode = all[col];
                }
            },
            MenuRow::SubMode => match self.config.mode {
                TestMode::Time => {
                    let all = TimeDuration::all();
                    if col < all.len() {
                        self.config.time_duration = all[col];
                    }
                },
                TestMode::Words => {
                    let all = WordCount::all();
                    if col < all.len() {
                        self.config.word_count = all[col];
                    }
                },
                _ => {},
            },
            MenuRow::Language => {
                proof {
                    assert(str_views(self.language_names@).len() == self.language_names@.len());
                }
                if col < self.language_names.len() {
                    self.config.language = Language::all()[col];
                    self.language_index = col;
                }
            },
            MenuRow::Theme => {
                let names = self.theme_catalog.names();
                if col < names.len() {
                    let theme = self.theme_catalog.get(names[col].as_str());
                    self.theme = theme;
                    self.theme_index = col;
                }
            },
            MenuRow::Punctuation => {
                self.config.punctuation = col == 0;
            },
            MenuRow::Numbers => {
                self.config.numbers = col == 0;
            },
        }
    }

    /// Moves to the row above, if any, with the column on its current setting.
    pub fn menu_up(&mut self)
        ensures
            moved_up(*old(self), *final(self)),
    {
        let idx = self.menu_row.index();
        if idx > 0 {
            self.menu_row = MenuRow::from_index(idx - 1);
            self.sync_menu_col();
        }
    }

    /// Moves to the row below, if any, with the column on its current setting.
    pub fn menu_down(&mut self)
        ensures
            moved_down(*old(self), *final(self)),
    {
        let idx = self.menu_row.index();
        let rows = MenuRow::all();
        if idx + 1 < rows.len() {
            self.menu_row = MenuRow::from_index(idx + 1);
            self.sync_menu_col();
        }
    }

    /// Moves the column left, if it can, and applies it. Returns whether it moved: the
    /// settings are then to be saved.
    pub fn menu_left(&mut self) -> (save: bool)
        requires
            old(self).inv(),
        ensures
            final(self).inv(),
            save == (old(self).menu_col > 0),
            moved_left(*old(self), *final(self)),
    {
        if self.menu_col > 0 {
            self.menu_col = self.menu_col - 1;
            self.apply_menu_selection();
            true
        } else {
            false
        }
    }

    /// Moves the column right, if the row has another column, and applies it. Returns
    /// whether it moved: the settings are then to be saved.
    pub fn menu_right(&mut self) -> (save: bool)
        requires
            old(self).inv(),
        ensures
            final(self).inv(),
            save == (old(self).menu_col + 1 < old(self).row_len()),
            moved_right(*old(self), *final(self)),
    {
        let max = self.menu_row_len();
        if max > 0 && self.menu_col < max - 1 {
            self.menu_col = self.menu_col + 1;
            self.apply_menu_selection();
            true
        } else {
            false
        }
    }

    /// Starts a new test for the current settings and shows it.
    pub fn start_test(&mut self)
        requires
            old(self).inv(),
        ensures
            final(self).inv(),
            test_started(*old(self), *final(self)),
    {
        let config = self.config;
        if config.language.is_code() {
            let lines = get_code_snippet(config.language);
            let time_limit = match config.mode {
                TestMode::Time => Some(config.time_duration.seconds()),
                _ => None,
            };
            let ghost ls = lines@;
            let test = TypingTest::new_code(lines, time_limit);
            proof {
                assert(is_snippet_for(config.language, string_views(ls)));
            }
            self.test = Some(test);
            self.screen = Screen::Typing;
            return;
        }
        let word_count: usize = match config.mode {
            TestMode::Time => 200,
            TestMode::Words => config.word_count.count(),
            TestMode::Quote => 0,
            TestMode::Zen => 500,
        };
        let (time_limit, word_limit): (Option<u64>, Option<usize>) = match config.mode {
            TestMode::Time => (Some(config.time_duration.seconds()), None),
            TestMode::Words => (None, Some(config.word_count.count())),
            TestMode::Quote => (None, None),
            TestMode::Zen => (None, None),
        };
        if config.mode == TestMode::Quote {
            let (source, text) = get_random_quote();
            let word_strings = split_whitespace(text.as_str());
            let ghost ws = word_strings@;
            let test = TypingTest::new(word_strings, time_limit, word_limit);
            proof {
                assert(is_quote(source@, text@) && string_views(ws) == words_from(text@, 0));
            }
            self.test = Some(test);
        } else {
            let word_strings = generate_words(config.language, word_count, config.punctuation, config.numbers);
            let ghost ws = word_strings@;
            let test = TypingTest::new(word_strings, time_limit, word_limit);
            proof {
                assert(are_generated_words(
                    config.language,
                    word_target(config),
                    config.punctuation,
                    config.numbers,
                    string_views(ws),
                ));
            }
            self.test = Some(test);
        }
        self.screen = Screen::Typing;
    }

    /// Starts a new test for the current settings.
    pub fn restart_test(&mut self)
        requires
            old(self).inv(),
        ensures
            final(self).inv(),
            test_started(*old(self), *final(self)),
    {
        self.start_test();
    }

    /// Drops the test and shows the menu.
    pub fn back_to_menu(&mut self)
        ensures
            *final(self) == (App { screen: Screen::Menu, test: None, ..*old(self) }),
    {
        self.test = None;
        self.screen = Screen::Menu;
    }

    /// The action of a key in the current state.
    pub fn action_for(&self, k: KeyPress) -> (r: Action)
        ensures
            r == spec_action(
                self.search_active,
                self.screen,
                self.menu_row,
                self.search_query@.len() == 0,
                k,
            ),
    {
        if k.ctrl && k.key == Key::Char('c') {
            return Action::Quit;
        }
        if self.search_active {
            return match k.key {
                Key::Esc => Action::CancelSearch,
                Key::Enter => Action::ConfirmSearch,
                Key::Up => Action::SearchUp,
                Key::Down => Action::SearchDown,
                Key::Backspace => if self.search_query.as_str().is_empty() {
                    Action::CancelSearch
                } else {
                    Action::SearchBackspace
                },
                Key::Char(c) => Action::SearchChar(c),
                _ => Action::Nothing,
            };
        }
        match self.screen {
            Screen::Menu => if k.key == Key::Char('q') || k.key == Key::Esc {
                Action::Leave
            } else if k.key == Key::Char('/') {
                if self.menu_row == MenuRow::Language || self.menu_row == MenuRow::Theme {
                    Action::StartSearch
                } else {
                    Action::Nothing
                }
            } else if k.key == Key::Up || k.key == Key::Char('k') {
                Action::MenuUp
            } else if k.key == Key::Down || k.key == Key::Char('j') {
                Action::MenuDown
            } else if k.key == Key::Left || k.key == Key::Char('h') {
                Action::MenuLeft
            } else if k.key == Key::Right || k.key == Key::Char('l') {
                Action::MenuRight
            } else if k.key == Key::Enter {
                Action::StartTest
            } else {
                Action::Nothing
            },
            Screen::Typing => match k.key {
                Key::Esc => Action::BackToMenu,
                Key::Tab => Action::RestartTest,
                Key::Enter => Action::EnterKey,
                Key::Backspace => if k.ctrl || k.alt {
                    Action::DeleteWord
                } else {
                    Action::Backspace
                },
                Key::Char(c) => Action::TypeChar(c),
                _ => Action::Nothing,
            },
            Screen::Results => if k.key == Key::Tab {
                Action::RestartTest
            } else if k.key == Key::Esc || k.key == Key::Char('q') {
                Action::BackToMenu
            } else {
                Action::Nothing
            },
        }
    }

    /// A character for the test; a finished test shows the results.
    fn type_key(&mut self, c: char)
        requires
            old(self).inv(),
        ensures
            final(self).inv(),
            char_typed(*old(self), *final(self), c),
    {
        let mut finished = false;
        match &mut self.test {
            Some(test) => {
                if test.has_room() && (test.finished || test.words.len() > 0) {
                    test.type_char(c);
                    finished = test.finished;
                } else {
                    return;
                }
            },
            None => {
                return;
            },
        }
        if finished {
            self.screen = Screen::Results;
        }
    }

    /// Enter for a code test; a finished test shows the results.
    fn enter_key(&mut self)
        requires
            old(self).inv(),
        ensures
            final(self).inv(),
            enter_pressed(*old(self), *final(self)),
    {
        let mut finished = false;
        match &mut self.test {
            Some(test) => {
                if test.code_mode && test.has_room() && (test.finished || test.code_lines.len() > 0) {
                    test.enter_key();
                    finished = test.finished;
                } else {
                    return;
                }
            },
            None => {
                return;
            },
        }
        if finished {
            self.screen = Screen::Results;
        }
    }

    /// Backspace for the test.
    fn backspace_key(&mut self)
        requires
            old(self).inv(),
        ensures
            final(self).inv(),
            char_erased(*old(self), *final(self)),
    {
        match &mut self.test {
            Some(test) => test.backspace(),
            None => {},
        }
    }

    /// Word deletion for the test.
    fn delete_word_key(&mut self)
        requires
            old(self).inv(),
        ensures
            final(self).inv(),
            word_deleted(*old(self), *final(self)),
    {
        match &mut self.test {
            Some(test) => test.delete_word(),
            None => {},
        }
    }

    /// Carries out an action; returns whether to stop and whether to save the settings.
    pub fn perform(&mut self, action: Action) -> (r: Reaction)
        requires
            old(self).inv(),
        ensures
            final(self).inv(),
            acted(*old(self), *final(self), action, r),
    {
        let mut save = false;
        match action {
            Action::Quit => {
                return Reaction { quit: true, save: false };
            },
            Action::Leave => {
                self.should_quit = true;
            },
            Action::CancelSearch => self.cancel_search(),
            Action::ConfirmSearch => {
                save = self.search_confirm();
            },
            Action::SearchUp => self.search_up(),
            Action::SearchDown => self.search_down(),
            Action::SearchBackspace => self.search_backspace(),
            Action::SearchChar(c) => self.search_type_char(c),
            Action::StartSearch => self.start_search(),
            Action::MenuUp => self.menu_up(),
            Action::MenuDown => self.menu_down(),
            Action::MenuLeft => {
                save = self.menu_left();
            },
            Action::MenuRight => {
                save = self.menu_right();
            },
            Action::StartTest => self.start_test(),
            Action::RestartTest => self.restart_test(),
            Action::BackToMenu => self.back_to_menu(),
            Action::EnterKey => self.enter_key(),
            Action::Backspace => self.backspace_key(),
            Action::DeleteWord => self.delete_word_key(),
            Action::TypeChar(c) => self.type_key(c),
            Action::Nothing => {},
        }
        Reaction { quit: self.should_quit, save }
    }

    /// Handles a key press: its action, carried out. Returns whether to stop and whether
    /// to save the settings.
    pub fn handle_input(&mut self, k: KeyPress) -> (r: Reaction)
        requires
            old(self).inv(),
        ensures
            final(self).inv(),
            acted(
                *old(self),
                *final(self),
                spec_action(
                    old(self).search_active,
                    old(self).screen,
                    old(self).menu_row,
                    old(self).search_query@.len() == 0,
                    k,
                ),
                r,
            ),
    {
        let action = self.action_for(k);
        self.perform(action)
    }

    /// Between keys while typing: the test ends when its time is up, and the results are
    /// shown once it has ended.
    pub fn tick(&mut self)
        requires
            old(self).inv(),
        ensures
            final(self).inv(),
            match old(self).test {
                Some(t) => if old(self).screen == Screen::Typing && t@.has_room() {
                    final(self).test matches Some(t2) && (exists|now: Instant, e: u64|
                        t2@ == t@.step_time_check(now, e)) && *final(self) == (App {
                        test: final(self).test,
                        screen: screen_after(old(self).screen, t2@),
                        ..*old(self)
                    })
                } else {
                    *final(self) == *old(self)
                },
                None => *final(self) == *old(self),
            },
    {
        if self.screen != Screen::Typing {
            return;
        }
        let mut finished = false;
        match &mut self.test {
            Some(test) => {
                if test.has_room() {
                    test.check_time_limit();
                    finished = test.finished;
                } else {
                    return;
                }
            },
            None => {
                return;
            },
        }
        if finished {
            self.screen = Screen::Results;
        }
    }

    /// How long to wait for a key, in milliseconds: shorter while typing, so that the
    /// timer stays fresh.
    pub fn poll_millis(&self) -> (r: u64)
        ensures
            r == (if self.screen == Screen::Typing {
                50u64
            } else {
                100u64
            }),
    {
        if self.screen == Screen::Typing {
            50
        } else {
            100
        }
    }

    /// Moves the selection one result up, stopping at the first.
    pub fn search_up(&mut self)
        ensures
            selection_moved_up(*old(self), *final(self)),
    {
        if self.search_selected > 0 {
            self.search_selected = self.search_selected - 1;
        }
    }

    /// Moves the selection one result down, stopping at the last.
    pub fn search_down(&mut self)
        ensures
            selection_moved_down(*old(self), *final(self)),
    {
        if self.search_results.len() > 0 && self.search_selected < self.search_results.len() - 1 {
            self.search_selected = self.search_selected + 1;
        }
    }
}

/// Typing a character into the search and erasing it gives back the query, the search row
/// and the results of the query.
pub proof fn law_search_erase_undoes_type(a: App, b: App, d: App, c: char)
    requires
        search_char_typed(a, b, c),
        search_char_erased(b, d),
    ensures
        d.search_query@ == a.search_query@,
        d.search_row == a.search_row,
        string_views(d.search_results@) == results_for(
            a.search_row,
            a.search_query@,
            a.theme_catalog.spec_names(),
        ),
        d.search_selected == 0,
{
    assert(a.search_query@.push(c).drop_last() =~= a.search_query@);
}

/// Opening a search and closing it leaves the settings, the screen, the test and the menu
/// as they were.
pub proof fn law_cancel_after_start(a: App, b: App, d: App)
    requires
        search_started(a, b),
        search_cancelled(b, d),
    ensures
        !d.search_active,
        d.config == a.config,
        d.screen == a.screen,
        d.test == a.test,
        d.theme == a.theme,
        d.menu_row == a.menu_row,
        d.menu_col == a.menu_col,
        d.language_index == a.language_index,
        d.theme_index == a.theme_index,
{
}

/// Moving up a row and then back down comes back to the row.
pub proof fn law_menu_up_down(a: App, b: App, d: App)
    requires
        a.menu_row.spec_index() > 0,
        moved_up(a, b),
        moved_down(b, d),
    ensures
        d.menu_row == a.menu_row,
{
}

/// Two sequences that differ at a position differ.
proof fn lemma_differ_at(a: Seq<char>, b: Seq<char>, k: int)
    requires
        0 <= k < a.len(),
        k < b.len(),
        a[k] != b[k],
    ensures
        a != b,
{
}

/// No two languages share a label.
#[verifier::rlimit(50)]
pub proof fn lemma_language_labels_distinct()
    ensures
        language_labels().no_duplicates(),
{
    reveal_strlit("english");
    reveal_strlit("english 1k");
    reveal_strlit("english 5k");
    reveal_strlit("english 10k");
    reveal_strlit("spanish");
    reveal_strlit("french");
    reveal_strlit("german");
    reveal_strlit("portuguese");
    reveal_strlit("italian");
    reveal_strlit("dutch");
    reveal_strlit("swedish");
    reveal_strlit("code rust");
    reveal_strlit("code python");
    reveal_strlit("code javascript");
    reveal_strlit("code typescript");
    reveal_strlit("code go");
    reveal_strlit("code c");
    reveal_strlit("code c++");
    reveal_strlit("code java");
    let ls = language_labels();
    assert(ls =~= seq![
        "english"@,
        "english 1k"@,
        "english 5k"@,
        "english 10k"@,
        "spanish"@,
        "french"@,
        "german"@,
        "portuguese"@,
        "italian"@,
        "dutch"@,
        "swedish"@,
        "code rust"@,
        "code python"@,
        "code javascript"@,
        "code typescript"@,
        "code go"@,
        "code c"@,
        "code c++"@,
        "code java"@,
    ]);
    lemma_differ_at("french"@, "german"@, 0);
    lemma_differ_at("french"@, "code c"@, 0);
    lemma_differ_at("german"@, "code c"@, 0);
    lemma_differ_at("english"@, "spanish"@, 0);
    lemma_differ_at("english"@, "italian"@, 0);
    lemma_differ_at("english"@, "swedish"@, 0);
    lemma_differ_at("english"@, "code go"@, 0);
    lemma_differ_at("spanish"@, "italian"@, 0);
    lemma_differ_at("spanish"@, "swedish"@, 1);
    lemma_differ_at("spanish"@, "code go"@, 0);
    lemma_differ_at("italian"@, "swedish"@, 0);
    lemma_differ_at("italian"@, "code go"@, 0);
    lemma_differ_at("swedish"@, "code go"@, 0);
    lemma_differ_at("code rust"@, "code java"@, 5);
    lemma_differ_at("portuguese"@, "english 1k"@, 0);
    lemma_differ_at("portuguese"@, "english 5k"@, 0);
    lemma_differ_at("english 1k"@, "english 5k"@, 8);
    lemma_differ_at("english 10k"@, "code python"@, 0);
    lemma_differ_at("code javascript"@, "code typescript"@, 5);
    assert forall|i: int, j: int| 0 <= i < ls.len() && 0 <= j < ls.len() && i != j implies ls[i]
        != ls[j] by {
        if ls[i] == ls[j] {
            assert(ls[i].len() == ls[j].len());
        }
    }
}

/// The language read back from a language's label is that language.
pub proof fn law_language_label_round_trip(l: Language)
    ensures
        language_labels().contains(l.spec_label()),
        position_or_zero(language_labels(), l.spec_label()) == l.spec_index(),
        Language::spec_all()[position_or_zero(language_labels(), l.spec_label())] == l,
{
    lemma_language_labels_distinct();
    crate::config::law_language_position(l);
    let ls = language_labels();
    let i = l.spec_index() as int;
    assert(ls[i] == l.spec_label());
    assert(is_first_at(ls, l.spec_label(), i));
    lemma_first_at(ls, l.spec_label(), i);
}

/// The settings saved from a program, read back by `App::new` with the same catalog, give
/// the same mode, duration, word count, language and switches, and the same theme when the
/// catalog has it.
pub proof fn law_settings_round_trip(a: App, p: PersistentConfig)
    requires
        saved_settings(a, p),
        a.theme_catalog.spec_names().contains(a.theme.name@),
    ensures
        saved_language(p.language) == a.config.language,
        (match p.punctuation {
            Some(x) => x,
            None => false,
        }) == a.config.punctuation,
        (match p.numbers {
            Some(x) => x,
            None => false,
        }) == a.config.numbers,
        chosen_theme(p.theme, a.theme_catalog.spec_names()) == a.theme.name@,
        saved_mode(p.mode) == a.config.mode,
        saved_duration(p.time_duration) == a.config.time_duration,
        saved_count(p.word_count) == a.config.word_count,
{
    law_language_label_round_trip(a.config.language);
    reveal_strlit("time");
    reveal_strlit("words");
    reveal_strlit("quote");
    reveal_strlit("zen");
    lemma_differ_at("words"@, "quote"@, 0);
    let m = p.mode->0@;
    match a.config.mode {
        TestMode::Time => {},
        TestMode::Words => {
            assert(m.len() != "time"@.len());
        },
        TestMode::Quote => {
            assert(m.len() != "time"@.len());
            assert(m != "words"@);
        },
        TestMode::Zen => {
            assert(m.len() != "time"@.len());
            assert(m.len() != "words"@.len());
            assert(m.len() != "quote"@.len());
        },
    }
}

/// Picking a column of the current row and reading the column back from the settings
/// gives the same column: applying a selection and syncing the column are inverse.
pub proof fn law_apply_then_sync(a: App, b: App)
    requires
        a.menu_col < a.row_len(),
        a.selection_applied(b),
        b.menu_col == a.menu_col,
    ensures
        b.synced_col() == a.menu_col,
{
    crate::config::law_setting_positions(b.config.mode, b.config.time_duration, b.config.word_count);
    let col = a.menu_col;
    match a.menu_row {
        MenuRow::Mode => {
            assert(b.config.mode == TestMode::spec_all()[col as int]);
            assert(TestMode::spec_all()[col as int].spec_index() == col);
        },
        MenuRow::SubMode => {
            match a.config.mode {
                TestMode::Time => {
                    assert(TimeDuration::spec_all()[col as int].spec_index() == col);
                },
                TestMode::Words => {
                    assert(WordCount::spec_all()[col as int].spec_index() == col);
                },
                _ => {},
            }
        },
        _ => {},
    }
}

/// A test started in time mode runs for the seconds its duration's label shows, and one in
/// word-count mode stops after the number of words its label shows; other modes have no
/// time limit.
pub proof fn law_started_test_limits(a: App, b: App)
    requires
        test_started(a, b),
    ensures
        b.test matches Some(t) && {
            &&& a.config.mode == TestMode::Time ==> (t@.time_limit matches Some(s) && decimal(s as nat)
                == a.config.time_duration.spec_label())
            &&& a.config.mode != TestMode::Time ==> t@.time_limit is None
            &&& (a.config.mode == TestMode::Words && !a.config.language.spec_is_code()) ==> (
            t@.word_limit matches Some(n) && decimal(n as nat) == a.config.word_count.spec_label())
        },
{
    law_seconds_match_label(a.config.time_duration);
    law_count_matches_label(a.config.word_count);
}

/// Saved seconds are read back as the duration whose label shows them, and a saved word
/// count as the count whose label shows it.
pub proof fn law_saved_settings_by_label(d: TimeDuration, w: WordCount, n: u64, m: usize)
    ensures
        decimal(n as nat) == d.spec_label() ==> saved_duration(Some(n)) == d,
        decimal(m as nat) == w.spec_label() ==> saved_count(Some(m)) == w,
{
    law_seconds_match_label(d);
    law_count_matches_label(w);
    lemma_decimal_injective(n as nat, d.spec_seconds() as nat);
    lemma_decimal_injective(m as nat, w.spec_count() as nat);
}

/// Different numbers have different decimal forms.
proof fn lemma_decimal_injective(x: nat, y: nat)
    ensures
        decimal(x) == decimal(y) ==> x == y,
    decreases x,
{
    if decimal(x) == decimal(y) {
        if x >= 10 && y >= 10 {
            assert(decimal(x).drop_last() == decimal(x / 10));
            assert(decimal(y).drop_last() == decimal(y / 10));
            lemma_decimal_injective(x / 10, y / 10);
            assert(decimal(x).last() == decimal(y).last());
        } else if x >= 10 {
            lemma_decimal_len(x / 10);
            assert(decimal(x).len() >= 2);
        } else if y >= 10 {
            lemma_decimal_len(y / 10);
            assert(decimal(y).len() >= 2);
        } else {
            assert(decimal(x)[0] == decimal(y)[0]);
        }
    }
}

/// A decimal form has at least one digit.
proof fn lemma_decimal_len(x: nat)
    ensures
        decimal(x).len() >= 1,
    decreases x,
{
    if x >= 10 {
        lemma_decimal_len(x / 10);
    }
}

} // verus!
