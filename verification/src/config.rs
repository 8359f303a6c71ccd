use vstd::prelude::*;
use crate::words::decimal;

verus! {

/// How a test ends: after a time, after a number of words, after a quote, or never.
#[derive(Debug, Clone, Copy, PartialEq, Eq, Structural)]
pub enum TestMode {
    Time,
    Words,
    Quote,
    Zen,
}

impl TestMode {
    /// The name shown in the menu.
    pub open spec fn spec_label(self) -> Seq<char> {
        match self {
            TestMode::Time => "time"@,
            TestMode::Words => "words"@,
            TestMode::Quote => "quote"@,
            TestMode::Zen => "zen"@,
        }
    }

    /// The name shown in the menu.
    pub fn label(&self) -> (r: &'static str)
        ensures
            r@ == self.spec_label(),
    {
        match self {
            TestMode::Time => "time",
            TestMode::Words => "words",
            TestMode::Quote => "quote",
            TestMode::Zen => "zen",
        }
    }

    /// Every variant, in menu order.
    pub open spec fn spec_all() -> Seq<TestMode> {
        seq![TestMode::Time, TestMode::Words, TestMode::Quote, TestMode::Zen]
    }

    /// The position of the mode in [`TestMode::all`].
    pub open spec fn spec_index(self) -> usize {
        match self {
            TestMode::Time => 0,
            TestMode::Words => 1,
            TestMode::Quote => 2,
            TestMode::Zen => 3,
        }
    }

    /// Every mode, in menu order.
    pub fn all() -> (r: &'static [TestMode])
        ensures
            r@ == Self::spec_all(),
    {
        &[TestMode::Time, TestMode::Words, TestMode::Quote, TestMode::Zen]
    }
}

/// The length of a timed test.
#[derive(Debug, Clone, Copy, PartialEq, Eq, Structural)]
pub enum TimeDuration {
    Fifteen,
    Thirty,
    Sixty,
    OneHundredTwenty,
}

impl TimeDuration {
    /// The length in seconds.
    pub open spec fn spec_seconds(self) -> u64 {
        match self {
            TimeDuration::Fifteen => 15,
            TimeDuration::Thirty => 30,
            TimeDuration::Sixty => 60,
            TimeDuration::OneHundredTwenty => 120,
        }
    }

    /// The length in seconds.
    pub fn seconds(&self) -> (r: u64)
        ensures
            r == self.spec_seconds(),
    {
        match self {
            TimeDuration::Fifteen => 15,
            TimeDuration::Thirty => 30,
            TimeDuration::Sixty => 60,
            TimeDuration::OneHundredTwenty => 120,
        }
    }

    /// The name shown in the menu.
    pub open spec fn spec_label(self) -> Seq<char> {
        match self {
            TimeDuration::Fifteen => "15"@,
            TimeDuration::Thirty => "30"@,
            TimeDuration::Sixty => "60"@,
            TimeDuration::OneHundredTwenty => "120"@,
        }
    }

    /// The name shown in the menu: the number of seconds in decimal.
    pub fn label(&self) -> (r: &'static str)
        ensures
            r@ == self.spec_label(),
    {
        match self {
            TimeDuration::Fifteen => "15",
            TimeDuration::Thirty => "30",
            TimeDuration::Sixty => "60",
            TimeDuration::OneHundredTwenty => "120",
        }
    }

    /// Every variant, in menu order.
    pub open spec fn spec_all() -> Seq<TimeDuration> {
        seq![
            TimeDuration::Fifteen,
            TimeDuration::Thirty,
            TimeDuration::Sixty,
            TimeDuration::OneHundredTwenty,
        ]
    }

    /// The position of the duration in [`TimeDuration::all`].
    pub open spec fn spec_index(self) -> usize {
        match self {
            TimeDuration::Fifteen => 0,
            TimeDuration::Thirty => 1,
            TimeDuration::Sixty => 2,
            TimeDuration::OneHundredTwenty => 3,
        }
    }

    /// Every duration, shortest first.
    pub fn all() -> (r: &'static [TimeDuration])
        ensures
            r@ == Self::spec_all(),
    {
        &[
            TimeDuration::Fifteen,
            TimeDuration::Thirty,
            TimeDuration::Sixty,
            TimeDuration::OneHundredTwenty,
        ]
    }
}

/// The number of words in a word-count test.
#[derive(Debug, Clone, Copy, PartialEq, Eq, Structural)]
pub enum WordCount {
    Ten,
    TwentyFive,
    Fifty,
    Hundred,
}

impl WordCount {
    /// The number of words.
    pub open spec fn spec_count(self) -> usize {
        match self {
            WordCount::Ten => 10,
            WordCount::TwentyFive => 25,
            WordCount::Fifty => 50,
            WordCount::Hundred => 100,
        }
    }

    /// The number of words.
    pub fn count(&self) -> (r: usize)
        ensures
            r == self.spec_count(),
    {
        match self {
            WordCount::Ten => 10,
            WordCount::TwentyFive => 25,
            WordCount::Fifty => 50,
            WordCount::Hundred => 100,
        }
    }

    /// The name shown in the menu.
    pub open spec fn spec_label(self) -> Seq<char> {
        match self {
            WordCount::Ten => "10"@,
            WordCount::TwentyFive => "25"@,
            WordCount::Fifty => "50"@,
            WordCount::Hundred => "100"@,
        }
    }

    /// The name shown in the menu: the number of words in decimal.
    pub fn label(&self) -> (r: &'static str)
        ensures
            r@ == self.spec_label(),
    {
        match self {
            WordCount::Ten => "10",
            WordCount::TwentyFive => "25",
            WordCount::Fifty => "50",
            WordCount::Hundred => "100",
        }
    }

    /// Every variant, in menu order.
    pub open spec fn spec_all() -> Seq<WordCount> {
        seq![WordCount::Ten, WordCount::TwentyFive, WordCount::Fifty, WordCount::Hundred]
    }

    /// The position of the word count in [`WordCount::all`].
    pub open spec fn spec_index(self) -> usize {
        match self {
            WordCount::Ten => 0,
            WordCount::TwentyFive => 1,
            WordCount::Fifty => 2,
            WordCount::Hundred => 3,
        }
    }

    /// Every word count, smallest first.
    pub fn all() -> (r: &'static [WordCount])
        ensures
            r@ == Self::spec_all(),
    {
        &[WordCount::Ten, WordCount::TwentyFive, WordCount::Fifty, WordCount::Hundred]
    }
}

/// A word list (natural language) or a set of code snippets (code language).
#[derive(Debug, Clone, Copy, PartialEq, Eq, Structural)]
pub enum Language {
    English,
    English1k,
    English5k,
    English10k,
    Spanish,
    French,
    German,
    Portuguese,
    Italian,
    Dutch,
    Swedish,
    CodeRust,
    CodePython,
    CodeJavascript,
    CodeTypescript,
    CodeGo,
    CodeC,
    CodeCpp,
    CodeJava,
}

impl Language {
    /// The name shown in the menu.
    pub open spec fn spec_label(self) -> Seq<char> {
        match self {
            Language::English => "english"@,
            Language::English1k => "english 1k"@,
            Language::English5k => "english 5k"@,
            Language::English10k => "english 10k"@,
            Language::Spanish => "spanish"@,
            Language::French => "french"@,
            Language::German => "german"@,
            Language::Portuguese => "portuguese"@,
            Language::Italian => "italian"@,
            Language::Dutch => "dutch"@,
            Language::Swedish => "swedish"@,
            Language::CodeRust => "code rust"@,
            Language::CodePython => "code python"@,
            Language::CodeJavascript => "code javascript"@,
            Language::CodeTypescript => "code typescript"@,
            Language::CodeGo => "code go"@,
            Language::CodeC => "code c"@,
            Language::CodeCpp => "code c++"@,
            Language::CodeJava => "code java"@,
        }
    }

    /// The name shown in the menu.
    pub fn label(&self) -> (r: &'static str)
        ensures
            r@ == self.spec_label(),
    {
        match self {
            Language::English => "english",
            Language::English1k => "english 1k",
            Language::English5k => "english 5k",
            Language::English10k => "english 10k",
            Language::Spanish => "spanish",
            Language::French => "french",
            Language::German => "german",
            Language::Portuguese => "portuguese",
            Language::Italian => "italian",
            Language::Dutch => "dutch",
            Language::Swedish => "swedish",
            Language::CodeRust => "code rust",
            Language::CodePython => "code python",
            Language::CodeJavascript => "code javascript",
            Language::CodeTypescript => "code typescript",
            Language::CodeGo => "code go",
            Language::CodeC => "code c",
            Language::CodeCpp => "code c++",
            Language::CodeJava => "code java",
        }
    }

    /// The languages whose tests are made of words.
    pub open spec fn spec_natural_languages() -> Seq<Language> {
        seq![
            Language::English,
            Language::English1k,
            Language::English5k,
            Language::English10k,
            Language::Spanish,
            Language::French,
            Language::German,
            Language::Portuguese,
            Language::Italian,
            Language::Dutch,
            Language::Swedish,
        ]
    }

    /// The languages whose tests are made of words.
    pub fn natural_languages() -> (r: &'static [Language])
        ensures
            r@ == Self::spec_natural_languages(),
    {
        &[
            Language::English,
            Language::English1k,
            Language::English5k,
            Language::English10k,
            Language::Spanish,
            Language::French,
            Language::German,
            Language::Portuguese,
            Language::Italian,
            Language::Dutch,
            Language::Swedish,
        ]
    }

    /// The languages whose tests are code snippets.
    pub open spec fn spec_code_languages() -> Seq<Language> {
        seq![
            Language::CodeRust,
            Language::CodePython,
            Language::CodeJavascript,
            Language::CodeTypescript,
            Language::CodeGo,
            Language::CodeC,
            Language::CodeCpp,
            Language::CodeJava,
        ]
    }

    /// The languages whose tests are code snippets.
    pub fn code_languages() -> (r: &'static [Language])
        ensures
            r@ == Self::spec_code_languages(),
    {
        &[
            Language::CodeRust,
            Language::CodePython,
            Language::CodeJavascript,
            Language::CodeTypescript,
            Language::CodeGo,
            Language::CodeC,
            Language::CodeCpp,
            Language::CodeJava,
        ]
    }

    /// Every language: the natural ones, then the code ones.
    pub open spec fn spec_all() -> Seq<Language> {
        Self::spec_natural_languages() + Self::spec_code_languages()
    }

    /// Every language: the natural ones, then the code ones.
    pub fn all() -> (r: Vec<Language>)
        ensures
            r@ == Self::spec_all(),
    {
        let mut all: Vec<Language> = Vec::new();
        let natural = Self::natural_languages();
        let code = Self::code_languages();
        let mut i: usize = 0;
        while i < natural.len()
            invariant
                natural@ == Self::spec_natural_languages(),
                i <= natural@.len(),
                all@ == natural@.take(i as int),
            decreases natural@.len() - i,
        {
            all.push(natural[i]);
            i = i + 1;
            assert(all@ == natural@.take(i as int));
        }
        assert(natural@.take(natural@.len() as int) == natural@);
        let mut j: usize = 0;
        while j < code.len()
            invariant
                natural@ == Self::spec_natural_languages(),
                code@ == Self::spec_code_languages(),
                j <= code@.len(),
                all@ == natural@ + code@.take(j as int),
            decreases code@.len() - j,
        {
            all.push(code[j]);
            j = j + 1;
            assert(all@ == natural@ + code@.take(j as int));
        }
        assert(code@.take(code@.len() as int) == code@);
        all
    }

    /// The position of the language in [`Language::all`].
    pub open spec fn spec_index(self) -> usize {
        match self {
            Language::English => 0,
            Language::English1k => 1,
            Language::English5k => 2,
            Language::English10k => 3,
            Language::Spanish => 4,
            Language::French => 5,
            Language::German => 6,
            Language::Portuguese => 7,
            Language::Italian => 8,
            Language::Dutch => 9,
            Language::Swedish => 10,
            Language::CodeRust => 11,
            Language::CodePython => 12,
            Language::CodeJavascript => 13,
            Language::CodeTypescript => 14,
            Language::CodeGo => 15,
            Language::CodeC => 16,
            Language::CodeCpp => 17,
            Language::CodeJava => 18,
        }
    }

    /// The position of the language in [`Language::all`].
    pub fn index(&self) -> (r: usize)
        ensures
            r == self.spec_index(),
    {
        match self {
            Language::English => 0,
            Language::English1k => 1,
            Language::English5k => 2,
            Language::English10k => 3,
            Language::Spanish => 4,
            Language::French => 5,
            Language::German => 6,
            Language::Portuguese => 7,
            Language::Italian => 8,
            Language::Dutch => 9,
            Language::Swedish => 10,
            Language::CodeRust => 11,
            Language::CodePython => 12,
            Language::CodeJavascript => 13,
            Language::CodeTypescript => 14,
            Language::CodeGo => 15,
            Language::CodeC => 16,
            Language::CodeCpp => 17,
            Language::CodeJava => 18,
        }
    }

    /// A test in this language types code snippets.
    pub open spec fn spec_is_code(self) -> bool {
        Self::spec_code_languages().contains(self)
    }

    /// Whether a test in this language types code snippets rather than words.
    pub fn is_code(&self) -> (r: bool)
        ensures
            r == self.spec_is_code(),
    {
        let code = Self::code_languages();
        let mut i: usize = 0;
        while i < code.len()
            invariant
                code@ == Self::spec_code_languages(),
                i <= code@.len(),
                forall|k: int| 0 <= k < i ==> code@[k] != *self,
            decreases code@.len() - i,
        {
            if code[i] == *self {
                return true;
            }
            i = i + 1;
        }
        false
    }
}

/// Each mode, duration and word count stands in its list at its position, and each list
/// holds every variant once.
pub proof fn law_setting_positions(m: TestMode, d: TimeDuration, w: WordCount)
    ensures
        m.spec_index() < TestMode::spec_all().len(),
        TestMode::spec_all()[m.spec_index() as int] == m,
        d.spec_index() < TimeDuration::spec_all().len(),
        TimeDuration::spec_all()[d.spec_index() as int] == d,
        w.spec_index() < WordCount::spec_all().len(),
        WordCount::spec_all()[w.spec_index() as int] == w,
        TestMode::spec_all().no_duplicates(),
        TimeDuration::spec_all().no_duplicates(),
        WordCount::spec_all().no_duplicates(),
{
}

/// The seconds of each duration are the number its menu label shows, and the durations
/// in menu order grow.
pub proof fn law_seconds_match_label(d: TimeDuration)
    ensures
        decimal(d.spec_seconds() as nat) == d.spec_label(),
        forall|i: int, j: int|
            0 <= i < j < TimeDuration::spec_all().len() ==> (#[trigger] TimeDuration::spec_all()[i]).spec_seconds()
                < (#[trigger] TimeDuration::spec_all()[j]).spec_seconds(),
{
    reveal_strlit("15");
    reveal_strlit("30");
    reveal_strlit("60");
    reveal_strlit("120");
    reveal_with_fuel(decimal, 3);
    match d {
        TimeDuration::Fifteen => assert(decimal(15) =~= "15"@),
        TimeDuration::Thirty => assert(decimal(30) =~= "30"@),
        TimeDuration::Sixty => assert(decimal(60) =~= "60"@),
        TimeDuration::OneHundredTwenty => assert(decimal(120) =~= "120"@),
    }
}

/// The number of words of each word count is the number its menu label shows, and the
/// counts in menu order grow.
pub proof fn law_count_matches_label(w: WordCount)
    ensures
        decimal(w.spec_count() as nat) == w.spec_label(),
        forall|i: int, j: int|
            0 <= i < j < WordCount::spec_all().len() ==> (#[trigger] WordCount::spec_all()[i]).spec_count()
                < (#[trigger] WordCount::spec_all()[j]).spec_count(),
{
    reveal_strlit("10");
    reveal_strlit("25");
    reveal_strlit("50");
    reveal_strlit("100");
    reveal_with_fuel(decimal, 3);
    match w {
        WordCount::Ten => assert(decimal(10) =~= "10"@),
        WordCount::TwentyFive => assert(decimal(25) =~= "25"@),
        WordCount::Fifty => assert(decimal(50) =~= "50"@),
        WordCount::Hundred => assert(decimal(100) =~= "100"@),
    }
}

/// Each language stands in the list of all languages at its position.
pub proof fn law_language_position(l: Language)
    ensures
        l.spec_index() < Language::spec_all().len(),
        Language::spec_all()[l.spec_index() as int] == l,
{
}

/// The settings of the next test.
#[derive(Debug, Clone, Copy, PartialEq, Eq, Structural)]
pub struct TestConfig {
    pub mode: TestMode,
    pub time_duration: TimeDuration,
    pub word_count: WordCount,
    pub language: Language,
    pub punctuation: bool,
    pub numbers: bool,
}

impl TestConfig {
    /// A thirty-second English test, without punctuation or numbers.
    pub open spec fn spec_default() -> TestConfig {
        TestConfig {
            mode: TestMode::Time,
            time_duration: TimeDuration::Thirty,
            word_count: WordCount::TwentyFive,
            language: Language::English,
            punctuation: false,
            numbers: false,
        }
    }
}

impl Default for TestConfig {
    /// A thirty-second English test, without punctuation or numbers.
    fn default() -> (r: Self)
        ensures
            r == Self::spec_default(),
    {
        TestConfig {
            mode: TestMode::Time,
            time_duration: TimeDuration::Thirty,
            word_count: WordCount::TwentyFive,
            language: Language::English,
            punctuation: false,
            numbers: false,
        }
    }
}

} // verus!
