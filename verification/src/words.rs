use vstd::prelude::*;
use rand::rngs::ThreadRng;
use rand::seq::SliceRandom;
use rand::Rng;
use crate::config::Language;
use crate::data::{
    CODE_C, CODE_CPP, CODE_GO, CODE_JAVA, CODE_JAVASCRIPT, CODE_PYTHON, CODE_RUST, CODE_TYPESCRIPT,
    DUTCH, ENGLISH, ENGLISH_10K, ENGLISH_1K, ENGLISH_5K, FRENCH, GERMAN, ITALIAN, PORTUGUESE,
    QUOTES, SPANISH, SWEDISH,
};
use vstd::string::{StrSliceExecFns, StringExecFns};
use crate::text::{copy_range, occurs_at, occurs_at_exec, is_unicode_whitespace, is_whitespace, char_alphanumeric, is_alphanumeric, same_text, str_lower, to_lowercase, str_upper, chars_of, lines_of, str_lines, string_from_chars, to_uppercase};

verus! {

/// The lines of `ls` that are not empty, in order.
pub open spec fn keep_nonempty(ls: Seq<Seq<char>>) -> Seq<Seq<char>>
    decreases ls.len(),
{
    if ls.len() == 0 {
        ls
    } else if ls.last().len() > 0 {
        keep_nonempty(ls.drop_last()).push(ls.last())
    } else {
        keep_nonempty(ls.drop_last())
    }
}

/// The word data of a natural language; nothing for a code language.
pub open spec fn spec_word_data(language: Language) -> Seq<char> {
    match language {
        Language::English => ENGLISH@,
        Language::English1k => ENGLISH_1K@,
        Language::English5k => ENGLISH_5K@,
        Language::English10k => ENGLISH_10K@,
        Language::Spanish => SPANISH@,
        Language::French => FRENCH@,
        Language::German => GERMAN@,
        Language::Portuguese => PORTUGUESE@,
        Language::Italian => ITALIAN@,
        Language::Dutch => DUTCH@,
        Language::Swedish => SWEDISH@,
        _ => ""@,
    }
}

/// The word list of a language: the non-empty lines of its data, none for a code language.
pub open spec fn spec_word_list(language: Language) -> Seq<Seq<char>> {
    keep_nonempty(str_lines(spec_word_data(language)))
}

/// The word data of a natural language; nothing for a code language.
fn word_data(language: Language) -> (r: &'static str)
    ensures
        r@ == spec_word_data(language),
{
    match language {
        Language::English => ENGLISH,
        Language::English1k => ENGLISH_1K,
        Language::English5k => ENGLISH_5K,
        Language::English10k => ENGLISH_10K,
        Language::Spanish => SPANISH,
        Language::French => FRENCH,
        Language::German => GERMAN,
        Language::Portuguese => PORTUGUESE,
        Language::Italian => ITALIAN,
        Language::Dutch => DUTCH,
        Language::Swedish => SWEDISH,
        // Code languages return empty here; use get_code_snippet instead
        _ => "",
    }
}

/// The strings of `v` that are not empty, in order.
pub fn drop_empty(v: Vec<String>) -> (r: Vec<String>)
    ensures
        r@.map_values(|x: String| x@) == keep_nonempty(v@.map_values(|x: String| x@)),
{
    let ghost vs = v@.map_values(|x: String| x@);
    let mut out: Vec<String> = Vec::new();
    let mut i: usize = 0;
    while i < v.len()
        invariant
            vs == v@.map_values(|x: String| x@),
            i <= v@.len(),
            out@.map_values(|x: String| x@) == keep_nonempty(vs.take(i as int)),
        decreases v@.len() - i,
    {
        proof {
            assert(vs.take(i + 1).drop_last() =~= vs.take(i as int));
            assert(vs.take(i + 1).last() == v@[i as int]@);
        }
        if !v[i].as_str().is_empty() {
            let s = v[i].clone();
            let ghost before = out@.map_values(|x: String| x@);
            out.push(s);
            proof {
                assert(out@.map_values(|x: String| x@) =~= before.push(v@[i as int]@));
            }
        }
        i = i + 1;
    }
    proof {
        assert(vs.take(i as int) =~= vs);
    }
    out
}

/// The word list of a language.
pub fn get_word_list(language: Language) -> (r: Vec<String>)
    ensures
        r@.map_values(|x: String| x@) == spec_word_list(language),
{
    let raw = word_data(language);
    drop_empty(lines_of(raw))
}

#[verifier::external_type_specification]
#[verifier::external_body]
pub struct ExThreadRng(ThreadRng);

/// Calls `rand::thread_rng`: the thread's random number generator. Nothing is claimed of it.
#[verifier::external_body]
fn new_rng() -> (r: ThreadRng) {
    rand::thread_rng()
}

/// Calls `Rng::gen_ratio`: true with probability `numerator / denominator`. As its
/// documentation states, it is always false for a zero numerator and always true when the
/// numerator equals the denominator; it panics for a zero denominator or a numerator above
/// it, which the precondition rules out. Nothing else is claimed: the value is random.
#[verifier::external_body]
fn gen_ratio(rng: &mut ThreadRng, numerator: u32, denominator: u32) -> (r: bool)
    requires
        0 < denominator,
        numerator <= denominator,
    ensures
        numerator == 0 ==> !r,
        numerator == denominator ==> r,
{
    rng.gen_ratio(numerator, denominator)
}

/// Calls `Rng::gen_range` on `low..high`: a random value of that range (it panics on an
/// empty range, which the precondition rules out).
#[verifier::external_body]
fn gen_range_u32(rng: &mut ThreadRng, low: u32, high: u32) -> (r: u32)
    requires
        low < high,
    ensures
        low <= r < high,
{
    rng.gen_range(low..high)
}

/// Calls `Rng::gen::<u64>`: 64 random bits. Nothing is claimed of them.
#[verifier::external_body]
fn gen_u64(rng: &mut ThreadRng) -> (r: u64) {
    rng.gen()
}

/// Calls `SliceRandom::choose`: one element of the slice, picked at random, or nothing when
/// the slice is empty.
#[verifier::external_body]
fn pick_from<'a, T>(rng: &mut ThreadRng, items: &'a [T]) -> (r: Option<&'a T>)
    ensures
        items@.len() == 0 <==> r is None,
        r matches Some(x) ==> items@.contains(*x),
{
    items.choose(rng)
}

/// The decimal digit for `d`.
pub open spec fn digit_char(d: nat) -> char {
    (48 + d) as char
}

/// The decimal representation of `n`, without leading zeros.
pub open spec fn decimal(n: nat) -> Seq<char>
    decreases n,
{
    if n < 10 {
        seq![digit_char(n)]
    } else {
        decimal(n / 10).push(digit_char(n % 10))
    }
}

/// Appends the decimal digits of `n`.
fn push_decimal(n: u32, out: &mut Vec<char>)
    ensures
        final(out)@ == old(out)@ + decimal(n as nat),
    decreases n,
{
    if n >= 10 {
        push_decimal(n / 10, out);
    }
    let d = (n % 10) as u8;
    let c = (48u8 + d) as char;
    out.push(c);
    proof {
        if n < 10 {
            assert(final(out)@ =~= old(out)@ + decimal(n as nat));
        } else {
            assert(final(out)@ =~= old(out)@ + decimal(n as nat));
        }
    }
}

/// The decimal representation of a number, as `to_string` gives it.
pub fn u32_to_string(n: u32) -> (r: String)
    ensures
        r@ == decimal(n as nat),
{
    let mut cs: Vec<char> = Vec::new();
    push_decimal(n, &mut cs);
    proof {
        assert(cs@ =~= decimal(n as nat));
    }
    string_from_chars(cs.as_slice())
}

/// `s` with its first character in upper case.
pub open spec fn capitalized(s: Seq<char>) -> Seq<char> {
    if s.len() == 0 {
        s
    } else {
        str_upper(s.take(1)) + s.drop_first()
    }
}

/// `s` with its first character in upper case.
pub fn capitalize(s: &str) -> (r: String)
    ensures
        r@ == capitalized(s@),
{
    let cs = chars_of(s);
    if cs.len() == 0 {
        return String::new();
    }
    let first = to_uppercase(s.substring_char(0, 1));
    let rest = s.substring_char(1, cs.len());
    proof {
        assert(s@.subrange(0, 1) =~= s@.take(1));
        assert(s@.subrange(1, s@.len() as int) =~= s@.drop_first());
    }
    first.concat(rest)
}

/// The punctuation a word can get.
#[derive(Debug, Clone, Copy, PartialEq, Eq, Structural)]
pub enum Mark {
    Plain,
    Comma,
    Period,
    Question,
    Exclamation,
    Semicolon,
    Colon,
    Quoted,
}

/// The punctuation for a random roll in `[0, 1)` held as 53 bits: the roll is
/// `roll53 / 2^53`, and the bounds are the double-precision values of 0.06, 0.09, 0.11,
/// 0.12, 0.14, 0.16 and 0.18 in the same unit, rounded up.
pub open spec fn mark_of(roll53: u64) -> Mark {
    if roll53 < 540431955284460 {
        Mark::Comma
    } else if roll53 < 810647932926690 {
        Mark::Period
    } else if roll53 < 990791918021510 {
        Mark::Question
    } else if roll53 < 1080863910568919 {
        Mark::Exclamation
    } else if roll53 < 1261007895663739 {
        Mark::Semicolon
    } else if roll53 < 1441151880758559 {
        Mark::Colon
    } else if roll53 < 1621295865853379 {
        Mark::Quoted
    } else {
        Mark::Plain
    }
}

/// A word with a mark: a sign after it, or quotes around it.
pub open spec fn with_mark(s: Seq<char>, m: Mark) -> Seq<char> {
    match m {
        Mark::Plain => s,
        Mark::Comma => s + ","@,
        Mark::Period => s + "."@,
        Mark::Question => s + "?"@,
        Mark::Exclamation => s + "!"@,
        Mark::Semicolon => s + ";"@,
        Mark::Colon => s + ":"@,
        Mark::Quoted => "\""@ + s + "\""@,
    }
}

/// The mark ends a sentence, so the next word is capitalized.
pub open spec fn ends_sentence(m: Mark) -> bool {
    m == Mark::Period || m == Mark::Question || m == Mark::Exclamation
}

/// The punctuated word and whether the next word starts a sentence: the word is
/// capitalized after a sentence end, the last word gets a period, and other words get the
/// punctuation of the roll (the roll's top 53 bits).
pub open spec fn punctuated(
    word: Seq<char>,
    after_sentence_end: bool,
    index: nat,
    total: nat,
    roll: u64,
) -> (Seq<char>, bool) {
    let base = if after_sentence_end {
        capitalized(word)
    } else {
        word
    };
    if index + 1 >= total {
        (with_mark(base, Mark::Period), false)
    } else {
        let m = mark_of(roll >> 11u64);
        (with_mark(base, m), ends_sentence(m))
    }
}

/// A word with a mark.
fn add_mark(s: String, m: Mark) -> (r: String)
    ensures
        r@ == with_mark(s@, m),
{
    match m {
        Mark::Plain => s,
        Mark::Comma => s.concat(","),
        Mark::Period => s.concat("."),
        Mark::Question => s.concat("?"),
        Mark::Exclamation => s.concat("!"),
        Mark::Semicolon => s.concat(";"),
        Mark::Colon => s.concat(":"),
        Mark::Quoted => "\"".to_owned().concat(s.as_str()).concat("\""),
    }
}

/// The mark that a roll draws.
fn roll_mark(roll53: u64) -> (r: Mark)
    ensures
        r == mark_of(roll53),
{
    if roll53 < 540431955284460 {
        Mark::Comma
    } else if roll53 < 810647932926690 {
        Mark::Period
    } else if roll53 < 990791918021510 {
        Mark::Question
    } else if roll53 < 1080863910568919 {
        Mark::Exclamation
    } else if roll53 < 1261007895663739 {
        Mark::Semicolon
    } else if roll53 < 1441151880758559 {
        Mark::Colon
    } else if roll53 < 1621295865853379 {
        Mark::Quoted
    } else {
        Mark::Plain
    }
}

/// Punctuates a word with a given roll: the rule of [`apply_punctuation`] without the
/// randomness.
pub fn punctuate(word: &str, after_sentence_end: bool, index: usize, total: usize, roll: u64) -> (r: (String, bool))
    requires
        total > 0,
    ensures
        (r.0@, r.1) == punctuated(word@, after_sentence_end, index as nat, total as nat, roll),
{
    let base = if after_sentence_end {
        capitalize(word)
    } else {
        word.to_owned()
    };
    if index >= total || total - index == 1 {
        return (add_mark(base, Mark::Period), false);
    }
    let m = roll_mark(roll >> 11);
    let ends = match m {
        Mark::Period | Mark::Question | Mark::Exclamation => true,
        _ => false,
    };
    (add_mark(base, m), ends)
}

/// Punctuates a word at random: capitalized after a sentence end, a period on the last
/// word, and otherwise a comma (6%), period (3%), question mark (2%), exclamation mark (1%),
/// semicolon (2%), colon (2%) or quotes (2%), or nothing.
pub fn apply_punctuation(
    word: &str,
    after_sentence_end: &mut bool,
    index: usize,
    total: usize,
    rng: &mut ThreadRng,
) -> (r: String)
    requires
        total > 0,
    ensures
        exists|roll: u64|
            (r@, *final(after_sentence_end)) == punctuated(
                word@,
                *old(after_sentence_end),
                index as nat,
                total as nat,
                roll,
            ),
{
    let roll = if index >= total || total - index == 1 {
        0
    } else {
        gen_u64(rng)
    };
    let (result, ends) = punctuate(word, *after_sentence_end, index, total, roll);
    *after_sentence_end = ends;
    result
}

/// The alphanumeric characters of `s`, in order.
pub open spec fn keep_alphanumeric(s: Seq<char>) -> Seq<char>
    decreases s.len(),
{
    if s.len() == 0 {
        s
    } else if char_alphanumeric(s.last()) {
        keep_alphanumeric(s.drop_last()).push(s.last())
    } else {
        keep_alphanumeric(s.drop_last())
    }
}

/// The form of a word that repeats are judged by: its letters and digits, in lower case.
pub open spec fn normalized(s: Seq<char>) -> Seq<char> {
    str_lower(keep_alphanumeric(s))
}

/// A word without its punctuation, in lower case, to compare it with the words before.
pub fn normalize(word: &str) -> (r: String)
    ensures
        r@ == normalized(word@),
{
    let cs = chars_of(word);
    let mut kept: Vec<char> = Vec::new();
    let mut i: usize = 0;
    while i < cs.len()
        invariant
            cs@ == word@,
            i <= cs@.len(),
            kept@ == keep_alphanumeric(cs@.take(i as int)),
        decreases cs@.len() - i,
    {
        proof {
            assert(cs@.take(i + 1).drop_last() =~= cs@.take(i as int));
        }
        if is_alphanumeric(cs[i]) {
            kept.push(cs[i]);
        }
        i = i + 1;
    }
    proof {
        assert(cs@.take(i as int) =~= cs@);
    }
    let s = string_from_chars(kept.as_slice());
    to_lowercase(s.as_str())
}

/// A number from 0 to 9999, in decimal.
pub open spec fn is_number_word(w: Seq<char>) -> bool {
    exists|n: nat| n < 10000 && w == decimal(n)
}

/// A word of the language's list, in lower case.
pub open spec fn is_list_word(language: Language, w: Seq<char>) -> bool {
    exists|j: int| 0 <= j < spec_word_list(language).len() && w == str_lower(#[trigger] spec_word_list(language)[j])
}

/// `b`, capitalized or not.
pub open spec fn cased(b: Seq<char>, cap: bool) -> Seq<char> {
    if cap {
        capitalized(b)
    } else {
        b
    }
}

/// A drawn word may be used: it is not "i" and repeats neither of the two words before it
/// (as `normalize` gives them).
pub open spec fn acceptable(c: Seq<char>, prev1: Seq<char>, prev2: Seq<char>) -> bool {
    c != "i"@ && c != prev1 && c != prev2
}

/// The word picked from the draws: the first that may be used, else the last.
pub open spec fn picked(draws: Seq<Seq<char>>, prev1: Seq<char>, prev2: Seq<char>) -> Seq<char>
    decreases draws.len(),
{
    if draws.len() <= 1 {
        draws.last()
    } else if acceptable(draws[0], prev1, prev2) {
        draws[0]
    } else {
        picked(draws.drop_first(), prev1, prev2)
    }
}

/// Draws as `generate_words` makes them: lower-cased words of the list, drawn until one may
/// be used, at most 100 times, and one more draw when none of the 100 may be used.
pub open spec fn valid_draws(
    language: Language,
    draws: Seq<Seq<char>>,
    prev1: Seq<char>,
    prev2: Seq<char>,
) -> bool {
    &&& 1 <= draws.len() <= 101
    &&& forall|j: int| 0 <= j < draws.len() ==> is_list_word(language, #[trigger] draws[j])
    &&& forall|j: int| 0 <= j < draws.len() - 1 && j < 100 ==> !acceptable(#[trigger] draws[j], prev1, prev2)
    &&& draws.len() <= 100 ==> acceptable(draws.last(), prev1, prev2)
}

/// A word of the list picked from some draws made after the words `prev1` and `prev2`.
pub open spec fn is_drawn_word(language: Language, w: Seq<char>, prev1: Seq<char>, prev2: Seq<char>) -> bool {
    exists|draws: Seq<Seq<char>>|
        #[trigger] valid_draws(language, draws, prev1, prev2) && w == picked(draws, prev1, prev2)
}

/// Whether word `k` starts a sentence: the first word, or a word after one whose mark ends
/// a sentence.
pub open spec fn starts_sentence(marks: Seq<Option<Mark>>, k: int) -> bool {
    k == 0 || (marks[k - 1] matches Some(m) && ends_sentence(m))
}

/// What a generated word can be: a number below 10000 (when numbers are on), without a
/// mark; or a drawn word, which with punctuation on is capitalized when `cap` holds and
/// carries `mark` (a period when it is the last), and with punctuation off is the drawn word
/// itself, without a mark.
pub open spec fn is_generated_word(
    language: Language,
    w: Seq<char>,
    punctuation: bool,
    numbers: bool,
    cap: bool,
    mark: Option<Mark>,
    last: bool,
    prev1: Seq<char>,
    prev2: Seq<char>,
) -> bool {
    ||| numbers && is_number_word(w) && mark is None
    ||| exists|b: Seq<char>|
        #[trigger] is_drawn_word(language, b, prev1, prev2) && if punctuation {
            mark matches Some(m) && (last ==> m == Mark::Period) && w == with_mark(cased(b, cap), m)
        } else {
            mark is None && w == b
        }
}

/// The word before position `k` that a draw must not repeat, as `normalize` gives it; none
/// before the first word.
pub open spec fn prev_key(ws: Seq<Seq<char>>, k: int) -> Seq<char> {
    if k >= 0 {
        normalized(ws[k])
    } else {
        Seq::empty()
    }
}

/// `ws` are `count` generated words with the marks `marks`: each drawn against the two
/// words before it, capitalized exactly when it starts a sentence (the first word, or after
/// a period, question mark or exclamation mark), and the last with a period.
pub open spec fn generated_with(
    language: Language,
    count: usize,
    punctuation: bool,
    numbers: bool,
    ws: Seq<Seq<char>>,
    marks: Seq<Option<Mark>>,
) -> bool {
    &&& ws.len() == count
    &&& marks.len() == count
    &&& forall|k: int|
        0 <= k < count ==> is_generated_word(
            language,
            #[trigger] ws[k],
            punctuation,
            numbers,
            starts_sentence(marks, k),
            marks[k],
            k + 1 == count,
            prev_key(ws, k - 1),
            prev_key(ws, k - 2),
        )
}

/// What [`generate_words`] can give: with an empty word list, the one word
/// "error loading words"; otherwise `count` generated words with some marks.
pub open spec fn are_generated_words(
    language: Language,
    count: usize,
    punctuation: bool,
    numbers: bool,
    ws: Seq<Seq<char>>,
) -> bool {
    if spec_word_list(language).len() == 0 {
        ws == seq!["error loading words"@]
    } else {
        exists|marks: Seq<Option<Mark>>|
            #[trigger] generated_with(language, count, punctuation, numbers, ws, marks)
    }
}

/// The texts of a list of strings.
pub open spec fn texts(v: Seq<String>) -> Seq<Seq<char>> {
    v.map_values(|x: String| x@)
}

/// Whether a drawn word may be used after `prev1` and `prev2`.
fn is_acceptable(c: &String, prev1: &String, prev2: &String) -> (r: bool)
    ensures
        r == acceptable(c@, prev1@, prev2@),
{
    !same_text(c.as_str(), "i") && !(*c == *prev1) && !(*c == *prev2)
}

/// The word picked from the draws: the first that is not "i" and repeats neither `prev1`
/// nor `prev2`, else the last draw.
pub fn pick_word(draws: &Vec<String>, prev1: &String, prev2: &String) -> (r: String)
    requires
        draws@.len() > 0,
    ensures
        r@ == picked(draws@.map_values(|x: String| x@), prev1@, prev2@),
{
    let ghost ds = draws@.map_values(|x: String| x@);
    let mut i: usize = 0;
    proof {
        assert(ds.skip(0) =~= ds);
    }
    while i < draws.len() - 1
        invariant
            ds == draws@.map_values(|x: String| x@),
            draws@.len() > 0,
            i < draws@.len(),
            picked(ds, prev1@, prev2@) == picked(ds.skip(i as int), prev1@, prev2@),
        decreases draws@.len() - i,
    {
        if is_acceptable(&draws[i], prev1, prev2) {
            proof {
                assert(ds.skip(i as int)[0] == ds[i as int]);
            }
            return draws[i].clone();
        }
        proof {
            assert(ds.skip(i as int)[0] == ds[i as int]);
            assert(ds.skip(i as int).len() > 1);
            assert(ds.skip(i as int).drop_first() =~= ds.skip(i + 1));
        }
        i = i + 1;
    }
    proof {
        assert(ds.skip(i as int).len() == 1);
        assert(ds.skip(i as int).last() == ds[i as int]);
    }
    draws[i].clone()
}

/// Generate words for a typing test: each word is picked uniformly from the language's list
/// and lower-cased, with up to 100 tries to avoid "i" and the last two words; with numbers,
/// about one word in ten is a number below 10000; with punctuation, words are punctuated by
/// [`apply_punctuation`], so the first word and each word after a period, question mark or
/// exclamation mark are capitalized (a number word takes no mark and ends no sentence).
pub fn generate_words(language: Language, count: usize, punctuation: bool, numbers: bool) -> (r: Vec<String>)
    ensures
        are_generated_words(language, count, punctuation, numbers, r@.map_values(|x: String| x@)),
{
    let word_list = get_word_list(language);
    let ghost list = spec_word_list(language);
    if word_list.len() == 0 {
        let mut out: Vec<String> = Vec::new();
        out.push("error loading words".to_owned());
        proof {
            assert(out@.map_values(|x: String| x@) =~= seq!["error loading words"@]);
        }
        return out;
    }
    let mut rng = new_rng();
    let mut words: Vec<String> = Vec::new();
    let mut prev1 = String::new();
    let mut prev2 = String::new();
    let mut after_sentence_end = true;
    let ghost mut marks: Seq<Option<Mark>> = Seq::empty();
    let mut i: usize = 0;
    while i < count
        invariant
            word_list@.map_values(|x: String| x@) == list,
            list == spec_word_list(language),
            list.len() > 0,
            i <= count,
            words@.len() == i,
            marks.len() == i,
            punctuation && i < count ==> after_sentence_end == starts_sentence(marks, i as int),
            prev1@ == prev_key(texts(words@), i - 1),
            prev2@ == prev_key(texts(words@), i - 2),
            forall|k: int|
                0 <= k < i ==> is_generated_word(
                    language,
                    #[trigger] texts(words@)[k],
                    punctuation,
                    numbers,
                    starts_sentence(marks, k),
                    marks[k],
                    k + 1 == count,
                    prev_key(texts(words@), k - 1),
                    prev_key(texts(words@), k - 2),
                ),
        decreases count - i,
    {
        let ghost ws0 = texts(words@);
        let ghost marks0 = marks;
        let ghost mut mark: Option<Mark> = None;
        let ghost p1 = prev1@;
        let ghost p2 = prev2@;
        let word: String;
        if numbers && gen_ratio(&mut rng, 1, 10) {
            let num = gen_range_u32(&mut rng, 0, 10000);
            let num_str = u32_to_string(num);
            proof {
                assert(is_number_word(num_str@)) by {
                    assert((num as nat) < 10000 && num_str@ == decimal(num as nat));
                }
            }
            after_sentence_end = false;
            word = num_str;
        } else {
            let mut draws: Vec<String> = Vec::new();
            let mut found = false;
            while draws.len() < 100 && !found
                invariant
                    word_list@.map_values(|x: String| x@) == list,
                    list == spec_word_list(language),
                    list.len() > 0,
                    draws@.len() <= 100,
                    forall|j: int|
                        0 <= j < draws@.len() ==> is_list_word(
                            language,
                            #[trigger] texts(draws@)[j],
                        ),
                    forall|j: int|
                        0 <= j < draws@.len() - 1 ==> !acceptable(
                            #[trigger] texts(draws@)[j],
                            p1,
                            p2,
                        ),
                    found ==> draws@.len() > 0 && acceptable(draws@.last()@, p1, p2),
                    !found && draws@.len() > 0 ==> !acceptable(draws@.last()@, p1, p2),
                    prev1@ == p1,
                    prev2@ == p2,
                decreases 100 - draws@.len(),
            {
                let picked = pick_from(&mut rng, word_list.as_slice());
                let candidate = to_lowercase(picked.unwrap().as_str());
                proof {
                    let x = picked->0;
                    let j = choose|j: int| 0 <= j < word_list@.len() && word_list@[j] == *x;
                    assert(list[j] == word_list@[j]@);
                    assert(candidate@ == str_lower(list[j]));
                }
                found = is_acceptable(&candidate, &prev1, &prev2);
                let ghost before = texts(draws@);
                draws.push(candidate);
                proof {
                    assert(texts(draws@) =~= before.push(candidate@));
                }
            }
            if !found {
                let picked = pick_from(&mut rng, word_list.as_slice());
                let fallback = to_lowercase(picked.unwrap().as_str());
                proof {
                    let x = picked->0;
                    let j = choose|j: int| 0 <= j < word_list@.len() && word_list@[j] == *x;
                    assert(list[j] == word_list@[j]@);
                    assert(fallback@ == str_lower(list[j]));
                }
                let ghost before = texts(draws@);
                draws.push(fallback);
                proof {
                    assert(texts(draws@) =~= before.push(fallback@));
                }
            }
            let base = pick_word(&draws, &prev1, &prev2);
            let ghost dv = texts(draws@);
            proof {
                assert(valid_draws(language, dv, p1, p2));
                assert(is_drawn_word(language, base@, p1, p2));
            }
            if punctuation {
                let ghost cap = after_sentence_end;
                let punct = apply_punctuation(base.as_str(), &mut after_sentence_end, i, count, &mut rng);
                proof {
                    let roll = choose|roll: u64|
                        (punct@, after_sentence_end) == punctuated(base@, cap, i as nat, count as nat, roll);
                    let m = if i + 1 >= count {
                        Mark::Period
                    } else {
                        mark_of(roll >> 11u64)
                    };
                    assert(punct@ == with_mark(cased(base@, cap), m));
                    mark = Some(m);
                    assert(is_generated_word(
                        language,
                        punct@,
                        punctuation,
                        numbers,
                        cap,
                        mark,
                        i + 1 == count,
                        p1,
                        p2,
                    ));
                    assert(i + 1 < count ==> after_sentence_end == ends_sentence(m));
                }
                word = punct;
            } else {
                word = base;
            }
        }
        proof {
            assert(is_generated_word(
                language,
                word@,
                punctuation,
                numbers,
                starts_sentence(marks0, i as int),
                mark,
                i + 1 == count,
                p1,
                p2,
            ));
            marks = marks0.push(mark);
        }
        prev2 = prev1;
        prev1 = normalize(word.as_str());
        words.push(word);
        proof {
            let ws = texts(words@);
            assert(ws =~= ws0.push(word@));
            assert(starts_sentence(marks, i + 1) == (mark matches Some(m) && ends_sentence(m)));
            assert forall|k: int| 0 <= k < i + 1 implies is_generated_word(
                language,
                #[trigger] ws[k],
                punctuation,
                numbers,
                starts_sentence(marks, k),
                marks[k],
                k + 1 == count,
                prev_key(ws, k - 1),
                prev_key(ws, k - 2),
            ) by {
                assert(starts_sentence(marks, k) == starts_sentence(marks0, k));
                assert(marks[k] == if k < i { marks0[k] } else { mark });
                if k < i {
                    assert(ws[k] == ws0[k]);
                    assert(prev_key(ws, k - 1) == prev_key(ws0, k - 1));
                    assert(prev_key(ws, k - 2) == prev_key(ws0, k - 2));
                } else {
                    assert(prev_key(ws, k - 1) == p1);
                    assert(prev_key(ws, k - 2) == p2);
                }
            }
        }
        i = i + 1;
    }
    proof {
        assert(texts(words@).len() == count);
        assert(generated_with(language, count, punctuation, numbers, texts(words@), marks));
    }
    words
}

/// The snippet data of a code language; nothing for a natural language.
pub open spec fn spec_code_data(language: Language) -> Seq<char> {
    match language {
        Language::CodeRust => CODE_RUST@,
        Language::CodePython => CODE_PYTHON@,
        Language::CodeJavascript => CODE_JAVASCRIPT@,
        Language::CodeTypescript => CODE_TYPESCRIPT@,
        Language::CodeGo => CODE_GO@,
        Language::CodeC => CODE_C@,
        Language::CodeCpp => CODE_CPP@,
        Language::CodeJava => CODE_JAVA@,
        _ => ""@,
    }
}

/// The snippet data of a code language; nothing for a natural language.
fn get_code_data(language: Language) -> (r: &'static str)
    ensures
        r@ == spec_code_data(language),
{
    match language {
        Language::CodeRust => CODE_RUST,
        Language::CodePython => CODE_PYTHON,
        Language::CodeJavascript => CODE_JAVASCRIPT,
        Language::CodeTypescript => CODE_TYPESCRIPT,
        Language::CodeGo => CODE_GO,
        Language::CodeC => CODE_C,
        Language::CodeCpp => CODE_CPP,
        Language::CodeJava => CODE_JAVA,
        _ => "",
    }
}

/// The first position at or after `i` where `p` occurs in `s`, or -1.
pub open spec fn next_occurrence(s: Seq<char>, p: Seq<char>, i: int) -> int
    decreases s.len() - i,
{
    if i < 0 || i >= s.len() || i + p.len() > s.len() {
        -1
    } else if occurs_at(s, p, i) {
        i
    } else {
        next_occurrence(s, p, i + 1)
    }
}

/// The pieces of `s` from `i` between the occurrences of `p`, found from left to right
/// without overlap, as `str::split` gives them.
pub open spec fn split_from(s: Seq<char>, p: Seq<char>, i: int) -> Seq<Seq<char>>
    decreases s.len() - i,
{
    if i < 0 || i > s.len() {
        Seq::empty()
    } else {
        let k = next_occurrence(s, p, i);
        if p.len() == 0 || k < i || k + p.len() > s.len() {
            seq![s.subrange(i, s.len() as int)]
        } else {
            seq![s.subrange(i, k)] + split_from(s, p, k + p.len())
        }
    }
}

/// The next occurrence of `p` is one, with none before it.
pub proof fn lemma_next_occurrence(s: Seq<char>, p: Seq<char>, i: int)
    requires
        0 <= i,
        p.len() > 0,
    ensures
        next_occurrence(s, p, i) == -1 || (i <= next_occurrence(s, p, i) && occurs_at(
            s,
            p,
            next_occurrence(s, p, i),
        )),
        forall|k: int|
            i <= k && (next_occurrence(s, p, i) == -1 || k < next_occurrence(s, p, i)) ==> !occurs_at(
                s,
                p,
                k,
            ),
    decreases s.len() - i,
{
    if i < s.len() && i + p.len() <= s.len() && !occurs_at(s, p, i) {
        lemma_next_occurrence(s, p, i + 1);
    }
}

/// The pieces of `s` between the occurrences of a non-empty `p`.
pub fn split_on(s: &Vec<char>, p: &Vec<char>) -> (r: Vec<Vec<char>>)
    requires
        p@.len() > 0,
    ensures
        r@.map_values(|x: Vec<char>| x@) == split_from(s@, p@, 0),
{
    let mut out: Vec<Vec<char>> = Vec::new();
    let mut start: usize = 0;
    let mut i: usize = 0;
    while i < s.len() && p.len() <= s.len() - i
        invariant
            p@.len() > 0,
            start <= i <= s@.len(),
            split_from(s@, p@, 0) == out@.map_values(|x: Vec<char>| x@) + split_from(
                s@,
                p@,
                start as int,
            ),
            next_occurrence(s@, p@, start as int) == next_occurrence(s@, p@, i as int),
        decreases s@.len() - i,
    {
        if occurs_at_exec(s, p, i) {
            let piece = copy_range(s, start, i);
            let ghost before = out@.map_values(|x: Vec<char>| x@);
            let ghost s0 = start as int;
            let ghost i0 = i as int;
            proof {
                assert(next_occurrence(s@, p@, i as int) == i);
                assert(split_from(s@, p@, start as int) == seq![s@.subrange(start as int, i as int)]
                    + split_from(s@, p@, i + p@.len()));
            }
            out.push(piece);
            start = i + p.len();
            i = start;
            proof {
                assert(out@.map_values(|x: Vec<char>| x@) =~= before.push(s@.subrange(s0, i0)));
                assert(before.push(s@.subrange(s0, i0)) + split_from(s@, p@, start as int) =~= before
                    + split_from(s@, p@, s0));
            }
        } else {
            i = i + 1;
        }
    }
    let last = copy_range(s, start, s.len());
    proof {
        lemma_next_occurrence(s@, p@, i as int);
        assert(next_occurrence(s@, p@, i as int) == -1);
        assert(split_from(s@, p@, start as int) == seq![s@.subrange(start as int, s@.len() as int)]);
    }
    let ghost before = out@.map_values(|x: Vec<char>| x@);
    out.push(last);
    proof {
        assert(out@.map_values(|x: Vec<char>| x@) =~= before.push(s@.subrange(start as int, s@.len() as int)));
    }
    out
}

/// Whether every character of `s` is white space (what `s.trim().is_empty()` tests).
pub open spec fn is_blank(s: Seq<char>) -> bool {
    forall|i: int| 0 <= i < s.len() ==> is_unicode_whitespace(#[trigger] s[i])
}

/// The entries of `ls` that are not blank, in order.
pub open spec fn keep_filled(ls: Seq<Seq<char>>) -> Seq<Seq<char>>
    decreases ls.len(),
{
    if ls.len() == 0 {
        ls
    } else if !is_blank(ls.last()) {
        keep_filled(ls.drop_last()).push(ls.last())
    } else {
        keep_filled(ls.drop_last())
    }
}

/// Whether a text is only white space.
fn blank(s: &Vec<char>) -> (r: bool)
    ensures
        r == is_blank(s@),
{
    let mut i: usize = 0;
    while i < s.len()
        invariant
            i <= s@.len(),
            forall|k: int| 0 <= k < i ==> is_unicode_whitespace(#[trigger] s@[k]),
        decreases s@.len() - i,
    {
        if !is_whitespace(s[i]) {
            return false;
        }
        i = i + 1;
    }
    true
}

/// The pieces that are not blank.
fn drop_blank_pieces(v: Vec<Vec<char>>) -> (r: Vec<Vec<char>>)
    ensures
        r@.map_values(|x: Vec<char>| x@) == keep_filled(v@.map_values(|x: Vec<char>| x@)),
{
    let ghost vs = v@.map_values(|x: Vec<char>| x@);
    let mut out: Vec<Vec<char>> = Vec::new();
    let mut i: usize = 0;
    while i < v.len()
        invariant
            vs == v@.map_values(|x: Vec<char>| x@),
            i <= v@.len(),
            out@.map_values(|x: Vec<char>| x@) == keep_filled(vs.take(i as int)),
        decreases v@.len() - i,
    {
        proof {
            assert(vs.take(i + 1).drop_last() =~= vs.take(i as int));
            assert(vs.take(i + 1).last() == v@[i as int]@);
        }
        if !blank(&v[i]) {
            let piece = copy_range(&v[i], 0, v[i].len());
            let ghost before = out@.map_values(|x: Vec<char>| x@);
            out.push(piece);
            proof {
                assert(v@[i as int]@.subrange(0, v@[i as int]@.len() as int) =~= v@[i as int]@);
                assert(out@.map_values(|x: Vec<char>| x@) =~= before.push(v@[i as int]@));
            }
        }
        i = i + 1;
    }
    proof {
        assert(vs.take(i as int) =~= vs);
    }
    out
}

/// The lines that are not blank.
fn drop_blank_lines(v: Vec<String>) -> (r: Vec<String>)
    ensures
        r@.map_values(|x: String| x@) == keep_filled(v@.map_values(|x: String| x@)),
{
    let ghost vs = v@.map_values(|x: String| x@);
    let mut out: Vec<String> = Vec::new();
    let mut i: usize = 0;
    while i < v.len()
        invariant
            vs == v@.map_values(|x: String| x@),
            i <= v@.len(),
            out@.map_values(|x: String| x@) == keep_filled(vs.take(i as int)),
        decreases v@.len() - i,
    {
        proof {
            assert(vs.take(i + 1).drop_last() =~= vs.take(i as int));
            assert(vs.take(i + 1).last() == v@[i as int]@);
        }
        let cs = chars_of(v[i].as_str());
        if !blank(&cs) {
            let line = v[i].clone();
            let ghost before = out@.map_values(|x: String| x@);
            out.push(line);
            proof {
                assert(out@.map_values(|x: String| x@) =~= before.push(v@[i as int]@));
            }
        }
        i = i + 1;
    }
    proof {
        assert(vs.take(i as int) =~= vs);
    }
    out
}

/// The snippets of a code language: the pieces of its data between `"\n---\n"` separators
/// that are not blank.
pub open spec fn spec_snippets(language: Language) -> Seq<Seq<char>> {
    keep_filled(split_from(spec_code_data(language), "\n---\n"@, 0))
}

/// What [`get_code_snippet`] can give: for a language without code data, one comment line
/// saying so; when the data holds no snippet, the lines of an error comment; otherwise the
/// non-blank lines of one of the snippets.
pub open spec fn is_snippet_for(language: Language, ls: Seq<Seq<char>>) -> bool {
    if spec_code_data(language).len() == 0 {
        ls == seq!["// no code snippets available"@]
    } else if spec_snippets(language).len() == 0 {
        ls == keep_filled(str_lines("// error"@))
    } else {
        exists|j: int|
            0 <= j < spec_snippets(language).len() && ls == keep_filled(
                str_lines(#[trigger] spec_snippets(language)[j]),
            )
    }
}

/// Get a random code snippet for the given code language.
/// Returns the lines of code as a `Vec<String>`.
/// Leading indentation is preserved in the lines (the typing engine
/// will auto-insert it so the user doesn't have to type it).
pub fn get_code_snippet(language: Language) -> (r: Vec<String>)
    ensures
        is_snippet_for(language, r@.map_values(|x: String| x@)),
{
    let data = get_code_data(language);
    if data.is_empty() {
        let mut out: Vec<String> = Vec::new();
        out.push("// no code snippets available".to_owned());
        proof {
            assert(out@.map_values(|x: String| x@) =~= seq!["// no code snippets available"@]);
        }
        return out;
    }
    let cs = chars_of(data);
    let sep = chars_of("\n---\n");
    proof {
        reveal_strlit("\n---\n");
    }
    let pieces = split_on(&cs, &sep);
    let snippets = drop_blank_pieces(pieces);
    let mut rng = new_rng();
    let picked = pick_from(&mut rng, snippets.as_slice());
    let snippet = match picked {
        Some(piece) => string_from_chars(piece.as_slice()),
        None => "// error".to_owned(),
    };
    proof {
        if picked is Some {
            let x = picked->0;
            let j = choose|j: int| 0 <= j < snippets@.len() && snippets@[j] == *x;
            assert(spec_snippets(language)[j] == snippets@[j]@);
            assert(snippet@ == spec_snippets(language)[j]);
        }
    }
    let lines = lines_of(snippet.as_str());
    drop_blank_lines(lines)
}

/// The quotes: the non-empty lines of the quote data, each a source, a tab and the text.
pub open spec fn spec_quotes() -> Seq<Seq<char>> {
    keep_nonempty(str_lines(QUOTES@))
}

/// The position of the first tab in `s`, or -1.
pub open spec fn tab_from(s: Seq<char>, i: int) -> int
    decreases s.len() - i,
{
    if i < 0 || i >= s.len() {
        -1
    } else if s[i] == '\t' {
        i
    } else {
        tab_from(s, i + 1)
    }
}

/// A quote line split at its first tab into source and text; without a tab the whole line
/// is the source and the text is a default sentence.
pub open spec fn quote_parts(line: Seq<char>) -> (Seq<char>, Seq<char>) {
    let k = tab_from(line, 0);
    if k < 0 {
        (line, "The quick brown fox jumps over the lazy dog."@)
    } else {
        (line.take(k), line.skip(k + 1))
    }
}

/// What [`get_random_quote`] can give: one of the quotes split into source and text, or the
/// default quote when there is none.
pub open spec fn is_quote(source: Seq<char>, text: Seq<char>) -> bool {
    if spec_quotes().len() == 0 {
        (source, text) == quote_parts("Unknown\tThe quick brown fox jumps over the lazy dog."@)
    } else {
        exists|j: int|
            0 <= j < spec_quotes().len() && (source, text) == quote_parts(#[trigger] spec_quotes()[j])
    }
}

/// Quote: (source, text)
pub fn get_random_quote() -> (r: (String, String))
    ensures
        is_quote(r.0@, r.1@),
{
    let quotes = drop_empty(lines_of(QUOTES));
    let mut rng = new_rng();
    let picked = pick_from(&mut rng, quotes.as_slice());
    let line = match picked {
        Some(q) => q.as_str(),
        None => "Unknown\tThe quick brown fox jumps over the lazy dog.",
    };
    proof {
        if picked is Some {
            let x = picked->0;
            let j = choose|j: int| 0 <= j < quotes@.len() && quotes@[j] == *x;
            assert(spec_quotes()[j] == quotes@[j]@);
            assert(line@ == spec_quotes()[j]);
        }
    }
    split_quote(line)
}

/// Splits a quote line at its first tab into source and text; a line without a tab is all
/// source, with a default text.
pub fn split_quote(line: &str) -> (r: (String, String))
    ensures
        (r.0@, r.1@) == quote_parts(line@),
{
    let cs = chars_of(line);
    let mut k: usize = 0;
    while k < cs.len() && cs[k] != '\t'
        invariant
            k <= cs@.len(),
            tab_from(cs@, 0) == tab_from(cs@, k as int),
        decreases cs@.len() - k,
    {
        k = k + 1;
    }
    let source = string_from_chars(copy_range(&cs, 0, k).as_slice());
    proof {
        assert(cs@.subrange(0, k as int) =~= cs@.take(k as int));
    }
    if k < cs.len() {
        let text = string_from_chars(copy_range(&cs, k + 1, cs.len()).as_slice());
        proof {
            assert(cs@.subrange(k + 1, cs@.len() as int) =~= cs@.skip(k + 1));
        }
        (source, text)
    } else {
        proof {
            assert(cs@.take(k as int) =~= cs@);
        }
        (source, "The quick brown fox jumps over the lazy dog.".to_owned())
    }
}

} // verus!
