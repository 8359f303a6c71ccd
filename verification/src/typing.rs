use vstd::prelude::*;
use std::time::Instant;
use crate::clock::{clock_now, nanos_between, spec_nanos_between};
use crate::text::{leading_whitespace_len, split_indent, trim_start};
pub use crate::word::{CharState, Word};
use crate::word::{delete_back_word, repeat_state, law_word_delete_shape, lemma_trailing_starts_bounded, trailing_gap_start, law_word_wf_preserved, lemma_backspace_times_prefix, backspace_times, kept_after_word_delete, lemma_count_bound, WordModel, matching_chars, law_correct_chars_are_matches};

verus! {

/// One point of the speed graph: what the speed is computed from at a whole second.
///
/// `correct_chars` counts the correctly typed characters of completed words, plus one for
/// the space or enter after each; `keystrokes` counts every key; both are measured over
/// `elapsed_nanos`. Words per minute are `correct_chars / 5` per minute.
#[derive(Debug, Clone, Copy, PartialEq, Eq, Structural)]
pub struct WpmSample {
    pub second: u64,
    pub correct_chars: usize,
    pub keystrokes: usize,
    pub elapsed_nanos: u64,
}

/// A code line for code mode: stores indent (auto-inserted) and content (user types)
#[derive(Debug, Clone)]
pub struct CodeLine {
    /// Leading whitespace (auto-inserted, user doesn't type this)
    pub indent: String,
    /// The typeable content after the indent
    pub content: Word,
}

impl View for CodeLine {
    type V = (Seq<char>, WordModel);

    open spec fn view(&self) -> (Seq<char>, WordModel) {
        (self.indent@, self.content@)
    }
}

/// The values of a list of words.
pub open spec fn word_models(v: Seq<Word>) -> Seq<WordModel> {
    v.map_values(|w: Word| w@)
}

/// The values of a list of code lines.
pub open spec fn line_models(v: Seq<CodeLine>) -> Seq<(Seq<char>, WordModel)> {
    v.map_values(|l: CodeLine| l@)
}

/// The quantities that the statistics add up over the words.
#[derive(Debug, Clone, Copy, PartialEq, Eq, Structural)]
pub enum Measure {
    /// Correct characters of a completed word plus one for its separator.
    WpmChars,
    /// Correct characters of a completed word.
    CompletedCorrect,
    /// Typed characters of a completed word.
    CompletedTyped,
    Correct,
    Incorrect,
    Extra,
    /// Characters left untyped in a completed word.
    Missed,
    /// One for a completed word.
    Completed,
    /// An upper bound of all the others.
    Size,
}

/// A measure of one word.
pub open spec fn word_measure(w: WordModel, k: Measure) -> nat {
    match k {
        Measure::WpmChars => if w.completed {
            w.correct_chars() + 1
        } else {
            0
        },
        Measure::CompletedCorrect => if w.completed {
            w.correct_chars()
        } else {
            0
        },
        Measure::CompletedTyped => if w.completed {
            w.typed.len()
        } else {
            0
        },
        Measure::Correct => w.correct_chars(),
        Measure::Incorrect => w.incorrect_chars(),
        Measure::Extra => w.extra_chars(),
        Measure::Missed => w.missed_chars(),
        Measure::Completed => if w.completed {
            1
        } else {
            0
        },
        Measure::Size => w.states.len() + w.typed.len() + w.target.len() + 1,
    }
}

/// The sum of a measure over a sequence of words.
pub open spec fn sum_measure(ws: Seq<WordModel>, k: Measure) -> nat
    decreases ws.len(),
{
    if ws.len() == 0 {
        0
    } else {
        sum_measure(ws.drop_last(), k) + word_measure(ws.last(), k)
    }
}

/// The mathematical value of a [`TypingTest`].
#[verifier::ext_equal]
pub struct TestModel {
    pub words: Seq<WordModel>,
    pub current_word: int,
    pub started: bool,
    pub finished: bool,
    pub start_time: Option<Instant>,
    pub end_time: Option<Instant>,
    pub wpm_history: Seq<WpmSample>,
    pub last_sample_second: u64,
    pub time_limit: Option<u64>,
    pub word_limit: Option<usize>,
    pub total_keystrokes: int,
    pub correct_keystrokes: int,
    pub code_mode: bool,
    pub lines: Seq<(Seq<char>, WordModel)>,
    pub current_line: int,
}

/// Nanoseconds in a second.
pub open spec fn nanos_per_second() -> u64 {
    1_000_000_000
}

impl TestModel {
    /// Indices are in range, every word is well formed, and in code mode the word list
    /// mirrors the contents of the code lines.
    pub open spec fn inv(self) -> bool {
        &&& forall|i: int| 0 <= i < self.words.len() ==> (#[trigger] self.words[i]).wf()
        &&& self.words.len() == 0 ==> self.current_word == 0
        &&& self.words.len() > 0 ==> 0 <= self.current_word < self.words.len()
        &&& self.started ==> self.words.len() > 0
        &&& self.code_mode ==> {
            &&& self.lines.len() == self.words.len()
            &&& self.current_line == self.current_word
            &&& forall|i: int| 0 <= i < self.lines.len() ==> (#[trigger] self.lines[i]).1 == self.words[i]
        }
        &&& !self.code_mode ==> self.lines.len() == 0 && self.current_line == 0
    }

    /// The counters can take one more key without overflowing.
    pub open spec fn has_room(self) -> bool {
        &&& self.total_keystrokes + 1 <= usize::MAX
        &&& self.correct_keystrokes + 2 <= usize::MAX
        &&& sum_measure(self.words, Measure::Size) + 2 <= usize::MAX
    }

    /// The number of completed words.
    pub open spec fn completed_words(self) -> nat {
        sum_measure(self.words, Measure::Completed)
    }

    /// The point of the speed graph taken at `second`, `elapsed` nanoseconds in.
    pub open spec fn sample(self, second: u64, elapsed: u64) -> WpmSample {
        WpmSample {
            second,
            correct_chars: sum_measure(self.words, Measure::WpmChars) as usize,
            keystrokes: self.total_keystrokes as usize,
            elapsed_nanos: elapsed,
        }
    }

    /// A word test over `strings`, before the first key.
    pub open spec fn fresh_words(
        strings: Seq<String>,
        time_limit: Option<u64>,
        word_limit: Option<usize>,
    ) -> TestModel {
        TestModel {
            words: strings.map_values(|s: String| WordModel::fresh(s@)),
            current_word: 0,
            started: false,
            finished: false,
            start_time: None,
            end_time: None,
            wpm_history: Seq::empty(),
            last_sample_second: 0,
            time_limit,
            word_limit,
            total_keystrokes: 0,
            correct_keystrokes: 0,
            code_mode: false,
            lines: Seq::empty(),
            current_line: 0,
        }
    }

    /// A code test over `lines`, before the first key: each line's leading white space is
    /// its indent and the rest is what is typed.
    pub open spec fn fresh_code(lines: Seq<String>, time_limit: Option<u64>) -> TestModel {
        let code = lines.map_values(
            |l: String|
                (l@.take(leading_whitespace_len(l@)), WordModel::fresh(trim_start(l@))),
        );
        TestModel {
            words: code.map_values(|p: (Seq<char>, WordModel)| p.1),
            current_word: 0,
            started: false,
            finished: false,
            start_time: None,
            end_time: None,
            wpm_history: Seq::empty(),
            last_sample_second: 0,
            time_limit,
            word_limit: None,
            total_keystrokes: 0,
            correct_keystrokes: 0,
            code_mode: true,
            lines: code,
            current_line: 0,
        }
    }

    /// Marks the start on the first key.
    pub open spec fn start_at(self, now: Instant) -> TestModel {
        if self.started {
            self
        } else {
            TestModel { started: true, start_time: Some(now), ..self }
        }
    }

    /// Counts a key.
    pub open spec fn count_key(self) -> TestModel {
        TestModel { total_keystrokes: self.total_keystrokes + 1, ..self }
    }

    /// A space: the current word, if anything was typed in it, is completed and the cursor
    /// moves to the next word (it stays on the last one).
    pub open spec fn complete_word(self) -> TestModel {
        let cw = self.current_word;
        let w = self.words[cw];
        if w.typed.len() == 0 {
            self
        } else {
            let w2 = w.finalize();
            TestModel {
                words: self.words.update(cw, w2),
                correct_keystrokes: self.correct_keystrokes + if w2.is_correct() {
                    1int
                } else {
                    0int
                },
                current_word: if cw + 1 < self.words.len() {
                    cw + 1
                } else {
                    cw
                },
                ..self
            }
        }
    }

    /// A character in a word test: a space completes the word, another character is typed into it.
    pub open spec fn type_char_word(self, c: char) -> TestModel {
        if c == ' ' {
            self.complete_word()
        } else {
            let cw = self.current_word;
            let w = self.words[cw];
            let pos = w.typed.len() as int;
            let w2 = w.type_char(c);
            let s1 = TestModel {
                words: self.words.update(cw, w2),
                correct_keystrokes: self.correct_keystrokes + if pos < w.target.len() && c
                    == w.target[pos] {
                    1int
                } else {
                    0int
                },
                ..self
            };
            if cw == self.words.len() - 1 && w2.typed.len() >= w2.target.len() {
                s1.complete_word()
            } else {
                s1
            }
        }
    }

    /// Code line `i` and its word set to `w`.
    pub open spec fn set_line(self, i: int, w: WordModel) -> TestModel {
        TestModel {
            lines: self.lines.update(i, (self.lines[i].0, w)),
            words: self.words.update(i, w),
            ..self
        }
    }

    /// A character in a code test, typed into the current line.
    pub open spec fn type_char_code(self, c: char) -> TestModel {
        let cl = self.current_line;
        let w = self.lines[cl].1;
        let pos = w.typed.len() as int;
        let w2 = w.type_char(c);
        let s1 = TestModel {
            correct_keystrokes: self.correct_keystrokes + if pos < w.target.len() && c
                == w.target[pos] {
                1int
            } else {
                0int
            },
            ..self.set_line(cl, w2)
        };
        if cl == self.lines.len() - 1 && w2.typed.len() >= w2.target.len() {
            s1.set_line(cl, w2.finalize())
        } else {
            s1
        }
    }

    /// Records a point of the speed graph when a new whole second has passed.
    pub open spec fn maybe_sample(self, elapsed: u64) -> TestModel {
        let secs = elapsed / nanos_per_second();
        if self.start_time is Some && secs > self.last_sample_second {
            TestModel {
                last_sample_second: secs,
                wpm_history: self.wpm_history.push(self.sample(secs, elapsed)),
                ..self
            }
        } else {
            self
        }
    }

    /// Ends the test at `now`, `elapsed` nanoseconds after its start, with a last point.
    pub open spec fn finish(self, now: Instant, elapsed: u64) -> TestModel {
        if self.finished {
            self
        } else {
            TestModel {
                finished: true,
                end_time: Some(now),
                wpm_history: self.wpm_history.push(
                    self.sample(elapsed / nanos_per_second(), elapsed),
                ),
                ..self
            }
        }
    }

    /// A timed, started test has run its whole seconds.
    pub open spec fn time_is_up(self, elapsed: u64) -> bool {
        &&& self.time_limit is Some
        &&& self.start_time is Some
        &&& elapsed / nanos_per_second() >= self.time_limit->0
    }

    /// Whether the test has run its course: out of time, enough words, or the last word
    /// or line completed.
    pub open spec fn is_done(self, elapsed: u64) -> bool {
        ||| self.time_is_up(elapsed)
        ||| self.word_limit is Some && self.completed_words() >= self.word_limit->0
        ||| self.code_mode && self.current_line >= self.lines.len() - 1 && self.lines.len() > 0
            && self.lines.last().1.completed
        ||| !self.code_mode && self.current_word >= self.words.len() - 1 && self.words.len() > 0
            && self.words.last().completed
    }

    /// Ends the test when it is done.
    pub open spec fn check_finished(self, now: Instant, elapsed: u64) -> TestModel {
        if !self.finished && self.is_done(elapsed) {
            self.finish(now, elapsed)
        } else {
            self
        }
    }

    /// A character key at `now`, `elapsed` nanoseconds after the start of the test.
    pub open spec fn step_char(self, c: char, now: Instant, elapsed: u64) -> TestModel {
        if self.finished {
            self
        } else {
            let s0 = self.start_at(now).count_key();
            let s1 = if self.code_mode {
                s0.type_char_code(c)
            } else {
                s0.type_char_word(c)
            };
            s1.maybe_sample(elapsed).check_finished(now, elapsed)
        }
    }

    /// The enter key in code mode: the line is completed and the cursor moves to the next
    /// line (it stays on the last one).
    pub open spec fn step_enter(self, now: Instant, elapsed: u64) -> TestModel {
        if !self.code_mode || self.finished {
            self
        } else {
            let s0 = self.start_at(now).count_key();
            let cl = s0.current_line;
            let w = s0.lines[cl].1.finalize();
            let s1 = s0.set_line(cl, w);
            let s2 = TestModel {
                correct_keystrokes: s1.correct_keystrokes + if w.is_correct() {
                    1int
                } else {
                    0int
                },
                ..s1
            };
            let s3 = if cl + 1 < s2.lines.len() {
                TestModel { current_line: cl + 1, current_word: cl + 1, ..s2 }
            } else {
                s2
            };
            s3.maybe_sample(elapsed).check_finished(now, elapsed)
        }
    }

    /// The backspace key: deletes the last typed character, or with nothing typed goes back
    /// to the previous word or line and reopens it.
    pub open spec fn step_backspace(self) -> TestModel {
        if self.finished || !self.started {
            self
        } else if self.code_mode {
            let cl = self.current_line;
            let w = self.lines[cl].1;
            if w.typed.len() == 0 {
                if cl > 0 {
                    let p = self.lines[cl - 1].1;
                    TestModel {
                        current_line: cl - 1,
                        current_word: cl - 1,
                        ..self.set_line(cl - 1, WordModel { completed: false, ..p })
                    }
                } else {
                    self
                }
            } else {
                self.set_line(cl, w.backspace())
            }
        } else {
            let cw = self.current_word;
            let w = self.words[cw];
            if w.typed.len() == 0 {
                if cw > 0 {
                    TestModel {
                        current_word: cw - 1,
                        words: self.words.update(
                            cw - 1,
                            WordModel { completed: false, ..self.words[cw - 1] },
                        ),
                        ..self
                    }
                } else {
                    self
                }
            } else {
                TestModel { words: self.words.update(cw, w.backspace()), ..self }
            }
        }
    }

    /// Deletes back one word: in code mode to the previous word boundary of the line, in
    /// word mode the whole input of the current word.
    pub open spec fn step_delete_word(self) -> TestModel {
        if self.finished || !self.started {
            self
        } else if self.code_mode {
            let cl = self.current_line;
            let w = self.lines[cl].1;
            self.set_line(
                cl,
                backspace_times(w, (w.typed.len() - kept_after_word_delete(w.typed)) as nat),
            )
        } else {
            let cw = self.current_word;
            let w = self.words[cw];
            TestModel {
                words: self.words.update(
                    cw,
                    WordModel {
                        typed: Seq::empty(),
                        states: Seq::new(w.target.len(), |i: int| CharState::Pending),
                        ..w
                    },
                ),
                ..self
            }
        }
    }

    /// The time check between keys: the test ends when its time is up.
    pub open spec fn step_time_check(self, now: Instant, elapsed: u64) -> TestModel {
        if self.time_is_up(elapsed) {
            self.finish(now, elapsed)
        } else {
            self
        }
    }
}


/// A sum over one more word adds that word.
pub proof fn lemma_sum_take(ws: Seq<WordModel>, i: int, k: Measure)
    requires
        0 <= i < ws.len(),
    ensures
        sum_measure(ws.take(i + 1), k) == sum_measure(ws.take(i), k) + word_measure(ws[i], k),
{
    assert(ws.take(i + 1).drop_last() =~= ws.take(i));
}

/// Replacing a word changes a sum by the difference.
pub proof fn lemma_sum_update(ws: Seq<WordModel>, i: int, w: WordModel, k: Measure)
    requires
        0 <= i < ws.len(),
    ensures
        sum_measure(ws.update(i, w), k) + word_measure(ws[i], k) == sum_measure(ws, k)
            + word_measure(w, k),
    decreases ws.len(),
{
    if i == ws.len() - 1 {
        assert(ws.update(i, w).drop_last() =~= ws.drop_last());
    } else {
        lemma_sum_update(ws.drop_last(), i, w, k);
        assert(ws.update(i, w).drop_last() =~= ws.drop_last().update(i, w));
    }
}

/// Every measure of a word is at most its size.
pub proof fn lemma_measure_le_size(w: WordModel, k: Measure)
    ensures
        word_measure(w, k) <= word_measure(w, Measure::Size),
{
    lemma_count_bound(w.states, CharState::Correct);
    lemma_count_bound(w.states, CharState::Incorrect);
    lemma_count_bound(w.states, CharState::Extra);
}

/// Every sum is at most the sum of sizes.
pub proof fn lemma_sum_le_size(ws: Seq<WordModel>, k: Measure)
    ensures
        sum_measure(ws, k) <= sum_measure(ws, Measure::Size),
    decreases ws.len(),
{
    if ws.len() > 0 {
        lemma_sum_le_size(ws.drop_last(), k);
        lemma_measure_le_size(ws.last(), k);
    }
}

/// A sum over a prefix is at most the whole sum.
pub proof fn lemma_sum_prefix_le(ws: Seq<WordModel>, i: int, k: Measure)
    requires
        0 <= i <= ws.len(),
    ensures
        sum_measure(ws.take(i), k) <= sum_measure(ws, k),
    decreases ws.len() - i,
{
    if i < ws.len() {
        lemma_sum_take(ws, i, k);
        lemma_sum_prefix_le(ws, i + 1, k);
    } else {
        assert(ws.take(i) =~= ws);
    }
}


/// Completing a word keeps the invariant and what the counters can hold.
pub proof fn lemma_complete_word(s: TestModel)
    requires
        s.inv(),
        s.words.len() > 0,
        !s.code_mode,
    ensures
        s.complete_word().inv(),
        sum_measure(s.complete_word().words, Measure::Size) == sum_measure(s.words, Measure::Size),
        s.complete_word().correct_keystrokes <= s.correct_keystrokes + 1,
        s.complete_word().correct_keystrokes >= s.correct_keystrokes,
        s.complete_word().total_keystrokes == s.total_keystrokes,
        s.complete_word().lines == s.lines,
        s.complete_word().code_mode == s.code_mode,
        s.complete_word().started == s.started,
        s.complete_word().words.len() == s.words.len(),
{
    let cw = s.current_word;
    let w = s.words[cw];
    if w.typed.len() > 0 {
        law_word_wf_preserved(w, Seq::empty(), ' ');
        lemma_sum_update(s.words, cw, w.finalize(), Measure::Size);
        let t = s.complete_word();
        assert forall|i: int| 0 <= i < t.words.len() implies (#[trigger] t.words[i]).wf() by {
            assert(s.words[i].wf());
        }
    }
}

/// A character in a word test keeps the invariant.
pub proof fn lemma_type_char_word(s: TestModel, c: char)
    requires
        s.inv(),
        s.words.len() > 0,
        !s.code_mode,
    ensures
        s.type_char_word(c).inv(),
        sum_measure(s.type_char_word(c).words, Measure::Size) <= sum_measure(s.words, Measure::Size)
            + 2,
        s.type_char_word(c).correct_keystrokes <= s.correct_keystrokes + 2,
        s.type_char_word(c).total_keystrokes == s.total_keystrokes,
        s.type_char_word(c).code_mode == s.code_mode,
        s.type_char_word(c).words.len() == s.words.len(),
        s.type_char_word(c).started == s.started,
{
    if c == ' ' {
        lemma_complete_word(s);
    } else {
        let cw = s.current_word;
        let w = s.words[cw];
        let w2 = w.type_char(c);
        law_word_wf_preserved(w, Seq::empty(), c);
        lemma_sum_update(s.words, cw, w2, Measure::Size);
        let s1 = TestModel {
            words: s.words.update(cw, w2),
            correct_keystrokes: s.correct_keystrokes + if (w.typed.len() as int) < w.target.len()
                && c == w.target[w.typed.len() as int] {
                1int
            } else {
                0int
            },
            ..s
        };
        assert forall|i: int| 0 <= i < s1.words.len() implies (#[trigger] s1.words[i]).wf() by {
            assert(s.words[i].wf());
        }
        assert(s1.inv());
        lemma_complete_word(s1);
    }
}

/// Setting a code line to a well-formed word keeps the invariant.
pub proof fn lemma_set_line(s: TestModel, i: int, w: WordModel)
    requires
        s.inv(),
        s.code_mode,
        0 <= i < s.lines.len(),
        w.wf(),
    ensures
        s.set_line(i, w).inv(),
        sum_measure(s.set_line(i, w).words, Measure::Size) + word_measure(s.words[i], Measure::Size)
            == sum_measure(s.words, Measure::Size) + word_measure(w, Measure::Size),
{
    lemma_sum_update(s.words, i, w, Measure::Size);
    let t = s.set_line(i, w);
    assert forall|j: int| 0 <= j < t.words.len() implies (#[trigger] t.words[j]).wf() by {
        assert(s.words[j].wf());
    }
    assert forall|j: int| 0 <= j < t.lines.len() implies (#[trigger] t.lines[j]).1 == t.words[j] by {
        assert(s.lines[j].1 == s.words[j]);
    }
}

/// A character in a code test keeps the invariant.
pub proof fn lemma_type_char_code(s: TestModel, c: char)
    requires
        s.inv(),
        s.code_mode,
        s.lines.len() > 0,
    ensures
        s.type_char_code(c).inv(),
        sum_measure(s.type_char_code(c).words, Measure::Size) <= sum_measure(s.words, Measure::Size)
            + 2,
        s.type_char_code(c).correct_keystrokes <= s.correct_keystrokes + 1,
        s.type_char_code(c).total_keystrokes == s.total_keystrokes,
        s.type_char_code(c).code_mode == s.code_mode,
        s.type_char_code(c).lines.len() == s.lines.len(),
        s.type_char_code(c).started == s.started,
{
    let cl = s.current_line;
    let w = s.lines[cl].1;
    assert(w == s.words[cl]);
    let w2 = w.type_char(c);
    law_word_wf_preserved(w, Seq::empty(), c);
    law_word_wf_preserved(w2, Seq::empty(), c);
    lemma_set_line(s, cl, w2);
    let s1 = TestModel {
        correct_keystrokes: s.correct_keystrokes + if (w.typed.len() as int) < w.target.len() && c
            == w.target[w.typed.len() as int] {
            1int
        } else {
            0int
        },
        ..s.set_line(cl, w2)
    };
    assert(s1.lines[cl].1 == w2);
    assert(s1.words[cl] == w2);
    lemma_set_line(s1, cl, w2.finalize());
}

/// Sampling and ending keep the invariant.
pub proof fn lemma_tail_steps(s: TestModel, now: Instant, e: u64)
    ensures
        s.maybe_sample(e).words == s.words,
        s.maybe_sample(e).lines == s.lines,
        s.maybe_sample(e).inv() == s.inv(),
        s.maybe_sample(e).code_mode == s.code_mode,
        s.finish(now, e).inv() == s.inv(),
        s.finish(now, e).words == s.words,
        s.check_finished(now, e).inv() == s.inv(),
        s.check_finished(now, e).words == s.words,
        s.step_time_check(now, e).inv() == s.inv(),
        s.step_time_check(now, e).words == s.words,
{
}

/// Every keystroke keeps the test consistent: indices in range, words well formed, and in
/// code mode the word list mirrors the code lines.
pub proof fn law_step_char_keeps_inv(s: TestModel, c: char, now: Instant, e: u64)
    requires
        s.inv(),
        s.finished || s.words.len() > 0,
    ensures
        s.step_char(c, now, e).inv(),
{
    if !s.finished {
        let s0 = s.start_at(now).count_key();
        assert(s0.inv());
        if s.code_mode {
            lemma_type_char_code(s0, c);
            lemma_tail_steps(s0.type_char_code(c), now, e);
            lemma_tail_steps(s0.type_char_code(c).maybe_sample(e), now, e);
        } else {
            lemma_type_char_word(s0, c);
            lemma_tail_steps(s0.type_char_word(c), now, e);
            lemma_tail_steps(s0.type_char_word(c).maybe_sample(e), now, e);
        }
    }
}


/// The enter key, the backspace key, deleting a word and the clock check keep the test
/// consistent.
pub proof fn law_other_steps_keep_inv(s: TestModel, now: Instant, e: u64)
    requires
        s.inv(),
    ensures
        s.finished || !s.code_mode || s.lines.len() > 0 ==> s.step_enter(now, e).inv(),
        s.step_backspace().inv(),
        s.step_delete_word().inv(),
        s.step_time_check(now, e).inv(),
{
    lemma_tail_steps(s, now, e);
    if s.code_mode && !s.finished && s.lines.len() > 0 {
        let s0 = s.start_at(now).count_key();
        let cl = s0.current_line;
        assert(s0.lines[cl].1 == s0.words[cl]);
        law_word_wf_preserved(s0.lines[cl].1, Seq::empty(), ' ');
        lemma_set_line(s0, cl, s0.lines[cl].1.finalize());
        let s1 = s0.set_line(cl, s0.lines[cl].1.finalize());
        let w = s0.lines[cl].1.finalize();
        let s2 = TestModel {
            correct_keystrokes: s1.correct_keystrokes + if w.is_correct() {
                1int
            } else {
                0int
            },
            ..s1
        };
        let s3 = if cl + 1 < s2.lines.len() {
            TestModel { current_line: cl + 1, current_word: cl + 1, ..s2 }
        } else {
            s2
        };
        assert(s3.inv());
        lemma_tail_steps(s3, now, e);
        lemma_tail_steps(s3.maybe_sample(e), now, e);
    }
    if !s.finished && s.started {
        if s.code_mode {
            let cl = s.current_line;
            let w = s.lines[cl].1;
            assert(w == s.words[cl]);
            if w.typed.len() == 0 {
                if cl > 0 {
                    let p = s.lines[cl - 1].1;
                    assert(p == s.words[cl - 1]);
                    let q = WordModel { completed: false, ..p };
                    assert forall|i: int| 0 <= i < q.states.len() implies q.states[i]
                        == q.expected_state(i) by {
                        assert(p.states[i] == p.expected_state(i));
                    }
                    lemma_set_line(s, cl - 1, q);
                }
            } else {
                law_word_wf_preserved(w, Seq::empty(), ' ');
                lemma_set_line(s, cl, w.backspace());
            }
            law_word_delete_shape(w.typed);
            lemma_backspace_times_prefix(w, (w.typed.len() - kept_after_word_delete(w.typed)) as nat);
            lemma_trailing_starts_bounded(w.typed);
            lemma_trailing_starts_bounded(w.typed.take(trailing_gap_start(w.typed) as int));
            lemma_set_line(
                s,
                cl,
                backspace_times(w, (w.typed.len() - kept_after_word_delete(w.typed)) as nat),
            );
        } else {
            let cw = s.current_word;
            let w = s.words[cw];
            if w.typed.len() == 0 {
                if cw > 0 {
                    let p = s.words[cw - 1];
                    let q = WordModel { completed: false, ..p };
                    assert forall|i: int| 0 <= i < q.states.len() implies q.states[i]
                        == q.expected_state(i) by {
                        assert(p.states[i] == p.expected_state(i));
                    }
                    let t = s.step_backspace();
                    assert forall|i: int| 0 <= i < t.words.len() implies (#[trigger] t.words[i]).wf() by {
                        assert(s.words[i].wf());
                    }
                }
            } else {
                law_word_wf_preserved(w, Seq::empty(), ' ');
                let t = s.step_backspace();
                assert forall|i: int| 0 <= i < t.words.len() implies (#[trigger] t.words[i]).wf() by {
                    assert(s.words[i].wf());
                }
            }
            let d = s.step_delete_word();
            assert forall|i: int| 0 <= i < d.words.len() implies (#[trigger] d.words[i]).wf() by {
                assert(s.words[i].wf());
                if i == cw {
                    let x = d.words[i];
                    assert forall|j: int| 0 <= j < x.states.len() implies x.states[j]
                        == x.expected_state(j) by {}
                }
            }
        }
    }
}


/// A finished test takes no more input: every key leaves it as it is.
pub proof fn law_finished_is_final(s: TestModel, c: char, now: Instant, e: u64)
    requires
        s.finished,
    ensures
        s.step_char(c, now, e) == s,
        s.step_enter(now, e) == s,
        s.step_backspace() == s,
        s.step_delete_word() == s,
        s.step_time_check(now, e) == s,
{
}

/// Every key of a running test is counted once; the speed graph only grows; the test is
/// started by its first key; and a finished test stays finished.
pub proof fn law_keys_and_history(s: TestModel, c: char, now: Instant, e: u64)
    ensures
        !s.finished ==> s.step_char(c, now, e).total_keystrokes == s.total_keystrokes + 1,
        !s.finished ==> s.step_char(c, now, e).started,
        !s.finished && (s.started ==> s.start_time is Some) ==> s.step_char(c, now, e).start_time is Some,
        s.step_backspace().total_keystrokes == s.total_keystrokes,
        s.step_delete_word().total_keystrokes == s.total_keystrokes,
        s.step_char(c, now, e).wpm_history.take(s.wpm_history.len() as int) == s.wpm_history,
        s.step_char(c, now, e).wpm_history.len() >= s.wpm_history.len(),
        s.step_enter(now, e).wpm_history.take(s.wpm_history.len() as int) == s.wpm_history,
        s.finished ==> s.step_char(c, now, e).finished,
        s.step_char(c, now, e).finished ==> s.step_char(c, now, e).end_time is Some || s.finished,
{
    if !s.finished {
        let s0 = s.start_at(now).count_key();
        let s1 = if s.code_mode {
            s0.type_char_code(c)
        } else {
            s0.type_char_word(c)
        };
        assert(s1.wpm_history == s.wpm_history);
        assert(s1.total_keystrokes == s.total_keystrokes + 1);
        let s2 = s1.maybe_sample(e);
        assert(s2.wpm_history.take(s.wpm_history.len() as int) =~= s.wpm_history);
        let s3 = s2.check_finished(now, e);
        assert(s3.wpm_history.take(s.wpm_history.len() as int) =~= s.wpm_history);
    } else {
        assert(s.wpm_history.take(s.wpm_history.len() as int) =~= s.wpm_history);
    }
    if s.code_mode && !s.finished {
        let t = s.step_enter(now, e);
        assert(t.wpm_history.take(s.wpm_history.len() as int) =~= s.wpm_history);
    } else {
        assert(s.wpm_history.take(s.wpm_history.len() as int) =~= s.wpm_history);
    }
}

/// In word mode, a space after some typed characters completes the current word and moves
/// the cursor to the next word, when there is one.
pub proof fn law_space_completes_word(s: TestModel, now: Instant, e: u64)
    requires
        s.inv(),
        !s.finished,
        !s.code_mode,
        s.words.len() > 0,
        s.words[s.current_word].typed.len() > 0,
        s.current_word + 1 < s.words.len(),
    ensures
        s.step_char(' ', now, e).words[s.current_word].completed,
        s.step_char(' ', now, e).current_word == s.current_word + 1,
        s.step_char(' ', now, e).words[s.current_word].typed == s.words[s.current_word].typed,
{
}

/// In code mode, enter completes the current line and moves the cursor to the next line,
/// when there is one.
pub proof fn law_enter_completes_line(s: TestModel, now: Instant, e: u64)
    requires
        s.inv(),
        !s.finished,
        s.code_mode,
        s.current_line + 1 < s.lines.len(),
    ensures
        s.step_enter(now, e).lines[s.current_line].1.completed,
        s.step_enter(now, e).words[s.current_line].completed,
        s.step_enter(now, e).current_line == s.current_line + 1,
        s.step_enter(now, e).current_word == s.current_line + 1,
{
}

/// In word mode, deleting a word leaves the current word as if nothing had been typed in it.
pub proof fn law_delete_word_clears_word(s: TestModel)
    requires
        s.inv(),
        !s.finished,
        s.started,
        !s.code_mode,
    ensures
        s.step_delete_word().words[s.current_word] == (WordModel {
            completed: s.words[s.current_word].completed,
            ..WordModel::fresh(s.words[s.current_word].target)
        }),
        s.step_delete_word().current_word == s.current_word,
{
    let d = s.step_delete_word().words[s.current_word];
    assert(d.states =~= WordModel::fresh(s.words[s.current_word].target).states);
}

/// A backspace on an empty word of a running word test goes back to the word before and
/// reopens it, with what was typed in it kept; every other word stays as it was.
pub proof fn law_backspace_reopens_previous_word(s: TestModel)
    requires
        s.inv(),
        s.started,
        !s.finished,
        !s.code_mode,
        s.current_word > 0,
        s.words[s.current_word].typed.len() == 0,
    ensures
        s.step_backspace().current_word == s.current_word - 1,
        s.step_backspace().words.len() == s.words.len(),
        !s.step_backspace().words[s.current_word - 1].completed,
        s.step_backspace().words[s.current_word - 1].typed == s.words[s.current_word - 1].typed,
        s.step_backspace().words[s.current_word - 1].target == s.words[s.current_word - 1].target,
        s.step_backspace().words[s.current_word - 1].states == s.words[s.current_word - 1].states,
        forall|i: int|
            0 <= i < s.words.len() && i != s.current_word - 1 ==> s.step_backspace().words[i]
                == s.words[i],
{
}

/// A backspace in a word of a running word test with something typed removes its last
/// typed character and nothing else: the cursor stays and the word stays open or closed.
pub proof fn law_backspace_removes_last_char(s: TestModel)
    requires
        s.inv(),
        s.started,
        !s.finished,
        !s.code_mode,
        s.words[s.current_word].typed.len() > 0,
    ensures
        s.step_backspace().current_word == s.current_word,
        s.step_backspace().words.len() == s.words.len(),
        s.step_backspace().words[s.current_word].typed == s.words[s.current_word].typed.drop_last(),
        s.step_backspace().words[s.current_word].target == s.words[s.current_word].target,
        s.step_backspace().words[s.current_word].completed == s.words[s.current_word].completed,
        forall|i: int|
            0 <= i < s.words.len() && i != s.current_word ==> s.step_backspace().words[i]
                == s.words[i],
{
}

/// A backspace at the start of a line of a running code test goes back to the end of the
/// line before and reopens it, with what was typed in it kept.
pub proof fn law_backspace_reopens_previous_line(s: TestModel)
    requires
        s.inv(),
        s.started,
        !s.finished,
        s.code_mode,
        s.current_line > 0,
        s.lines[s.current_line].1.typed.len() == 0,
    ensures
        s.step_backspace().current_line == s.current_line - 1,
        s.step_backspace().current_word == s.current_line - 1,
        !s.step_backspace().lines[s.current_line - 1].1.completed,
        !s.step_backspace().words[s.current_line - 1].completed,
        s.step_backspace().lines[s.current_line - 1].1.typed == s.lines[s.current_line - 1].1.typed,
        s.step_backspace().words[s.current_line - 1].typed == s.words[s.current_line - 1].typed,
{
}

/// What each measure is of one word: a completed word gives the speed its matching typed
/// characters plus one for the separator after it, and the accuracy its matching and its
/// typed characters, so the matching ones fall short of the typed ones exactly when a
/// character is wrong or extra; a word not completed counts for neither and misses nothing.
pub proof fn law_word_measures(w: WordModel)
    requires
        w.wf(),
    ensures
        word_measure(w, Measure::WpmChars) == if w.completed {
            matching_chars(w.typed, w.target) + 1
        } else {
            0
        },
        word_measure(w, Measure::CompletedCorrect) == if w.completed {
            matching_chars(w.typed, w.target)
        } else {
            0
        },
        word_measure(w, Measure::CompletedTyped) == if w.completed {
            w.typed.len()
        } else {
            0
        },
        word_measure(w, Measure::CompletedCorrect) <= word_measure(w, Measure::CompletedTyped),
        w.completed && (exists|i: int|
            0 <= i < w.states.len() && (#[trigger] w.states[i] == CharState::Incorrect || w.states[i]
                == CharState::Extra)) ==> word_measure(w, Measure::CompletedCorrect) < word_measure(
            w,
            Measure::CompletedTyped,
        ),
        word_measure(w, Measure::Missed) == if w.completed && w.typed.len() < w.target.len() {
            (w.target.len() - w.typed.len()) as nat
        } else {
            0
        },
        !w.completed ==> word_measure(w, Measure::Missed) == 0,
{
    law_correct_chars_are_matches(w);
}

/// A word holds a wrong or extra character.
pub open spec fn has_mistake(w: WordModel) -> bool {
    exists|i: int|
        0 <= i < w.states.len() && (#[trigger] w.states[i] == CharState::Incorrect || w.states[i]
            == CharState::Extra)
}

/// Over the words of a test: the speed counts the correct characters of completed words
/// plus one per completed word; the accuracy's correct count never passes its typed count,
/// and falls short of it when a completed word holds a wrong or extra character; and only
/// completed words have missed characters.
pub proof fn law_test_measures(ws: Seq<WordModel>)
    requires
        forall|i: int| 0 <= i < ws.len() ==> (#[trigger] ws[i]).wf(),
    ensures
        sum_measure(ws, Measure::WpmChars) == sum_measure(ws, Measure::CompletedCorrect) + sum_measure(
            ws,
            Measure::Completed,
        ),
        sum_measure(ws, Measure::CompletedCorrect) <= sum_measure(ws, Measure::CompletedTyped),
        (exists|k: int| 0 <= k < ws.len() && ws[k].completed && #[trigger] has_mistake(ws[k]))
            ==> sum_measure(ws, Measure::CompletedCorrect) < sum_measure(ws, Measure::CompletedTyped),
        sum_measure(ws, Measure::Missed) == sum_measure(
            ws.filter(|w: WordModel| w.completed),
            Measure::Missed,
        ),
    decreases ws.len(),
{
    if ws.len() > 0 {
        let rest = ws.drop_last();
        assert forall|i: int| 0 <= i < rest.len() implies (#[trigger] rest[i]).wf() by {
            assert(rest[i] == ws[i]);
        }
        law_test_measures(rest);
        law_word_measures(ws.last());
        if exists|k: int| 0 <= k < ws.len() && ws[k].completed && #[trigger] has_mistake(ws[k]) {
            let k = choose|k: int| 0 <= k < ws.len() && ws[k].completed && #[trigger] has_mistake(ws[k]);
            if k < rest.len() {
                assert(rest[k] == ws[k]);
                assert(has_mistake(rest[k]));
            }
        }
        let pred = |w: WordModel| w.completed;
        reveal(Seq::filter);
        assert(ws.filter(pred) == if pred(ws.last()) {
            rest.filter(pred).push(ws.last())
        } else {
            rest.filter(pred)
        });
        if ws.last().completed {
            assert(ws.filter(pred).drop_last() =~= rest.filter(pred));
        }
    }
}

/// A measure of one word.
pub fn measure_word(w: &Word, k: Measure) -> (r: usize)
    requires
        word_measure(w@, Measure::Size) <= usize::MAX,
    ensures
        r == word_measure(w@, k),
{
    proof {
        lemma_measure_le_size(w@, k);
    }
    match k {
        Measure::WpmChars => if w.completed {
            w.correct_chars() + 1
        } else {
            0
        },
        Measure::CompletedCorrect => if w.completed {
            w.correct_chars()
        } else {
            0
        },
        Measure::CompletedTyped => if w.completed {
            w.typed.len()
        } else {
            0
        },
        Measure::Correct => w.correct_chars(),
        Measure::Incorrect => w.incorrect_chars(),
        Measure::Extra => w.extra_chars(),
        Measure::Missed => w.missed_chars(),
        Measure::Completed => if w.completed {
            1
        } else {
            0
        },
        Measure::Size => w.states.len() + w.typed.len() + w.target.len() + 1,
    }
}

/// The sum of a measure over the words.
pub fn sum_over(words: &Vec<Word>, k: Measure) -> (r: usize)
    requires
        sum_measure(word_models(words@), Measure::Size) <= usize::MAX,
    ensures
        r == sum_measure(word_models(words@), k),
{
    let ghost ws = word_models(words@);
    let mut total: usize = 0;
    let mut i: usize = 0;
    while i < words.len()
        invariant
            ws == word_models(words@),
            sum_measure(ws, Measure::Size) <= usize::MAX,
            i <= words@.len(),
            total == sum_measure(ws.take(i as int), k),
        decreases words@.len() - i,
    {
        proof {
            lemma_sum_take(ws, i as int, k);
            lemma_sum_take(ws, i as int, Measure::Size);
            lemma_sum_prefix_le(ws, i + 1, k);
            lemma_sum_prefix_le(ws, i + 1, Measure::Size);
            lemma_sum_le_size(ws, k);
            lemma_measure_le_size(ws[i as int], k);
            assert(ws[i as int] == words@[i as int]@);
        }
        let m = measure_word(&words[i], k);
        total = total + m;
        i = i + 1;
    }
    proof {
        assert(ws.take(i as int) =~= ws);
    }
    total
}

/// The number of completed words.
pub fn count_completed(words: &Vec<Word>) -> (r: usize)
    ensures
        r == sum_measure(word_models(words@), Measure::Completed),
{
    let ghost ws = word_models(words@);
    let mut total: usize = 0;
    let mut i: usize = 0;
    while i < words.len()
        invariant
            ws == word_models(words@),
            i <= words@.len(),
            total <= i,
            total == sum_measure(ws.take(i as int), Measure::Completed),
        decreases words@.len() - i,
    {
        proof {
            lemma_sum_take(ws, i as int, Measure::Completed);
            assert(ws[i as int] == words@[i as int]@);
        }
        if words[i].completed {
            total = total + 1;
        }
        i = i + 1;
    }
    proof {
        assert(ws.take(i as int) =~= ws);
    }
    total
}

/// The main typing test state
pub struct TypingTest {
    /// For word mode: each word is an entry
    pub words: Vec<Word>,
    pub current_word: usize,
    pub started: bool,
    pub finished: bool,
    pub start_time: Option<Instant>,
    pub end_time: Option<Instant>,
    pub wpm_history: Vec<WpmSample>,
    pub last_sample_second: u64,
    pub time_limit: Option<u64>,
    pub word_limit: Option<usize>,
    pub total_keystrokes: usize,
    pub correct_keystrokes: usize,
    /// Code mode: lines with auto-indentation
    pub code_mode: bool,
    pub code_lines: Vec<CodeLine>,
    pub current_line: usize,
}

impl View for TypingTest {
    type V = TestModel;

    open spec fn view(&self) -> TestModel {
        TestModel {
            words: word_models(self.words@),
            current_word: self.current_word as int,
            started: self.started,
            finished: self.finished,
            start_time: self.start_time,
            end_time: self.end_time,
            wpm_history: self.wpm_history@,
            last_sample_second: self.last_sample_second,
            time_limit: self.time_limit,
            word_limit: self.word_limit,
            total_keystrokes: self.total_keystrokes as int,
            correct_keystrokes: self.correct_keystrokes as int,
            code_mode: self.code_mode,
            lines: line_models(self.code_lines@),
            current_line: self.current_line as int,
        }
    }
}

impl TypingTest {
    /// Sets word `i`.
    fn set_word(&mut self, i: usize, w: Word)
        requires
            i < old(self).words@.len(),
        ensures
            final(self)@ == (TestModel { words: old(self)@.words.update(i as int, w@), ..old(self)@ }),
            final(self).words@.len() == old(self).words@.len(),
            final(self).code_lines@.len() == old(self).code_lines@.len(),
            final(self).words@[i as int] == w,
    {
        let ghost v = w@;
        self.words.set(i, w);
        proof {
            assert(word_models(self.words@) =~= old(self)@.words.update(i as int, v));
        }
    }

    /// Sets code line `i` and its word.
    fn set_line(&mut self, i: usize, w: Word)
        requires
            i < old(self).words@.len(),
            i < old(self).code_lines@.len(),
        ensures
            final(self)@ == old(self)@.set_line(i as int, w@),
            final(self).words@.len() == old(self).words@.len(),
            final(self).code_lines@.len() == old(self).code_lines@.len(),
            final(self).words@[i as int] == w,
    {
        let indent = self.code_lines[i].indent.clone();
        let copy = w.duplicate();
        let ghost v = w@;
        let ghost ind = indent@;
        self.code_lines.set(i, CodeLine { indent, content: copy });
        self.words.set(i, w);
        proof {
            assert(word_models(self.words@) =~= old(self)@.words.update(i as int, v));
            assert(line_models(self.code_lines@) =~= old(self)@.lines.update(
                i as int,
                (old(self)@.lines[i as int].0, v),
            ));
        }
    }

    /// Completes the current word and moves to the next.
    fn complete_word(&mut self)
        requires
            old(self).current_word < old(self).words@.len(),
            old(self).correct_keystrokes + 1 <= usize::MAX,
        ensures
            final(self)@ == old(self)@.complete_word(),
    {
        let cw = self.current_word;
        if self.words[cw].typed.len() == 0 {
            return;
        }
        let mut w = self.words[cw].duplicate();
        w.finalize();
        let ok = w.is_correct();
        self.set_word(cw, w);
        if ok {
            self.correct_keystrokes = self.correct_keystrokes + 1;
        }
        if cw < self.words.len() - 1 {
            self.current_word = cw + 1;
        }
    }

    /// A character in a word test.
    fn type_char_word(&mut self, c: char)
        requires
            old(self)@.inv(),
            old(self)@.words.len() > 0,
            old(self).correct_keystrokes + 2 <= usize::MAX,
        ensures
            final(self)@ == old(self)@.type_char_word(c),
    {
        if c == ' ' {
            self.complete_word();
        } else {
            let cw = self.current_word;
            let mut w = self.words[cw].duplicate();
            proof {
                assert(old(self)@.words[cw as int] == w@);
                law_word_wf_preserved(w@, Seq::empty(), c);
            }
            let pos = w.typed.len();
            w.type_char(c);
            let hit = pos < w.target.len() && c == w.target[pos];
            self.set_word(cw, w);
            if hit {
                self.correct_keystrokes = self.correct_keystrokes + 1;
            }
            let is_last = cw == self.words.len() - 1;
            if is_last && self.words[cw].typed.len() >= self.words[cw].target.len() {
                self.complete_word();
            }
        }
    }

    /// A character in a code test.
    fn type_char_code(&mut self, c: char)
        requires
            old(self)@.inv(),
            old(self)@.code_mode,
            old(self)@.lines.len() > 0,
            old(self).correct_keystrokes + 1 <= usize::MAX,
        ensures
            final(self)@ == old(self)@.type_char_code(c),
    {
        let cl = self.current_line;
        let mut w = self.code_lines[cl].content.duplicate();
        proof {
            assert(old(self)@.lines[cl as int].1 == w@);
            law_word_wf_preserved(w@, Seq::empty(), c);
        }
        let pos = w.typed.len();
        w.type_char(c);
        let hit = pos < w.target.len() && c == w.target[pos];
        let full = w.typed.len() >= w.target.len();
        let last_w = w.duplicate();
        self.set_line(cl, w);
        if hit {
            self.correct_keystrokes = self.correct_keystrokes + 1;
        }
        let is_last = cl == self.code_lines.len() - 1;
        if is_last && full {
            let mut fw = last_w;
            fw.finalize();
            self.set_line(cl, fw);
        }
    }

    /// Takes a point of the speed graph at each new whole second.
    fn maybe_sample(&mut self, elapsed: u64)
        requires
            sum_measure(old(self)@.words, Measure::Size) <= usize::MAX,
        ensures
            final(self)@ == old(self)@.maybe_sample(elapsed),
    {
        let secs = elapsed / 1_000_000_000;
        if self.start_time.is_some() && secs > self.last_sample_second {
            self.last_sample_second = secs;
            let chars = sum_over(&self.words, Measure::WpmChars);
            let sample = WpmSample {
                second: secs,
                correct_chars: chars,
                keystrokes: self.total_keystrokes,
                elapsed_nanos: elapsed,
            };
            self.wpm_history.push(sample);
        }
    }

    /// Ends the test at `now`, with a last point of the speed graph.
    fn finish(&mut self, now: Instant, elapsed: u64)
        requires
            sum_measure(old(self)@.words, Measure::Size) <= usize::MAX,
        ensures
            final(self)@ == old(self)@.finish(now, elapsed),
    {
        if !self.finished {
            self.finished = true;
            self.end_time = Some(now);
            let chars = sum_over(&self.words, Measure::WpmChars);
            let sample = WpmSample {
                second: elapsed / 1_000_000_000,
                correct_chars: chars,
                keystrokes: self.total_keystrokes,
                elapsed_nanos: elapsed,
            };
            self.wpm_history.push(sample);
        }
    }

    /// Whether a timed, started test has run its whole seconds.
    fn time_is_up(&self, elapsed: u64) -> (r: bool)
        ensures
            r == self@.time_is_up(elapsed),
    {
        match self.time_limit {
            Some(limit) => self.start_time.is_some() && elapsed / 1_000_000_000 >= limit,
            None => false,
        }
    }

    /// Ends the test when it is done.
    fn check_finished(&mut self, now: Instant, elapsed: u64)
        requires
            sum_measure(old(self)@.words, Measure::Size) <= usize::MAX,
            old(self)@.code_mode ==> old(self)@.lines.len() > 0,
            !old(self)@.code_mode ==> old(self)@.words.len() > 0,
        ensures
            final(self)@ == old(self)@.check_finished(now, elapsed),
    {
        if self.finished {
            return;
        }
        if self.time_is_up(elapsed) {
            self.finish(now, elapsed);
            return;
        }
        if let Some(limit) = self.word_limit {
            let completed = count_completed(&self.words);
            if completed >= limit {
                self.finish(now, elapsed);
                return;
            }
        }
        if self.code_mode {
            let n = self.code_lines.len();
            if self.current_line >= n - 1 && self.code_lines[n - 1].content.completed {
                self.finish(now, elapsed);
            }
            return;
        }
        let n = self.words.len();
        if self.current_word >= n - 1 && self.words[n - 1].completed {
            self.finish(now, elapsed);
        }
    }

    /// A word test over `word_strings`, optionally limited in seconds or in words.
    pub fn new(word_strings: Vec<String>, time_limit: Option<u64>, word_limit: Option<usize>) -> (r: Self)
        ensures
            r@ == TestModel::fresh_words(word_strings@, time_limit, word_limit),
            r@.inv(),
    {
        let mut words: Vec<Word> = Vec::new();
        let mut i: usize = 0;
        while i < word_strings.len()
            invariant
                i <= word_strings@.len(),
                words@.len() == i,
                forall|k: int| 0 <= k < i ==> (#[trigger] words@[k])@ == WordModel::fresh(word_strings@[k]@),
            decreases word_strings@.len() - i,
        {
            let w = Word::new(word_strings[i].as_str());
            words.push(w);
            i = i + 1;
        }
        let r = TypingTest {
            words,
            current_word: 0,
            started: false,
            finished: false,
            start_time: None,
            end_time: None,
            wpm_history: Vec::new(),
            last_sample_second: 0,
            time_limit,
            word_limit,
            total_keystrokes: 0,
            correct_keystrokes: 0,
            code_mode: false,
            code_lines: Vec::new(),
            current_line: 0,
        };
        proof {
            assert(r@.words =~= TestModel::fresh_words(word_strings@, time_limit, word_limit).words);
            assert(r@ =~= TestModel::fresh_words(word_strings@, time_limit, word_limit));
            assert(r@.lines =~= Seq::empty());
            assert forall|k: int| 0 <= k < r@.words.len() implies (#[trigger] r@.words[k]).wf() by {
                law_word_wf_preserved(r@.words[k], word_strings@[k]@, ' ');
            }
        }
        r
    }

    /// Create a typing test for code snippets.
    /// Each line is split into indent (auto-inserted) and content (user types).
    pub fn new_code(lines: Vec<String>, time_limit: Option<u64>) -> (r: Self)
        ensures
            r@ == TestModel::fresh_code(lines@, time_limit),
            r@.inv(),
    {
        let ghost code = lines@.map_values(
            |l: String| (l@.take(leading_whitespace_len(l@)), WordModel::fresh(trim_start(l@))),
        );
        let mut code_lines: Vec<CodeLine> = Vec::new();
        let mut words: Vec<Word> = Vec::new();
        let mut i: usize = 0;
        while i < lines.len()
            invariant
                i <= lines@.len(),
                code == lines@.map_values(
                    |l: String|
                        (l@.take(leading_whitespace_len(l@)), WordModel::fresh(trim_start(l@))),
                ),
                code_lines@.len() == i,
                words@.len() == i,
                forall|k: int| 0 <= k < i ==> (#[trigger] code_lines@[k])@ == code[k],
                forall|k: int| 0 <= k < i ==> (#[trigger] words@[k])@ == code[k].1,
            decreases lines@.len() - i,
        {
            let (indent, rest) = split_indent(lines[i].as_str());
            let content = Word::new(rest);
            let copy = content.duplicate();
            code_lines.push(CodeLine { indent, content });
            words.push(copy);
            i = i + 1;
        }
        let r = TypingTest {
            words,
            current_word: 0,
            started: false,
            finished: false,
            start_time: None,
            end_time: None,
            wpm_history: Vec::new(),
            last_sample_second: 0,
            time_limit,
            word_limit: None,
            total_keystrokes: 0,
            correct_keystrokes: 0,
            code_mode: true,
            code_lines,
            current_line: 0,
        };
        proof {
            assert(r@.lines =~= code);
            assert(r@.words =~= code.map_values(|p: (Seq<char>, WordModel)| p.1));
            assert(r@ =~= TestModel::fresh_code(lines@, time_limit));
            assert forall|k: int| 0 <= k < r@.words.len() implies (#[trigger] r@.words[k]).wf() by {
                law_word_wf_preserved(r@.words[k], trim_start(lines@[k]@), ' ');
            }
        }
        r
    }

    /// A character key, taken at `now`, `elapsed_nanos` after the start of the test (the
    /// start is `now` itself on the first key).
    pub fn type_char_at(&mut self, c: char, now: Instant, elapsed_nanos: u64)
        requires
            old(self)@.inv(),
            old(self)@.finished || (old(self)@.has_room() && old(self)@.words.len() > 0),
        ensures
            final(self)@ == old(self)@.step_char(c, now, elapsed_nanos),
            old(self)@.finished ==> final(self)@ == old(self)@,
            final(self)@.inv(),
    {
        proof {
            law_step_char_keeps_inv(old(self)@, c, now, elapsed_nanos);
        }
        if self.finished {
            return;
        }
        if !self.started {
            self.started = true;
            self.start_time = Some(now);
        }
        self.total_keystrokes = self.total_keystrokes + 1;
        if self.code_mode {
            proof {
                lemma_type_char_code(self@, c);
            }
            self.type_char_code(c);
        } else {
            proof {
                lemma_type_char_word(self@, c);
            }
            self.type_char_word(c);
        }
        self.maybe_sample(elapsed_nanos);
        proof {
            lemma_tail_steps(old(self)@, now, elapsed_nanos);
        }
        self.check_finished(now, elapsed_nanos);
    }

    /// The instant of a key and the nanoseconds since the start of the test (the start
    /// being that instant when the test has not started).
    fn read_clock(&self) -> (r: (Instant, u64))
        ensures
            self.start_time is None ==> r.1 == 0,
            self.start_time matches Some(s) ==> r.1 == spec_nanos_between(s, r.0),
    {
        let now = clock_now();
        let elapsed = match &self.start_time {
            Some(start) => nanos_between(start, &now),
            None => 0,
        };
        (now, elapsed)
    }

    /// A character key, taken now.
    pub fn type_char(&mut self, c: char)
        requires
            old(self)@.inv(),
            old(self)@.finished || (old(self)@.has_room() && old(self)@.words.len() > 0),
        ensures
            exists|now: Instant, elapsed: u64|
                final(self)@ == old(self)@.step_char(c, now, elapsed),
            old(self)@.finished ==> final(self)@ == old(self)@,
            final(self)@.inv(),
    {
        if self.finished {
            proof {
                assert(self@ == old(self)@.step_char(c, arbitrary(), 0));
            }
            return;
        }
        let (now, elapsed) = self.read_clock();
        let elapsed = if self.started { elapsed } else { 0 };
        self.type_char_at(c, now, elapsed);
    }

    /// In code mode, Enter completes the line and moves to the next, taken at `now`,
    /// `elapsed_nanos` after the start of the test.
    pub fn enter_key_at(&mut self, now: Instant, elapsed_nanos: u64)
        requires
            old(self)@.inv(),
            old(self)@.finished || !old(self)@.code_mode || (old(self)@.has_room()
                && old(self)@.lines.len() > 0),
        ensures
            final(self)@ == old(self)@.step_enter(now, elapsed_nanos),
            old(self)@.finished ==> final(self)@ == old(self)@,
            final(self)@.inv(),
    {
        proof {
            law_other_steps_keep_inv(old(self)@, now, elapsed_nanos);
        }
        if !self.code_mode || self.finished {
            return;
        }
        if !self.started {
            self.started = true;
            self.start_time = Some(now);
        }
        self.total_keystrokes = self.total_keystrokes + 1;
        let cl = self.current_line;
        let mut w = self.code_lines[cl].content.duplicate();
        w.finalize();
        let ok = w.is_correct();
        proof {
            lemma_sum_update(self@.words, cl as int, w@, Measure::Size);
            assert(self@.lines[cl as int].1 == self@.words[cl as int]);
        }
        self.set_line(cl, w);
        if ok {
            self.correct_keystrokes = self.correct_keystrokes + 1;
        }
        if cl < self.code_lines.len() - 1 {
            self.current_line = cl + 1;
            self.current_word = self.current_line;
        }
        self.maybe_sample(elapsed_nanos);
        self.check_finished(now, elapsed_nanos);
    }

    /// In code mode, Enter completes the line and moves to the next, taken now.
    pub fn enter_key(&mut self)
        requires
            old(self)@.inv(),
            old(self)@.finished || !old(self)@.code_mode || (old(self)@.has_room()
                && old(self)@.lines.len() > 0),
        ensures
            exists|now: Instant, elapsed: u64|
                final(self)@ == old(self)@.step_enter(now, elapsed),
            old(self)@.finished ==> final(self)@ == old(self)@,
            final(self)@.inv(),
    {
        if !self.code_mode || self.finished {
            proof {
                assert(self@ == old(self)@.step_enter(arbitrary(), 0));
                law_other_steps_keep_inv(old(self)@, arbitrary(), 0);
            }
            return;
        }
        let (now, elapsed) = self.read_clock();
        let elapsed = if self.started { elapsed } else { 0 };
        self.enter_key_at(now, elapsed);
    }

    /// Deletes the last typed character of the current word or line.
    pub fn backspace(&mut self)
        requires
            old(self)@.inv(),
        ensures
            final(self)@ == old(self)@.step_backspace(),
            final(self)@.inv(),
    {
        proof {
            law_other_steps_keep_inv(old(self)@, arbitrary(), 0);
        }
        if self.finished || !self.started {
            return;
        }
        if self.code_mode {
            let cl = self.current_line;
            proof {
                assert(self@.lines[cl as int].1 == self@.words[cl as int]);
            }
            if self.code_lines[cl].content.typed.len() == 0 {
                if cl > 0 {
                    self.current_line = cl - 1;
                    self.current_word = cl - 1;
                    let mut p = self.code_lines[cl - 1].content.duplicate();
                    p.completed = false;
                    self.set_line(cl - 1, p);
                }
            } else {
                let mut w = self.code_lines[cl].content.duplicate();
                proof {
                    law_word_wf_preserved(w@, Seq::empty(), ' ');
                }
                w.backspace();
                self.set_line(cl, w);
            }
        } else {
            let cw = self.current_word;
            if self.words[cw].typed.len() == 0 {
                if cw > 0 {
                    self.current_word = cw - 1;
                    let mut p = self.words[cw - 1].duplicate();
                    p.completed = false;
                    self.set_word(cw - 1, p);
                }
            } else {
                let mut w = self.words[cw].duplicate();
                proof {
                    assert(self@.words[cw as int] == w@);
                    law_word_wf_preserved(w@, Seq::empty(), ' ');
                }
                w.backspace();
                self.set_word(cw, w);
            }
        }
    }

    /// Ctrl+Backspace: delete back one word within current input.
    /// In word mode, clears the entire current word input (since each word is separate).
    /// In code mode, deletes back to the previous word boundary (a space or tab).
    pub fn delete_word(&mut self)
        requires
            old(self)@.inv(),
        ensures
            final(self)@ == old(self)@.step_delete_word(),
            final(self)@.inv(),
    {
        proof {
            law_other_steps_keep_inv(old(self)@, arbitrary(), 0);
        }
        if self.finished || !self.started {
            return;
        }
        if self.code_mode {
            let cl = self.current_line;
            let mut w = self.code_lines[cl].content.duplicate();
            proof {
                assert(self@.lines[cl as int].1 == self@.words[cl as int]);
            }
            delete_back_word(&mut w);
            self.set_line(cl, w);
        } else {
            let cw = self.current_word;
            let mut w = self.words[cw].duplicate();
            w.typed.clear();
            let target_len = w.target.len();
            w.states = repeat_state(CharState::Pending, target_len);
            proof {
                assert(w.typed@ =~= Seq::<char>::empty());
            }
            self.set_word(cw, w);
        }
    }

    /// Ends the test when its time limit has passed, `elapsed_nanos` after its start at
    /// `now`.
    pub fn check_time_limit_at(&mut self, now: Instant, elapsed_nanos: u64)
        requires
            sum_measure(old(self)@.words, Measure::Size) <= usize::MAX,
        ensures
            final(self)@ == old(self)@.step_time_check(now, elapsed_nanos),
            old(self)@.inv() ==> final(self)@.inv(),
    {
        proof {
            lemma_tail_steps(old(self)@, now, elapsed_nanos);
        }
        if self.time_is_up(elapsed_nanos) {
            self.finish(now, elapsed_nanos);
        }
    }

    /// Ends the test when its time limit has passed.
    pub fn check_time_limit(&mut self)
        requires
            sum_measure(old(self)@.words, Measure::Size) <= usize::MAX,
        ensures
            exists|now: Instant, elapsed: u64|
                final(self)@ == old(self)@.step_time_check(now, elapsed),
            old(self)@.inv() ==> final(self)@.inv(),
    {
        let (now, elapsed) = self.read_clock();
        self.check_time_limit_at(now, elapsed);
    }

    /// The nanoseconds the test has run: up to its end when it has ended, up to now
    /// otherwise, and zero before it starts.
    pub fn elapsed_nanos(&self) -> (r: u64)
        ensures
            match (self.start_time, self.end_time) {
                (Some(s), Some(e)) => r == spec_nanos_between(s, e),
                (Some(s), None) => exists|now: Instant| r == spec_nanos_between(s, now),
                _ => r == 0,
            },
    {
        match (&self.start_time, &self.end_time) {
            (Some(start), Some(end)) => nanos_between(start, end),
            (Some(start), None) => {
                let now = clock_now();
                nanos_between(start, &now)
            },
            _ => 0,
        }
    }

    /// The number of completed words.
    pub fn words_completed(&self) -> (r: usize)
        ensures
            r == self@.completed_words(),
    {
        count_completed(&self.words)
    }

    /// The number of completed code lines.
    pub fn lines_completed(&self) -> (r: usize)
        ensures
            r == sum_measure(self@.lines.map_values(|p: (Seq<char>, WordModel)| p.1), Measure::Completed),
    {
        let ghost ws = self@.lines.map_values(|p: (Seq<char>, WordModel)| p.1);
        let mut total: usize = 0;
        let mut i: usize = 0;
        while i < self.code_lines.len()
            invariant
                ws == line_models(self.code_lines@).map_values(|p: (Seq<char>, WordModel)| p.1),
                i <= self.code_lines@.len(),
                total <= i,
                total == sum_measure(ws.take(i as int), Measure::Completed),
            decreases self.code_lines@.len() - i,
        {
            proof {
                lemma_sum_take(ws, i as int, Measure::Completed);
                assert(ws[i as int] == self.code_lines@[i as int].content@);
            }
            if self.code_lines[i].content.completed {
                total = total + 1;
            }
            i = i + 1;
        }
        proof {
            assert(ws.take(i as int) =~= ws);
        }
        total
    }

    /// The correctly typed characters of completed words, plus one for the space or enter
    /// after each: five of them make a word of the speed.
    pub fn wpm_chars(&self) -> (r: usize)
        requires
            sum_measure(self@.words, Measure::Size) <= usize::MAX,
        ensures
            r == sum_measure(self@.words, Measure::WpmChars),
    {
        sum_over(&self.words, Measure::WpmChars)
    }

    /// The correct characters and the typed characters of completed words, whose ratio is
    /// the accuracy.
    pub fn accuracy_counts(&self) -> (r: (usize, usize))
        requires
            sum_measure(self@.words, Measure::Size) <= usize::MAX,
        ensures
            r.0 == sum_measure(self@.words, Measure::CompletedCorrect),
            r.1 == sum_measure(self@.words, Measure::CompletedTyped),
    {
        (sum_over(&self.words, Measure::CompletedCorrect), sum_over(&self.words, Measure::CompletedTyped))
    }

    /// Correct, incorrect and extra characters over all words, and the characters missed
    /// in completed words.
    pub fn char_stats(&self) -> (r: (usize, usize, usize, usize))
        requires
            sum_measure(self@.words, Measure::Size) <= usize::MAX,
        ensures
            r.0 == sum_measure(self@.words, Measure::Correct),
            r.1 == sum_measure(self@.words, Measure::Incorrect),
            r.2 == sum_measure(self@.words, Measure::Extra),
            r.3 == sum_measure(self@.words, Measure::Missed),
    {
        let correct = sum_over(&self.words, Measure::Correct);
        let incorrect = sum_over(&self.words, Measure::Incorrect);
        let extra = sum_over(&self.words, Measure::Extra);
        let missed = sum_over(&self.words, Measure::Missed);
        (correct, incorrect, extra, missed)
    }

    /// Whether the counters can take one more key: what every key needs.
    pub fn has_room(&self) -> (r: bool)
        ensures
            r == self@.has_room(),
    {
        if self.total_keystrokes >= usize::MAX || self.correct_keystrokes >= usize::MAX - 1 {
            return false;
        }
        let ghost ws = self@.words;
        let mut total: usize = 0;
        let mut i: usize = 0;
        while i < self.words.len()
            invariant
                ws == word_models(self.words@),
                i <= self.words@.len(),
                total == sum_measure(ws.take(i as int), Measure::Size),
                total <= usize::MAX - 2,
            decreases self.words@.len() - i,
        {
            proof {
                lemma_sum_take(ws, i as int, Measure::Size);
                lemma_sum_prefix_le(ws, i + 1, Measure::Size);
                assert(ws[i as int] == self.words@[i as int]@);
            }
            let w = &self.words[i];
            let a = w.states.len();
            let b = w.typed.len();
            let c = w.target.len();
            if a > usize::MAX - 2 - total {
                return false;
            }
            let t1 = total + a;
            if b > usize::MAX - 2 - t1 {
                return false;
            }
            let t2 = t1 + b;
            if c >= usize::MAX - 2 - t2 {
                return false;
            }
            total = t2 + c + 1;
            i = i + 1;
        }
        proof {
            assert(ws.take(i as int) =~= ws);
        }
        true
    }
}

/// The characters typed in all the words.
pub open spec fn typed_total(ws: Seq<WordModel>) -> nat
    decreases ws.len(),
{
    if ws.len() == 0 {
        0
    } else {
        typed_total(ws.drop_last()) + ws.last().typed.len()
    }
}

/// Over a whole test, the correct, incorrect and extra characters add up to the characters
/// typed: every typed character is counted once.
pub proof fn law_char_stats_cover_typed(ws: Seq<WordModel>)
    requires
        forall|i: int| 0 <= i < ws.len() ==> (#[trigger] ws[i]).wf(),
    ensures
        sum_measure(ws, Measure::Correct) + sum_measure(ws, Measure::Incorrect) + sum_measure(
            ws,
            Measure::Extra,
        ) == typed_total(ws),
    decreases ws.len(),
{
    if ws.len() > 0 {
        let rest = ws.drop_last();
        assert forall|i: int| 0 <= i < rest.len() implies (#[trigger] rest[i]).wf() by {
            assert(rest[i] == ws[i]);
        }
        law_char_stats_cover_typed(rest);
        assert(ws[ws.len() - 1] == ws.last());
        crate::word::law_counts_cover_typed(ws.last());
    }
}

} // verus!
