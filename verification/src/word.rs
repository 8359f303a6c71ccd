use vstd::prelude::*;
use crate::text::chars_of;

verus! {

/// State of each character in the test
#[derive(Debug, Clone, Copy, PartialEq, Eq, Structural)]
pub enum CharState {
    Pending,
    Correct,
    Incorrect,
    Extra,
}

/// The number of entries of `s` equal to `st`.
pub open spec fn count_state(s: Seq<CharState>, st: CharState) -> nat
    decreases s.len(),
{
    if s.len() == 0 {
        0
    } else {
        count_state(s.drop_last(), st) + if s.last() == st {
            1nat
        } else {
            0nat
        }
    }
}

/// The mathematical value of a [`Word`].
#[verifier::ext_equal]
pub struct WordModel {
    pub target: Seq<char>,
    pub states: Seq<CharState>,
    pub typed: Seq<char>,
    pub completed: bool,
}

impl WordModel {
    /// A word as it stands before anything was typed.
    pub open spec fn fresh(text: Seq<char>) -> WordModel {
        WordModel {
            target: text,
            states: Seq::new(text.len(), |i: int| CharState::Pending),
            typed: Seq::empty(),
            completed: false,
        }
    }

    /// The state that position `i` has after `typed` was typed against `target`.
    pub open spec fn expected_state(self, i: int) -> CharState {
        if i < self.target.len() {
            if i < self.typed.len() {
                if self.typed[i] == self.target[i] {
                    CharState::Correct
                } else {
                    CharState::Incorrect
                }
            } else {
                CharState::Pending
            }
        } else {
            CharState::Extra
        }
    }

    /// The states describe the typed characters against the target: one state per
    /// target position and per extra typed character.
    pub open spec fn wf(self) -> bool {
        &&& self.states.len() == if self.typed.len() > self.target.len() {
            self.typed.len()
        } else {
            self.target.len()
        }
        &&& forall|i: int| 0 <= i < self.states.len() ==> self.states[i] == self.expected_state(i)
    }

    /// Typing `c` at the cursor never indexes past the states.
    pub open spec fn can_type(self) -> bool {
        self.typed.len() < self.target.len() ==> self.typed.len() < self.states.len()
    }

    /// Deleting the last typed character never indexes past the states.
    pub open spec fn can_backspace(self) -> bool {
        self.typed.len() > 0 && self.typed.len() - 1 < self.target.len() ==> self.typed.len() - 1
            < self.states.len()
    }

    /// Types `c` at the cursor: it is marked correct or incorrect against the target, or extra past its end.
    pub open spec fn type_char(self, c: char) -> WordModel {
        let pos = self.typed.len() as int;
        WordModel {
            typed: self.typed.push(c),
            states: if pos < self.target.len() {
                self.states.update(
                    pos,
                    if c == self.target[pos] {
                        CharState::Correct
                    } else {
                        CharState::Incorrect
                    },
                )
            } else {
                self.states.push(CharState::Extra)
            },
            ..self
        }
    }

    /// Deletes the last typed character: its position goes back to pending, or an extra one goes.
    pub open spec fn backspace(self) -> WordModel {
        if self.typed.len() == 0 {
            self
        } else {
            let pos = self.typed.len() - 1;
            WordModel {
                typed: self.typed.drop_last(),
                states: if pos < self.target.len() {
                    self.states.update(pos, CharState::Pending)
                } else if self.states.len() > 0 {
                    self.states.drop_last()
                } else {
                    self.states
                },
                ..self
            }
        }
    }

    /// Marks the word completed.
    pub open spec fn finalize(self) -> WordModel {
        WordModel { completed: true, ..self }
    }

    /// The whole target was typed without a mistake.
    pub open spec fn is_correct(self) -> bool {
        &&& self.typed.len() == self.target.len()
        &&& forall|i: int| 0 <= i < self.states.len() ==> self.states[i] == CharState::Correct
    }

    /// The characters typed right.
    pub open spec fn correct_chars(self) -> nat {
        count_state(self.states, CharState::Correct)
    }

    /// The characters typed wrong.
    pub open spec fn incorrect_chars(self) -> nat {
        count_state(self.states, CharState::Incorrect)
    }

    /// The characters typed past the end.
    pub open spec fn extra_chars(self) -> nat {
        count_state(self.states, CharState::Extra)
    }

    /// The characters left untyped in a completed word.
    pub open spec fn missed_chars(self) -> nat {
        if self.completed && self.typed.len() < self.target.len() {
            (self.target.len() - self.typed.len()) as nat
        } else {
            0
        }
    }
}


/// How many of the first `n` positions hold the same character in `typed` and in `target`.
pub open spec fn matching_count(typed: Seq<char>, target: Seq<char>, n: nat) -> nat
    decreases n,
{
    if n == 0 {
        0
    } else {
        let i = (n - 1) as int;
        matching_count(typed, target, (n - 1) as nat) + if i < typed.len() && i < target.len()
            && typed[i] == target[i] {
            1nat
        } else {
            0nat
        }
    }
}

/// How many typed characters match the target at their position.
pub open spec fn matching_chars(typed: Seq<char>, target: Seq<char>) -> nat {
    matching_count(typed, target, target.len())
}

/// A typed character that does not match the target: a wrong one, or one past its end.
pub open spec fn is_mistyped_at(typed: Seq<char>, target: Seq<char>, i: int) -> bool {
    0 <= i < typed.len() && (i >= target.len() || typed[i] != target[i])
}

/// Positions past both texts add no match.
proof fn lemma_matching_count_stable(typed: Seq<char>, target: Seq<char>, n: nat)
    requires
        n >= target.len(),
    ensures
        matching_count(typed, target, n) == matching_chars(typed, target),
    decreases n,
{
    if n > target.len() {
        lemma_matching_count_stable(typed, target, (n - 1) as nat);
    }
}

/// At most one match per typed position, and one fewer for each mistyped position before
/// `n` inside the target.
proof fn lemma_matching_count_bound(typed: Seq<char>, target: Seq<char>, n: nat)
    ensures
        matching_count(typed, target, n) <= if n < typed.len() {
            n
        } else {
            typed.len()
        },
        forall|i: int|
            0 <= i < n && i < target.len() && #[trigger] is_mistyped_at(typed, target, i)
                ==> matching_count(typed, target, n) < if n < typed.len() {
                n
            } else {
                typed.len()
            },
    decreases n,
{
    if n > 0 {
        lemma_matching_count_bound(typed, target, (n - 1) as nat);
    }
}

/// The matches never outnumber the typed characters, and a mistyped character, wrong or
/// past the end, makes them fewer.
pub proof fn law_matching_chars_bound(typed: Seq<char>, target: Seq<char>)
    ensures
        matching_chars(typed, target) <= typed.len(),
        forall|i: int| #[trigger] is_mistyped_at(typed, target, i) ==> matching_chars(typed, target) < typed.len(),
{
    lemma_matching_count_bound(typed, target, target.len());
    assert forall|i: int| #[trigger] is_mistyped_at(typed, target, i) implies matching_chars(typed, target)
        < typed.len() by {
        if i >= target.len() {
            assert(typed.len() > target.len());
            assert(matching_chars(typed, target) <= target.len());
        }
    }
}

/// The correct states of a well-formed word are exactly its matching typed characters.
pub proof fn law_correct_chars_are_matches(w: WordModel)
    requires
        w.wf(),
    ensures
        w.correct_chars() == matching_chars(w.typed, w.target),
        w.correct_chars() <= w.typed.len(),
        (exists|i: int|
            0 <= i < w.states.len() && (#[trigger] w.states[i] == CharState::Incorrect || w.states[i]
                == CharState::Extra)) ==> w.correct_chars() < w.typed.len(),
{
    lemma_correct_prefix(w, w.states.len());
    assert(w.states.take(w.states.len() as int) =~= w.states);
    lemma_matching_count_stable(w.typed, w.target, w.states.len());
    law_matching_chars_bound(w.typed, w.target);
    if exists|i: int|
        0 <= i < w.states.len() && (#[trigger] w.states[i] == CharState::Incorrect || w.states[i]
            == CharState::Extra) {
        let i = choose|i: int|
            0 <= i < w.states.len() && (#[trigger] w.states[i] == CharState::Incorrect || w.states[i]
                == CharState::Extra);
        assert(w.states[i] == w.expected_state(i));
        assert(is_mistyped_at(w.typed, w.target, i));
    }
}

/// Counting correct states over a prefix counts the matches there.
proof fn lemma_correct_prefix(w: WordModel, n: nat)
    requires
        w.wf(),
        n <= w.states.len(),
    ensures
        count_state(w.states.take(n as int), CharState::Correct) == matching_count(w.typed, w.target, n),
    decreases n,
{
    if n > 0 {
        lemma_correct_prefix(w, (n - 1) as nat);
        let i = n - 1;
        assert(w.states.take(n as int).drop_last() =~= w.states.take(i as int));
        assert(w.states[i] == w.expected_state(i));
    }
}

/// The counts of the four states add up to the length of the sequence.
pub proof fn lemma_count_total(s: Seq<CharState>)
    ensures
        count_state(s, CharState::Pending) + count_state(s, CharState::Correct) + count_state(
            s,
            CharState::Incorrect,
        ) + count_state(s, CharState::Extra) == s.len(),
    decreases s.len(),
{
    if s.len() > 0 {
        lemma_count_total(s.drop_last());
    }
}

/// Where `st` occurs exactly on the positions `lo..hi`, it occurs `hi - lo` times.
pub proof fn lemma_count_range(s: Seq<CharState>, st: CharState, lo: int, hi: int)
    requires
        0 <= lo <= hi <= s.len(),
        forall|i: int| 0 <= i < s.len() ==> (s[i] == st <==> lo <= i < hi),
    ensures
        count_state(s, st) == hi - lo,
    decreases s.len(),
{
    if s.len() > 0 {
        let n = s.len() - 1;
        let t = s.drop_last();
        if hi == s.len() && lo < hi {
            lemma_count_range(t, st, lo, n);
        } else if hi == s.len() {
            lemma_count_range(t, st, n, n);
        } else {
            lemma_count_range(t, st, lo, hi);
        }
    }
}

/// A count never exceeds the length.
pub proof fn lemma_count_bound(s: Seq<CharState>, st: CharState)
    ensures
        count_state(s, st) <= s.len(),
    decreases s.len(),
{
    if s.len() > 0 {
        lemma_count_bound(s.drop_last(), st);
    }
}

/// A fresh word is well formed, and typing, deleting and finishing keep a word well formed.
pub proof fn law_word_wf_preserved(w: WordModel, text: Seq<char>, c: char)
    requires
        w.wf(),
    ensures
        WordModel::fresh(text).wf(),
        w.can_type(),
        w.can_backspace(),
        w.type_char(c).wf(),
        w.backspace().wf(),
        w.finalize().wf(),
{
    let f = WordModel::fresh(text);
    assert forall|i: int| 0 <= i < f.states.len() implies f.states[i] == f.expected_state(i) by {}
    let t = w.type_char(c);
    assert forall|i: int| 0 <= i < t.states.len() implies t.states[i] == t.expected_state(i) by {
        if i < w.states.len() {
            assert(w.states[i] == w.expected_state(i));
        }
    }
    let b = w.backspace();
    if w.typed.len() > 0 {
        assert forall|i: int| 0 <= i < b.states.len() implies b.states[i] == b.expected_state(
            i,
        ) by {
            assert(w.states[i] == w.expected_state(i));
        }
    }
    let z = w.finalize();
    assert forall|i: int| 0 <= i < z.states.len() implies z.states[i] == z.expected_state(i) by {
        assert(w.states[i] == w.expected_state(i));
    }
}

/// Deleting the character just typed gives back the word as it was.
pub proof fn law_backspace_undoes_type_char(w: WordModel, c: char)
    requires
        w.wf(),
    ensures
        w.type_char(c).backspace() == w,
{
    let t = w.type_char(c);
    let b = t.backspace();
    assert(b.typed =~= w.typed);
    let pos = w.typed.len() as int;
    if pos < w.target.len() {
        assert(w.states[pos] == w.expected_state(pos));
        assert(b.states =~= w.states);
    } else {
        assert(b.states =~= w.states);
    }
}

/// Every typed character is counted once: as correct, incorrect or extra.
pub proof fn law_counts_cover_typed(w: WordModel)
    requires
        w.wf(),
    ensures
        w.correct_chars() + w.incorrect_chars() + w.extra_chars() == w.typed.len(),
{
    lemma_count_total(w.states);
    let lo = if w.typed.len() < w.target.len() {
        w.typed.len() as int
    } else {
        w.target.len() as int
    };
    assert forall|i: int| 0 <= i < w.states.len() implies (w.states[i] == CharState::Pending <==> lo
        <= i < w.target.len()) by {
        assert(w.states[i] == w.expected_state(i));
    }
    lemma_count_range(w.states, CharState::Pending, lo, w.target.len() as int);
}

/// A word is correct exactly when what was typed equals the target.
pub proof fn law_is_correct_iff_typed_target(w: WordModel)
    requires
        w.wf(),
    ensures
        w.is_correct() <==> w.typed == w.target,
{
    if w.is_correct() {
        assert forall|i: int| 0 <= i < w.typed.len() implies w.typed[i] == w.target[i] by {
            assert(w.states[i] == w.expected_state(i));
        }
        assert(w.typed =~= w.target);
    }
    if w.typed == w.target {
        assert forall|i: int| 0 <= i < w.states.len() implies w.states[i] == CharState::Correct by {
            assert(w.states[i] == w.expected_state(i));
        }
    }
}


/// The characters that end a word when deleting word by word: spaces and tabs.
pub open spec fn is_word_gap(c: char) -> bool {
    c == ' ' || c == '\t'
}

/// Whether `c` ends a word when deleting word by word.
pub fn word_gap(c: char) -> (r: bool)
    ensures
        r == is_word_gap(c),
{
    c == ' ' || c == '\t'
}

/// The length of `t` without its trailing spaces and tabs.
pub open spec fn trailing_gap_start(t: Seq<char>) -> nat
    decreases t.len(),
{
    if t.len() > 0 && is_word_gap(t.last()) {
        trailing_gap_start(t.drop_last())
    } else {
        t.len()
    }
}

/// The length of `t` without its trailing run of characters that are not word gaps.
pub open spec fn trailing_word_start(t: Seq<char>) -> nat
    decreases t.len(),
{
    if t.len() > 0 && !is_word_gap(t.last()) {
        trailing_word_start(t.drop_last())
    } else {
        t.len()
    }
}

/// How many characters deleting back one word keeps: the trailing spaces and tabs go,
/// then the word before them, back to the previous space or tab.
pub open spec fn kept_after_word_delete(t: Seq<char>) -> nat {
    trailing_word_start(t.take(trailing_gap_start(t) as int))
}

/// `n` deletions of the last typed character.
pub open spec fn backspace_times(w: WordModel, n: nat) -> WordModel
    decreases n,
{
    if n == 0 {
        w
    } else {
        backspace_times(w.backspace(), (n - 1) as nat)
    }
}

/// One more deletion after `n` of them.
pub proof fn lemma_backspace_times_step(w: WordModel, n: nat)
    ensures
        backspace_times(w, n + 1) == backspace_times(w, n).backspace(),
    decreases n,
{
    if n > 0 {
        lemma_backspace_times_step(w.backspace(), (n - 1) as nat);
    } else {
        assert(backspace_times(w.backspace(), 0) == w.backspace());
    }
}

/// The trailing gap and word start within the text.
pub proof fn lemma_trailing_starts_bounded(t: Seq<char>)
    ensures
        trailing_gap_start(t) <= t.len(),
        trailing_word_start(t) <= t.len(),
    decreases t.len(),
{
    if t.len() > 0 {
        lemma_trailing_starts_bounded(t.drop_last());
    }
}

/// After `n` deletions from a well-formed word, the word is well formed and keeps the first
/// `len - n` typed characters.
pub proof fn lemma_backspace_times_prefix(w: WordModel, n: nat)
    requires
        w.wf(),
        n <= w.typed.len(),
    ensures
        backspace_times(w, n).wf(),
        backspace_times(w, n).typed == w.typed.take(w.typed.len() - n),
        backspace_times(w, n).target == w.target,
        backspace_times(w, n).completed == w.completed,
    decreases n,
{
    if n > 0 {
        law_word_wf_preserved(w, Seq::empty(), ' ');
        lemma_backspace_times_prefix(w.backspace(), (n - 1) as nat);
        assert(w.backspace().typed.take(w.backspace().typed.len() - (n - 1)) =~= w.typed.take(
            w.typed.len() - n,
        ));
    } else {
        assert(w.typed.take(w.typed.len() as int) =~= w.typed);
    }
}

/// Deleting back one word leaves typed text that is empty or ends with a space or tab, and
/// removes a run of other characters followed only by spaces and tabs.
pub proof fn law_word_delete_shape(t: Seq<char>)
    ensures
        kept_after_word_delete(t) <= trailing_gap_start(t) <= t.len(),
        kept_after_word_delete(t) == 0 || is_word_gap(t[kept_after_word_delete(t) - 1]),
        forall|i: int| trailing_gap_start(t) <= i < t.len() ==> is_word_gap(#[trigger] t[i]),
        forall|i: int|
            kept_after_word_delete(t) <= i < trailing_gap_start(t) ==> !is_word_gap(#[trigger] t[i]),
    decreases t.len(),
{
    lemma_gap_shape(t);
    let g = trailing_gap_start(t);
    lemma_trailing_starts_bounded(t);
    let u = t.take(g as int);
    lemma_word_shape(u);
    assert forall|i: int| kept_after_word_delete(t) <= i < trailing_gap_start(t) implies !is_word_gap(
        #[trigger] t[i],
    ) by {
        assert(u[i] == t[i]);
    }
    if kept_after_word_delete(t) > 0 {
        assert(u[kept_after_word_delete(t) - 1] == t[kept_after_word_delete(t) - 1]);
    }
}

/// The trailing gap is made of gap characters.
proof fn lemma_gap_shape(t: Seq<char>)
    ensures
        trailing_gap_start(t) <= t.len(),
        forall|i: int| trailing_gap_start(t) <= i < t.len() ==> is_word_gap(#[trigger] t[i]),
    decreases t.len(),
{
    if t.len() > 0 && is_word_gap(t.last()) {
        lemma_gap_shape(t.drop_last());
        assert forall|i: int| trailing_gap_start(t) <= i < t.len() implies is_word_gap(
            #[trigger] t[i],
        ) by {
            if i < t.len() - 1 {
                assert(t.drop_last()[i] == t[i]);
            }
        }
    }
}

/// The trailing word holds no gap character.
proof fn lemma_word_shape(u: Seq<char>)
    ensures
        trailing_word_start(u) <= u.len(),
        trailing_word_start(u) == 0 || is_word_gap(u[trailing_word_start(u) - 1]),
        forall|i: int| trailing_word_start(u) <= i < u.len() ==> !is_word_gap(#[trigger] u[i]),
    decreases u.len(),
{
    if u.len() > 0 && !is_word_gap(u.last()) {
        lemma_word_shape(u.drop_last());
        assert forall|i: int| trailing_word_start(u) <= i < u.len() implies !is_word_gap(
            #[trigger] u[i],
        ) by {
            if i < u.len() - 1 {
                assert(u.drop_last()[i] == u[i]);
            }
        }
        if trailing_word_start(u) > 0 {
            assert(u.drop_last()[trailing_word_start(u) - 1] == u[trailing_word_start(u) - 1]);
        }
    }
}

/// Delete back to the previous word boundary within a word's typed characters: first the
/// trailing spaces and tabs, then the characters back to the next space or tab.
pub fn delete_back_word(word: &mut Word)
    requires
        old(word)@.wf(),
    ensures
        final(word)@ == backspace_times(
            old(word)@,
            (old(word)@.typed.len() - kept_after_word_delete(old(word)@.typed)) as nat,
        ),
        final(word)@.wf(),
        final(word)@.typed == old(word)@.typed.take(kept_after_word_delete(old(word)@.typed) as int),
{
    let ghost w0 = word@;
    let ghost t0 = word@.typed;
    proof {
        law_word_delete_shape(t0);
        lemma_trailing_starts_bounded(t0);
    }
    if word.typed.len() == 0 {
        proof {
            assert(t0.take(0) =~= t0);
        }
        return;
    }
    while word.typed.len() > 0
        invariant_except_break
            w0.wf(),
            word@.wf(),
            word.typed@.len() <= t0.len(),
            word@ == backspace_times(w0, (t0.len() - word.typed@.len()) as nat),
            word.typed@ == t0.take(word.typed@.len() as int),
            trailing_gap_start(word.typed@) == trailing_gap_start(t0),
        ensures
            word@.wf(),
            word.typed@.len() <= t0.len(),
            word@ == backspace_times(w0, (t0.len() - word.typed@.len()) as nat),
            word.typed@ == t0.take(word.typed@.len() as int),
            word.typed@.len() == trailing_gap_start(t0),
        decreases word.typed@.len(),
    {
        let last = word.typed[word.typed.len() - 1];
        if word_gap(last) {
            let ghost before = word@;
            proof {
                law_word_wf_preserved(word@, Seq::empty(), ' ');
                lemma_backspace_times_step(w0, (t0.len() - word.typed@.len()) as nat);
            }
            word.backspace();
            proof {
                law_word_wf_preserved(before, Seq::empty(), ' ');
                assert(word.typed@ =~= t0.take(word.typed@.len() as int));
                assert(before.typed.drop_last() == word.typed@);
            }
        } else {
            break;
        }
    }
    let ghost g = word.typed@.len();
    proof {
        assert(t0.take(g as int) == word.typed@);
    }
    while word.typed.len() > 0
        invariant_except_break
            w0.wf(),
            word@.wf(),
            word.typed@.len() <= g,
            g <= t0.len(),
            word@ == backspace_times(w0, (t0.len() - word.typed@.len()) as nat),
            word.typed@ == t0.take(word.typed@.len() as int),
            trailing_word_start(word.typed@) == kept_after_word_delete(t0),
        ensures
            word@.wf(),
            word@ == backspace_times(w0, (t0.len() - word.typed@.len()) as nat),
            word.typed@ == t0.take(word.typed@.len() as int),
            word.typed@.len() == kept_after_word_delete(t0),
        decreases word.typed@.len(),
    {
        let last = word.typed[word.typed.len() - 1];
        if word_gap(last) {
            break;
        }
        let ghost before = word@;
        proof {
            law_word_wf_preserved(word@, Seq::empty(), ' ');
            lemma_backspace_times_step(w0, (t0.len() - word.typed@.len()) as nat);
        }
        word.backspace();
        proof {
            assert(word.typed@ =~= t0.take(word.typed@.len() as int));
            assert(before.typed.drop_last() == word.typed@);
        }
    }
}

/// A single word (or code line) in the test
#[derive(Debug, Clone)]
pub struct Word {
    pub target: Vec<char>,
    pub states: Vec<CharState>,
    pub typed: Vec<char>,
    pub completed: bool,
}

impl View for Word {
    type V = WordModel;

    open spec fn view(&self) -> WordModel {
        WordModel {
            target: self.target@,
            states: self.states@,
            typed: self.typed@,
            completed: self.completed,
        }
    }
}

/// `n` copies of `st`.
pub fn repeat_state(st: CharState, n: usize) -> (r: Vec<CharState>)
    ensures
        r@ == Seq::new(n as nat, |i: int| st),
{
    let mut out: Vec<CharState> = Vec::new();
    let mut i: usize = 0;
    while i < n
        invariant
            i <= n,
            out@ == Seq::new(i as nat, |k: int| st),
        decreases n - i,
    {
        out.push(st);
        i = i + 1;
    }
    out
}

/// The number of entries of `s` equal to `st`.
pub fn count_in(s: &Vec<CharState>, st: CharState) -> (r: usize)
    ensures
        r == count_state(s@, st),
{
    let mut n: usize = 0;
    let mut i: usize = 0;
    while i < s.len()
        invariant
            i <= s@.len(),
            n == count_state(s@.take(i as int), st),
            n <= i,
        decreases s@.len() - i,
    {
        assert(s@.take(i + 1).drop_last() == s@.take(i as int));
        if s[i] == st {
            n = n + 1;
        }
        i = i + 1;
    }
    assert(s@.take(s@.len() as int) == s@);
    n
}

impl Word {
    /// A word to type, with nothing typed.
    pub fn new(text: &str) -> (r: Self)
        ensures
            r@ == WordModel::fresh(text@),
    {
        let target = chars_of(text);
        let len = target.len();
        Word { target, states: repeat_state(CharState::Pending, len), typed: Vec::new(), completed: false }
    }

    /// A copy of this word.
    pub fn duplicate(&self) -> (r: Self)
        ensures
            r@ == self@,
    {
        let mut target: Vec<char> = Vec::new();
        let mut i: usize = 0;
        while i < self.target.len()
            invariant
                i <= self.target@.len(),
                target@ == self.target@.take(i as int),
            decreases self.target@.len() - i,
        {
            target.push(self.target[i]);
            i = i + 1;
        }
        let mut states: Vec<CharState> = Vec::new();
        let mut j: usize = 0;
        while j < self.states.len()
            invariant
                j <= self.states@.len(),
                states@ == self.states@.take(j as int),
            decreases self.states@.len() - j,
        {
            states.push(self.states[j]);
            j = j + 1;
        }
        let mut typed: Vec<char> = Vec::new();
        let mut k: usize = 0;
        while k < self.typed.len()
            invariant
                k <= self.typed@.len(),
                typed@ == self.typed@.take(k as int),
            decreases self.typed@.len() - k,
        {
            typed.push(self.typed[k]);
            k = k + 1;
        }
        assert(target@ == self.target@);
        assert(states@ == self.states@);
        assert(typed@ == self.typed@);
        Word { target, states, typed, completed: self.completed }
    }

    /// The position of the cursor: the number of typed characters.
    pub fn cursor_pos(&self) -> (r: usize)
        ensures
            r == self.typed@.len(),
    {
        self.typed.len()
    }

    /// Whether the whole target was typed without a mistake.
    pub fn is_correct(&self) -> (r: bool)
        ensures
            r == self@.is_correct(),
    {
        if self.typed.len() != self.target.len() {
            return false;
        }
        let mut i: usize = 0;
        while i < self.states.len()
            invariant
                i <= self.states@.len(),
                forall|k: int| 0 <= k < i ==> self.states@[k] == CharState::Correct,
            decreases self.states@.len() - i,
        {
            if self.states[i] != CharState::Correct {
                return false;
            }
            i = i + 1;
        }
        true
    }

    /// Types `c` at the cursor.
    pub fn type_char(&mut self, c: char)
        requires
            old(self)@.can_type(),
        ensures
            final(self)@ == old(self)@.type_char(c),
    {
        let pos = self.typed.len();
        self.typed.push(c);
        if pos < self.target.len() {
            if c == self.target[pos] {
                self.states.set(pos, CharState::Correct);
            } else {
                self.states.set(pos, CharState::Incorrect);
            }
        } else {
            self.states.push(CharState::Extra);
        }
    }

    /// Deletes the last typed character, if any.
    pub fn backspace(&mut self)
        requires
            old(self)@.can_backspace(),
        ensures
            final(self)@ == old(self)@.backspace(),
    {
        if self.typed.len() == 0 {
            return;
        }
        let pos = self.typed.len() - 1;
        self.typed.pop();
        if pos < self.target.len() {
            self.states.set(pos, CharState::Pending);
        } else {
            self.states.pop();
        }
    }

    /// Marks the word completed.
    pub fn finalize(&mut self)
        ensures
            final(self)@ == old(self)@.finalize(),
    {
        self.completed = true;
    }

    /// The characters typed right.
    pub fn correct_chars(&self) -> (r: usize)
        ensures
            r == self@.correct_chars(),
    {
        count_in(&self.states, CharState::Correct)
    }

    /// The characters typed wrong.
    pub fn incorrect_chars(&self) -> (r: usize)
        ensures
            r == self@.incorrect_chars(),
    {
        count_in(&self.states, CharState::Incorrect)
    }

    /// The characters typed past the end.
    pub fn extra_chars(&self) -> (r: usize)
        ensures
            r == self@.extra_chars(),
    {
        count_in(&self.states, CharState::Extra)
    }

    /// The characters left untyped, once the word is completed.
    pub fn missed_chars(&self) -> (r: usize)
        ensures
            r == self@.missed_chars(),
    {
        if !self.completed {
            return 0;
        }
        if self.typed.len() < self.target.len() {
            self.target.len() - self.typed.len()
        } else {
            0
        }
    }
}

} // verus!
