use vstd::prelude::*;
use vstd::string::StrSliceExecFns;

verus! {

broadcast use vstd::string::group_string_axioms;

/// The characters of a string, in order.
pub fn chars_of(text: &str) -> (r: Vec<char>)
    ensures
        r@ == text@,
{
    let mut out: Vec<char> = Vec::new();
    for c in it: text.chars()
        invariant
            out@ == it.seq().take(it.index() as int),
    {
        out.push(c);
    }
    out
}

/// The characters with the Unicode `White_Space` property, which `char::is_whitespace`
/// and the `trim` family of `str` methods recognise.
pub open spec fn is_unicode_whitespace(c: char) -> bool {
    let n = c as u32;
    ||| n == 0x20
    ||| 0x9 <= n <= 0xd
    ||| n == 0x85
    ||| n == 0xa0
    ||| n == 0x1680
    ||| 0x2000 <= n <= 0x200a
    ||| n == 0x2028
    ||| n == 0x2029
    ||| n == 0x202f
    ||| n == 0x205f
    ||| n == 0x3000
}

/// Whether `c` is white space in Unicode's sense.
pub fn is_whitespace(c: char) -> (r: bool)
    ensures
        r == is_unicode_whitespace(c),
{
    let n = c as u32;
    n == 0x20 || (0x9 <= n && n <= 0xd) || n == 0x85 || n == 0xa0 || n == 0x1680 || (0x2000 <= n
        && n <= 0x200a) || n == 0x2028 || n == 0x2029 || n == 0x202f || n == 0x205f || n == 0x3000
}

/// The end of the run of white space that starts at `i`.
pub open spec fn whitespace_run_end(s: Seq<char>, i: int) -> int
    decreases s.len() - i,
{
    if 0 <= i < s.len() && is_unicode_whitespace(s[i]) {
        whitespace_run_end(s, i + 1)
    } else {
        i
    }
}

/// The number of leading white-space characters of `s`.
pub open spec fn leading_whitespace_len(s: Seq<char>) -> int {
    whitespace_run_end(s, 0)
}

/// `s` without its leading white space (what `str::trim_start` gives).
pub open spec fn trim_start(s: Seq<char>) -> Seq<char> {
    s.skip(leading_whitespace_len(s))
}

/// A run of white space ends at a character that is not white space.
pub proof fn lemma_whitespace_run(s: Seq<char>, i: int)
    requires
        0 <= i <= s.len(),
    ensures
        i <= whitespace_run_end(s, i) <= s.len(),
        forall|k: int| i <= k < whitespace_run_end(s, i) ==> is_unicode_whitespace(#[trigger] s[k]),
        whitespace_run_end(s, i) < s.len() ==> !is_unicode_whitespace(s[whitespace_run_end(s, i)]),
    decreases s.len() - i,
{
    if i < s.len() && is_unicode_whitespace(s[i]) {
        lemma_whitespace_run(s, i + 1);
    }
}

/// The length of the leading white space of a string, in characters.
pub fn leading_whitespace(s: &Vec<char>) -> (r: usize)
    ensures
        r == leading_whitespace_len(s@),
{
    let mut i: usize = 0;
    while i < s.len() && is_whitespace(s[i])
        invariant
            i <= s@.len(),
            whitespace_run_end(s@, i as int) == whitespace_run_end(s@, 0),
        decreases s@.len() - i,
    {
        i = i + 1;
    }
    i
}

/// Splits a line into its leading white space and the rest.
pub fn split_indent(line: &str) -> (r: (String, &str))
    ensures
        r.0@ == line@.take(leading_whitespace_len(line@)),
        r.1@ == trim_start(line@),
{
    let cs = chars_of(line);
    let k = leading_whitespace(&cs);
    proof {
        lemma_whitespace_run(line@, 0);
    }
    let n = cs.len();
    let indent = line.substring_char(0, k);
    let rest = line.substring_char(k, n);
    proof {
        assert(line@.subrange(k as int, n as int) =~= line@.skip(k as int));
        assert(line@.subrange(0, k as int) =~= line@.take(k as int));
    }
    (indent.to_owned(), rest)
}


/// Calls `String::from_iter` (its `FromIterator<&char>` impl): the string made of the
/// characters of `cs`, in order.
#[verifier::external_body]
pub fn string_from_chars(cs: &[char]) -> (r: String)
    ensures
        r@ == cs@,
{
    String::from_iter(cs)
}

/// What `str::to_lowercase` gives for a string (its Unicode lower-case mapping, which
/// depends on neighbouring characters for some letters).
pub uninterp spec fn str_lower(s: Seq<char>) -> Seq<char>;

/// Calls `str::to_lowercase`: its result is named `str_lower` of the argument.
#[verifier::external_body]
pub fn to_lowercase(s: &str) -> (r: String)
    ensures
        r@ == str_lower(s@),
{
    s.to_lowercase()
}

/// What `str::to_uppercase` gives for a string: the Unicode upper-case mapping of each
/// character, in order (one character can map to several).
pub uninterp spec fn str_upper(s: Seq<char>) -> Seq<char>;

/// Calls `str::to_uppercase`: its result is named `str_upper` of the argument.
#[verifier::external_body]
pub fn to_uppercase(s: &str) -> (r: String)
    ensures
        r@ == str_upper(s@),
{
    s.to_uppercase()
}

/// What `char::is_alphanumeric` gives for a character (the Unicode `Alphabetic` or
/// `Numeric` property).
pub uninterp spec fn char_alphanumeric(c: char) -> bool;

/// Calls `char::is_alphanumeric`: its result is named `char_alphanumeric` of the argument.
#[verifier::external_body]
pub fn is_alphanumeric(c: char) -> (r: bool)
    ensures
        r == char_alphanumeric(c),
{
    c.is_alphanumeric()
}

/// Whether two strings hold the same characters.
pub fn same_text(a: &str, b: &str) -> (r: bool)
    ensures
        r == (a@ == b@),
{
    let x = chars_of(a);
    let y = chars_of(b);
    if x.len() != y.len() {
        return false;
    }
    let mut i: usize = 0;
    while i < x.len()
        invariant
            x@ == a@,
            y@ == b@,
            x@.len() == y@.len(),
            i <= x@.len(),
            forall|k: int| 0 <= k < i ==> x@[k] == y@[k],
        decreases x@.len() - i,
    {
        if x[i] != y[i] {
            return false;
        }
        i = i + 1;
    }
    assert(x@ =~= y@);
    true
}

/// The index of the first `'\n'` at or after `i`, or the length when there is none.
pub open spec fn newline_from(s: Seq<char>, i: int) -> int
    decreases s.len() - i,
{
    if i < 0 || i >= s.len() {
        s.len() as int
    } else if s[i] == '\n' {
        i
    } else {
        newline_from(s, i + 1)
    }
}

/// The next newline is a newline, with none before it.
pub proof fn lemma_newline_from(s: Seq<char>, i: int)
    requires
        0 <= i <= s.len(),
    ensures
        i <= newline_from(s, i) <= s.len(),
        newline_from(s, i) < s.len() ==> s[newline_from(s, i)] == '\n',
        forall|k: int| i <= k < newline_from(s, i) ==> s[k] != '\n',
    decreases s.len() - i,
{
    if i < s.len() && s[i] != '\n' {
        lemma_newline_from(s, i + 1);
    }
}

/// A line without the `'\r'` of a `"\r\n"` ending.
pub open spec fn strip_cr(l: Seq<char>) -> Seq<char> {
    if l.len() > 0 && l.last() == '\r' {
        l.drop_last()
    } else {
        l
    }
}

/// The lines of `s` from position `i`, as `str::lines` gives them: split after each
/// `'\n'`, without the line ending (`"\n"` or `"\r\n"`), and no empty line after a final
/// line ending.
pub open spec fn lines_from(s: Seq<char>, i: int) -> Seq<Seq<char>>
    decreases s.len() - i,
{
    if i < 0 || i >= s.len() {
        Seq::empty()
    } else {
        let k = newline_from(s, i);
        if k < i || k >= s.len() {
            seq![s.subrange(i, s.len() as int)]
        } else {
            seq![strip_cr(s.subrange(i, k))] + lines_from(s, k + 1)
        }
    }
}

/// The lines of `s`, as `str::lines` gives them.
pub open spec fn str_lines(s: Seq<char>) -> Seq<Seq<char>> {
    lines_from(s, 0)
}

/// The lines of a string, as `str::lines` gives them.
pub fn lines_of(s: &str) -> (r: Vec<String>)
    ensures
        r@.map_values(|x: String| x@) == str_lines(s@),
{
    let cs = chars_of(s);
    let ghost t = cs@;
    let mut out: Vec<String> = Vec::new();
    let mut i: usize = 0;
    while i < cs.len()
        invariant
            t == s@,
            t == cs@,
            i <= t.len(),
            str_lines(t) == out@.map_values(|x: String| x@) + lines_from(t, i as int),
        decreases t.len() - i,
    {
        let ghost before = out@.map_values(|x: String| x@);
        let ghost i0 = i as int;
        let mut line: Vec<char> = Vec::new();
        let mut j: usize = i;
        proof {
            lemma_newline_from(t, i as int);
        }
        while j < cs.len() && cs[j] != '\n'
            invariant
                t == cs@,
                i <= j <= t.len(),
                line@ == t.subrange(i as int, j as int),
                newline_from(t, i as int) == newline_from(t, j as int),
            decreases t.len() - j,
        {
            line.push(cs[j]);
            j = j + 1;
            proof {
                assert(line@ =~= t.subrange(i as int, j as int));
            }
        }
        if j < cs.len() {
            if line.len() > 0 && line[line.len() - 1] == '\r' {
                line.pop();
            }
            let piece = string_from_chars(line.as_slice());
            out.push(piece);
            i = j + 1;
            proof {
                assert(out@.map_values(|x: String| x@) =~= before.push(piece@));
                assert(newline_from(t, j as int) == j);
                assert(piece@ == strip_cr(t.subrange(i0, j as int)));
                assert(lines_from(t, i0) == seq![strip_cr(t.subrange(i0, j as int))] + lines_from(
                    t,
                    j + 1,
                ));
                assert(before.push(piece@) + lines_from(t, j + 1) =~= before + lines_from(t, i0));
            }
        } else {
            let piece = string_from_chars(line.as_slice());
            out.push(piece);
            i = j;
            proof {
                assert(out@.map_values(|x: String| x@) =~= before.push(piece@));
                assert(newline_from(t, j as int) == j);
                assert(lines_from(t, i0) == seq![t.subrange(i0, t.len() as int)]);
                assert(before.push(piece@) + lines_from(t, j as int) =~= before + lines_from(t, i0));
            }
        }
    }
    proof {
        assert(out@.map_values(|x: String| x@) + lines_from(t, i as int) =~= out@.map_values(|x: String| x@));
    }
    out
}

/// The end of the run of non-white-space characters that starts at `i`.
pub open spec fn word_run_end(s: Seq<char>, i: int) -> int
    decreases s.len() - i,
{
    if 0 <= i < s.len() && !is_unicode_whitespace(s[i]) {
        word_run_end(s, i + 1)
    } else {
        i
    }
}

/// A run of non-white-space characters stays in the text and is not empty when it starts on one.
pub proof fn lemma_word_run(s: Seq<char>, i: int)
    requires
        0 <= i <= s.len(),
    ensures
        i <= word_run_end(s, i) <= s.len(),
        i < s.len() && !is_unicode_whitespace(s[i]) ==> i < word_run_end(s, i),
    decreases s.len() - i,
{
    if i < s.len() && !is_unicode_whitespace(s[i]) {
        lemma_word_run(s, i + 1);
    }
}

/// The words of `s` from position `i`, as `str::split_whitespace` gives them: the maximal
/// runs of characters that are not white space.
pub open spec fn words_from(s: Seq<char>, i: int) -> Seq<Seq<char>>
    decreases s.len() - i,
{
    if i < 0 || i >= s.len() {
        Seq::empty()
    } else {
        let j = whitespace_run_end(s, i);
        if j <= i && is_unicode_whitespace(s[i]) {
            Seq::empty()
        } else if j >= s.len() {
            Seq::empty()
        } else {
            let k = word_run_end(s, j);
            proof {
                lemma_whitespace_run(s, i);
                lemma_word_run(s, j);
            }
            if k <= i {
                Seq::empty()
            } else {
                seq![s.subrange(j, k)] + words_from(s, k)
            }
        }
    }
}

/// The words of a string, as `str::split_whitespace` gives them.
pub fn split_whitespace(text: &str) -> (r: Vec<String>)
    ensures
        r@.map_values(|x: String| x@) == words_from(text@, 0),
{
    let cs = chars_of(text);
    let ghost t = cs@;
    let mut out: Vec<String> = Vec::new();
    let mut i: usize = 0;
    while i < cs.len()
        invariant
            t == text@,
            t == cs@,
            i <= t.len(),
            words_from(t, 0) == out@.map_values(|x: String| x@) + words_from(t, i as int),
        decreases t.len() - i,
    {
        let ghost before = out@.map_values(|x: String| x@);
        let ghost i0 = i as int;
        proof {
            lemma_whitespace_run(t, i as int);
        }
        let mut j: usize = i;
        while j < cs.len() && is_whitespace(cs[j])
            invariant
                t == cs@,
                i <= j <= t.len(),
                whitespace_run_end(t, i as int) == whitespace_run_end(t, j as int),
            decreases t.len() - j,
        {
            j = j + 1;
        }
        if j >= cs.len() {
            proof {
                assert(words_from(t, i0) == Seq::<Seq<char>>::empty());
                assert(before + words_from(t, j as int) =~= before + words_from(t, i0));
            }
            i = j;
        } else {
            proof {
                lemma_word_run(t, j as int);
            }
            let mut word: Vec<char> = Vec::new();
            let mut k: usize = j;
            while k < cs.len() && !is_whitespace(cs[k])
                invariant
                    t == cs@,
                    j <= k <= t.len(),
                    word@ == t.subrange(j as int, k as int),
                    word_run_end(t, j as int) == word_run_end(t, k as int),
                decreases t.len() - k,
            {
                word.push(cs[k]);
                k = k + 1;
                proof {
                    assert(word@ =~= t.subrange(j as int, k as int));
                }
            }
            let piece = string_from_chars(word.as_slice());
            out.push(piece);
            proof {
                assert(out@.map_values(|x: String| x@) =~= before.push(piece@));
                assert(words_from(t, i0) == seq![t.subrange(j as int, k as int)] + words_from(
                    t,
                    k as int,
                ));
                assert(before.push(piece@) + words_from(t, k as int) =~= before + words_from(t, i0));
            }
            i = k;
        }
    }
    proof {
        assert(out@.map_values(|x: String| x@) + words_from(t, i as int) =~= out@.map_values(
            |x: String| x@,
        ));
    }
    out
}

/// Whether `p` occurs in `s` at position `i`.
pub open spec fn occurs_at(s: Seq<char>, p: Seq<char>, i: int) -> bool {
    0 <= i && i + p.len() <= s.len() && s.subrange(i, i + p.len()) == p
}

/// Whether `p` occurs in `s` at position `i`.
pub fn occurs_at_exec(s: &Vec<char>, p: &Vec<char>, i: usize) -> (r: bool)
    ensures
        r == occurs_at(s@, p@, i as int),
{
    if i > s.len() || p.len() > s.len() - i {
        return false;
    }
    let n = s.len();
    let mut k: usize = 0;
    while k < p.len()
        invariant
            n == s@.len(),
            i + p@.len() <= s@.len(),
            k <= p@.len(),
            forall|m: int| 0 <= m < k ==> s@[i + m] == p@[m],
        decreases p@.len() - k,
    {
        if s[i + k] != p[k] {
            assert(s@.subrange(i as int, i + p@.len())[k as int] != p@[k as int]);
            return false;
        }
        k = k + 1;
    }
    assert(s@.subrange(i as int, i + p@.len()) =~= p@);
    true
}

/// The characters of `s` from `from` up to `to`.
pub fn copy_range(s: &Vec<char>, from: usize, to: usize) -> (r: Vec<char>)
    requires
        from <= to <= s@.len(),
    ensures
        r@ == s@.subrange(from as int, to as int),
{
    let mut out: Vec<char> = Vec::new();
    let mut k: usize = from;
    while k < to
        invariant
            from <= k <= to,
            to <= s@.len(),
            out@ == s@.subrange(from as int, k as int),
        decreases to - k,
    {
        out.push(s[k]);
        k = k + 1;
        assert(out@ =~= s@.subrange(from as int, k as int));
    }
    out
}


/// Whether `n` occurs somewhere in `h` (what `str::contains` tests for a string pattern).
pub open spec fn has_substring(h: Seq<char>, n: Seq<char>) -> bool {
    exists|i: int| occurs_at(h, n, i)
}

/// Whether `n` occurs somewhere in `h`.
pub fn contains_text(h: &str, n: &str) -> (r: bool)
    ensures
        r == has_substring(h@, n@),
{
    let hs = chars_of(h);
    let ns = chars_of(n);
    if ns.len() > hs.len() {
        proof {
            assert forall|i: int| !occurs_at(h@, n@, i) by {}
        }
        return false;
    }
    let last = hs.len() - ns.len();
    let mut i: usize = 0;
    while i <= last
        invariant
            hs@ == h@,
            ns@ == n@,
            last == hs@.len() - ns@.len(),
            i <= last + 1,
            forall|k: int| 0 <= k < i ==> !occurs_at(h@, n@, k),
        decreases last + 1 - i,
    {
        if occurs_at_exec(&hs, &ns, i) {
            return true;
        }
        if i == last {
            proof {
                assert forall|k: int| !occurs_at(h@, n@, k) by {
                    if 0 <= k <= last {
                    }
                }
            }
            return false;
        }
        i = i + 1;
    }
    false
}

} // verus!
