use vstd::prelude::*;
use vstd::string::StringSliceAdditionalSpecFns;
use vstd::utf8::encode_utf8;
use crate::text::{contains_text, has_substring, str_lower, to_lowercase};

verus! {

/// A colour of the palette: a 24-bit colour, or the terminal's white, which stands in for a
/// colour that could not be read.
#[derive(Debug, Clone, Copy, PartialEq, Eq, Structural)]
pub enum Color {
    Rgb(u8, u8, u8),
    White,
}

/// The end of the run of `#` bytes that starts at `i`.
pub open spec fn hash_run_end(b: Seq<u8>, i: int) -> int
    decreases b.len() - i,
{
    if 0 <= i < b.len() && b[i] == 35 {
        hash_run_end(b, i + 1)
    } else {
        i
    }
}

/// The bytes without their leading `#` characters (a `#` is the single byte 35 in UTF-8).
pub open spec fn strip_hashes(b: Seq<u8>) -> Seq<u8> {
    b.skip(hash_run_end(b, 0))
}

/// A three-digit code stands for the six-digit code with each digit doubled.
pub open spec fn expand_short(t: Seq<u8>) -> Seq<u8> {
    if t.len() == 3 {
        seq![t[0], t[0], t[1], t[1], t[2], t[2]]
    } else {
        t
    }
}

/// An ASCII hexadecimal digit, in either case.
pub open spec fn is_hex_digit(c: u8) -> bool {
    ||| 48 <= c <= 57
    ||| 65 <= c <= 70
    ||| 97 <= c <= 102
}

/// The value of a hexadecimal digit.
pub open spec fn hex_value(c: u8) -> int {
    if 48 <= c <= 57 {
        c - 48
    } else if 65 <= c <= 70 {
        c - 55
    } else {
        c - 87
    }
}

/// The channel read from two bytes in base 16, as `u8::from_str_radix` reads them (an
/// optional `+` before one digit), or 255 when they are not a number.
pub open spec fn channel_of(a: u8, b: u8) -> u8 {
    if a == 43 {
        if is_hex_digit(b) {
            hex_value(b) as u8
        } else {
            255
        }
    } else if is_hex_digit(a) && is_hex_digit(b) {
        (16 * hex_value(a) + hex_value(b)) as u8
    } else {
        255
    }
}

/// A byte inside a UTF-8 character, not at its start.
pub open spec fn is_continuation(c: u8) -> bool {
    128 <= c < 192
}

/// The codes that can be read without slicing inside a character: a three-byte code is
/// three ASCII characters, and in a longer one the channels start on character boundaries.
pub open spec fn hex_readable(b: Seq<u8>) -> bool {
    let t = strip_hashes(b);
    &&& t.len() == 3 ==> t[0] < 128 && t[1] < 128 && t[2] < 128
    &&& t.len() >= 6 ==> !is_continuation(t[2]) && !is_continuation(t[4])
    &&& t.len() > 6 ==> !is_continuation(t[6])
}

/// The colour of a code: `#` signs are dropped, a three-digit code is doubled, a code of
/// fewer than six bytes is white, and the first six bytes give red, green and blue.
pub open spec fn hex_color(b: Seq<u8>) -> Color {
    let e = expand_short(strip_hashes(b));
    if e.len() < 6 {
        Color::White
    } else {
        Color::Rgb(channel_of(e[0], e[1]), channel_of(e[2], e[3]), channel_of(e[4], e[5]))
    }
}

/// Whether the colour code of a string can be read.
pub open spec fn color_readable(s: Seq<char>) -> bool {
    hex_readable(encode_utf8(s))
}

/// The colour of a string's code.
pub open spec fn color_of(s: Seq<char>) -> Color {
    hex_color(encode_utf8(s))
}

/// The value of a hexadecimal digit, if `c` is one.
fn hex_digit(c: u8) -> (r: Option<u8>)
    ensures
        r == (if is_hex_digit(c) {
            Some(hex_value(c) as u8)
        } else {
            None::<u8>
        }),
{
    if 48 <= c && c <= 57 {
        Some(c - 48)
    } else if 65 <= c && c <= 70 {
        Some(c - 55)
    } else if 97 <= c && c <= 102 {
        Some(c - 87)
    } else {
        None
    }
}

/// A colour channel read from two bytes.
fn channel(a: u8, b: u8) -> (r: u8)
    ensures
        r == channel_of(a, b),
{
    if a == 43 {
        match hex_digit(b) {
            Some(v) => v,
            None => 255,
        }
    } else {
        match (hex_digit(a), hex_digit(b)) {
            (Some(x), Some(y)) => 16 * x + y,
            _ => 255,
        }
    }
}

/// Whether `hex_to_color` can read `hex`.
pub fn hex_is_readable(hex: &str) -> (r: bool)
    ensures
        r == hex_readable(hex.spec_bytes()),
{
    let b = hex.as_bytes();
    let mut k: usize = 0;
    while k < b.len() && b[k] == 35
        invariant
            b@ == hex.spec_bytes(),
            k <= b@.len(),
            hash_run_end(b@, k as int) == hash_run_end(b@, 0),
        decreases b@.len() - k,
    {
        k = k + 1;
    }
    let n = b.len() - k;
    proof {
        assert(strip_hashes(b@) =~= b@.skip(k as int));
    }
    if n == 3 {
        b[k] < 128 && b[k + 1] < 128 && b[k + 2] < 128
    } else if n >= 6 {
        let ok = !(128 <= b[k + 2] && b[k + 2] < 192) && !(128 <= b[k + 4] && b[k + 4] < 192);
        if n > 6 {
            ok && !(128 <= b[k + 6] && b[k + 6] < 192)
        } else {
            ok
        }
    } else {
        true
    }
}

/// The colour of a hex code such as `#ff8800` or `#f80`.
pub fn hex_to_color(hex: &str) -> (r: Color)
    requires
        hex_readable(hex.spec_bytes()),
    ensures
        r == hex_color(hex.spec_bytes()),
{
    let b = hex.as_bytes();
    let mut k: usize = 0;
    while k < b.len() && b[k] == 35
        invariant
            b@ == hex.spec_bytes(),
            k <= b@.len(),
            hash_run_end(b@, k as int) == hash_run_end(b@, 0),
        decreases b@.len() - k,
    {
        k = k + 1;
    }
    let n = b.len() - k;
    let ghost t = strip_hashes(b@);
    proof {
        assert(t =~= b@.skip(k as int));
    }
    if n == 3 {
        let x = b[k];
        let y = b[k + 1];
        let z = b[k + 2];
        proof {
            assert(expand_short(t) =~= seq![x, x, y, y, z, z]);
        }
        Color::Rgb(channel(x, x), channel(y, y), channel(z, z))
    } else if n < 6 {
        Color::White
    } else {
        Color::Rgb(
            channel(b[k], b[k + 1]),
            channel(b[k + 2], b[k + 3]),
            channel(b[k + 4], b[k + 5]),
        )
    }
}


/// A theme as the theme file writes it: colour codes by role.
#[derive(Debug, Clone)]
pub struct RawTheme {
    pub bg: String,
    pub main: String,
    pub caret: String,
    pub sub: String,
    pub sub_alt: String,
    pub text: String,
    pub error: String,
    pub error_extra: String,
}

impl RawTheme {
    /// Every colour that a theme is made from can be read (`sub_alt` is never read, and
    /// `error_extra` only when it is given).
    pub open spec fn readable(self) -> bool {
        &&& color_readable(self.bg@)
        &&& color_readable(self.main@)
        &&& color_readable(self.caret@)
        &&& color_readable(self.sub@)
        &&& color_readable(self.text@)
        &&& color_readable(self.error@)
        &&& self.error_extra@.len() > 0 ==> color_readable(self.error_extra@)
    }

    /// Whether every colour that a theme is made from can be read.
    pub fn is_readable(&self) -> (r: bool)
        ensures
            r == self.readable(),
    {
        hex_is_readable(self.bg.as_str()) && hex_is_readable(self.main.as_str())
            && hex_is_readable(self.caret.as_str()) && hex_is_readable(self.sub.as_str())
            && hex_is_readable(self.text.as_str()) && hex_is_readable(self.error.as_str())
            && (self.error_extra.as_str().is_empty() || hex_is_readable(self.error_extra.as_str()))
    }
}

/// The colours of a theme by the role they play on screen.
pub struct ThemeView {
    pub name: Seq<char>,
    pub bg: Color,
    pub text: Color,
    pub text_dim: Color,
    pub sub: Color,
    pub main_color: Color,
    pub correct: Color,
    pub incorrect: Color,
    pub extra: Color,
    pub error_bg: Color,
    pub caret: Color,
}

/// Runtime theme colors used for rendering
#[derive(Debug, Clone)]
pub struct Theme {
    pub name: String,
    pub bg: Color,
    pub text: Color,
    pub text_dim: Color,
    pub sub: Color,
    pub main_color: Color,
    pub correct: Color,
    pub incorrect: Color,
    pub extra: Color,
    pub error_bg: Color,
    pub caret: Color,
}

impl View for Theme {
    type V = ThemeView;

    open spec fn view(&self) -> ThemeView {
        ThemeView {
            name: self.name@,
            bg: self.bg,
            text: self.text,
            text_dim: self.text_dim,
            sub: self.sub,
            main_color: self.main_color,
            correct: self.correct,
            incorrect: self.incorrect,
            extra: self.extra,
            error_bg: self.error_bg,
            caret: self.caret,
        }
    }
}

impl ThemeView {
    /// The theme named `name` made from `raw`: text is typed in the text colour, the
    /// dimmed text and the labels use `sub`, errors use `error`, and extra characters and
    /// the error background use `error_extra` (`error` when it is not given).
    pub open spec fn from_raw(name: Seq<char>, raw: RawTheme) -> ThemeView {
        let error = color_of(raw.error@);
        let error_extra = if raw.error_extra@.len() == 0 {
            error
        } else {
            color_of(raw.error_extra@)
        };
        ThemeView {
            name,
            bg: color_of(raw.bg@),
            text: color_of(raw.text@),
            text_dim: color_of(raw.sub@),
            sub: color_of(raw.sub@),
            main_color: color_of(raw.main@),
            correct: color_of(raw.text@),
            incorrect: error,
            extra: error_extra,
            error_bg: error_extra,
            caret: color_of(raw.caret@),
        }
    }

    /// Serika dark, the theme used when no other is found.
    pub open spec fn serika_dark() -> ThemeView {
        ThemeView {
            name: "serika_dark"@,
            bg: Color::Rgb(50, 52, 55),
            text: Color::Rgb(210, 208, 200),
            text_dim: Color::Rgb(100, 102, 105),
            sub: Color::Rgb(100, 102, 105),
            main_color: Color::Rgb(226, 183, 20),
            correct: Color::Rgb(210, 208, 200),
            incorrect: Color::Rgb(202, 71, 71),
            extra: Color::Rgb(126, 50, 50),
            error_bg: Color::Rgb(126, 50, 50),
            caret: Color::Rgb(226, 183, 20),
        }
    }
}

/// The colour of a string's code.
fn string_color(s: &String) -> (r: Color)
    requires
        color_readable(s@),
    ensures
        r == color_of(s@),
{
    hex_to_color(s.as_str())
}

impl Theme {
    /// The theme named `name` made from the colour codes of `raw`.
    pub fn from_raw(name: &str, raw: &RawTheme) -> (r: Self)
        requires
            raw.readable(),
        ensures
            r@ == ThemeView::from_raw(name@, *raw),
    {
        let bg = string_color(&raw.bg);
        let text = string_color(&raw.text);
        let sub = string_color(&raw.sub);
        let main_color = string_color(&raw.main);
        let error = string_color(&raw.error);
        let error_extra = if raw.error_extra.as_str().is_empty() {
            error
        } else {
            string_color(&raw.error_extra)
        };
        Theme {
            name: name.to_owned(),
            bg,
            text,
            text_dim: sub,
            sub,
            main_color,
            correct: text,
            incorrect: error,
            extra: error_extra,
            error_bg: error_extra,
            caret: string_color(&raw.caret),
        }
    }
}

impl Default for Theme {
    /// Serika dark (monkeytype default) - hardcoded fallback
    fn default() -> (r: Self)
        ensures
            r@ == ThemeView::serika_dark(),
    {
        let name = "serika_dark";
        proof {
            reveal_strlit("serika_dark");
        }
        Theme {
            name: name.to_owned(),
            bg: Color::Rgb(50, 52, 55),
            text: Color::Rgb(210, 208, 200),
            text_dim: Color::Rgb(100, 102, 105),
            sub: Color::Rgb(100, 102, 105),
            main_color: Color::Rgb(226, 183, 20),
            correct: Color::Rgb(210, 208, 200),
            incorrect: Color::Rgb(202, 71, 71),
            extra: Color::Rgb(126, 50, 50),
            error_bg: Color::Rgb(126, 50, 50),
            caret: Color::Rgb(226, 183, 20),
        }
    }
}


/// The order of `String`: lexicographic by code point.
pub open spec fn text_lt(a: Seq<char>, b: Seq<char>) -> bool
    decreases a.len(),
{
    if a.len() == 0 {
        b.len() > 0
    } else if b.len() == 0 {
        false
    } else if a[0] == b[0] {
        text_lt(a.drop_first(), b.drop_first())
    } else {
        (a[0] as int) < (b[0] as int)
    }
}

/// No text comes before itself.
pub proof fn lemma_text_lt_irreflexive(a: Seq<char>)
    ensures
        !text_lt(a, a),
    decreases a.len(),
{
    if a.len() > 0 {
        lemma_text_lt_irreflexive(a.drop_first());
    }
}

/// Of two different texts one comes first, and never both.
pub proof fn lemma_text_lt_total(a: Seq<char>, b: Seq<char>)
    ensures
        a != b ==> text_lt(a, b) || text_lt(b, a),
        !(text_lt(a, b) && text_lt(b, a)),
    decreases a.len(),
{
    if a.len() == 0 && b.len() == 0 {
        assert(a =~= b);
    } else if a.len() > 0 && b.len() > 0 {
        if a[0] == b[0] {
            lemma_text_lt_total(a.drop_first(), b.drop_first());
            if a.drop_first() == b.drop_first() {
                assert(a =~= seq![a[0]] + a.drop_first());
                assert(b =~= seq![b[0]] + b.drop_first());
            }
        } else {
            assert((a[0] as int) != (b[0] as int));
        }
    }
}

/// The order of texts is transitive.
pub proof fn lemma_text_lt_transitive(a: Seq<char>, b: Seq<char>, c: Seq<char>)
    requires
        text_lt(a, b),
        text_lt(b, c),
    ensures
        text_lt(a, c),
    decreases a.len(),
{
    if a.len() > 0 && b.len() > 0 && c.len() > 0 && a[0] == b[0] && b[0] == c[0] {
        lemma_text_lt_transitive(a.drop_first(), b.drop_first(), c.drop_first());
    }
}

/// Whether `a` comes before `b` in the order of `String`.
pub fn text_less(a: &Vec<char>, b: &Vec<char>) -> (r: bool)
    ensures
        r == text_lt(a@, b@),
{
    let mut i: usize = 0;
    proof {
        assert(a@.skip(0) =~= a@);
        assert(b@.skip(0) =~= b@);
    }
    while i < a.len() && i < b.len() && a[i] == b[i]
        invariant
            i <= a@.len(),
            i <= b@.len(),
            text_lt(a@, b@) == text_lt(a@.skip(i as int), b@.skip(i as int)),
        decreases a@.len() - i,
    {
        proof {
            assert(a@.skip(i as int).drop_first() =~= a@.skip(i + 1));
            assert(b@.skip(i as int).drop_first() =~= b@.skip(i + 1));
        }
        i = i + 1;
    }
    if i == a.len() {
        i < b.len()
    } else if i == b.len() {
        false
    } else {
        a[i] < b[i]
    }
}

/// The names of a list of themes.
pub open spec fn keys_of(s: Seq<(String, RawTheme)>) -> Seq<Seq<char>> {
    s.map_values(|e: (String, RawTheme)| e.0@)
}

/// Each name comes before the next: sorted, and no name twice.
pub open spec fn sorted_strictly(ks: Seq<Seq<char>>) -> bool {
    forall|i: int, j: int| 0 <= i < j < ks.len() ==> text_lt(#[trigger] ks[i], #[trigger] ks[j])
}

/// The position of a name in a list where it occurs once.
pub open spec fn key_index(ks: Seq<Seq<char>>, k: Seq<char>) -> int {
    choose|i: int| 0 <= i < ks.len() && ks[i] == k
}

/// The themes of a list by name.
pub open spec fn pairs_map(s: Seq<(String, RawTheme)>) -> Map<Seq<char>, RawTheme> {
    Map::new(
        |k: Seq<char>| keys_of(s).contains(k),
        |k: Seq<char>| s[key_index(keys_of(s), k)].1,
    )
}

/// The map that inserting the entries in order gives: a name given twice keeps the
/// theme given last.
pub open spec fn entries_map(e: Seq<(String, RawTheme)>) -> Map<Seq<char>, RawTheme>
    decreases e.len(),
{
    if e.len() == 0 {
        Map::empty()
    } else {
        entries_map(e.drop_last()).insert(e.last().0@, e.last().1)
    }
}

/// A strictly sorted list holds each name once, at its own position.
pub proof fn lemma_sorted_distinct(ks: Seq<Seq<char>>)
    requires
        sorted_strictly(ks),
    ensures
        ks.no_duplicates(),
        forall|i: int| 0 <= i < ks.len() ==> key_index(ks, #[trigger] ks[i]) == i,
{
    assert forall|i: int, j: int| 0 <= i < ks.len() && 0 <= j < ks.len() && i != j implies ks[i]
        != ks[j] by {
        lemma_text_lt_irreflexive(ks[i]);
        if i < j {
            assert(text_lt(ks[i], ks[j]));
        } else {
            assert(text_lt(ks[j], ks[i]));
        }
    }
    assert forall|i: int| 0 <= i < ks.len() implies key_index(ks, #[trigger] ks[i]) == i by {
        let k = ks[i];
        assert(0 <= i < ks.len() && ks[i] == k);
        let j = key_index(ks, k);
        assert(0 <= j < ks.len() && ks[j] == k);
    }
}

/// Replacing the theme of a name already in the list keeps the names and updates the map.
pub proof fn lemma_replace_keeps_order(s: Seq<(String, RawTheme)>, p: int, key: String, raw: RawTheme)
    requires
        sorted_strictly(keys_of(s)),
        0 <= p < s.len(),
        s[p].0@ == key@,
    ensures
        keys_of(s.update(p, (key, raw))) == keys_of(s),
        pairs_map(s.update(p, (key, raw))) == pairs_map(s).insert(key@, raw),
{
    let ks = keys_of(s);
    let k = key@;
    let s2 = s.update(p, (key, raw));
    lemma_sorted_distinct(ks);
    assert(keys_of(s2) =~= ks);
    assert(ks[p] == k);
    assert(ks.contains(k));
    assert forall|k2: Seq<char>| #[trigger] pairs_map(s2).dom().contains(k2) implies pairs_map(s2)[k2]
        == pairs_map(s).insert(k, raw)[k2] by {
        let j = key_index(ks, k2);
        assert(ks[key_index(ks, k2)] == k2);
        assert(key_index(ks, ks[j]) == j);
        assert(key_index(ks, ks[p]) == p);
    }
    assert(pairs_map(s2) =~= pairs_map(s).insert(k, raw));
}

/// A new name that comes after the names before `p` and is not at `p` comes before all names from `p`, and is not in the list.
pub proof fn lemma_insert_keeps_order(s: Seq<(String, RawTheme)>, p: int, key: String)
    requires
        sorted_strictly(keys_of(s)),
        0 <= p <= s.len(),
        forall|i: int| 0 <= i < p ==> text_lt(#[trigger] keys_of(s)[i], key@),
        p < s.len() ==> !text_lt(keys_of(s)[p], key@) && keys_of(s)[p] != key@,
    ensures
        forall|j: int| p <= j < s.len() ==> text_lt(key@, #[trigger] keys_of(s)[j]),
        !keys_of(s).contains(key@),
{
    let ks = keys_of(s);
    let k = key@;
    if p < s.len() {
        lemma_text_lt_total(ks[p], k);
        assert forall|j: int| p <= j < s.len() implies text_lt(k, #[trigger] ks[j]) by {
            if j > p {
                lemma_text_lt_transitive(k, ks[p], ks[j]);
            }
        }
    }
    if ks.contains(k) {
        let j = choose|j: int| 0 <= j < ks.len() && ks[j] == k;
        lemma_text_lt_irreflexive(k);
        if j < p {
            assert(text_lt(ks[j], k));
        } else {
            assert(text_lt(k, ks[j]));
        }
    }
}

/// Inserting a name at its place keeps the list sorted.
pub proof fn lemma_insert_sorted(s: Seq<(String, RawTheme)>, p: int, key: String, raw: RawTheme)
    requires
        sorted_strictly(keys_of(s)),
        0 <= p <= s.len(),
        forall|i: int| 0 <= i < p ==> text_lt(#[trigger] keys_of(s)[i], key@),
        forall|j: int| p <= j < s.len() ==> text_lt(key@, #[trigger] keys_of(s)[j]),
    ensures
        sorted_strictly(keys_of(s.insert(p, (key, raw)))),
{
    let ks = keys_of(s);
    let k = key@;
    let ks2 = keys_of(s.insert(p, (key, raw)));
    assert(ks2 =~= ks.insert(p, k));
    assert forall|i: int, j: int| 0 <= i < j < ks2.len() implies text_lt(
        #[trigger] ks2[i],
        #[trigger] ks2[j],
    ) by {
        if j < p {
        } else if j == p {
        } else if i < p {
            assert(ks2[j] == ks[j - 1]);
            assert(text_lt(k, ks[j - 1]));
            lemma_text_lt_transitive(ks[i], k, ks[j - 1]);
        } else if i == p {
            assert(ks2[j] == ks[j - 1]);
        } else {
            assert(ks2[i] == ks[i - 1]);
            assert(ks2[j] == ks[j - 1]);
        }
    }
}

/// Inserting a new name at its place adds it to the map.
pub proof fn lemma_insert_map(s: Seq<(String, RawTheme)>, p: int, key: String, raw: RawTheme)
    requires
        sorted_strictly(keys_of(s)),
        sorted_strictly(keys_of(s.insert(p, (key, raw)))),
        0 <= p <= s.len(),
        !keys_of(s).contains(key@),
    ensures
        pairs_map(s.insert(p, (key, raw))) == pairs_map(s).insert(key@, raw),
{
    let ks = keys_of(s);
    let k = key@;
    let s2 = s.insert(p, (key, raw));
    let ks2 = keys_of(s2);
    assert(ks2 =~= ks.insert(p, k));
    lemma_sorted_distinct(ks);
    lemma_sorted_distinct(ks2);
    assert forall|k2: Seq<char>| pairs_map(s2).dom().contains(k2) <==> #[trigger] pairs_map(s).insert(
        k,
        raw,
    ).dom().contains(k2) by {
        if ks2.contains(k2) {
            let j = choose|j: int| 0 <= j < ks2.len() && ks2[j] == k2;
            if j < p {
                assert(ks[j] == k2);
            } else if j > p {
                assert(ks[j - 1] == k2);
            }
        }
        if ks.contains(k2) {
            let j = choose|j: int| 0 <= j < ks.len() && ks[j] == k2;
            if j < p {
                assert(ks2[j] == k2);
            } else {
                assert(ks2[j + 1] == k2);
            }
        }
        if k2 == k {
            assert(ks2[p] == k);
        }
    }
    assert forall|k2: Seq<char>| #[trigger] pairs_map(s2).dom().contains(k2) implies pairs_map(s2)[k2]
        == pairs_map(s).insert(k, raw)[k2] by {
        let j = key_index(ks2, k2);
        assert(ks2[key_index(ks2, k2)] == k2);
        assert(key_index(ks2, ks2[j]) == j);
        if j < p {
            assert(ks[j] == k2);
            assert(key_index(ks, ks[j]) == j);
        } else if j > p {
            assert(ks[j - 1] == k2);
            assert(key_index(ks, ks[j - 1]) == j - 1);
        }
    }
    assert(pairs_map(s2) =~= pairs_map(s).insert(k, raw));
}

/// Inserts a theme under its name, keeping the list sorted: a theme already there under
/// that name is replaced.
fn insert_theme(themes: &mut Vec<(String, RawTheme)>, key: String, raw: RawTheme)
    requires
        sorted_strictly(keys_of(old(themes)@)),
        forall|i: int| 0 <= i < old(themes)@.len() ==> (#[trigger] old(themes)@[i]).1.readable(),
        raw.readable(),
    ensures
        sorted_strictly(keys_of(final(themes)@)),
        forall|i: int| 0 <= i < final(themes)@.len() ==> (#[trigger] final(themes)@[i]).1.readable(),
        pairs_map(final(themes)@) == pairs_map(old(themes)@).insert(key@, raw),
{
    let ghost s = themes@;
    let ghost ks = keys_of(s);
    let kc = crate::text::chars_of(key.as_str());
    let mut p: usize = 0;
    while p < themes.len() && text_less(&crate::text::chars_of(themes[p].0.as_str()), &kc)
        invariant
            themes@ == s,
            ks == keys_of(s),
            kc@ == key@,
            p <= s.len(),
            forall|i: int| 0 <= i < p ==> text_lt(#[trigger] ks[i], key@),
        decreases s.len() - p,
    {
        p = p + 1;
    }
    if p < themes.len() && themes[p].0 == key {
        proof {
            lemma_replace_keeps_order(s, p as int, key, raw);
        }
        themes.set(p, (key, raw));
    } else {
        proof {
            lemma_insert_keeps_order(s, p as int, key);
            lemma_insert_sorted(s, p as int, key, raw);
            lemma_insert_map(s, p as int, key, raw);
        }
        themes.insert(p, (key, raw));
    }
}


/// What a case-insensitive search for `q` (already lower-cased) keeps of `names`, in order:
/// the names whose lower-case form holds `q`.
pub open spec fn search_hits(names: Seq<Seq<char>>, q: Seq<char>) -> Seq<Seq<char>>
    decreases names.len(),
{
    if names.len() == 0 {
        Seq::empty()
    } else {
        let rest = search_hits(names.drop_last(), q);
        if has_substring(str_lower(names.last()), q) {
            rest.push(names.last())
        } else {
            rest
        }
    }
}

/// The position of the theme named `name`.
fn find_theme(themes: &Vec<(String, RawTheme)>, name: &str) -> (r: Option<usize>)
    ensures
        match r {
            Some(i) => i < themes@.len() && keys_of(themes@)[i as int] == name@,
            None => !keys_of(themes@).contains(name@),
        },
{
    let ghost ks = keys_of(themes@);
    let mut i: usize = 0;
    while i < themes.len()
        invariant
            ks == keys_of(themes@),
            i <= themes@.len(),
            forall|m: int| 0 <= m < i ==> (#[trigger] ks[m]) != name@,
        decreases themes@.len() - i,
    {
        if crate::text::same_text(themes[i].0.as_str(), name) {
            return Some(i);
        }
        i = i + 1;
    }
    None
}

/// The global theme catalog: themes by name, and their names in the order of `String`.
pub struct ThemeCatalog {
    themes: Vec<(String, RawTheme)>,
    names: Vec<String>,
}

impl View for ThemeCatalog {
    type V = Map<Seq<char>, RawTheme>;

    closed spec fn view(&self) -> Map<Seq<char>, RawTheme> {
        pairs_map(self.themes@)
    }
}

impl ThemeCatalog {
    /// The themes are sorted by name with no name twice, the name list follows them, and
    /// every theme's colours can be read.
    pub closed spec fn wf(&self) -> bool {
        &&& sorted_strictly(keys_of(self.themes@))
        &&& self.names@.len() == self.themes@.len()
        &&& forall|i: int| 0 <= i < self.names@.len() ==> (#[trigger] self.names@[i])@ == self.themes@[i].0@
        &&& forall|i: int| 0 <= i < self.themes@.len() ==> (#[trigger] self.themes@[i]).1.readable()
    }

    /// The names of the themes, in the order of `String`.
    pub closed spec fn spec_names(&self) -> Seq<Seq<char>> {
        keys_of(self.themes@)
    }

    /// A catalog of the given themes, inserted in order, so that a name given twice keeps
    /// the theme given last.
    pub fn from_entries(entries: Vec<(String, RawTheme)>) -> (r: Self)
        requires
            forall|i: int| 0 <= i < entries@.len() ==> (#[trigger] entries@[i]).1.readable(),
        ensures
            r.wf(),
            r@ == entries_map(entries@),
    {
        let ghost e = entries@;
        let mut rest = entries;
        let mut themes: Vec<(String, RawTheme)> = Vec::new();
        let ghost mut i: int = 0;
        proof {
            assert(e.skip(0) =~= e);
            assert(pairs_map(themes@) =~= entries_map(e.take(0)));
        }
        while rest.len() > 0
            invariant
                0 <= i <= e.len(),
                rest@ == e.skip(i),
                forall|j: int| 0 <= j < e.len() ==> (#[trigger] e[j]).1.readable(),
                sorted_strictly(keys_of(themes@)),
                forall|j: int| 0 <= j < themes@.len() ==> (#[trigger] themes@[j]).1.readable(),
                pairs_map(themes@) == entries_map(e.take(i)),
            decreases rest@.len(),
        {
            let (k, v) = rest.remove(0);
            proof {
                assert(e[i] == (k, v));
            }
            insert_theme(&mut themes, k, v);
            proof {
                assert(e.take(i + 1).drop_last() =~= e.take(i));
                assert(rest@ =~= e.skip(i + 1));
                i = i + 1;
            }
        }
        proof {
            assert(e.take(i) =~= e);
        }
        let mut names: Vec<String> = Vec::new();
        let mut j: usize = 0;
        while j < themes.len()
            invariant
                j <= themes@.len(),
                names@.len() == j,
                forall|m: int| 0 <= m < j ==> (#[trigger] names@[m])@ == themes@[m].0@,
            decreases themes@.len() - j,
        {
            names.push(themes[j].0.clone());
            j = j + 1;
        }
        ThemeCatalog { themes, names }
    }

    /// The names of all themes, in the order of `String`.
    pub fn names(&self) -> (r: &[String])
        requires
            self.wf(),
        ensures
            r@.map_values(|n: String| n@) == self.spec_names(),
    {
        let r = self.names.as_slice();
        proof {
            assert(r@.map_values(|n: String| n@) =~= self.spec_names());
        }
        r
    }

    /// The theme named `name`, or serika dark when there is none.
    pub fn get(&self, name: &str) -> (r: Theme)
        requires
            self.wf(),
        ensures
            r@ == (if self@.dom().contains(name@) {
                ThemeView::from_raw(name@, self@[name@])
            } else {
                ThemeView::serika_dark()
            }),
    {
        let ghost ks = keys_of(self.themes@);
        proof {
            lemma_sorted_distinct(ks);
        }
        match find_theme(&self.themes, name) {
            Some(i) => {
                proof {
                    assert(ks.contains(name@));
                    assert(key_index(ks, ks[i as int]) == i);
                    assert(self.themes@[i as int].1.readable());
                }
                Theme::from_raw(name, &self.themes[i].1)
            },
            None => Theme::default(),
        }
    }

    /// The number of themes.
    pub fn count(&self) -> (r: usize)
        requires
            self.wf(),
        ensures
            r == self.spec_names().len(),
            r == self@.dom().len(),
    {
        proof {
            law_catalog_names(*self);
            keys_of(self.themes@).unique_seq_to_set();
        }
        self.themes.len()
    }

    /// The names that hold `query`, ignoring case, in catalog order.
    pub fn search<'a>(&'a self, query: &str) -> (r: Vec<&'a str>)
        requires
            self.wf(),
        ensures
            r@.map_values(|n: &str| n@) == search_hits(self.spec_names(), str_lower(query@)),
    {
        let q = to_lowercase(query);
        let ghost ns = self.spec_names();
        let mut out: Vec<&'a str> = Vec::new();
        let mut i: usize = 0;
        while i < self.names.len()
            invariant
                self.wf(),
                ns == self.spec_names(),
                q@ == str_lower(query@),
                i <= self.names@.len(),
                out@.map_values(|n: &str| n@) == search_hits(ns.take(i as int), q@),
            decreases self.names@.len() - i,
        {
            let name = self.names[i].as_str();
            let low = to_lowercase(name);
            proof {
                assert(ns.take(i + 1).drop_last() =~= ns.take(i as int));
                assert(ns.take(i + 1).last() == name@);
            }
            if contains_text(low.as_str(), q.as_str()) {
                out.push(name);
                proof {
                    assert(out@.map_values(|n: &str| n@) =~= search_hits(ns.take(i as int), q@).push(name@));
                }
            }
            i = i + 1;
        }
        proof {
            assert(ns.take(i as int) =~= ns);
        }
        out
    }
}

/// A catalog's names are its themes' names, each once, sorted in the order of `String`,
/// and every theme in it can be shown.
pub proof fn law_catalog_names(c: ThemeCatalog)
    requires
        c.wf(),
    ensures
        sorted_strictly(c.spec_names()),
        c.spec_names().no_duplicates(),
        c@.dom() == c.spec_names().to_set(),
        forall|k: Seq<char>| c@.dom().contains(k) ==> (#[trigger] c@[k]).readable(),
{
    let ks = keys_of(c.themes@);
    lemma_sorted_distinct(ks);
    assert(c@.dom() =~= ks.to_set());
    assert forall|k: Seq<char>| c@.dom().contains(k) implies (#[trigger] c@[k]).readable() by {
        let j = key_index(ks, k);
        assert(0 <= j < ks.len() && ks[j] == k);
        assert(c.themes@[j].1.readable());
    }
}


/// Inserting entries in order keeps, for each name, the theme of its last entry.
pub proof fn law_last_entry_wins(e: Seq<(String, RawTheme)>, i: int)
    requires
        0 <= i < e.len(),
        forall|j: int| i < j < e.len() ==> (#[trigger] e[j]).0@ != e[i].0@,
    ensures
        entries_map(e).dom().contains(e[i].0@),
        entries_map(e)[e[i].0@] == e[i].1,
    decreases e.len(),
{
    if i < e.len() - 1 {
        law_last_entry_wins(e.drop_last(), i);
    }
}

/// Inserting entries in order gives a theme for exactly the names of the entries.
pub proof fn law_entry_names(e: Seq<(String, RawTheme)>, k: Seq<char>)
    ensures
        entries_map(e).dom().contains(k) <==> keys_of(e).contains(k),
    decreases e.len(),
{
    if e.len() > 0 {
        law_entry_names(e.drop_last(), k);
        assert(keys_of(e.drop_last()) =~= keys_of(e).drop_last());
        if keys_of(e).contains(k) && k != e.last().0@ {
            let j = choose|j: int| 0 <= j < keys_of(e).len() && keys_of(e)[j] == k;
            assert(keys_of(e.drop_last())[j] == k);
        }
        if k == e.last().0@ {
            assert(keys_of(e)[e.len() - 1] == k);
        }
    }
}

/// Every name a search keeps holds the query in its lower-case form, and the names kept
/// come from the list, in its order.
pub proof fn law_search_hits_match(names: Seq<Seq<char>>, q: Seq<char>)
    ensures
        forall|i: int|
            0 <= i < search_hits(names, q).len() ==> has_substring(
                str_lower(#[trigger] search_hits(names, q)[i]),
                q,
            ),
        forall|i: int|
            0 <= i < search_hits(names, q).len() ==> names.contains(#[trigger] search_hits(names, q)[i]),
        search_hits(names, q).len() <= names.len(),
    decreases names.len(),
{
    if names.len() > 0 {
        let rest = names.drop_last();
        law_search_hits_match(rest, q);
        let hits = search_hits(names, q);
        let prev = search_hits(rest, q);
        assert forall|i: int| 0 <= i < hits.len() implies names.contains(#[trigger] hits[i]) by {
            if i < prev.len() {
                assert(hits[i] == prev[i]);
                let j = choose|j: int| 0 <= j < rest.len() && rest[j] == prev[i];
                assert(names[j] == rest[j]);
            } else {
                assert(hits[i] == names.last());
                assert(names[names.len() - 1] == names.last());
            }
        }
        assert forall|i: int| 0 <= i < hits.len() implies has_substring(str_lower(#[trigger] hits[i]), q) by {
            if i < prev.len() {
                assert(hits[i] == prev[i]);
            }
        }
    }
}

} // verus!
