use vstd::prelude::*;
use crate::word::{CharState, Word, WordModel};
use crate::typing::{lemma_sum_prefix_le, lemma_sum_take, sum_measure, word_models, Measure, TestModel, TypingTest};
use crate::app::{App, MenuRow, language_labels, string_views};
use crate::config::{Language, TestMode, TimeDuration, WordCount};
use vstd::utf8::encode_utf8;

verus! {

/// A rectangle of terminal cells.
#[derive(Debug, Clone, Copy, PartialEq, Eq, Structural)]
pub struct Area {
    pub x: u16,
    pub y: u16,
    pub width: u16,
    pub height: u16,
}

/// The rectangle does not reach past the last row or column a `u16` can number.
pub open spec fn fits_screen(a: Area) -> bool {
    a.x + a.width <= u16::MAX && a.y + a.height <= u16::MAX
}

/// The smaller of two integers.
pub open spec fn min_int(a: int, b: int) -> int {
    if a < b {
        a
    } else {
        b
    }
}

/// `a - b`, or zero when `b` is larger.
pub open spec fn sat_sub(a: int, b: int) -> int {
    if a > b {
        a - b
    } else {
        0
    }
}

/// A band of `height` rows (no more than the area has) in the vertical middle of `area`.
pub fn center_vertical(area: Area, height: u16) -> (r: Area)
    requires
        fits_screen(area),
    ensures
        r.x == area.x,
        r.width == area.width,
        r.height == min_int(height as int, area.height as int),
        r.y == area.y + (area.height - r.height) / 2,
        fits_screen(r),
{
    let height = if height < area.height {
        height
    } else {
        area.height
    };
    let y = area.y + (area.height - height) / 2;
    Area { x: area.x, y, width: area.width, height }
}

/// The search window: at most 40 columns and 16 rows, leaving a margin of two cells on
/// each side, centred in `area`.
pub fn search_popup(area: Area) -> (r: Area)
    requires
        fits_screen(area),
    ensures
        r.width == min_int(40, sat_sub(area.width as int, 4)),
        r.height == min_int(16, sat_sub(area.height as int, 4)),
        r.x == area.x + sat_sub(area.width as int, r.width as int) / 2,
        r.y == area.y + sat_sub(area.height as int, r.height as int) / 2,
        fits_screen(r),
{
    let w = area.width.saturating_sub(4);
    let width: u16 = if w < 40 {
        w
    } else {
        40
    };
    let h = area.height.saturating_sub(4);
    let height: u16 = if h < 16 {
        h
    } else {
        16
    };
    let x = area.x + area.width.saturating_sub(width) / 2;
    let y = area.y + area.height.saturating_sub(height) / 2;
    Area { x, y, width, height }
}

/// The first row to show of a list so that row `selected` is among the `visible` rows
/// shown: none are skipped until the selection would fall below the window.
pub fn scroll_offset(selected: usize, visible: usize) -> (r: usize)
    requires
        selected < usize::MAX,
    ensures
        r == (if selected >= visible {
            selected - visible + 1
        } else {
            0
        }),
        visible > 0 ==> r <= selected < r + visible,
{
    if selected >= visible {
        selected - visible + 1
    } else {
        0
    }
}

/// `s` followed by spaces up to `width` characters, as `format!("{:<width$}", s)` gives it.
pub open spec fn padded(s: Seq<char>, width: nat) -> Seq<char> {
    if s.len() >= width {
        s
    } else {
        s + Seq::new((width - s.len()) as nat, |i: int| ' ')
    }
}

/// A search result as listed: a space, the name, and spaces to fill the row.
pub fn result_row(name: &str, width: usize) -> (r: String)
    ensures
        r@ == padded(seq![' '] + name@, width as nat),
{
    let mut cs: Vec<char> = Vec::new();
    cs.push(' ');
    let name_cs = crate::text::chars_of(name);
    let mut i: usize = 0;
    while i < name_cs.len()
        invariant
            i <= name_cs@.len(),
            cs@ == seq![' '] + name_cs@.take(i as int),
        decreases name_cs@.len() - i,
    {
        cs.push(name_cs[i]);
        i = i + 1;
        proof {
            assert(cs@ =~= seq![' '] + name_cs@.take(i as int));
        }
    }
    proof {
        assert(name_cs@.take(i as int) =~= name_cs@);
    }
    let ghost base = cs@;
    while cs.len() < width
        invariant
            base.len() <= cs@.len(),
            cs@.len() < width ==> cs@ == base + Seq::new((cs@.len() - base.len()) as nat, |j: int| ' '),
            cs@.len() >= width ==> cs@ == padded(base, width as nat),
            base.len() >= width ==> cs@ == base,
        decreases width - cs@.len(),
    {
        cs.push(' ');
        proof {
            assert(cs@ =~= base + Seq::new((cs@.len() - base.len()) as nat, |j: int| ' '));
        }
    }
    proof {
        if base.len() < width {
            assert(cs@ =~= padded(base, width as nat));
        } else {
            assert(cs@ == base);
        }
    }
    crate::text::string_from_chars(cs.as_slice())
}

/// The part of a menu row on show: at most seven items, the selected one kept within three
/// of the first shown when it can be.
#[derive(Debug, Clone, Copy, PartialEq, Eq, Structural)]
pub struct MenuWindow {
    /// The first item shown.
    pub start: usize,
    /// One past the last item shown.
    pub end: usize,
    /// The position of the selected item among those shown.
    pub selected: usize,
    /// There are items before the first shown.
    pub more_left: bool,
    /// There are items after the last shown.
    pub more_right: bool,
}

/// The window of a row of `len` items with `selected` selected.
pub open spec fn spec_menu_window(len: int, selected: int) -> MenuWindow {
    let start = if len > 7 {
        min_int(sat_sub(selected, 3), sat_sub(len, 7))
    } else {
        0
    };
    let end = if len > 7 {
        min_int(start + 7, len)
    } else {
        len
    };
    MenuWindow {
        start: start as usize,
        end: end as usize,
        selected: (selected - start) as usize,
        more_left: start > 0,
        more_right: end < len,
    }
}

/// The items of a row of `len` items to show when `selected` is selected.
pub fn menu_window(len: usize, selected: usize) -> (r: MenuWindow)
    ensures
        r == spec_menu_window(len as int, selected as int),
        r.start <= r.end <= len,
        r.end - r.start <= 7,
        r.selected + r.start == selected,
        selected < len ==> r.start <= selected < r.end,
{
    if len > 7 {
        let a = selected.saturating_sub(3);
        let b = len - 7;
        let start = if a < b {
            a
        } else {
            b
        };
        let end = if start + 7 < len {
            start + 7
        } else {
            len
        };
        MenuWindow { start, end, selected: selected - start, more_left: start > 0, more_right: end < len }
    } else {
        MenuWindow { start: 0, end: len, selected, more_left: false, more_right: false }
    }
}

/// How an item of a menu row is drawn.
#[derive(Debug, Clone, Copy, PartialEq, Eq, Structural)]
pub enum ItemLook {
    /// The selected item of the focused row: highlighted.
    Highlighted,
    /// The selected item of another row: in the main colour.
    Selected,
    /// Another item of the focused row: in the text colour.
    Focused,
    /// Another item of another row: dimmed.
    Dimmed,
}

/// The look of an item.
pub fn item_look(is_selected: bool, row_focused: bool) -> (r: ItemLook)
    ensures
        r == (if is_selected && row_focused {
            ItemLook::Highlighted
        } else if is_selected {
            ItemLook::Selected
        } else if row_focused {
            ItemLook::Focused
        } else {
            ItemLook::Dimmed
        }),
{
    if is_selected && row_focused {
        ItemLook::Highlighted
    } else if is_selected {
        ItemLook::Selected
    } else if row_focused {
        ItemLook::Focused
    } else {
        ItemLook::Dimmed
    }
}

/// How a character of the text under test is drawn.
#[derive(Debug, Clone, Copy, PartialEq, Eq, Structural)]
pub enum Look {
    /// Typed right: the text colour.
    Correct,
    /// Typed wrong: the error colour on the error background.
    Incorrect,
    /// Not typed yet: dimmed.
    Pending,
    /// Typed past the end of the word: the extra colour on the error background.
    Extra,
}

/// The cells of a word: each target character (the typed one where it was typed wrong),
/// then the characters typed past its end.
pub open spec fn word_cells(w: WordModel) -> Seq<(char, Look)> {
    let n = if w.typed.len() > w.target.len() {
        w.typed.len()
    } else {
        w.target.len()
    };
    Seq::new(
        n,
        |i: int|
            if i < w.target.len() {
                if i < w.typed.len() {
                    match w.states[i] {
                        CharState::Correct => (w.target[i], Look::Correct),
                        CharState::Incorrect => (w.typed[i], Look::Incorrect),
                        _ => (w.target[i], Look::Pending),
                    }
                } else {
                    (w.target[i], Look::Pending)
                }
            } else {
                (w.typed[i], Look::Extra)
            },
    )
}

/// The characters of a word as they are drawn.
pub fn render_word(w: &Word) -> (r: Vec<(char, Look)>)
    requires
        w@.wf(),
    ensures
        r@ == word_cells(w@),
{
    let mut out: Vec<(char, Look)> = Vec::new();
    let mut i: usize = 0;
    while i < w.target.len()
        invariant
            w@.wf(),
            i <= w.target@.len(),
            out@ == word_cells(w@).take(i as int),
        decreases w.target@.len() - i,
    {
        let cell = if i < w.typed.len() {
            match w.states[i] {
                CharState::Correct => (w.target[i], Look::Correct),
                CharState::Incorrect => (w.typed[i], Look::Incorrect),
                _ => (w.target[i], Look::Pending),
            }
        } else {
            (w.target[i], Look::Pending)
        };
        out.push(cell);
        i = i + 1;
        proof {
            assert(out@ =~= word_cells(w@).take(i as int));
        }
    }
    while i < w.typed.len()
        invariant
            w@.wf(),
            w.target@.len() <= i <= w.typed@.len() || (i == w.target@.len() && w.typed@.len()
                <= w.target@.len()),
            out@ == word_cells(w@).take(i as int),
        decreases w.typed@.len() - i,
    {
        out.push((w.typed[i], Look::Extra));
        i = i + 1;
        proof {
            assert(out@ =~= word_cells(w@).take(i as int));
        }
    }
    proof {
        assert(out@ =~= word_cells(w@));
    }
    out
}

/// The glyph that joins two points of the speed graph, by the direction from one to the
/// next: steep, flat, or one of the two diagonals.
pub fn line_glyph(dx: i32, dy: i32) -> (r: char)
    requires
        dx > i32::MIN,
        dy > i32::MIN,
    ensures
        ({
            let ax = if dx < 0 { -dx } else { dx as int };
            let ay = if dy < 0 { -dy } else { dy as int };
            r == (if ay > ax * 2 {
                '│'
            } else if ax > ay * 2 {
                '─'
            } else if (dy > 0) == (dx > 0) {
                '╲'
            } else {
                '╱'
            })
        }),
{
    let ax: i64 = if dx < 0 {
        -(dx as i64)
    } else {
        dx as i64
    };
    let ay: i64 = if dy < 0 {
        -(dy as i64)
    } else {
        dy as i64
    };
    if ay > ax * 2 {
        '│'
    } else if ax > ay * 2 {
        '─'
    } else if (dy > 0) == (dx > 0) {
        '╲'
    } else {
        '╱'
    }
}

/// Where word wrapping stands after some words: the closed lines, the open line, its
/// width, where the current word starts, and whether the screen is full.
pub struct WrapState {
    pub lines: Seq<Seq<(int, bool)>>,
    pub cur: Seq<(int, bool)>,
    pub width: int,
    pub cursor: Option<(int, int)>,
    pub stopped: bool,
}

/// Word `i`, `w` cells wide, placed on the open line after a space when the line has
/// something drawn, or first on a new line when it would pass `max_width`; the layout
/// stops, without the word, when the closed lines fill `max_lines`. The start of word
/// `current` is noted.
pub open spec fn wrap_step(s: WrapState, i: int, w: int, max_width: int, max_lines: int, current: int) -> WrapState {
    if s.stopped {
        s
    } else {
        let needed = if s.width > 0 {
            w + 1
        } else {
            w
        };
        let wraps = s.width > 0 && s.width + needed > max_width;
        let lines = if wraps {
            s.lines.push(s.cur)
        } else {
            s.lines
        };
        if wraps && lines.len() >= max_lines {
            WrapState { lines, cur: Seq::empty(), width: 0, cursor: s.cursor, stopped: true }
        } else {
            let cur0 = if wraps {
                Seq::empty()
            } else {
                s.cur
            };
            let width0 = if wraps {
                0
            } else {
                s.width
            };
            let space = width0 > 0;
            let start = if space {
                width0 + 1
            } else {
                width0
            };
            let cursor = if i == current && s.cursor is None {
                Some((lines.len() as int, start))
            } else {
                s.cursor
            };
            WrapState { lines, cur: cur0.push((i, space)), width: start + w, cursor, stopped: false }
        }
    }
}

/// The layout after the first `k` words.
pub open spec fn wrap_upto(ws: Seq<usize>, k: int, max_width: int, max_lines: int, current: int) -> WrapState
    decreases k,
{
    if k <= 0 {
        WrapState { lines: Seq::empty(), cur: Seq::empty(), width: 0, cursor: None, stopped: false }
    } else {
        wrap_step(
            wrap_upto(ws, k - 1, max_width, max_lines, current),
            k - 1,
            ws[k - 1] as int,
            max_width,
            max_lines,
            current,
        )
    }
}

/// The lines of the layout: the closed ones, and the open one when it has something drawn.
pub open spec fn wrapped_lines(s: WrapState) -> Seq<Seq<(int, bool)>> {
    if !s.stopped && s.width > 0 {
        s.lines.push(s.cur)
    } else {
        s.lines
    }
}

/// The cells a line of the layout takes: each word, and a space before the words that
/// have one.
pub open spec fn line_width(ws: Seq<usize>, l: Seq<(int, bool)>) -> int
    decreases l.len(),
{
    if l.len() == 0 {
        0
    } else {
        line_width(ws, l.drop_last()) + (if l.last().1 {
            1int
        } else {
            0int
        }) + ws[l.last().0] as int
    }
}

/// A line fits in `max_width` cells, or it holds one visible word (every other word on it
/// is empty).
pub open spec fn line_fits(ws: Seq<usize>, l: Seq<(int, bool)>, max_width: int) -> bool {
    ||| line_width(ws, l) <= max_width
    ||| forall|k: int| 0 <= k < l.len() - 1 ==> ws[#[trigger] l[k].0] == 0
}

/// The words of a line are words of the list.
pub open spec fn entries_below(l: Seq<(int, bool)>, n: int) -> bool {
    forall|k: int| 0 <= k < l.len() ==> 0 <= #[trigger] l[k].0 < n
}

/// A line of no width holds only empty words.
proof fn lemma_zero_width_line(ws: Seq<usize>, l: Seq<(int, bool)>)
    requires
        entries_below(l, ws.len() as int),
        line_width(ws, l) == 0,
    ensures
        forall|k: int| 0 <= k < l.len() ==> ws[#[trigger] l[k].0] == 0,
    decreases l.len(),
{
    if l.len() > 0 {
        let rest = l.drop_last();
        assert(entries_below(rest, ws.len() as int)) by {
            assert forall|k: int| 0 <= k < rest.len() implies 0 <= #[trigger] rest[k].0 < ws.len() by {
                assert(rest[k] == l[k]);
            }
        }
        lemma_line_width_nonneg(ws, rest);
        lemma_zero_width_line(ws, rest);
        assert forall|k: int| 0 <= k < l.len() implies ws[#[trigger] l[k].0] == 0 by {
            if k < l.len() - 1 {
                assert(rest[k] == l[k]);
            }
        }
    }
}

/// A width is never negative.
proof fn lemma_line_width_nonneg(ws: Seq<usize>, l: Seq<(int, bool)>)
    ensures
        line_width(ws, l) >= 0,
    decreases l.len(),
{
    if l.len() > 0 {
        lemma_line_width_nonneg(ws, l.drop_last());
    }
}

/// What stays true while laying out words: the open line's width is `width`, and every
/// line, closed or open, fits or holds one visible word.
pub open spec fn wrap_sound(ws: Seq<usize>, s: WrapState, k: int, max_width: int) -> bool {
    &&& s.width == line_width(ws, s.cur)
    &&& entries_below(s.cur, k)
    &&& line_fits(ws, s.cur, max_width)
    &&& forall|j: int| 0 <= j < s.lines.len() ==> line_fits(ws, #[trigger] s.lines[j], max_width)
}

/// Laying out words keeps `wrap_sound`.
proof fn lemma_wrap_sound(ws: Seq<usize>, k: int, max_width: int, max_lines: int, current: int)
    requires
        0 <= k <= ws.len(),
    ensures
        wrap_sound(ws, wrap_upto(ws, k, max_width, max_lines, current), k, max_width),
    decreases k,
{
    if k > 0 {
        lemma_wrap_sound(ws, k - 1, max_width, max_lines, current);
        let s = wrap_upto(ws, k - 1, max_width, max_lines, current);
        let i = k - 1;
        let w = ws[i] as int;
        let t = wrap_upto(ws, k, max_width, max_lines, current);
        assert(t == wrap_step(s, i, w, max_width, max_lines, current));
        lemma_line_width_nonneg(ws, s.cur);
        if !s.stopped {
            let needed = if s.width > 0 {
                w + 1
            } else {
                w
            };
            let wraps = s.width > 0 && s.width + needed > max_width;
            if wraps {
                assert(t.lines =~= s.lines.push(s.cur));
                if !t.stopped {
                    assert(t.cur =~= Seq::<(int, bool)>::empty().push((i, false)));
                    assert(t.cur.drop_last() =~= Seq::<(int, bool)>::empty());
                    assert(t.cur.last() == (i, false));
                    assert(line_width(ws, t.cur.drop_last()) == 0);
                    assert(line_width(ws, t.cur) == w);
                }
            } else {
                let cur = s.cur.push((i, s.width > 0));
                assert(t.cur == cur);
                assert(cur.drop_last() =~= s.cur);
                assert(line_width(ws, cur) == s.width + (if s.width > 0 {
                    1int
                } else {
                    0int
                }) + w);
                if s.width == 0 {
                    lemma_zero_width_line(ws, s.cur);
                    assert forall|j: int| 0 <= j < cur.len() - 1 implies ws[#[trigger] cur[j].0] == 0 by {
                        assert(cur[j] == s.cur[j]);
                    }
                }
                assert forall|j: int| 0 <= j < cur.len() implies 0 <= #[trigger] cur[j].0 < k by {
                    if j < cur.len() - 1 {
                        assert(cur[j] == s.cur[j]);
                    }
                }
            }
        }
    }
}

/// Every line of the word layout fits in the width it was made for, unless it holds a
/// single visible word that is wider by itself.
pub proof fn law_wrapped_lines_fit(ws: Seq<usize>, max_width: int, max_lines: int, current: int)
    ensures
        ({
            let lines = wrapped_lines(wrap_upto(ws, ws.len() as int, max_width, max_lines, current));
            forall|j: int| 0 <= j < lines.len() ==> line_fits(ws, #[trigger] lines[j], max_width)
        }),
{
    let s = wrap_upto(ws, ws.len() as int, max_width, max_lines, current);
    lemma_wrap_sound(ws, ws.len() as int, max_width, max_lines, current);
    let lines = wrapped_lines(s);
    assert forall|j: int| 0 <= j < lines.len() implies line_fits(ws, #[trigger] lines[j], max_width) by {
        if j < s.lines.len() {
            assert(lines[j] == s.lines[j]);
        }
    }
}

/// Words laid out on lines: each line lists its words with whether a space comes before
/// each, and `cursor` is the line and column where the current word starts.
pub struct WordLayout {
    pub lines: Vec<Vec<(usize, bool)>>,
    pub cursor: Option<(usize, usize)>,
}

/// The value of a list of lines.
pub open spec fn line_views(v: Seq<Vec<(usize, bool)>>) -> Seq<Seq<(int, bool)>> {
    v.map_values(|l: Vec<(usize, bool)>| l@.map_values(|e: (usize, bool)| (e.0 as int, e.1)))
}

/// The value of a line.
pub open spec fn entry_views(l: Seq<(usize, bool)>) -> Seq<(int, bool)> {
    l.map_values(|e: (usize, bool)| (e.0 as int, e.1))
}

/// Lays out words of the given widths on lines of `max_width` cells, at most `max_lines`
/// of them, noting where word `current` starts.
pub fn wrap_words(ws: &Vec<usize>, max_width: usize, max_lines: usize, current: usize) -> (r: WordLayout)
    requires
        forall|i: int| 0 <= i < ws@.len() ==> #[trigger] ws@[i] < usize::MAX,
    ensures
        ({
            let s = wrap_upto(ws@, ws@.len() as int, max_width as int, max_lines as int, current as int);
            &&& line_views(r.lines@) == wrapped_lines(s)
            &&& r.cursor matches Some(c) ==> s.cursor == Some((c.0 as int, c.1 as int))
            &&& r.cursor is None ==> s.cursor is None
        }),
{
    let mut lines: Vec<Vec<(usize, bool)>> = Vec::new();
    let mut cur: Vec<(usize, bool)> = Vec::new();
    let mut width: usize = 0;
    let mut cursor: Option<(usize, usize)> = None;
    let mut i: usize = 0;
    let mut stopped = false;
    while i < ws.len()
        invariant_except_break
            i <= ws@.len(),
            forall|j: int| 0 <= j < ws@.len() ==> #[trigger] ws@[j] < usize::MAX,
            ({
                let s = wrap_upto(ws@, i as int, max_width as int, max_lines as int, current as int);
                &&& line_views(lines@) == s.lines
                &&& entry_views(cur@) == s.cur
                &&& width == s.width
                &&& !s.stopped
                &&& !stopped
                &&& (cursor matches Some(c) ==> s.cursor == Some((c.0 as int, c.1 as int)))
                &&& (cursor is None ==> s.cursor is None)
            }),
        ensures
            ({
                let s = wrap_upto(ws@, ws@.len() as int, max_width as int, max_lines as int, current as int);
                &&& line_views(lines@) == s.lines
                &&& entry_views(cur@) == s.cur
                &&& width == s.width
                &&& stopped == s.stopped
                &&& (cursor matches Some(c) ==> s.cursor == Some((c.0 as int, c.1 as int)))
                &&& (cursor is None ==> s.cursor is None)
            }),
        decreases ws@.len() - i,
    {
        let ghost s0 = wrap_upto(ws@, i as int, max_width as int, max_lines as int, current as int);
        let w = ws[i];
        let wraps = width > 0 && (w >= max_width || width > max_width - w - 1);
        if wraps {
            let ghost prev = lines@;
            let mut done: Vec<(usize, bool)> = Vec::new();
            std::mem::swap(&mut cur, &mut done);
            lines.push(done);
            proof {
                assert(line_views(lines@) =~= line_views(prev).push(entry_views(done@)));
            }
            width = 0;
            if lines.len() >= max_lines {
                stopped = true;
                proof {
                    let s1 = wrap_step(s0, i as int, w as int, max_width as int, max_lines as int, current as int);
                    assert(wrap_upto(ws@, i + 1, max_width as int, max_lines as int, current as int) == s1);
                    assert(s1.stopped);
                    assert(s1.lines == line_views(lines@));
                    lemma_wrap_stays_stopped(ws@, i + 1, ws@.len() as int, max_width as int, max_lines as int, current as int);
                    assert(entry_views(cur@) =~= Seq::<(int, bool)>::empty());
                }
                break;
            }
        }
        let space = width > 0;
        let start = if space {
            width + 1
        } else {
            width
        };
        if i == current && cursor.is_none() {
            cursor = Some((lines.len(), start));
        }
        let ghost prev_cur = cur@;
        cur.push((i, space));
        proof {
            assert(entry_views(cur@) =~= entry_views(prev_cur).push((i as int, space)));
        }
        width = start + w;
        i = i + 1;
    }
    if !stopped && width > 0 {
        let ghost prev = lines@;
        lines.push(cur);
        proof {
            assert(line_views(lines@) =~= line_views(prev).push(entry_views(cur@)));
        }
    }
    WordLayout { lines, cursor }
}

/// Once the screen is full, the layout stays as it is.
pub proof fn lemma_wrap_stays_stopped(ws: Seq<usize>, k: int, n: int, max_width: int, max_lines: int, current: int)
    requires
        0 <= k <= n,
        wrap_upto(ws, k, max_width, max_lines, current).stopped,
    ensures
        wrap_upto(ws, n, max_width, max_lines, current) == wrap_upto(ws, k, max_width, max_lines, current),
    decreases n - k,
{
    if k < n {
        lemma_wrap_stays_stopped(ws, k, n - 1, max_width, max_lines, current);
    }
}

/// The cells a word takes: its target, or what was typed when that is longer.
pub open spec fn display_width(w: WordModel) -> int {
    if w.typed.len() > w.target.len() {
        w.typed.len() as int
    } else {
        w.target.len() as int
    }
}

/// The cells each word takes.
pub fn word_widths(words: &Vec<Word>) -> (r: Vec<usize>)
    requires
        sum_measure(word_models(words@), Measure::Size) <= usize::MAX,
    ensures
        r@.len() == words@.len(),
        forall|i: int| 0 <= i < r@.len() ==> r@[i] == display_width(#[trigger] words@[i]@),
        forall|i: int| 0 <= i < r@.len() ==> #[trigger] r@[i] < usize::MAX,
{
    let ghost ms = word_models(words@);
    let mut out: Vec<usize> = Vec::new();
    let mut i: usize = 0;
    while i < words.len()
        invariant
            ms == word_models(words@),
            sum_measure(ms, Measure::Size) <= usize::MAX,
            i <= words@.len(),
            out@.len() == i,
            forall|k: int| 0 <= k < i ==> out@[k] == display_width(#[trigger] words@[k]@),
            forall|k: int| 0 <= k < i ==> #[trigger] out@[k] < usize::MAX,
        decreases words@.len() - i,
    {
        proof {
            lemma_sum_take(ms, i as int, Measure::Size);
            lemma_sum_prefix_le(ms, i + 1, Measure::Size);
            assert(ms[i as int] == words@[i as int]@);
        }
        let w = &words[i];
        let n = if w.typed.len() > w.target.len() {
            w.typed.len()
        } else {
            w.target.len()
        };
        out.push(n);
        i = i + 1;
    }
    out
}

/// The words of a word test laid out on lines of `max_width` cells, at most `max_lines`
/// of them, with where the current word starts.
pub fn word_layout(test: &TypingTest, max_width: usize, max_lines: usize) -> (r: WordLayout)
    requires
        sum_measure(test@.words, Measure::Size) <= usize::MAX,
    ensures
        ({
            let ws = test@.words.map_values(|w: WordModel| display_width(w) as usize);
            let s = wrap_upto(ws, ws.len() as int, max_width as int, max_lines as int, test@.current_word);
            &&& line_views(r.lines@) == wrapped_lines(s)
            &&& r.cursor matches Some(c) ==> s.cursor == Some((c.0 as int, c.1 as int))
            &&& r.cursor is None ==> s.cursor is None
        }),
{
    let widths = word_widths(&test.words);
    proof {
        assert(widths@ =~= test@.words.map_values(|w: WordModel| display_width(w) as usize));
    }
    wrap_words(&widths, max_width, max_lines, test.current_word)
}

/// An indent as it is shown: each tab as four spaces.
pub open spec fn indent_shown(s: Seq<char>) -> Seq<char>
    decreases s.len(),
{
    if s.len() == 0 {
        Seq::empty()
    } else {
        indent_shown(s.drop_last()) + if s.last() == '\t' {
            seq![' ', ' ', ' ', ' ']
        } else {
            seq![s.last()]
        }
    }
}

/// An indent as it is shown: each tab as four spaces.
pub fn show_indent(indent: &str) -> (r: String)
    ensures
        r@ == indent_shown(indent@),
{
    let cs = crate::text::chars_of(indent);
    let mut out: Vec<char> = Vec::new();
    let mut i: usize = 0;
    while i < cs.len()
        invariant
            cs@ == indent@,
            i <= cs@.len(),
            out@ == indent_shown(cs@.take(i as int)),
        decreases cs@.len() - i,
    {
        proof {
            assert(cs@.take(i + 1).drop_last() =~= cs@.take(i as int));
        }
        if cs[i] == '\t' {
            out.push(' ');
            out.push(' ');
            out.push(' ');
            out.push(' ');
        } else {
            out.push(cs[i]);
        }
        i = i + 1;
        proof {
            assert(out@ =~= indent_shown(cs@.take(i as int)));
        }
    }
    proof {
        assert(cs@.take(i as int) =~= cs@);
    }
    crate::text::string_from_chars(out.as_slice())
}

/// Where the current line of a code test starts: its row, and the width of its indent as
/// shown (in bytes, which is cells for the usual ASCII indent).
pub fn code_cursor(test: &TypingTest) -> (r: Option<(usize, usize)>)
    ensures
        test.current_line < test.code_lines@.len() ==> (r matches Some(c) && c.0 == test.current_line
            && c.1 == encode_utf8(indent_shown(test.code_lines@[test.current_line as int].indent@)).len() as usize),
        test.current_line >= test.code_lines@.len() ==> r is None,
{
    if test.current_line < test.code_lines.len() {
        let shown = show_indent(test.code_lines[test.current_line].indent.as_str());
        Some((test.current_line, shown.as_str().len()))
    } else {
        None
    }
}

/// The character under the cursor of a word: the next one to type, or a space past its end.
pub fn cursor_char(w: &Word) -> (r: char)
    ensures
        r == (if w.typed@.len() < w.target@.len() {
            w.target@[w.typed@.len() as int]
        } else {
            ' '
        }),
{
    let pos = w.typed.len();
    if pos < w.target.len() {
        w.target[pos]
    } else {
        ' '
    }
}

/// The cell of the cursor at row `line` and column `col` of `area` scrolled by `scroll`
/// rows, when it falls inside the area.
pub fn cursor_cell(area: Area, line: usize, col: usize, scroll: usize) -> (r: Option<(u16, u16)>)
    requires
        fits_screen(area),
    ensures
        r == (if scroll <= line && line - scroll < area.height && col < area.width {
            Some(((area.x + col) as u16, (area.y + line - scroll) as u16))
        } else {
            None::<(u16, u16)>
        }),
{
    if scroll <= line && line - scroll < area.height as usize && col < area.width as usize {
        let dy = (line - scroll) as u16;
        let dx = col as u16;
        Some((area.x + dx, area.y + dy))
    } else {
        None
    }
}

/// A row of the menu as it is drawn: a label and items with one selected, or a hint.
pub struct MenuLine {
    pub label: &'static str,
    pub items: Vec<String>,
    pub selected: usize,
    pub focused: bool,
    pub hint: &'static str,
}

/// The items of a switch.
pub open spec fn on_off() -> Seq<Seq<char>> {
    seq!["on"@, "off"@]
}

/// A row with the given items: `label`, the items, `selected` selected, focused when the
/// menu is on `row`.
pub open spec fn is_choice_line(
    l: MenuLine,
    label: Seq<char>,
    items: Seq<Seq<char>>,
    selected: int,
    focused: bool,
) -> bool {
    &&& l.label@ == label
    &&& string_views(l.items@) == items
    &&& l.selected == selected
    &&& l.focused == focused
    &&& l.hint@ == Seq::<char>::empty()
}

/// A row that shows only a hint.
pub open spec fn is_hint_line(l: MenuLine, hint: Seq<char>) -> bool {
    &&& l.label@ == Seq::<char>::empty()
    &&& l.items@.len() == 0
    &&& l.hint@ == hint
}

/// The labels of a list of settings.
pub open spec fn mode_labels() -> Seq<Seq<char>> {
    TestMode::spec_all().map_values(|m: TestMode| m.spec_label())
}

/// The labels of the durations.
pub open spec fn duration_labels() -> Seq<Seq<char>> {
    TimeDuration::spec_all().map_values(|d: TimeDuration| d.spec_label())
}

/// The labels of the word counts.
pub open spec fn count_labels() -> Seq<Seq<char>> {
    WordCount::spec_all().map_values(|w: WordCount| w.spec_label())
}

/// The labels of the modes.
fn mode_items() -> (r: Vec<String>)
    ensures
        string_views(r@) == mode_labels(),
{
    let all = TestMode::all();
    let mut out: Vec<String> = Vec::new();
    let mut i: usize = 0;
    while i < all.len()
        invariant
            all@ == TestMode::spec_all(),
            i <= all@.len(),
            string_views(out@) == mode_labels().take(i as int),
        decreases all@.len() - i,
    {
        let l = all[i].label();
        let ghost prev = out@;
        out.push(l.to_owned());
        proof {
            assert(string_views(out@) =~= string_views(prev).push(l@));
            assert(mode_labels().take(i + 1) =~= mode_labels().take(i as int).push(l@));
        }
        i = i + 1;
    }
    proof {
        assert(mode_labels().take(i as int) =~= mode_labels());
    }
    out
}

/// The labels of the durations.
fn duration_items() -> (r: Vec<String>)
    ensures
        string_views(r@) == duration_labels(),
{
    let all = TimeDuration::all();
    let mut out: Vec<String> = Vec::new();
    let mut i: usize = 0;
    while i < all.len()
        invariant
            all@ == TimeDuration::spec_all(),
            i <= all@.len(),
            string_views(out@) == duration_labels().take(i as int),
        decreases all@.len() - i,
    {
        let l = all[i].label();
        let ghost prev = out@;
        out.push(l.to_owned());
        proof {
            assert(string_views(out@) =~= string_views(prev).push(l@));
            assert(duration_labels().take(i + 1) =~= duration_labels().take(i as int).push(l@));
        }
        i = i + 1;
    }
    proof {
        assert(duration_labels().take(i as int) =~= duration_labels());
    }
    out
}

/// The labels of the word counts.
fn count_items() -> (r: Vec<String>)
    ensures
        string_views(r@) == count_labels(),
{
    let all = WordCount::all();
    let mut out: Vec<String> = Vec::new();
    let mut i: usize = 0;
    while i < all.len()
        invariant
            all@ == WordCount::spec_all(),
            i <= all@.len(),
            string_views(out@) == count_labels().take(i as int),
        decreases all@.len() - i,
    {
        let l = all[i].label();
        let ghost prev = out@;
        out.push(l.to_owned());
        proof {
            assert(string_views(out@) =~= string_views(prev).push(l@));
            assert(count_labels().take(i + 1) =~= count_labels().take(i as int).push(l@));
        }
        i = i + 1;
    }
    proof {
        assert(count_labels().take(i as int) =~= count_labels());
    }
    out
}

/// The items of a switch.
fn on_off_items() -> (r: Vec<String>)
    ensures
        string_views(r@) == on_off(),
{
    let mut out: Vec<String> = Vec::new();
    out.push("on".to_owned());
    out.push("off".to_owned());
    proof {
        assert(string_views(out@) =~= on_off());
    }
    out
}

/// A row of items.
fn choice_line(label: &'static str, items: Vec<String>, selected: usize, focused: bool) -> (r: MenuLine)
    ensures
        r.label == label,
        r.items == items,
        r.selected == selected,
        r.focused == focused,
        r.hint@ == Seq::<char>::empty(),
{
    let hint = "";
    proof {
        reveal_strlit("");
    }
    MenuLine { label, items, selected, focused, hint }
}

/// A row with only a hint.
fn hint_line(hint: &'static str) -> (r: MenuLine)
    ensures
        r.label@ == Seq::<char>::empty(),
        r.items@.len() == 0,
        r.hint == hint,
{
    let label = "";
    proof {
        reveal_strlit("");
    }
    MenuLine { label, items: Vec::new(), selected: 0, focused: false, hint }
}

/// The six rows of the menu as they are drawn: the mode, the duration or word count (or a
/// hint for the modes without either), the language, the theme, and the two switches;
/// each with its current setting selected and focused when the menu is on it.
pub fn menu_lines(a: &App) -> (r: Vec<MenuLine>)
    requires
        a.inv(),
    ensures
        r@.len() == 6,
        is_choice_line(r@[0], "mode"@, mode_labels(), a.config.mode.spec_index() as int, a.menu_row == MenuRow::Mode),
        match a.config.mode {
            TestMode::Time => is_choice_line(
                r@[1],
                ""@,
                duration_labels(),
                a.config.time_duration.spec_index() as int,
                a.menu_row == MenuRow::SubMode,
            ),
            TestMode::Words => is_choice_line(
                r@[1],
                ""@,
                count_labels(),
                a.config.word_count.spec_index() as int,
                a.menu_row == MenuRow::SubMode,
            ),
            TestMode::Quote => is_hint_line(r@[1], "random quote"@),
            TestMode::Zen => is_hint_line(r@[1], "zen mode - no limits"@),
        },
        is_choice_line(
            r@[2],
            "language"@,
            language_labels(),
            a.config.language.spec_index() as int,
            a.menu_row == MenuRow::Language,
        ),
        is_choice_line(
            r@[3],
            "theme"@,
            a.theme_catalog.spec_names(),
            a.theme_index as int,
            a.menu_row == MenuRow::Theme,
        ),
        is_choice_line(
            r@[4],
            "punctuation"@,
            on_off(),
            if a.config.punctuation { 0 } else { 1 },
            a.menu_row == MenuRow::Punctuation,
        ),
        is_choice_line(
            r@[5],
            "numbers"@,
            on_off(),
            if a.config.numbers { 0 } else { 1 },
            a.menu_row == MenuRow::Numbers,
        ),
{
    proof {
        reveal_strlit("");
    }
    let mut out: Vec<MenuLine> = Vec::new();
    out.push(choice_line("mode", mode_items(), crate::app::mode_position(a.config.mode), a.menu_row == MenuRow::Mode));
    let sub = match a.config.mode {
        TestMode::Time => choice_line(
            "",
            duration_items(),
            crate::app::duration_position(a.config.time_duration),
            a.menu_row == MenuRow::SubMode,
        ),
        TestMode::Words => choice_line(
            "",
            count_items(),
            crate::app::count_position(a.config.word_count),
            a.menu_row == MenuRow::SubMode,
        ),
        TestMode::Quote => hint_line("random quote"),
        TestMode::Zen => hint_line("zen mode - no limits"),
    };
    out.push(sub);
    let mut languages: Vec<String> = Vec::new();
    let mut i: usize = 0;
    while i < a.language_names.len()
        invariant
            a.inv(),
            i <= a.language_names@.len(),
            string_views(languages@) == crate::app::str_views(a.language_names@).take(i as int),
        decreases a.language_names@.len() - i,
    {
        let ghost prev = languages@;
        languages.push(a.language_names[i].to_owned());
        proof {
            assert(string_views(languages@) =~= string_views(prev).push(a.language_names@[i as int]@));
            assert(crate::app::str_views(a.language_names@).take(i + 1) =~= crate::app::str_views(
                a.language_names@,
            ).take(i as int).push(a.language_names@[i as int]@));
        }
        i = i + 1;
    }
    proof {
        assert(crate::app::str_views(a.language_names@).take(i as int) =~= crate::app::str_views(
            a.language_names@,
        ));
    }
    out.push(choice_line("language", languages, a.config.language.index(), a.menu_row == MenuRow::Language));
    let names = a.theme_catalog.names();
    let mut themes: Vec<String> = Vec::new();
    let mut j: usize = 0;
    while j < names.len()
        invariant
            j <= names@.len(),
            string_views(themes@) == string_views(names@).take(j as int),
        decreases names@.len() - j,
    {
        let ghost prev = themes@;
        themes.push(names[j].clone());
        proof {
            assert(string_views(themes@) =~= string_views(prev).push(names@[j as int]@));
            assert(string_views(names@).take(j + 1) =~= string_views(names@).take(j as int).push(
                names@[j as int]@,
            ));
        }
        j = j + 1;
    }
    proof {
        assert(string_views(names@).take(j as int) =~= string_views(names@));
    }
    out.push(choice_line("theme", themes, a.theme_index, a.menu_row == MenuRow::Theme));
    out.push(choice_line(
        "punctuation",
        on_off_items(),
        if a.config.punctuation { 0 } else { 1 },
        a.menu_row == MenuRow::Punctuation,
    ));
    out.push(choice_line(
        "numbers",
        on_off_items(),
        if a.config.numbers { 0 } else { 1 },
        a.menu_row == MenuRow::Numbers,
    ));
    out
}

/// What the progress part of the stats bar shows.
#[derive(Debug, Clone, Copy, PartialEq, Eq, Structural)]
pub enum Progress {
    /// Code lines done out of all, and whether the time left is shown beside.
    Lines { done: usize, total: usize, timed: bool },
    /// The seconds left of a timed test.
    TimeLeft,
    /// Words done out of the goal.
    Words { done: usize, total: usize },
    /// The seconds since the start, for a test without an end.
    Elapsed,
}

/// The progress of a test under the settings' mode.
pub open spec fn spec_progress(mode: TestMode, count: WordCount, t: TestModel) -> Progress {
    if t.code_mode {
        Progress::Lines {
            done: sum_measure(t.lines.map_values(|p: (Seq<char>, WordModel)| p.1), Measure::Completed) as usize,
            total: t.lines.len() as usize,
            timed: t.time_limit is Some,
        }
    } else {
        match mode {
            TestMode::Time => Progress::TimeLeft,
            TestMode::Words => Progress::Words { done: t.completed_words() as usize, total: count.spec_count() },
            TestMode::Quote => Progress::Words { done: t.completed_words() as usize, total: t.words.len() as usize },
            TestMode::Zen => Progress::Elapsed,
        }
    }
}

/// The progress shown in the stats bar of the test, if there is one.
pub fn progress(a: &App) -> (r: Option<Progress>)
    ensures
        match a.test {
            Some(t) => r == Some(spec_progress(a.config.mode, a.config.word_count, t@)),
            None => r is None,
        },
{
    match &a.test {
        Some(t) => {
            if t.code_mode {
                Some(Progress::Lines { done: t.lines_completed(), total: t.code_lines.len(), timed: t.time_limit.is_some() })
            } else {
                Some(match a.config.mode {
                    TestMode::Time => Progress::TimeLeft,
                    TestMode::Words => Progress::Words { done: t.words_completed(), total: a.config.word_count.count() },
                    TestMode::Quote => Progress::Words { done: t.words_completed(), total: t.words.len() },
                    TestMode::Zen => Progress::Elapsed,
                })
            }
        },
        None => None,
    }
}

} // verus!
