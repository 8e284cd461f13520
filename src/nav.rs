//! The cursor engine and the viewport, as functions from state to state.
use crate::geometry::{
    landing_col, last_col, last_row_start, lemma_col_of, lemma_div_add_w, lemma_first_row, lemma_last_row_index,
    lemma_last_row_start, lemma_line_rows, lemma_row_above, lemma_row_index_bound, lemma_row_start, lemma_zero_row,
    min_of, n_rows, row_start,
};
use crate::line::{line_len, lines_fit, Line};
use vstd::arithmetic::div_mod::lemma_fundamental_div_mod;
use vstd::prelude::*;

verus! {

/// Where in the window something resides; `{ col: 0, row: 0 }` is the top
/// left corner.
#[derive(Clone, Copy, Debug, PartialEq, Eq, Structural)]
pub struct Pos {
    pub col: usize,
    pub row: usize,
}

/// The cursor: its place in the window and in the text.
#[derive(Clone, Copy, Debug, PartialEq, Eq, Structural)]
pub struct Cursor {
    /// The position of the cursor in the window.
    pub pos: Pos,
    /// Index of the line that holds the cursor.
    pub line: usize,
    /// Offset of the cursor from the start of its line.
    pub byte: usize,
    /// Whether vertical moves track the ends of rows.
    pub is_at_eol: bool,
}

/// The first line drawn, and the offset in it of the first byte drawn.
#[derive(Clone, Copy, Debug, PartialEq, Eq, Structural)]
pub struct Viewport {
    pub line_offset: usize,
    pub line_offset_byte: usize,
}

/// The cursor's invariants in a window `w` wide and `h` high.
pub open spec fn cursor_wf(lines: Seq<Line>, w: int, h: int, c: Cursor) -> bool {
    let len = line_len(lines, c.line as int);
    &&& c.line < lines.len()
    &&& (c.byte == 0 || c.byte < len)
    &&& c.pos.col == (c.byte as int) % w
    &&& c.pos.row < h
    &&& c.is_at_eol ==> c.pos.col == last_col(len, c.byte as int, w)
}

/// The viewport's invariants: it starts at the start of a row of its line.
pub open spec fn viewport_wf(lines: Seq<Line>, w: int, v: Viewport) -> bool {
    &&& v.line_offset < lines.len()
    &&& (v.line_offset_byte as int) % w == 0
    &&& (v.line_offset_byte == 0 || v.line_offset_byte < line_len(lines, v.line_offset as int))
}

/// The whole navigation state is well formed.
pub open spec fn nav_wf(lines: Seq<Line>, w: int, h: int, c: Cursor, v: Viewport) -> bool {
    &&& w > 0
    &&& h > 0
    &&& cursor_wf(lines, w, h, c)
    &&& viewport_wf(lines, w, v)
}

/// Number of rows that the lines before line `i` occupy.
pub open spec fn rows_before(lines: Seq<Line>, w: int, i: int) -> int
    decreases i,
{
    if i <= 0 {
        0
    } else {
        rows_before(lines, w, i - 1) + n_rows(line_len(lines, i - 1), w)
    }
}

/// Index, among all rows of the text, of the row that holds byte `b` of line `i`.
pub open spec fn text_row(lines: Seq<Line>, w: int, i: int, b: int) -> int {
    rows_before(lines, w, i) + b / w
}

/// The cursor's screen row is the number of text rows from the viewport's
/// first row down to the cursor's row.
pub open spec fn rows_consistent(lines: Seq<Line>, w: int, c: Cursor, v: Viewport) -> bool {
    c.pos.row == text_row(lines, w, c.line as int, c.byte as int) - text_row(
        lines,
        w,
        v.line_offset as int,
        v.line_offset_byte as int,
    )
}

/// The cursor with a new place; its flag unchanged.
pub open spec fn moved(c: Cursor, line: int, byte: int, col: int, row: int) -> Cursor {
    Cursor {
        pos: Pos { col: col as usize, row: row as usize },
        line: line as usize,
        byte: byte as usize,
        is_at_eol: c.is_at_eol,
    }
}

/// Shifts the viewport down by one row; no-op on the last row of the text.
pub open spec fn scroll_down_spec(lines: Seq<Line>, w: int, v: Viewport) -> Viewport {
    let len = line_len(lines, v.line_offset as int);
    if v.line_offset_byte + w < len {
        Viewport { line_offset: v.line_offset, line_offset_byte: (v.line_offset_byte + w) as usize }
    } else if v.line_offset + 1 < lines.len() {
        Viewport { line_offset: (v.line_offset + 1) as usize, line_offset_byte: 0 }
    } else {
        v
    }
}

/// Shifts the viewport up by one row; no-op on the first row of the text.
pub open spec fn scroll_up_spec(lines: Seq<Line>, w: int, v: Viewport) -> Viewport {
    if v.line_offset_byte >= w {
        Viewport { line_offset: v.line_offset, line_offset_byte: (v.line_offset_byte - w) as usize }
    } else if v.line_offset > 0 {
        let len = line_len(lines, v.line_offset - 1);
        Viewport {
            line_offset: (v.line_offset - 1) as usize,
            line_offset_byte: last_row_start(len, w) as usize,
        }
    } else {
        v
    }
}

/// Bytes of the cursor's line after the row that holds the cursor.
pub open spec fn rest_after_row(lines: Seq<Line>, w: int, c: Cursor) -> int {
    line_len(lines, c.line as int) - row_start(c.byte as int, w) - w
}

/// Whether there is a row below the cursor's row.
pub open spec fn can_move_down(lines: Seq<Line>, w: int, c: Cursor) -> bool {
    rest_after_row(lines, w, c) > 0 || c.line + 1 < lines.len()
}

/// Length of the row that a move down lands on.
pub open spec fn row_below_len(lines: Seq<Line>, w: int, c: Cursor) -> int {
    if rest_after_row(lines, w, c) > 0 {
        min_of(rest_after_row(lines, w, c), w)
    } else {
        min_of(line_len(lines, c.line + 1), w)
    }
}

/// Moves the cursor down by one row; at the bottom of the window the
/// viewport scrolls instead of the cursor's screen row.
pub open spec fn down_spec(lines: Seq<Line>, w: int, h: int, c: Cursor, v: Viewport) -> (Cursor, Viewport) {
    if can_move_down(lines, w, c) {
        let at_bottom = c.pos.row + 1 == h;
        let row = if at_bottom { c.pos.row as int } else { c.pos.row + 1 };
        let v2 = if at_bottom { scroll_down_spec(lines, w, v) } else { v };
        let col = landing_col(c.pos.col as int, c.is_at_eol, row_below_len(lines, w, c));
        if rest_after_row(lines, w, c) > 0 {
            let byte = row_start(c.byte as int, w) + w + col;
            (moved(c, c.line as int, byte, col, row), v2)
        } else {
            (moved(c, c.line + 1, col, col, row), v2)
        }
    } else {
        (c, v)
    }
}

/// Moves the cursor up by one row; at the top of the window the viewport
/// scrolls up first.
pub open spec fn up_spec(lines: Seq<Line>, w: int, h: int, c: Cursor, v: Viewport) -> (Cursor, Viewport) {
    let at_top = c.pos.row == 0;
    let row = if at_top { 0 } else { c.pos.row - 1 };
    let v2 = if at_top { scroll_up_spec(lines, w, v) } else { v };
    if c.byte >= w {
        let col = landing_col(c.pos.col as int, c.is_at_eol, w);
        let byte = row_start(c.byte as int, w) - w + col;
        (moved(c, c.line as int, byte, col, row), v2)
    } else if c.line > 0 {
        let len = line_len(lines, c.line - 1);
        let start = last_row_start(len, w);
        let col = landing_col(c.pos.col as int, c.is_at_eol, len - start);
        (moved(c, c.line - 1, start + col, col, row), v2)
    } else {
        (c, v2)
    }
}

/// Moves the cursor right by one column, within its row.
pub open spec fn right_spec(lines: Seq<Line>, w: int, c: Cursor) -> Cursor {
    let len = line_len(lines, c.line as int);
    if c.byte + 1 < len && c.pos.col + 1 < w {
        Cursor {
            pos: Pos { col: (c.pos.col + 1) as usize, row: c.pos.row },
            line: c.line,
            byte: (c.byte + 1) as usize,
            is_at_eol: c.pos.col + 1 == last_col(len, c.byte + 1, w),
        }
    } else {
        c
    }
}

/// Moves the cursor left by one column, within its row.
pub open spec fn left_spec(lines: Seq<Line>, w: int, c: Cursor) -> Cursor {
    let len = line_len(lines, c.line as int);
    if c.pos.col > 0 {
        Cursor {
            pos: Pos { col: (c.pos.col - 1) as usize, row: c.pos.row },
            line: c.line,
            byte: (c.byte - 1) as usize,
            is_at_eol: if c.pos.col == last_col(len, c.byte as int, w) {
                false
            } else {
                c.is_at_eol
            },
        }
    } else {
        c
    }
}

/// `n` moves right.
pub open spec fn right_n(lines: Seq<Line>, w: int, c: Cursor, n: nat) -> Cursor
    decreases n,
{
    if n == 0 {
        c
    } else {
        right_n(lines, w, right_spec(lines, w, c), (n - 1) as nat)
    }
}

/// `n` moves left.
pub open spec fn left_n(lines: Seq<Line>, w: int, c: Cursor, n: nat) -> Cursor
    decreases n,
{
    if n == 0 {
        c
    } else {
        left_n(lines, w, left_spec(lines, w, c), (n - 1) as nat)
    }
}

/// Number of moves right before the end of the row or of the line blocks.
pub open spec fn steps_to_row_end(lines: Seq<Line>, w: int, c: Cursor) -> nat {
    let by_line = line_len(lines, c.line as int) - 1 - c.byte;
    let by_row = w - 1 - c.pos.col;
    let k = min_of(by_line, by_row);
    if k < 0 {
        0
    } else {
        k as nat
    }
}

/// `n` moves down.
pub open spec fn down_n(lines: Seq<Line>, w: int, h: int, c: Cursor, v: Viewport, n: nat) -> (Cursor, Viewport)
    decreases n,
{
    if n == 0 {
        (c, v)
    } else {
        let s = down_spec(lines, w, h, c, v);
        down_n(lines, w, h, s.0, s.1, (n - 1) as nat)
    }
}

/// Whether a move up is blocked: the cursor is on the first row of the text.
pub open spec fn up_blocked(w: int, c: Cursor) -> bool {
    c.line == 0 && c.byte < w
}

/// Up to `n` moves up, stopping once a move up is blocked.
pub open spec fn page_up_spec(lines: Seq<Line>, w: int, h: int, c: Cursor, v: Viewport, n: nat) -> (Cursor, Viewport)
    decreases n,
{
    if n == 0 || up_blocked(w, c) {
        (c, v)
    } else {
        let s = up_spec(lines, w, h, c, v);
        page_up_spec(lines, w, h, s.0, s.1, (n - 1) as nat)
    }
}

/// Each line occupies at least one row.
pub proof fn lemma_rows_before_mono(lines: Seq<Line>, w: int, i: int, j: int)
    requires
        w > 0,
        0 <= i <= j,
    ensures
        rows_before(lines, w, i) + (j - i) <= rows_before(lines, w, j),
        rows_before(lines, w, i) >= i,
    decreases j,
{
    if i < j {
        lemma_rows_before_mono(lines, w, i, j - 1);
        lemma_line_rows(line_len(lines, j - 1), w);
    } else if i > 0 {
        lemma_rows_before_mono(lines, w, i - 1, i - 1);
        lemma_line_rows(line_len(lines, i - 1), w);
    }
}

/// Every place in the text lies on one of its rows.
pub proof fn lemma_text_row_bound(lines: Seq<Line>, w: int, i: int, b: int)
    requires
        w > 0,
        0 <= i < lines.len(),
        b >= 0,
        b == 0 || b < line_len(lines, i),
    ensures
        i <= text_row(lines, w, i, b) <= rows_before(lines, w, lines.len() as int) - 1,
{
    lemma_row_index_bound(line_len(lines, i), w, b);
    lemma_rows_before_mono(lines, w, 0, i);
    lemma_rows_before_mono(lines, w, i + 1, lines.len() as int);
}

/// Scrolling down moves the viewport one text row down, unless it is on the
/// last row of the text.
pub proof fn lemma_scroll_down_rows(lines: Seq<Line>, w: int, v: Viewport)
    requires
        0 < w <= usize::MAX,
        lines_fit(lines),
        viewport_wf(lines, w, v),
    ensures
        ({
            let v2 = scroll_down_spec(lines, w, v);
            &&& v2 != v ==> text_row(lines, w, v2.line_offset as int, v2.line_offset_byte as int) == text_row(
                lines,
                w,
                v.line_offset as int,
                v.line_offset_byte as int,
            ) + 1
            &&& v2 == v ==> text_row(lines, w, v.line_offset as int, v.line_offset_byte as int) == rows_before(
                lines,
                w,
                lines.len() as int,
            ) - 1
        }),
{
    let len = line_len(lines, v.line_offset as int);
    let lob = v.line_offset_byte as int;
    lemma_zero_row(w);
    if lob + w < len {
        lemma_div_add_w(lob, w);
    } else {
        lemma_last_row_index(len, w, lob);
    }
}

/// Scrolling up moves the viewport one text row up, unless it is on the
/// first row of the text.
pub proof fn lemma_scroll_up_rows(lines: Seq<Line>, w: int, v: Viewport)
    requires
        0 < w <= usize::MAX,
        lines_fit(lines),
        viewport_wf(lines, w, v),
    ensures
        ({
            let v2 = scroll_up_spec(lines, w, v);
            let t = text_row(lines, w, v.line_offset as int, v.line_offset_byte as int);
            &&& t >= 0
            &&& t > 0 ==> text_row(lines, w, v2.line_offset as int, v2.line_offset_byte as int) == t - 1
            &&& t == 0 ==> v2 == v
        }),
{
    let lob = v.line_offset_byte as int;
    lemma_rows_before_mono(lines, w, 0, v.line_offset as int);
    lemma_row_index_bound(line_len(lines, v.line_offset as int), w, lob);
    if lob >= w {
        lemma_row_above(lob, w);
        lemma_div_add_w(lob - w, w);
        lemma_row_index_bound(line_len(lines, v.line_offset as int), w, lob - w);
    } else {
        lemma_first_row(lob, w);
        lemma_zero_row(w);
        if v.line_offset > 0 {
            let len = line_len(lines, v.line_offset - 1);
            lemma_zero_row(w);
            if len > 0 {
                lemma_last_row_start(len, w);
            }
            lemma_last_row_index(len, w, last_row_start(len, w));
        }
    }
}

/// A move down goes one text row down.
pub proof fn lemma_down_rows(lines: Seq<Line>, w: int, h: int, c: Cursor, v: Viewport)
    requires
        0 < w <= usize::MAX,
        h <= usize::MAX,
        lines_fit(lines),
        cursor_wf(lines, w, h, c),
        can_move_down(lines, w, c),
    ensures
        ({
            let c2 = down_spec(lines, w, h, c, v).0;
            text_row(lines, w, c2.line as int, c2.byte as int) == text_row(lines, w, c.line as int, c.byte as int) + 1
        }),
{
    let len = line_len(lines, c.line as int);
    let s = row_start(c.byte as int, w);
    lemma_row_start(c.byte as int, w);
    lemma_col_of(s, w, c.pos.col as int);
    lemma_zero_row(w);
    let col = landing_col(c.pos.col as int, c.is_at_eol, row_below_len(lines, w, c));
    if rest_after_row(lines, w, c) > 0 {
        lemma_col_of(s + w, w, col);
        lemma_div_add_w(s, w);
    } else {
        lemma_col_of(0, w, col);
        lemma_last_row_index(len, w, s);
    }
}

/// A move up goes one text row up; the cursor stays only on the first row of
/// the text.
pub proof fn lemma_up_rows(lines: Seq<Line>, w: int, h: int, c: Cursor, v: Viewport)
    requires
        0 < w <= usize::MAX,
        h <= usize::MAX,
        lines_fit(lines),
        cursor_wf(lines, w, h, c),
    ensures
        ({
            let c2 = up_spec(lines, w, h, c, v).0;
            let t = text_row(lines, w, c.line as int, c.byte as int);
            &&& c.byte >= w || c.line > 0 ==> text_row(lines, w, c2.line as int, c2.byte as int) == t - 1
            &&& !(c.byte >= w || c.line > 0) ==> t == 0 && c2 == c
        }),
{
    let s = row_start(c.byte as int, w);
    lemma_row_start(c.byte as int, w);
    lemma_col_of(s, w, c.pos.col as int);
    lemma_zero_row(w);
    if c.byte >= w {
        let col = landing_col(c.pos.col as int, c.is_at_eol, w);
        lemma_row_above(s, w);
        lemma_col_of(s - w, w, col);
        lemma_div_add_w(s - w, w);
    } else {
        lemma_first_row(s, w);
        if c.line > 0 {
            let len = line_len(lines, c.line - 1);
            let start = last_row_start(len, w);
            if len > 0 {
                lemma_last_row_start(len, w);
            }
            let col = landing_col(c.pos.col as int, c.is_at_eol, len - start);
            lemma_col_of(start, w, col);
            lemma_last_row_index(len, w, start);
        }
    }
}

/// The viewport scrolled down `k` times.
pub open spec fn scroll_down_n(lines: Seq<Line>, w: int, v: Viewport, k: nat) -> Viewport
    decreases k,
{
    if k == 0 {
        v
    } else {
        scroll_down_n(lines, w, scroll_down_spec(lines, w, v), (k - 1) as nat)
    }
}

/// Scrolling down keeps the viewport well formed.
pub proof fn lemma_scroll_down_wf(lines: Seq<Line>, w: int, v: Viewport)
    requires
        0 < w <= usize::MAX,
        lines_fit(lines),
        viewport_wf(lines, w, v),
    ensures
        viewport_wf(lines, w, scroll_down_spec(lines, w, v)),
{
    lemma_row_start(v.line_offset_byte as int, w);
    lemma_zero_row(w);
}

/// Two starts of rows on the same text row are the same place.
pub proof fn lemma_text_row_injective(lines: Seq<Line>, w: int, i1: int, s1: int, i2: int, s2: int)
    requires
        w > 0,
        0 <= i1 < lines.len(),
        0 <= i2 < lines.len(),
        s1 >= 0,
        s2 >= 0,
        s1 % w == 0,
        s2 % w == 0,
        s1 == 0 || s1 < line_len(lines, i1),
        s2 == 0 || s2 < line_len(lines, i2),
        text_row(lines, w, i1, s1) == text_row(lines, w, i2, s2),
    ensures
        i1 == i2,
        s1 == s2,
{
    lemma_row_index_bound(line_len(lines, i1), w, s1);
    lemma_row_index_bound(line_len(lines, i2), w, s2);
    if i1 < i2 {
        lemma_rows_before_mono(lines, w, i1 + 1, i2);
    } else if i2 < i1 {
        lemma_rows_before_mono(lines, w, i2 + 1, i1);
    } else {
        lemma_fundamental_div_mod(s1, w);
        lemma_fundamental_div_mod(s2, w);
    }
}

/// From a viewport `k` text rows above the row that starts at byte `s` of
/// line `i`, scrolling down `k` times brings that row to the top.
proof fn lemma_scroll_to_row(lines: Seq<Line>, w: int, v: Viewport, i: int, s: int, k: nat)
    requires
        0 < w <= usize::MAX,
        lines_fit(lines),
        viewport_wf(lines, w, v),
        0 <= i < lines.len(),
        s >= 0,
        s % w == 0,
        s == 0 || s < line_len(lines, i),
        text_row(lines, w, i, s) - text_row(lines, w, v.line_offset as int, v.line_offset_byte as int) == k,
    ensures
        scroll_down_n(lines, w, v, k) == (Viewport { line_offset: i as usize, line_offset_byte: s as usize }),
    decreases k,
{
    if k == 0 {
        lemma_text_row_injective(lines, w, v.line_offset as int, v.line_offset_byte as int, i, s);
    } else {
        lemma_text_row_bound(lines, w, i, s);
        lemma_scroll_down_rows(lines, w, v);
        lemma_scroll_down_wf(lines, w, v);
        lemma_scroll_to_row(lines, w, scroll_down_spec(lines, w, v), i, s, (k - 1) as nat);
    }
}

/// The cursor's screen row counts the rows from the top of the window to the
/// cursor's row: scrolling down that many rows brings the cursor's row to the
/// top.
pub proof fn lemma_cursor_row_in_view(lines: Seq<Line>, w: int, h: int, c: Cursor, v: Viewport)
    requires
        nav_wf(lines, w, h, c, v),
        lines_fit(lines),
        w <= usize::MAX,
        rows_consistent(lines, w, c, v),
    ensures
        scroll_down_n(lines, w, v, c.pos.row as nat) == (Viewport {
            line_offset: c.line,
            line_offset_byte: (c.byte - c.pos.col) as usize,
        }),
{
    let s = row_start(c.byte as int, w);
    lemma_row_start(c.byte as int, w);
    lemma_col_of(s, w, c.pos.col as int);
    lemma_scroll_to_row(lines, w, v, c.line as int, s, c.pos.row as nat);
}

/// Moves right that all succeed advance the byte and the column by one each.
pub proof fn lemma_right_n(lines: Seq<Line>, w: int, c: Cursor, n: nat)
    requires
        c.byte + n < line_len(lines, c.line as int) <= usize::MAX,
        c.pos.col + n < w <= usize::MAX,
    ensures
        right_n(lines, w, c, n).byte == c.byte + n,
        right_n(lines, w, c, n).pos == (Pos { col: (c.pos.col + n) as usize, row: c.pos.row }),
        right_n(lines, w, c, n).line == c.line,
    decreases n,
{
    if n > 0 {
        lemma_right_n(lines, w, right_spec(lines, w, c), (n - 1) as nat);
    }
}

/// Moves left from column `n` or beyond take the byte and the column back by
/// one each.
pub proof fn lemma_left_n(lines: Seq<Line>, w: int, c: Cursor, n: nat)
    requires
        n <= c.pos.col,
        n <= c.byte,
    ensures
        left_n(lines, w, c, n).byte == c.byte - n,
        left_n(lines, w, c, n).pos == (Pos { col: (c.pos.col - n) as usize, row: c.pos.row }),
        left_n(lines, w, c, n).line == c.line,
    decreases n,
{
    if n > 0 {
        lemma_left_n(lines, w, left_spec(lines, w, c), (n - 1) as nat);
    }
}

/// Moving right `n` times, where every move succeeds, then left `n` times
/// brings the cursor back to its byte and its screen position.
pub proof fn lemma_right_left_round_trip(lines: Seq<Line>, w: int, c: Cursor, n: nat)
    requires
        c.byte + n < line_len(lines, c.line as int) <= usize::MAX,
        c.pos.col + n < w <= usize::MAX,
    ensures
        left_n(lines, w, right_n(lines, w, c, n), n).byte == c.byte,
        left_n(lines, w, right_n(lines, w, c, n), n).pos == c.pos,
{
    lemma_right_n(lines, w, c, n);
    lemma_left_n(lines, w, right_n(lines, w, c, n), n);
}

/// Down then up brings the cursor back to its line and byte, from any state
/// with a row below whose length leaves the cursor's column in place (or
/// that tracks the ends of rows).
pub proof fn lemma_down_up(lines: Seq<Line>, w: int, h: int, c: Cursor, v: Viewport)
    requires
        nav_wf(lines, w, h, c, v),
        lines_fit(lines),
        w <= usize::MAX,
        h <= usize::MAX,
        can_move_down(lines, w, c),
        c.is_at_eol || c.pos.col < row_below_len(lines, w, c),
    ensures
        ({
            let d = down_spec(lines, w, h, c, v);
            let u = up_spec(lines, w, h, d.0, d.1);
            u.0.line == c.line && u.0.byte == c.byte && u.0.pos.col == c.pos.col
        }),
{
    let len = line_len(lines, c.line as int);
    let s = row_start(c.byte as int, w);
    lemma_row_start(c.byte as int, w);
    let d = down_spec(lines, w, h, c, v);
    let col = landing_col(c.pos.col as int, c.is_at_eol, row_below_len(lines, w, c));
    if rest_after_row(lines, w, c) > 0 {
        lemma_col_of(s + w, w, col);
    } else {
        lemma_col_of(0, w, col);
        if len > 0 {
            lemma_col_of(s, w, len - 1 - s);
            lemma_last_row_start(len, w);
        }
    }
}

/// Scrolling down then up restores the viewport, whenever scrolling down
/// moved it.
pub proof fn lemma_scroll_round_trip(lines: Seq<Line>, w: int, v: Viewport)
    requires
        0 < w <= usize::MAX,
        lines_fit(lines),
        viewport_wf(lines, w, v),
        scroll_down_spec(lines, w, v) != v,
    ensures
        scroll_up_spec(lines, w, scroll_down_spec(lines, w, v)) == v,
{
    let len = line_len(lines, v.line_offset as int);
    if v.line_offset_byte + w >= len && len > 0 {
        lemma_col_of(v.line_offset_byte as int, w, len - 1 - v.line_offset_byte);
        lemma_last_row_start(len, w);
    }
}

} // verus!
