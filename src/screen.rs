//! The painter: one buffer of output bytes that redraws the whole window.
use crate::editor::Editor;
use crate::geometry::{lemma_line_rows, min_of, n_rows, rows_from};
use crate::line::{line_len, spaces, Line, SPACE};
use crate::nav::Pos;
use crate::status::{is_shown, StatusMsg};
use vstd::prelude::*;

verus! {

/// `ESC [` followed by `cmd`.
pub open spec fn esc_seq(cmd: Seq<u8>) -> Seq<u8> {
    seq![0x1bu8, 0x5bu8] + cmd
}

/// Clears the rest of the row: `ESC [ K`.
pub open spec fn clear_row_seq() -> Seq<u8> {
    esc_seq(seq![0x4bu8])
}

/// Ends a row: carriage return and line feed.
pub open spec fn crlf() -> Seq<u8> {
    seq![0x0du8, 0x0au8]
}

/// Marks a row below the end of the text.
pub open spec fn filler_row() -> Seq<u8> {
    clear_row_seq() + seq![0x7eu8] + crlf()
}

/// Decimal digits of `n`.
pub open spec fn decimal(n: nat) -> Seq<u8>
    decreases n,
{
    if n < 10 {
        seq![(0x30 + n) as u8]
    } else {
        decimal(n / 10).push((0x30 + n % 10) as u8)
    }
}

/// Moves the terminal cursor to `pos`: `ESC [ <row+1> ; <col+1> H`.
pub open spec fn move_seq(pos: Pos) -> Seq<u8> {
    esc_seq(decimal((pos.row + 1) as nat) + seq![0x3bu8] + decimal((pos.col + 1) as nat) + seq![0x48u8])
}

/// The rendered bytes of line `i` from `start` on the row that starts there.
pub open spec fn row_slice(lines: Seq<Line>, i: int, start: int, w: int) -> Seq<u8> {
    lines[i].render@.subrange(start, min_of(start + w, line_len(lines, i)))
}

/// `k` rows of the window, from byte `start` of line `i` on: each row is
/// cleared, then drawn; rows past the last line hold a filler mark.
pub open spec fn paint_rows(lines: Seq<Line>, i: int, start: int, w: int, k: nat) -> Seq<u8>
    decreases k,
{
    if k == 0 {
        Seq::empty()
    } else if i < 0 || i >= lines.len() {
        filler_row() + paint_rows(lines, i, start, w, (k - 1) as nat)
    } else {
        let len = line_len(lines, i);
        let end = min_of(start + w, len);
        let rest = if end < len {
            paint_rows(lines, i, end, w, (k - 1) as nat)
        } else {
            paint_rows(lines, i + 1, 0, w, (k - 1) as nat)
        };
        clear_row_seq() + row_slice(lines, i, start, w) + crlf() + rest
    }
}

/// Right part of the status bar: `<line>:<col> | <n> line(s)`.
pub open spec fn status_right(line: nat, col: nat, n: nat) -> Seq<u8> {
    decimal(line) + seq![0x3au8] + decimal(col) + seq![0x20u8, 0x7cu8, 0x20u8] + decimal(n) + (if n == 1 {
        seq![0x20u8, 0x6cu8, 0x69u8, 0x6eu8, 0x65u8]
    } else {
        seq![0x20u8, 0x6cu8, 0x69u8, 0x6eu8, 0x65u8, 0x73u8]
    })
}

/// The status bar, `w` wide: the path, cut to fit, then padding, then
/// `right`; where `right` alone is too wide, its first `w` bytes.
pub open spec fn status_bar_text(path: Seq<u8>, right: Seq<u8>, w: int) -> Seq<u8> {
    if right.len() <= w {
        let n_path = min_of(path.len() as int, w - right.len());
        path.subrange(0, n_path) + spaces(w - right.len() - n_path) + right
    } else {
        right.subrange(0, w)
    }
}

/// The status bar in inverse video.
pub open spec fn status_bar_seq(path: Seq<u8>, right: Seq<u8>, w: int) -> Seq<u8> {
    esc_seq(seq![0x37u8, 0x6du8]) + status_bar_text(path, right, w) + esc_seq(seq![0x6du8])
}

/// The message row: cleared, then the message cut to the width if shown.
pub open spec fn message_row(msg: StatusMsg, w: int, now: u64) -> Seq<u8> {
    clear_row_seq() + if is_shown(msg.timestamp, msg.timeout, now) {
        msg.data@.subrange(0, min_of(msg.data@.len() as int, w))
    } else {
        Seq::empty()
    }
}

/// From byte `s` on, line `i` takes `rows_from` painted rows; the rows after
/// them are those of the next line.
proof fn lemma_paint_rows_from(lines: Seq<Line>, w: int, i: int, s: int, k: nat)
    requires
        w > 0,
        0 <= i < lines.len(),
        0 <= s,
        s == 0 || s < line_len(lines, i),
    ensures
        ({
            let m = rows_from(line_len(lines, i), s, w);
            paint_rows(lines, i, s, w, m + k) == paint_rows(lines, i, s, w, m) + paint_rows(lines, i + 1, 0, w, k)
        }),
    decreases line_len(lines, i) - s,
{
    let len = line_len(lines, i);
    let m = rows_from(len, s, w);
    let head = clear_row_seq() + row_slice(lines, i, s, w) + crlf();
    if s + w >= len {
        assert(paint_rows(lines, i, s, w, 1) =~= head + paint_rows(lines, i + 1, 0, w, 0));
        assert(paint_rows(lines, i, s, w, 1) =~= head);
    } else {
        let m1 = rows_from(len, s + w, w);
        lemma_paint_rows_from(lines, w, i, s + w, k);
        assert(paint_rows(lines, i, s, w, m + k) == head + paint_rows(lines, i, s + w, w, m1 + k));
        assert(paint_rows(lines, i, s, w, m) == head + paint_rows(lines, i, s + w, w, m1));
        assert(head + (paint_rows(lines, i, s + w, w, m1) + paint_rows(lines, i + 1, 0, w, k)) =~= (head
            + paint_rows(lines, i, s + w, w, m1)) + paint_rows(lines, i + 1, 0, w, k));
    }
}

/// A line of length `k` is painted as `max(1, ceil(k / w))` rows, after which
/// painting goes on with the next line.
pub proof fn lemma_line_painted_rows(lines: Seq<Line>, w: int, i: int, k: nat)
    requires
        w > 0,
        0 <= i < lines.len(),
    ensures
        ({
            let len = line_len(lines, i);
            let n = (if len == 0 {
                1
            } else {
                (len + w - 1) / w
            }) as nat;
            paint_rows(lines, i, 0, w, n + k) == paint_rows(lines, i, 0, w, n) + paint_rows(lines, i + 1, 0, w, k)
        }),
{
    lemma_line_rows(line_len(lines, i), w);
    lemma_paint_rows_from(lines, w, i, 0, k);
}

/// The first `j` full rows from byte `s` of line `i` come first, then the
/// rows from `j` rows further on.
proof fn lemma_paint_split(lines: Seq<Line>, w: int, i: int, s: int, j: nat, m: nat)
    requires
        w > 0,
        0 <= i < lines.len(),
        0 <= s,
        j == 0 || s + j * w < line_len(lines, i),
    ensures
        paint_rows(lines, i, s, w, j + m) == paint_rows(lines, i, s, w, j) + paint_rows(lines, i, s + j * w, w, m),
    decreases j,
{
    if j == 0 {
        assert(paint_rows(lines, i, s, w, 0) + paint_rows(lines, i, s, w, m) =~= paint_rows(lines, i, s, w, m));
    } else {
        let j1 = (j - 1) as nat;
        assert(s + w + j1 * w == s + j * w) by (nonlinear_arith)
            requires
                j1 == j - 1,
        ;
        assert(j1 * w >= 0) by (nonlinear_arith)
            requires
                w > 0,
        ;
        lemma_paint_split(lines, w, i, s + w, j1, m);
        let head = clear_row_seq() + row_slice(lines, i, s, w) + crlf();
        assert(paint_rows(lines, i, s, w, j + m) == head + paint_rows(lines, i, s + w, w, j1 + m));
        assert(paint_rows(lines, i, s, w, j) == head + paint_rows(lines, i, s + w, w, j1));
        assert(head + (paint_rows(lines, i, s + w, w, j1) + paint_rows(lines, i, s + j * w, w, m)) =~= (head
            + paint_rows(lines, i, s + w, w, j1)) + paint_rows(lines, i, s + j * w, w, m));
    }
}

/// Row `j` of a line of length `k`, for `j` below `max(1, ceil(k / w))`, is
/// painted as its bytes `j * w .. min(k, (j + 1) * w)`, after the rows
/// before it.
pub proof fn lemma_line_row_slices(lines: Seq<Line>, w: int, i: int, j: nat, m: nat)
    requires
        w > 0,
        0 <= i < lines.len(),
        j < n_rows(line_len(lines, i), w),
    ensures
        paint_rows(lines, i, 0, w, j + m) == paint_rows(lines, i, 0, w, j) + paint_rows(lines, i, j * w, w, m),
        paint_rows(lines, i, j * w, w, 1) == clear_row_seq() + lines[i].render@.subrange(
            j * w,
            min_of(line_len(lines, i), (j + 1) * w),
        ) + crlf(),
{
    let len = line_len(lines, i);
    lemma_line_rows(len, w);
    assert((j + 1) * w == j * w + w) by (nonlinear_arith);
    assert(j * w >= 0) by (nonlinear_arith)
        requires
            w > 0,
    ;
    if len > 0 {
        assert(j * w <= (n_rows(len, w) - 1) * w) by (nonlinear_arith)
            requires
                j <= n_rows(len, w) - 1,
                w > 0,
        ;
    } else {
        assert(j == 0);
    }
    lemma_paint_split(lines, w, i, 0, j, m);
    let head = clear_row_seq() + row_slice(lines, i, j * w, w) + crlf();
    assert(paint_rows(lines, i, min_of(j * w + w, len), w, 0) == Seq::<u8>::empty());
    assert(paint_rows(lines, i + 1, 0, w, 0) == Seq::<u8>::empty());
    assert(paint_rows(lines, i, j * w, w, 1) =~= head);
}

/// A message issued at `t0` and held for `d` is drawn `eps` before its time
/// is up, and its row is blank `eps` after.
pub proof fn lemma_message_visibility(msg: StatusMsg, w: int, eps: u64)
    requires
        0 < eps <= msg.timeout,
        msg.timestamp + msg.timeout + eps <= u64::MAX,
    ensures
        message_row(msg, w, (msg.timestamp + msg.timeout - eps) as u64) == clear_row_seq() + msg.data@.subrange(
            0,
            min_of(msg.data@.len() as int, w),
        ),
        message_row(msg, w, (msg.timestamp + msg.timeout + eps) as u64) == clear_row_seq(),
{
    assert(clear_row_seq() + Seq::<u8>::empty() =~= clear_row_seq());
}

impl Editor {
    /// The bytes of one redraw at time `now`.
    pub open spec fn frame(&self, now: u64) -> Seq<u8> {
        esc_seq(seq![0x3fu8, 0x32u8, 0x35u8, 0x6cu8]) + move_seq(Pos { col: 0, row: 0 }) + paint_rows(
            self.lines@,
            self.viewport.line_offset as int,
            self.viewport.line_offset_byte as int,
            self.window_width as int,
            self.window_height as nat,
        ) + status_bar_seq(
            self.path@,
            status_right(self.cursor.line as nat, self.cursor.pos.col as nat, self.lines@.len()),
            self.window_width as int,
        ) + crlf() + message_row(self.status_msg, self.window_width as int, now) + move_seq(self.cursor.pos)
            + esc_seq(seq![0x3fu8, 0x32u8, 0x35u8, 0x68u8])
    }
}

impl Editor {
    /// Appends the rows of the window, from the viewport down.
    pub fn build_rows(&self, buf: &mut Vec<u8>)
        requires
            self.layout_wf(),
        ensures
            final(buf)@ == old(buf)@ + paint_rows(
                self.lines@,
                self.viewport.line_offset as int,
                self.viewport.line_offset_byte as int,
                self.window_width as int,
                self.window_height as nat,
            ),
    {
        let n = self.lines.len();
        let w = self.window_width;
        let mut i = self.viewport.line_offset;
        let mut start = self.viewport.line_offset_byte;
        let mut k = self.window_height;
        let ghost total = paint_rows(
            self.lines@,
            self.viewport.line_offset as int,
            self.viewport.line_offset_byte as int,
            w as int,
            self.window_height as nat,
        );
        while k > 0
            invariant
                w > 0,
                w == self.window_width,
                n == self.lines@.len(),
                i <= n,
                i < n ==> start <= line_len(self.lines@, i as int),
                old(buf)@ + total == buf@ + paint_rows(self.lines@, i as int, start as int, w as int, k as nat),
            decreases k,
        {
            let ghost before = buf@;
            let ghost rest = paint_rows(self.lines@, i as int, start as int, w as int, k as nat);
            if i >= n {
                clear_row(buf);
                buf.push(0x7e);
                buf.push(0x0d);
                buf.push(0x0a);
                assert(buf@ =~= before + filler_row());
                assert(before + rest =~= buf@ + paint_rows(self.lines@, i as int, start as int, w as int, (k - 1) as nat));
            } else {
                let line = &self.lines[i];
                let len = line.len();
                let end = if len - start < w {
                    len
                } else {
                    start + w
                };
                clear_row(buf);
                push_slice(buf, line.render.as_slice(), start, end);
                buf.push(0x0d);
                buf.push(0x0a);
                assert(buf@ =~= before + clear_row_seq() + row_slice(self.lines@, i as int, start as int, w as int) + crlf());
                if end < len {
                    assert(before + rest =~= buf@ + paint_rows(self.lines@, i as int, end as int, w as int, (k - 1) as nat));
                    start = end;
                } else {
                    assert(before + rest =~= buf@ + paint_rows(self.lines@, i + 1, 0, w as int, (k - 1) as nat));
                    i = i + 1;
                    start = 0;
                }
            }
            k = k - 1;
        }
    }

    /// Appends the status bar: file name, cursor position and line count.
    pub fn build_status_bar(&self, buf: &mut Vec<u8>)
        requires
            self.wf(),
        ensures
            final(buf)@ == old(buf)@ + status_bar_seq(
                self.path@,
                status_right(self.cursor.line as nat, self.cursor.pos.col as nat, self.lines@.len()),
                self.window_width as int,
            ),
    {
        let right = status_right_bytes(self.cursor.line, self.cursor.pos.col, self.lines.len());
        push_esc(buf);
        buf.push(0x37);
        buf.push(0x6d);
        push_status_text(buf, self.path.as_slice(), right.as_slice(), self.window_width);
        push_esc(buf);
        buf.push(0x6d);
        assert(buf@ =~= old(buf)@ + status_bar_seq(self.path@, right@, self.window_width as int));
    }

    /// Sets a new status message, issued at `now` and held for `timeout`.
    pub fn new_status_msg(&mut self, msg: &[u8], timeout: u64, now: u64)
        requires
            old(self).wf(),
        ensures
            final(self).wf(),
            final(self).status_msg.data@ == msg@,
            final(self).status_msg.timestamp == now,
            final(self).status_msg.timeout == timeout,
            final(self).cursor == old(self).cursor,
            final(self).viewport == old(self).viewport,
            final(self).lines@ == old(self).lines@,
            final(self).window_width == old(self).window_width,
            final(self).window_height == old(self).window_height,
            final(self).path@ == old(self).path@,
            final(self).config.tab_width == old(self).config.tab_width,
    {
        let mut data: Vec<u8> = Vec::new();
        push_slice(&mut data, msg, 0, msg.len());
        assert(msg@.subrange(0, msg@.len() as int) =~= msg@);
        self.status_msg = StatusMsg { data, timestamp: now, timeout };
    }

    /// Appends the status message, cut to the window's width.
    pub fn write_status_msg(&self, buf: &mut Vec<u8>)
        ensures
            final(buf)@ == old(buf)@ + self.status_msg.data@.subrange(
                0,
                min_of(self.status_msg.data@.len() as int, self.window_width as int),
            ),
    {
        let len = if self.window_width < self.status_msg.data.len() {
            self.window_width
        } else {
            self.status_msg.data.len()
        };
        push_slice(buf, self.status_msg.data.as_slice(), 0, len);
    }

    /// Appends the message row; a message whose time is up is cleared.
    pub fn update_status_msg(&mut self, buf: &mut Vec<u8>, now: u64)
        requires
            old(self).wf(),
        ensures
            final(buf)@ == old(buf)@ + message_row(old(self).status_msg, old(self).window_width as int, now),
            final(self).wf(),
            final(self).status_msg.data@ == (if is_shown(old(self).status_msg.timestamp, old(self).status_msg.timeout, now) {
                old(self).status_msg.data@
            } else {
                Seq::empty()
            }),
            final(self).status_msg.timestamp == old(self).status_msg.timestamp,
            final(self).status_msg.timeout == old(self).status_msg.timeout,
            final(self).cursor == old(self).cursor,
            final(self).viewport == old(self).viewport,
            final(self).lines@ == old(self).lines@,
            final(self).window_width == old(self).window_width,
            final(self).window_height == old(self).window_height,
            final(self).path@ == old(self).path@,
            final(self).config.tab_width == old(self).config.tab_width,
    {
        clear_row(buf);
        let elapsed = if now >= self.status_msg.timestamp {
            now - self.status_msg.timestamp
        } else {
            0
        };
        if elapsed <= self.status_msg.timeout {
            self.write_status_msg(buf);
        } else {
            self.status_msg.data.clear();
        }
        assert(buf@ =~= old(buf)@ + message_row(old(self).status_msg, old(self).window_width as int, now));
    }

    /// Produces the bytes of one redraw at time `now`: the rows, the status
    /// bar and message, and the cursor put back where it belongs.
    pub fn refresh_screen(&mut self, now: u64) -> (out: Vec<u8>)
        requires
            old(self).wf(),
        ensures
            out@ == old(self).frame(now),
            final(self).wf(),
            final(self).status_msg.data@ == (if is_shown(old(self).status_msg.timestamp, old(self).status_msg.timeout, now) {
                old(self).status_msg.data@
            } else {
                Seq::empty()
            }),
            final(self).status_msg.timestamp == old(self).status_msg.timestamp,
            final(self).status_msg.timeout == old(self).status_msg.timeout,
            final(self).cursor == old(self).cursor,
            final(self).viewport == old(self).viewport,
            final(self).lines@ == old(self).lines@,
            final(self).window_width == old(self).window_width,
            final(self).window_height == old(self).window_height,
            final(self).path@ == old(self).path@,
            final(self).config.tab_width == old(self).config.tab_width,
    {
        let mut buf: Vec<u8> = Vec::new();
        hide_cursor(&mut buf);
        move_cursor(&mut buf, Pos { col: 0, row: 0 });
        self.build_rows(&mut buf);
        self.build_status_bar(&mut buf);
        buf.push(0x0d);
        buf.push(0x0a);
        let ghost before_msg = buf@;
        self.update_status_msg(&mut buf, now);
        let pos = self.cursor.pos;
        move_cursor(&mut buf, pos);
        show_cursor(&mut buf);
        assert(buf@ =~= old(self).frame(now));
        buf
    }
}

/// The right part of the status bar, as bytes.
pub fn status_right_bytes(line: usize, col: usize, n: usize) -> (right: Vec<u8>)
    ensures
        right@ == status_right(line as nat, col as nat, n as nat),
{
    let mut right: Vec<u8> = Vec::new();
    push_decimal(&mut right, line);
    right.push(0x3a);
    push_decimal(&mut right, col);
    right.push(0x20);
    right.push(0x7c);
    right.push(0x20);
    push_decimal(&mut right, n);
    right.push(0x20);
    right.push(0x6c);
    right.push(0x69);
    right.push(0x6e);
    right.push(0x65);
    if n != 1 {
        right.push(0x73);
    }
    assert(right@ =~= status_right(line as nat, col as nat, n as nat));
    right
}

/// Appends the text of the status bar, `w` wide.
pub fn push_status_text(buf: &mut Vec<u8>, path: &[u8], right: &[u8], w: usize)
    ensures
        final(buf)@ == old(buf)@ + status_bar_text(path@, right@, w as int),
{
    let r_len = right.len();
    if r_len <= w {
        let n_path = if path.len() < w - r_len {
            path.len()
        } else {
            w - r_len
        };
        push_slice(buf, path, 0, n_path);
        push_spaces(buf, w - r_len - n_path);
        push_slice(buf, right, 0, r_len);
        assert(right@.subrange(0, r_len as int) =~= right@);
    } else {
        push_slice(buf, right, 0, w);
    }
    assert(buf@ =~= old(buf)@ + status_bar_text(path@, right@, w as int));
}

/// Appends `n` spaces to `buf`.
pub fn push_spaces(buf: &mut Vec<u8>, n: usize)
    ensures
        final(buf)@ == old(buf)@ + spaces(n as int),
{
    let mut i: usize = 0;
    while i < n
        invariant
            i <= n,
            buf@ == old(buf)@ + spaces(i as int),
        decreases n - i,
    {
        buf.push(SPACE);
        i = i + 1;
        assert(buf@ =~= old(buf)@ + spaces(i as int));
    }
}

/// Appends `ESC [` to `buf`.
fn push_esc(buf: &mut Vec<u8>)
    ensures
        final(buf)@ == old(buf)@ + seq![0x1bu8, 0x5bu8],
{
    buf.push(0x1b);
    buf.push(0x5b);
    assert(buf@ =~= old(buf)@ + seq![0x1bu8, 0x5bu8]);
}

/// Appends `src[from..to]` to `buf`.
pub fn push_slice(buf: &mut Vec<u8>, src: &[u8], from: usize, to: usize)
    requires
        from <= to <= src@.len(),
    ensures
        final(buf)@ == old(buf)@ + src@.subrange(from as int, to as int),
{
    let mut i = from;
    while i < to
        invariant
            from <= i <= to,
            to <= src@.len(),
            buf@ == old(buf)@ + src@.subrange(from as int, i as int),
        decreases to - i,
    {
        buf.push(src[i]);
        i = i + 1;
        assert(buf@ =~= old(buf)@ + src@.subrange(from as int, i as int));
    }
}

/// Appends the decimal digits of `n` to `buf`.
pub fn push_decimal(buf: &mut Vec<u8>, n: usize)
    ensures
        final(buf)@ == old(buf)@ + decimal(n as nat),
    decreases n,
{
    if n >= 10 {
        push_decimal(buf, n / 10);
    }
    buf.push((0x30 + n % 10) as u8);
    assert(buf@ =~= old(buf)@ + decimal(n as nat));
}

/// Appends the escape sequence that clears the rest of the row.
pub fn clear_row(buf: &mut Vec<u8>)
    ensures
        final(buf)@ == old(buf)@ + clear_row_seq(),
{
    push_esc(buf);
    buf.push(0x4b);
    assert(buf@ =~= old(buf)@ + clear_row_seq());
}

/// Appends the escape sequence that clears the screen: `ESC [ 2 J`.
pub fn clear_screen(buf: &mut Vec<u8>)
    ensures
        final(buf)@ == old(buf)@ + esc_seq(seq![0x32u8, 0x4au8]),
{
    push_esc(buf);
    buf.push(0x32);
    buf.push(0x4a);
    assert(buf@ =~= old(buf)@ + esc_seq(seq![0x32u8, 0x4au8]));
}

/// Appends the escape sequence that hides the cursor: `ESC [ ? 25 l`.
pub fn hide_cursor(buf: &mut Vec<u8>)
    ensures
        final(buf)@ == old(buf)@ + esc_seq(seq![0x3fu8, 0x32u8, 0x35u8, 0x6cu8]),
{
    push_esc(buf);
    buf.push(0x3f);
    buf.push(0x32);
    buf.push(0x35);
    buf.push(0x6c);
    assert(buf@ =~= old(buf)@ + esc_seq(seq![0x3fu8, 0x32u8, 0x35u8, 0x6cu8]));
}

/// Appends the escape sequence that shows the cursor: `ESC [ ? 25 h`.
pub fn show_cursor(buf: &mut Vec<u8>)
    ensures
        final(buf)@ == old(buf)@ + esc_seq(seq![0x3fu8, 0x32u8, 0x35u8, 0x68u8]),
{
    push_esc(buf);
    buf.push(0x3f);
    buf.push(0x32);
    buf.push(0x35);
    buf.push(0x68);
    assert(buf@ =~= old(buf)@ + esc_seq(seq![0x3fu8, 0x32u8, 0x35u8, 0x68u8]));
}

/// Appends the escape sequence that moves the terminal cursor to `pos`.
pub fn move_cursor(buf: &mut Vec<u8>, pos: Pos)
    requires
        pos.row < usize::MAX,
        pos.col < usize::MAX,
    ensures
        final(buf)@ == old(buf)@ + move_seq(pos),
{
    push_esc(buf);
    push_decimal(buf, pos.row + 1);
    buf.push(0x3b);
    push_decimal(buf, pos.col + 1);
    buf.push(0x48);
    assert(buf@ =~= old(buf)@ + move_seq(pos));
}

} // verus!
