//! The editor's state and its navigation commands.
use crate::geometry::{
    landing_col, last_col, last_row_start, lemma_col_of, lemma_last_row_start, lemma_row_above, lemma_row_start,
    lemma_zero_row,
};
use crate::input::{Input, Key};
use crate::line::{lemma_split_lines_len, line_len, lines_fit, load_lines, render_spec, split_lines, Config, Line};
use crate::nav::{
    down_n, down_spec, left_n, left_spec, lemma_down_rows, lemma_scroll_down_rows, lemma_scroll_up_rows,
    lemma_text_row_bound, lemma_up_rows, nav_wf, page_up_spec, rest_after_row, right_n, right_spec, rows_consistent,
    scroll_down_spec, scroll_up_spec, steps_to_row_end, up_spec, Cursor, Pos, Viewport,
};
use crate::status::StatusMsg;
use vstd::prelude::*;

verus! {

/// Everything the viewer tracks: text, window, cursor, viewport and message.
pub struct Editor {
    /// The desired position of the cursor.
    pub cursor: Cursor,
    pub viewport: Viewport,
    pub window_width: usize,
    /// Rows available for text (the two bottom rows are reserved).
    pub window_height: usize,
    pub lines: Vec<Line>,
    pub config: Config,
    /// Name of the file shown on the status bar.
    pub path: Vec<u8>,
    pub status_msg: StatusMsg,
}

/// The navigation state after a key.
pub open spec fn key_spec(lines: Seq<Line>, w: int, h: int, c: Cursor, v: Viewport, key: Key) -> (Cursor, Viewport) {
    match key {
        Key::ArrowUp => up_spec(lines, w, h, c, v),
        Key::ArrowDown => down_spec(lines, w, h, c, v),
        Key::ArrowLeft => (left_spec(lines, w, c), v),
        Key::ArrowRight => (right_spec(lines, w, c), v),
        Key::PageUp => page_up_spec(lines, w, h, c, v, (h - 1) as nat),
        Key::PageDown => down_n(lines, w, h, c, v, (h - 1) as nat),
        Key::LineHome => (left_n(lines, w, c, c.pos.col as nat), v),
        Key::LineEnd => (right_n(lines, w, c, steps_to_row_end(lines, w, c)), v),
        _ => (c, v),
    }
}

/// The navigation state after the window becomes `w` by `h`: where the width
/// changes, or the cursor's row no longer fits, the viewport restarts at the
/// cursor's row.
pub open spec fn resize_spec(old_w: int, w: int, h: int, c: Cursor, v: Viewport) -> (Cursor, Viewport) {
    if w == old_w && c.pos.row < h {
        (c, v)
    } else {
        let col = (c.byte as int) % w;
        (
            Cursor {
                pos: Pos { col: col as usize, row: 0 },
                line: c.line,
                byte: c.byte,
                is_at_eol: if w == old_w { c.is_at_eol } else { false },
            },
            Viewport { line_offset: c.line, line_offset_byte: (c.byte - col) as usize },
        )
    }
}

impl Editor {
    /// The invariants of each part of the state on its own.
    pub open spec fn layout_wf(&self) -> bool {
        &&& nav_wf(self.lines@, self.window_width as int, self.window_height as int, self.cursor, self.viewport)
        &&& lines_fit(self.lines@)
    }

    /// The editor's invariants: each part well formed, and the cursor's
    /// screen row in step with the viewport.
    pub open spec fn wf(&self) -> bool {
        &&& self.layout_wf()
        &&& rows_consistent(self.lines@, self.window_width as int, self.cursor, self.viewport)
    }

    /// The viewport is `v`, and nothing else changed from `old`.
    pub open spec fn scrolled(&self, old: &Editor, v: Viewport) -> bool {
        &&& self.layout_wf()
        &&& self.same_text(old)
        &&& self.cursor == old.cursor
        &&& self.viewport == v
    }

    /// Everything but the cursor and the viewport is as in `other`.
    pub open spec fn same_text(&self, other: &Editor) -> bool {
        &&& self.lines@ == other.lines@
        &&& self.window_width == other.window_width
        &&& self.window_height == other.window_height
        &&& self.config.tab_width == other.config.tab_width
        &&& self.path@ == other.path@
        &&& self.status_msg.data@ == other.status_msg.data@
        &&& self.status_msg.timestamp == other.status_msg.timestamp
        &&& self.status_msg.timeout == other.status_msg.timeout
    }

    /// Whether the navigation state is `r`, and nothing else changed from `old`.
    pub open spec fn navigated(&self, old: &Editor, r: (Cursor, Viewport)) -> bool {
        &&& self.wf()
        &&& self.same_text(old)
        &&& self.cursor == r.0
        &&& self.viewport == r.1
    }

    /// Creates a viewer of `text`, in a window `width` wide with `height` rows
    /// for text, with the cursor at the top left.
    pub fn new(config: Config, path: Vec<u8>, text: &[u8], width: usize, height: usize) -> (r: Editor)
        requires
            config.tab_width > 0,
            width > 0,
            height > 0,
        ensures
            r.wf(),
            r.lines@.len() == split_lines(text@).len(),
            forall|i: int|
                0 <= i < r.lines@.len() ==> #[trigger] r.lines@[i].orig@ == split_lines(text@)[i]
                    && r.lines@[i].render@ == render_spec(split_lines(text@)[i], config.tab_width as int),
            r.cursor == (Cursor { pos: Pos { col: 0, row: 0 }, line: 0, byte: 0, is_at_eol: false }),
            r.viewport == (Viewport { line_offset: 0, line_offset_byte: 0 }),
            r.window_width == width,
            r.window_height == height,
            r.config.tab_width == config.tab_width,
            r.path@ == path@,
            r.status_msg.data@.len() == 0,
    {
        let lines = load_lines(text, &config);
        proof {
            lemma_split_lines_len(text@);
            lemma_zero_row(width as int);
            assert(forall|i: int|
                0 <= i < lines@.len() ==> #[trigger] lines@[i].orig@ == split_lines(text@)[i] && lines@[i].render@
                    == render_spec(split_lines(text@)[i], config.tab_width as int));
        }
        let r = Editor {
            cursor: Cursor { pos: Pos { row: 0, col: 0 }, line: 0, byte: 0, is_at_eol: false },
            viewport: Viewport { line_offset: 0, line_offset_byte: 0 },
            window_width: width,
            window_height: height,
            lines,
            config,
            path,
            status_msg: StatusMsg { data: Vec::new(), timestamp: 0, timeout: 0 },
        };
        r
    }

    /// Applies one decoded command; returns whether the session goes on.
    pub fn handle_key(&mut self, input: Input) -> (go_on: bool)
        requires
            old(self).wf(),
        ensures
            go_on == !(input is Quit),
            final(self).navigated(
                old(self),
                match input {
                    Input::Escape(Some(key)) => key_spec(
                        old(self).lines@,
                        old(self).window_width as int,
                        old(self).window_height as int,
                        old(self).cursor,
                        old(self).viewport,
                        key,
                    ),
                    _ => (old(self).cursor, old(self).viewport),
                },
            ),
    {
        match input {
            Input::Quit => false,
            Input::Char(c) => {
                self.handle_input(c);
                true
            },
            Input::Escape(key) => {
                self.handle_esc_seq_key(key);
                true
            },
        }
    }

    /// Ordinary bytes edit nothing in a viewer.
    pub fn handle_input(&mut self, _c: u8)
        requires
            old(self).wf(),
        ensures
            final(self).navigated(old(self), (old(self).cursor, old(self).viewport)),
    {
    }

    /// Applies the key of an escape sequence, if it was recognised.
    pub fn handle_esc_seq_key(&mut self, key: Option<Key>)
        requires
            old(self).wf(),
        ensures
            final(self).navigated(
                old(self),
                match key {
                    Some(k) => key_spec(
                        old(self).lines@,
                        old(self).window_width as int,
                        old(self).window_height as int,
                        old(self).cursor,
                        old(self).viewport,
                        k,
                    ),
                    None => (old(self).cursor, old(self).viewport),
                },
            ),
    {
        if let Some(key) = key {
            match key {
                Key::ArrowUp => self.cursor_up(),
                Key::ArrowDown => self.cursor_down(),
                Key::ArrowLeft => self.cursor_left(),
                Key::ArrowRight => self.cursor_right(),
                Key::PageUp => self.page_up(),
                Key::PageDown => self.page_down(),
                Key::LineHome => self.line_home(),
                Key::LineEnd => self.line_end(),
                _ => {},
            }
        }
    }

    /// Takes a new window size of `width` columns and `height` text rows.
    pub fn resize(&mut self, width: usize, height: usize)
        requires
            old(self).wf(),
            width > 0,
            height > 0,
        ensures
            final(self).wf(),
            final(self).window_width == width,
            final(self).window_height == height,
            final(self).lines@ == old(self).lines@,
            final(self).config.tab_width == old(self).config.tab_width,
            final(self).path@ == old(self).path@,
            final(self).status_msg.data@ == old(self).status_msg.data@,
            final(self).status_msg.timestamp == old(self).status_msg.timestamp,
            final(self).status_msg.timeout == old(self).status_msg.timeout,
            (final(self).cursor, final(self).viewport) == resize_spec(
                old(self).window_width as int,
                width as int,
                height as int,
                old(self).cursor,
                old(self).viewport,
            ),
    {
        if width != self.window_width || self.cursor.pos.row >= height {
            let col = self.cursor.byte % width;
            proof {
                lemma_row_start(self.cursor.byte as int, width as int);
                lemma_col_of(self.cursor.byte - col, width as int, col as int);
            }
            if width != self.window_width {
                self.cursor.is_at_eol = false;
            }
            self.cursor.pos = Pos { col, row: 0 };
            self.viewport = Viewport { line_offset: self.cursor.line, line_offset_byte: self.cursor.byte - col };
        }
        self.window_width = width;
        self.window_height = height;
    }

    /// Shifts the window down by one row, but does not move the cursor.
    pub fn scroll_down(&mut self)
        requires
            old(self).layout_wf(),
        ensures
            final(self).scrolled(old(self), scroll_down_spec(old(self).lines@, old(self).window_width as int, old(self).viewport)),
    {
        let w = self.window_width;
        let n = self.lines.len();
        let len = self.lines[self.viewport.line_offset].len();
        if self.viewport.line_offset_byte < len && w < len - self.viewport.line_offset_byte {
            self.viewport.line_offset_byte = self.viewport.line_offset_byte + w;
            proof {
                lemma_row_start(self.viewport.line_offset_byte - w, w as int);
            }
        } else if self.viewport.line_offset + 1 < n {
            self.viewport.line_offset = self.viewport.line_offset + 1;
            self.viewport.line_offset_byte = 0;
            proof {
                lemma_zero_row(w as int);
            }
        }
    }

    /// Shifts the window up by one row, but does not move the cursor.
    pub fn scroll_up(&mut self)
        requires
            old(self).layout_wf(),
        ensures
            final(self).scrolled(old(self), scroll_up_spec(old(self).lines@, old(self).window_width as int, old(self).viewport)),
    {
        let w = self.window_width;
        if self.viewport.line_offset_byte >= w {
            proof {
                lemma_row_above(self.viewport.line_offset_byte as int, w as int);
            }
            self.viewport.line_offset_byte = self.viewport.line_offset_byte - w;
        } else if self.viewport.line_offset > 0 {
            self.viewport.line_offset = self.viewport.line_offset - 1;
            let len = self.lines[self.viewport.line_offset].len();
            self.viewport.line_offset_byte = last_row_start_of(len, w);
        }
    }

    /// Returns the column of the last byte in the row under the cursor.
    pub fn curr_last_pos_row_offset(&self) -> (r: usize)
        requires
            self.wf(),
        ensures
            r == last_col(line_len(self.lines@, self.cursor.line as int), self.cursor.byte as int, self.window_width as int),
    {
        let w = self.window_width;
        let len = self.lines[self.cursor.line].len();
        proof {
            lemma_row_start(self.cursor.byte as int, w as int);
        }
        let s = self.cursor.byte - self.cursor.pos.col;
        let rl = if len - s < w {
            len - s
        } else {
            w
        };
        if rl == 0 {
            0
        } else {
            rl - 1
        }
    }

    /// Returns the number of bytes of the cursor's line in the rows after the
    /// row under the cursor.
    pub fn curr_line_next_rows_len(&self) -> (r: usize)
        requires
            self.wf(),
        ensures
            r == (if rest_after_row(self.lines@, self.window_width as int, self.cursor) > 0 {
                rest_after_row(self.lines@, self.window_width as int, self.cursor)
            } else {
                0
            }),
    {
        let w = self.window_width;
        let len = self.lines[self.cursor.line].len();
        proof {
            lemma_row_start(self.cursor.byte as int, w as int);
        }
        let s = self.cursor.byte - self.cursor.pos.col;
        if len - s > w {
            len - s - w
        } else {
            0
        }
    }

    /// Moves the cursor down by one row, if there is a row below it.
    pub fn cursor_down(&mut self)
        requires
            old(self).wf(),
        ensures
            final(self).navigated(
                old(self),
                down_spec(
                    old(self).lines@,
                    old(self).window_width as int,
                    old(self).window_height as int,
                    old(self).cursor,
                    old(self).viewport,
                ),
            ),
    {
        let ghost c0 = self.cursor;
        let ghost v0 = self.viewport;
        let w = self.window_width;
        let n = self.lines.len();
        let cur_len = self.lines[self.cursor.line].len();
        let next_rows_len = self.curr_line_next_rows_len();
        if next_rows_len > 0 || self.cursor.line + 1 < n {
            proof {
                lemma_row_start(self.cursor.byte as int, w as int);
                lemma_zero_row(w as int);
            }
            let s = self.cursor.byte - self.cursor.pos.col;
            if self.cursor.pos.row + 1 == self.window_height {
                self.scroll_down();
            } else {
                self.cursor.pos.row = self.cursor.pos.row + 1;
            }
            if next_rows_len > 0 {
                let next_row_len = if next_rows_len < w {
                    next_rows_len
                } else {
                    w
                };
                let col = landing_column(self.cursor.pos.col, self.cursor.is_at_eol, next_row_len);
                assert(s + w + col < cur_len);
                proof {
                    lemma_col_of(s + w, w as int, col as int);
                }
                self.cursor.pos.col = col;
                self.cursor.byte = s + w + col;
            } else {
                self.cursor.line = self.cursor.line + 1;
                let len = self.lines[self.cursor.line].len();
                let row_len = if len < w {
                    len
                } else {
                    w
                };
                let col = landing_column(self.cursor.pos.col, self.cursor.is_at_eol, row_len);
                proof {
                    lemma_col_of(0, w as int, col as int);
                }
                self.cursor.pos.col = col;
                self.cursor.byte = col;
            }
            proof {
                lemma_down_rows(self.lines@, w as int, self.window_height as int, c0, v0);
                lemma_text_row_bound(self.lines@, w as int, self.cursor.line as int, self.cursor.byte as int);
                lemma_scroll_down_rows(self.lines@, w as int, v0);
            }
        }
    }

    /// Moves the cursor up by one row, if there is a row above it.
    pub fn cursor_up(&mut self)
        requires
            old(self).wf(),
        ensures
            final(self).navigated(
                old(self),
                up_spec(
                    old(self).lines@,
                    old(self).window_width as int,
                    old(self).window_height as int,
                    old(self).cursor,
                    old(self).viewport,
                ),
            ),
    {
        let ghost c0 = self.cursor;
        let ghost v0 = self.viewport;
        let w = self.window_width;
        proof {
            lemma_up_rows(self.lines@, w as int, self.window_height as int, c0, v0);
            lemma_scroll_up_rows(self.lines@, w as int, v0);
        }
        // The cursor may have reached the top of the window.
        if self.cursor.pos.row == 0 {
            self.scroll_up();
        }
        if self.cursor.byte >= w {
            if self.cursor.pos.row > 0 {
                self.cursor.pos.row = self.cursor.pos.row - 1;
            }
            // The line is wrapped: go to the previous row of the same line.
            proof {
                lemma_row_start(self.cursor.byte as int, w as int);
                lemma_row_above(self.cursor.byte - self.cursor.pos.col, w as int);
            }
            let s = self.cursor.byte - self.cursor.pos.col;
            let col = landing_column(self.cursor.pos.col, self.cursor.is_at_eol, w);
            proof {
                lemma_col_of(s - w, w as int, col as int);
            }
            self.cursor.pos.col = col;
            self.cursor.byte = s - w + col;
        } else if self.cursor.line > 0 {
            // Go to the last row of the previous line.
            if self.cursor.pos.row > 0 {
                self.cursor.pos.row = self.cursor.pos.row - 1;
            }
            self.cursor.line = self.cursor.line - 1;
            let len = self.lines[self.cursor.line].len();
            let start = last_row_start_of(len, w);
            proof {
                lemma_zero_row(w as int);
            }
            let col = landing_column(self.cursor.pos.col, self.cursor.is_at_eol, len - start);
            proof {
                lemma_col_of(start as int, w as int, col as int);
            }
            self.cursor.pos.col = col;
            self.cursor.byte = start + col;
        }
        proof {
            lemma_text_row_bound(self.lines@, w as int, self.cursor.line as int, self.cursor.byte as int);
        }
    }

    /// Moves the cursor left by one column, within its row.
    pub fn cursor_left(&mut self)
        requires
            old(self).wf(),
        ensures
            final(self).navigated(
                old(self),
                (left_spec(old(self).lines@, old(self).window_width as int, old(self).cursor), old(self).viewport),
            ),
    {
        if self.cursor.pos.col > 0 {
            let w = self.window_width;
            proof {
                lemma_row_start(self.cursor.byte as int, w as int);
                lemma_col_of(self.cursor.byte - self.cursor.pos.col, w as int, self.cursor.pos.col - 1);
                lemma_col_of(self.cursor.byte - self.cursor.pos.col, w as int, self.cursor.pos.col as int);
            }
            if self.cursor.pos.col == self.curr_last_pos_row_offset() {
                self.cursor.is_at_eol = false;
            }
            self.cursor.pos.col = self.cursor.pos.col - 1;
            self.cursor.byte = self.cursor.byte - 1;
        }
    }

    /// Moves the cursor right by one column, within its row.
    pub fn cursor_right(&mut self)
        requires
            old(self).wf(),
        ensures
            final(self).navigated(
                old(self),
                (right_spec(old(self).lines@, old(self).window_width as int, old(self).cursor), old(self).viewport),
            ),
    {
        let w = self.window_width;
        let len = self.lines[self.cursor.line].len();
        if self.cursor.byte < len && self.cursor.byte + 1 < len && self.cursor.pos.col + 1 < w {
            proof {
                lemma_row_start(self.cursor.byte as int, w as int);
                lemma_col_of(self.cursor.byte - self.cursor.pos.col, w as int, self.cursor.pos.col + 1);
                lemma_col_of(self.cursor.byte - self.cursor.pos.col, w as int, self.cursor.pos.col as int);
            }
            let last = self.curr_last_pos_row_offset();
            self.cursor.pos.col = self.cursor.pos.col + 1;
            self.cursor.byte = self.cursor.byte + 1;
            self.cursor.is_at_eol = self.cursor.pos.col == last;
        }
    }

    /// Moves the cursor down by a page: one row less than the window's height.
    pub fn page_down(&mut self)
        requires
            old(self).wf(),
        ensures
            final(self).navigated(
                old(self),
                down_n(
                    old(self).lines@,
                    old(self).window_width as int,
                    old(self).window_height as int,
                    old(self).cursor,
                    old(self).viewport,
                    (old(self).window_height - 1) as nat,
                ),
            ),
    {
        let mut n_rows_left: usize = self.window_height - 1;
        while n_rows_left > 0
            invariant
                self.wf(),
                self.same_text(old(self)),
                down_n(self.lines@, self.window_width as int, self.window_height as int, self.cursor, self.viewport, n_rows_left as nat)
                    == down_n(
                    old(self).lines@,
                    old(self).window_width as int,
                    old(self).window_height as int,
                    old(self).cursor,
                    old(self).viewport,
                    (old(self).window_height - 1) as nat,
                ),
            decreases n_rows_left,
        {
            self.cursor_down();
            n_rows_left = n_rows_left - 1;
        }
    }

    /// Moves the cursor up by a page, stopping on the first row of the text.
    pub fn page_up(&mut self)
        requires
            old(self).wf(),
        ensures
            final(self).navigated(
                old(self),
                page_up_spec(
                    old(self).lines@,
                    old(self).window_width as int,
                    old(self).window_height as int,
                    old(self).cursor,
                    old(self).viewport,
                    (old(self).window_height - 1) as nat,
                ),
            ),
    {
        let w = self.window_width;
        let mut n_rows_left: usize = self.window_height - 1;
        while n_rows_left > 0 && !(self.cursor.line == 0 && self.cursor.byte < w)
            invariant
                self.wf(),
                self.same_text(old(self)),
                w == self.window_width,
                page_up_spec(self.lines@, self.window_width as int, self.window_height as int, self.cursor, self.viewport, n_rows_left as nat)
                    == page_up_spec(
                    old(self).lines@,
                    old(self).window_width as int,
                    old(self).window_height as int,
                    old(self).cursor,
                    old(self).viewport,
                    (old(self).window_height - 1) as nat,
                ),
            decreases n_rows_left,
        {
            self.cursor_up();
            n_rows_left = n_rows_left - 1;
        }
    }

    /// Moves the cursor to the start of its row.
    pub fn line_home(&mut self)
        requires
            old(self).wf(),
        ensures
            final(self).navigated(
                old(self),
                (
                    left_n(old(self).lines@, old(self).window_width as int, old(self).cursor, old(self).cursor.pos.col as nat),
                    old(self).viewport,
                ),
            ),
    {
        let ghost k = self.cursor.pos.col as nat;
        while self.cursor.pos.col > 0
            invariant
                self.wf(),
                self.same_text(old(self)),
                self.viewport == old(self).viewport,
                left_n(self.lines@, self.window_width as int, self.cursor, self.cursor.pos.col as nat)
                    == left_n(old(self).lines@, old(self).window_width as int, old(self).cursor, k),
            decreases self.cursor.pos.col,
        {
            self.cursor_left();
        }
    }

    /// Moves the cursor right until the end of its row or of its line.
    pub fn line_end(&mut self)
        requires
            old(self).wf(),
        ensures
            final(self).navigated(
                old(self),
                (
                    right_n(
                        old(self).lines@,
                        old(self).window_width as int,
                        old(self).cursor,
                        steps_to_row_end(old(self).lines@, old(self).window_width as int, old(self).cursor),
                    ),
                    old(self).viewport,
                ),
            ),
    {
        let ghost k = steps_to_row_end(self.lines@, self.window_width as int, self.cursor);
        let w = self.window_width;
        let len = self.lines[self.cursor.line].len();
        while self.cursor.byte < len && self.cursor.byte + 1 < len && self.cursor.pos.col + 1 < w
            invariant
                self.wf(),
                self.same_text(old(self)),
                self.viewport == old(self).viewport,
                w == self.window_width,
                len == line_len(self.lines@, self.cursor.line as int),
                right_n(self.lines@, w as int, self.cursor, steps_to_row_end(self.lines@, w as int, self.cursor))
                    == right_n(old(self).lines@, w as int, old(self).cursor, k),
            decreases len - self.cursor.byte,
        {
            self.cursor_right();
        }
    }
}

/// Column that a vertical move lands on, in a destination row of `row_len` bytes.
pub fn landing_column(col: usize, at_eol: bool, row_len: usize) -> (r: usize)
    ensures
        r == landing_col(col as int, at_eol, row_len as int),
{
    if row_len == 0 {
        0
    } else if at_eol {
        row_len - 1
    } else if col < row_len - 1 {
        col
    } else {
        row_len - 1
    }
}

/// Offset of the first byte of the last row of a line of length `len`.
pub fn last_row_start_of(len: usize, w: usize) -> (r: usize)
    requires
        w > 0,
    ensures
        r == last_row_start(len as int, w as int),
        r % w == 0,
        r == 0 || r < len,
        len > 0 ==> 1 <= len - r <= w,
{
    if len == 0 {
        0
    } else {
        proof {
            lemma_last_row_start(len as int, w as int);
        }
        ((len - 1) / w) * w
    }
}

} // verus!
