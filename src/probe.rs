//! The geometry probe: reading the terminal's cursor position report.
use crate::editor::{resize_spec, Editor};
use crate::input::{is_digit, ESC};
use crate::nav::Pos;
use vstd::prelude::*;

verus! {

/// Why the window's geometry could not be learned.
#[derive(Clone, Copy, Debug, PartialEq, Eq)]
pub enum ProbeError {
    /// The terminal's response does not have the expected structure.
    Malformed,
    /// The input stream ended during the exchange.
    Closed,
    /// The window has no room for a row of text and the two status rows.
    TooSmall,
}

/// First index at or after `i` that holds `b`, or -1.
pub open spec fn find_from(s: Seq<u8>, b: u8, i: int) -> int
    decreases s.len() - i,
{
    if i < 0 || i >= s.len() {
        -1
    } else if s[i] == b {
        i
    } else {
        find_from(s, b, i + 1)
    }
}

/// First index at or after `i` that holds a decimal digit, or -1.
pub open spec fn find_digit_from(s: Seq<u8>, i: int) -> int
    decreases s.len() - i,
{
    if i < 0 || i >= s.len() {
        -1
    } else if is_digit(s[i]) {
        i
    } else {
        find_digit_from(s, i + 1)
    }
}

/// Value of a run of decimal digits.
pub open spec fn digits_value(s: Seq<u8>) -> nat
    decreases s.len(),
{
    if s.len() == 0 {
        0
    } else {
        digits_value(s.drop_last()) * 10 + (s.last() - 0x30) as nat
    }
}

/// The number that `s` spells in decimal, if it is one that fits a `usize`.
pub open spec fn number_spec(s: Seq<u8>) -> Option<usize> {
    if s.len() > 0 && (forall|i: int| 0 <= i < s.len() ==> is_digit(#[trigger] s[i])) && digits_value(s)
        <= usize::MAX {
        Some(digits_value(s) as usize)
    } else {
        None
    }
}

/// The zero-based position in a report `ESC [ <row> ; <col>` (the final `R`
/// already taken off), read after the first escape byte; both numbers are
/// one-based in the report.
pub open spec fn cursor_report(s: Seq<u8>) -> Option<Pos> {
    let e = find_from(s, ESC, 0);
    if e < 0 {
        None
    } else {
        let r = s.subrange(e + 1, s.len() as int);
        let rp = find_digit_from(r, 0);
        let sp = find_from(r, 0x3b, 0);
        if rp < 0 || sp < 0 || rp >= sp {
            None
        } else {
            let r2 = r.subrange(sp, r.len() as int);
            let cp = find_digit_from(r2, 0);
            if cp < 0 {
                None
            } else {
                match (number_spec(r.subrange(rp, sp)), number_spec(r2.subrange(cp, r2.len() as int))) {
                    (Some(row), Some(col)) => if row >= 1 && col >= 1 {
                        Some(Pos { col: (col - 1) as usize, row: (row - 1) as usize })
                    } else {
                        None
                    },
                    _ => None,
                }
            }
        }
    }
}

/// Width and text height of a window whose bottom right corner is `corner`.
pub open spec fn window_of(corner: Pos) -> Option<(usize, usize)> {
    if corner.row >= 2 && corner.col < usize::MAX {
        Some(((corner.col + 1) as usize, (corner.row - 1) as usize))
    } else {
        None
    }
}

/// Index of the first `b` at or after `from`.
pub fn find_byte(s: &[u8], b: u8, from: usize) -> (r: Option<usize>)
    ensures
        r is None <==> find_from(s@, b, from as int) < 0,
        r matches Some(i) ==> i == find_from(s@, b, from as int) && from <= i < s@.len(),
{
    let mut i = from;
    while i < s.len()
        invariant
            from <= i,
            find_from(s@, b, from as int) == find_from(s@, b, i as int),
        decreases s@.len() - i,
    {
        if s[i] == b {
            return Some(i);
        }
        i = i + 1;
    }
    None
}

/// Index of the first decimal digit at or after `from`.
pub fn find_digit(s: &[u8], from: usize) -> (r: Option<usize>)
    ensures
        r is None <==> find_digit_from(s@, from as int) < 0,
        r matches Some(i) ==> i == find_digit_from(s@, from as int) && from <= i < s@.len(),
{
    let mut i = from;
    while i < s.len()
        invariant
            from <= i,
            find_digit_from(s@, from as int) == find_digit_from(s@, i as int),
        decreases s@.len() - i,
    {
        if s[i] >= 0x30 && s[i] <= 0x39 {
            return Some(i);
        }
        i = i + 1;
    }
    None
}

/// A longer run of digits is worth at least as much as its prefix.
pub proof fn lemma_digits_prefix(s: Seq<u8>, j: int)
    requires
        0 <= j <= s.len(),
        forall|i: int| 0 <= i < s.len() ==> is_digit(#[trigger] s[i]),
    ensures
        digits_value(s.subrange(0, j)) <= digits_value(s),
    decreases s.len() - j,
{
    if j < s.len() {
        lemma_digits_prefix(s, j + 1);
        assert(s.subrange(0, j + 1).drop_last() =~= s.subrange(0, j));
    } else {
        assert(s.subrange(0, j) =~= s);
    }
}

/// Reads a decimal number that fills all of `s`.
pub fn parse_number(s: &[u8]) -> (r: Option<usize>)
    ensures
        r == number_spec(s@),
{
    if s.len() == 0 {
        return None;
    }
    let mut v: usize = 0;
    let mut i: usize = 0;
    while i < s.len()
        invariant
            i <= s@.len(),
            forall|j: int| 0 <= j < i ==> is_digit(#[trigger] s@[j]),
            v == digits_value(s@.subrange(0, i as int)),
        decreases s@.len() - i,
    {
        let b = s[i];
        if !(b >= 0x30 && b <= 0x39) {
            return None;
        }
        assert(s@.subrange(0, i + 1).drop_last() =~= s@.subrange(0, i as int));
        let d = (b - 0x30) as usize;
        match v.checked_mul(10) {
            Some(x) => match x.checked_add(d) {
                Some(y) => {
                    v = y;
                },
                None => {
                    proof {
                        self::lemma_overflow(s@, i as int);
                    }
                    return None;
                },
            },
            None => {
                proof {
                    self::lemma_overflow(s@, i as int);
                }
                return None;
            },
        }
        i = i + 1;
    }
    assert(s@.subrange(0, s@.len() as int) =~= s@);
    Some(v)
}

/// Where the digits up to `i` already exceed a `usize`, the whole run does
/// too, or it is not all digits.
proof fn lemma_overflow(s: Seq<u8>, i: int)
    requires
        0 <= i < s.len(),
        digits_value(s.subrange(0, i + 1)) > usize::MAX,
    ensures
        number_spec(s).is_none(),
{
    if forall|j: int| 0 <= j < s.len() ==> is_digit(#[trigger] s[j]) {
        lemma_digits_prefix(s, i + 1);
    }
}

/// Parses the terminal's answer to a cursor position query, with the final
/// `R` already taken off.
pub fn cursor_pos(response: &[u8]) -> (r: Result<Pos, ProbeError>)
    ensures
        r == (match cursor_report(response@) {
            Some(p) => Ok::<Pos, ProbeError>(p),
            None => Err(ProbeError::Malformed),
        }),
{
    let n = response.len();
    // Spurious bytes may come before the report: skip to the first escape.
    let found = find_byte(response, ESC, 0);
    let esc_pos = match found {
        Some(p) => p,
        None => return Err(ProbeError::Malformed),
    };
    let rest = vstd::slice::slice_subrange(response, esc_pos + 1, n);
    let row_pos = match find_digit(rest, 0) {
        Some(p) => p,
        None => return Err(ProbeError::Malformed),
    };
    let semicolon_pos = match find_byte(rest, 0x3b, 0) {
        Some(p) => p,
        None => return Err(ProbeError::Malformed),
    };
    if row_pos >= semicolon_pos {
        return Err(ProbeError::Malformed);
    }
    let row = parse_number(vstd::slice::slice_subrange(rest, row_pos, semicolon_pos));
    // Skip the first number.
    let rest2 = vstd::slice::slice_subrange(rest, semicolon_pos, rest.len());
    let col_pos = match find_digit(rest2, 0) {
        Some(p) => p,
        None => return Err(ProbeError::Malformed),
    };
    let col = parse_number(vstd::slice::slice_subrange(rest2, col_pos, rest2.len()));
    match row {
        Some(row) => match col {
            Some(col) => if row >= 1 && col >= 1 {
                Ok(Pos { col: col - 1, row: row - 1 })
            } else {
                Err(ProbeError::Malformed)
            },
            None => Err(ProbeError::Malformed),
        },
        None => Err(ProbeError::Malformed),
    }
}

impl Editor {
    /// Takes the window size from the position of its bottom right corner;
    /// the two bottom rows are kept for the status bar and message.
    pub fn update_window_size(&mut self, corner: Pos) -> (r: Result<(), ProbeError>)
        requires
            old(self).wf(),
        ensures
            final(self).wf(),
            final(self).lines@ == old(self).lines@,
            final(self).path@ == old(self).path@,
            final(self).status_msg.data@ == old(self).status_msg.data@,
            final(self).status_msg.timestamp == old(self).status_msg.timestamp,
            final(self).status_msg.timeout == old(self).status_msg.timeout,
            final(self).config.tab_width == old(self).config.tab_width,
            match window_of(corner) {
                Some((w, h)) => {
                    &&& r is Ok
                    &&& final(self).window_width == w
                    &&& final(self).window_height == h
                    &&& (final(self).cursor, final(self).viewport) == resize_spec(
                        old(self).window_width as int,
                        w as int,
                        h as int,
                        old(self).cursor,
                        old(self).viewport,
                    )
                },
                None => {
                    &&& r == Err::<(), ProbeError>(ProbeError::TooSmall)
                    &&& final(self).window_width == old(self).window_width
                    &&& final(self).window_height == old(self).window_height
                    &&& final(self).cursor == old(self).cursor
                    &&& final(self).viewport == old(self).viewport
                },
            },
    {
        if corner.row < 2 || corner.col == usize::MAX {
            return Err(ProbeError::TooSmall);
        }
        self.resize(corner.col + 1, corner.row - 1);
        Ok(())
    }
}

} // verus!
