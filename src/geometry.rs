//! Arithmetic of rows: how a line of a given length wraps at a given width.
use vstd::arithmetic::div_mod::{
    lemma_div_is_ordered, lemma_div_pos_is_pos, lemma_fundamental_div_mod, lemma_fundamental_div_mod_converse,
};
use vstd::arithmetic::mul::lemma_mul_is_commutative;
use vstd::prelude::*;

verus! {

/// Smaller of two integers.
pub open spec fn min_of(a: int, b: int) -> int {
    if a < b {
        a
    } else {
        b
    }
}

/// Offset within its line of the first byte of the row that holds byte `b`.
pub open spec fn row_start(b: int, w: int) -> int {
    b - b % w
}

/// Number of bytes of a line of length `len` on the row that holds byte `b`.
pub open spec fn row_len(len: int, b: int, w: int) -> int {
    min_of(len - row_start(b, w), w)
}

/// Last occupied column of the row that holds byte `b` (0 on an empty line).
pub open spec fn last_col(len: int, b: int, w: int) -> int {
    if row_len(len, b, w) <= 0 {
        0
    } else {
        row_len(len, b, w) - 1
    }
}

/// Column that a vertical move lands on, in a destination row of `rl` bytes.
pub open spec fn landing_col(col: int, at_eol: bool, rl: int) -> int {
    if rl <= 0 {
        0
    } else if at_eol {
        rl - 1
    } else {
        min_of(col, rl - 1)
    }
}

/// Offset of the first byte of the last row of a line of length `len`.
pub open spec fn last_row_start(len: int, w: int) -> int {
    if len <= 0 {
        0
    } else {
        ((len - 1) / w) * w
    }
}

/// Number of rows that a line of length `len` occupies.
pub open spec fn n_rows(len: int, w: int) -> int {
    if len <= 0 {
        1
    } else {
        (len + w - 1) / w
    }
}

/// Number of rows that the bytes of a line of length `len` from `start` on
/// fill, stepping one row of `w` bytes at a time; at least one.
pub open spec fn rows_from(len: int, start: int, w: int) -> nat
    decreases len - start,
{
    if w <= 0 || start + w >= len {
        1
    } else {
        1 + rows_from(len, start + w, w)
    }
}

/// A multiple of `w` plus a column below `w` sits at that column, on the row
/// that starts at that multiple.
pub proof fn lemma_col_of(s: int, w: int, c: int)
    requires
        w > 0,
        s >= 0,
        s % w == 0,
        0 <= c < w,
    ensures
        (s + c) % w == c,
        (s + c) / w == s / w,
        row_start(s + c, w) == s,
{
    lemma_fundamental_div_mod(s, w);
    let q = s / w;
    lemma_mul_is_commutative(w, q);
    lemma_fundamental_div_mod_converse(s + c, w, q, c);
}

/// The start of a row is a multiple of the width, at most the byte itself.
pub proof fn lemma_row_start(b: int, w: int)
    requires
        w > 0,
        b >= 0,
    ensures
        row_start(b, w) % w == 0,
        0 <= b % w < w,
        0 <= row_start(b, w) <= b,
        b >= w ==> row_start(b, w) >= w,
        (row_start(b, w) + w) % w == 0,
{
    lemma_fundamental_div_mod(b, w);
    let q = b / w;
    lemma_mul_is_commutative(w, q);
    lemma_fundamental_div_mod_converse(q * w, w, q, 0);
    assert((q + 1) * w == q * w + w) by (nonlinear_arith);
    lemma_fundamental_div_mod_converse(q * w + w, w, q + 1, 0);
    if b >= w {
        assert(q >= 1) by {
            if q <= 0 {
                assert(q * w <= 0) by (nonlinear_arith)
                    requires
                        q <= 0,
                        w > 0,
                ;
            }
        }
        assert(q * w >= w) by (nonlinear_arith)
            requires
                q >= 1,
                w > 0,
        ;
    }
}

/// The first row starts at offset zero.
pub proof fn lemma_zero_row(w: int)
    requires
        w > 0,
    ensures
        0int % w == 0,
        0int / w == 0,
        row_start(0, w) == 0,
{
    lemma_fundamental_div_mod_converse(0, w, 0, 0);
}

/// One row up from a row start that is not the first is a row start too.
pub proof fn lemma_row_above(s: int, w: int)
    requires
        w > 0,
        s >= w,
        s % w == 0,
    ensures
        (s - w) % w == 0,
{
    lemma_fundamental_div_mod(s, w);
    let q = s / w;
    lemma_mul_is_commutative(w, q);
    assert((q - 1) * w == q * w - w) by (nonlinear_arith);
    lemma_fundamental_div_mod_converse(s - w, w, q - 1, 0);
}

/// The last row of a non-empty line starts at a multiple of the width and
/// holds between one and `w` bytes.
pub proof fn lemma_last_row_start(len: int, w: int)
    requires
        w > 0,
        len > 0,
    ensures
        0 <= last_row_start(len, w) < len,
        last_row_start(len, w) % w == 0,
        1 <= len - last_row_start(len, w) <= w,
        last_row_start(len, w) == row_start(len - 1, w),
{
    lemma_fundamental_div_mod(len - 1, w);
    let q = (len - 1) / w;
    lemma_mul_is_commutative(w, q);
    lemma_fundamental_div_mod_converse(q * w, w, q, 0);
}

/// Adding one row's width adds one to the quotient.
pub proof fn lemma_div_add_w(x: int, w: int)
    requires
        w > 0,
        x >= 0,
    ensures
        (x + w) / w == x / w + 1,
{
    lemma_fundamental_div_mod(x, w);
    let q = x / w;
    lemma_mul_is_commutative(w, q);
    assert((q + 1) * w == q * w + w) by (nonlinear_arith);
    lemma_fundamental_div_mod_converse(x + w, w, q + 1, x % w);
}

/// Stepping row by row from `start` takes `ceil((len - start) / w)` rows.
proof fn lemma_rows_from(len: int, start: int, w: int)
    requires
        w > 0,
        0 <= start < len,
    ensures
        rows_from(len, start, w) == (len - start + w - 1) / w,
    decreases len - start,
{
    if start + w >= len {
        lemma_fundamental_div_mod_converse(len - start + w - 1, w, 1, len - start - 1);
    } else {
        lemma_rows_from(len, start + w, w);
        lemma_div_add_w(len - start - 1, w);
    }
}

/// A line of length `k` occupies `max(1, ceil(k / w))` rows, stepping one row
/// of `w` bytes at a time; its last row starts at `(rows - 1) * w` and, for a
/// non-empty line, holds between one and `w` bytes.
pub proof fn lemma_line_rows(k: int, w: int)
    requires
        k >= 0,
        w > 0,
    ensures
        rows_from(k, 0, w) == n_rows(k, w),
        n_rows(k, w) == (if k == 0 {
            1
        } else {
            (k + w - 1) / w
        }),
        n_rows(k, w) >= 1,
        last_row_start(k, w) == (n_rows(k, w) - 1) * w,
        k > 0 ==> 1 <= k - (n_rows(k, w) - 1) * w <= w,
{
    if k > 0 {
        lemma_rows_from(k, 0, w);
        lemma_div_add_w(k - 1, w);
        lemma_div_pos_is_pos(k - 1, w);
        lemma_last_row_start(k, w);
    }
}

/// The row that starts at `s` is the last row of a line of length `len`
/// (the only row, for an empty line): its index is `n_rows - 1`.
pub proof fn lemma_last_row_index(len: int, w: int, s: int)
    requires
        w > 0,
        s >= 0,
        s % w == 0,
        (len == 0 && s == 0) || (s < len <= s + w),
    ensures
        s / w == n_rows(len, w) - 1,
{
    lemma_line_rows(len, w);
    if len > 0 {
        lemma_col_of(s, w, len - 1 - s);
        lemma_last_row_start(len, w);
        lemma_fundamental_div_mod_converse(s, w, n_rows(len, w) - 1, 0);
    } else {
        lemma_zero_row(w);
    }
}

/// A byte of a line lies on one of its rows.
pub proof fn lemma_row_index_bound(len: int, w: int, b: int)
    requires
        w > 0,
        b >= 0,
        b == 0 || b < len,
    ensures
        0 <= b / w <= n_rows(len, w) - 1,
{
    lemma_div_pos_is_pos(b, w);
    if len <= 0 {
        lemma_zero_row(w);
    } else {
        let s = row_start(len - 1, w);
        lemma_row_start(len - 1, w);
        lemma_col_of(s, w, (len - 1) % w);
        lemma_last_row_index(len, w, s);
        lemma_div_is_ordered(b, len - 1, w);
    }
}

/// A row start below the width is the first row.
pub proof fn lemma_first_row(s: int, w: int)
    requires
        w > 0,
        0 <= s < w,
        s % w == 0,
    ensures
        s == 0,
{
    lemma_fundamental_div_mod_converse(s, w, 0, s);
}

} // verus!
