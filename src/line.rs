//! The line model: logical lines with their rendered form.
use crate::geometry::{lemma_col_of, lemma_row_start};
use vstd::prelude::*;

verus! {

/// Settings of the viewer.
pub struct Config {
    /// Width of a tab stop, in columns.
    pub tab_width: i32,
}

/// One logical line: the bytes as read, and the bytes as drawn.
pub struct Line {
    /// The bytes of the line as read.
    pub orig: Vec<u8>,
    /// How the line is rendered on screen.
    pub render: Vec<u8>,
}

impl Line {
    pub fn len(&self) -> (r: usize)
        ensures
            r == self.render@.len(),
    {
        self.render.len()
    }

    pub fn is_empty(&self) -> (r: bool)
        ensures
            r == (self.render@.len() == 0),
    {
        self.render.len() == 0
    }
}

pub const TAB: u8 = 0x09;

pub const SPACE: u8 = 0x20;

pub const NEWLINE: u8 = 0x0a;

/// `n` spaces.
pub open spec fn spaces(n: int) -> Seq<u8> {
    Seq::new(n as nat, |i: int| SPACE)
}

/// A line as drawn: each tab becomes the spaces up to the next multiple of
/// the tab width, with at least one space.
pub open spec fn render_spec(orig: Seq<u8>, tab_width: int) -> Seq<u8>
    decreases orig.len(),
{
    if orig.len() == 0 {
        Seq::empty()
    } else {
        let r = render_spec(orig.drop_last(), tab_width);
        if orig.last() == TAB {
            r + spaces(tab_width - (r.len() as int) % tab_width)
        } else {
            r.push(orig.last())
        }
    }
}

/// The slices of `text` between newline bytes; an empty text is one empty line.
pub open spec fn split_lines(text: Seq<u8>) -> Seq<Seq<u8>>
    decreases text.len(),
{
    if text.len() == 0 {
        seq![Seq::empty()]
    } else {
        let prev = split_lines(text.drop_last());
        if text.last() == NEWLINE {
            prev.push(Seq::empty())
        } else {
            prev.update(prev.len() - 1, prev.last().push(text.last()))
        }
    }
}

/// There is always at least one line.
pub proof fn lemma_split_lines_len(text: Seq<u8>)
    ensures
        split_lines(text).len() >= 1,
    decreases text.len(),
{
    if text.len() > 0 {
        lemma_split_lines_len(text.drop_last());
    }
}

/// Expands the tabs of a line.
pub fn line_orig_to_render(line: &[u8], tab_width: usize) -> (r: Vec<u8>)
    requires
        tab_width > 0,
    ensures
        r@ == render_spec(line@, tab_width as int),
{
    let mut render: Vec<u8> = Vec::new();
    let n = line.len();
    for i in 0..n
        invariant
            n == line@.len(),
            tab_width > 0,
            render@ == render_spec(line@.subrange(0, i as int), tab_width as int),
    {
        let ghost prefix = line@.subrange(0, i + 1);
        proof {
            assert(prefix.drop_last() =~= line@.subrange(0, i as int));
        }
        if line[i] == TAB {
            let ghost r0 = render@;
            let ghost m: int = (r0.len() as int) % (tab_width as int);
            proof {
                lemma_row_start(r0.len() as int, tab_width as int);
            }
            render.push(SPACE);
            let ghost mut k: int = 1;
            while render.len() % tab_width != 0
                invariant
                    tab_width > 0,
                    0 <= m < tab_width,
                    (r0.len() - m) % (tab_width as int) == 0,
                    (r0.len() - m + tab_width) % (tab_width as int) == 0,
                    r0.len() - m >= 0,
                    1 <= k <= tab_width - m,
                    render@ =~= r0 + spaces(k),
                decreases tab_width - k,
            {
                proof {
                    if k == tab_width - m {
                        assert(false);
                    }
                }
                render.push(SPACE);
                proof {
                    k = k + 1;
                }
            }
            proof {
                if k < tab_width - m {
                    lemma_col_of(r0.len() - m, tab_width as int, m + k);
                }
                assert(k == tab_width - m);
            }
        } else {
            render.push(line[i]);
        }
        proof {
            assert(line@.subrange(0, i + 1) =~= prefix);
        }
    }
    proof {
        assert(line@.subrange(0, n as int) =~= line@);
    }
    render
}

/// Splits a text into lines and renders each with the configured tab width.
pub fn load_lines(text: &[u8], config: &Config) -> (r: Vec<Line>)
    requires
        config.tab_width > 0,
    ensures
        r@.len() == split_lines(text@).len(),
        forall|i: int|
            0 <= i < r@.len() ==> #[trigger] r@[i].orig@ == split_lines(text@)[i] && r@[i].render@
                == render_spec(split_lines(text@)[i], config.tab_width as int),
        lines_fit(r@),
{
    let tab_width = config.tab_width as usize;
    let mut lines: Vec<Line> = Vec::new();
    let mut cur: Vec<u8> = Vec::new();
    let n = text.len();
    for i in 0..n
        invariant
            n == text@.len(),
            tab_width == config.tab_width as int,
            tab_width > 0,
            lines@.len() + 1 == split_lines(text@.subrange(0, i as int)).len(),
            cur@ == split_lines(text@.subrange(0, i as int)).last(),
            forall|j: int|
                0 <= j < lines@.len() ==> #[trigger] lines@[j].orig@ == split_lines(text@.subrange(0, i as int))[j]
                    && lines@[j].render@ == render_spec(lines@[j].orig@, tab_width as int),
            lines_fit(lines@),
    {
        let ghost prefix = text@.subrange(0, i + 1);
        proof {
            assert(prefix.drop_last() =~= text@.subrange(0, i as int));
            lemma_split_lines_len(text@.subrange(0, i as int));
        }
        if text[i] == NEWLINE {
            let render = line_orig_to_render(cur.as_slice(), tab_width);
            let render_len = render.len();
            let ghost before = lines@;
            lines.push(Line { orig: cur, render });
            let n_lines = lines.len();
            proof {
                lemma_push_fits(before, lines@, render_len as int, n_lines as int);
            }
            cur = Vec::new();
        } else {
            cur.push(text[i]);
        }
        proof {
            assert(text@.subrange(0, i + 1) =~= prefix);
        }
    }
    proof {
        assert(text@.subrange(0, n as int) =~= text@);
    }
    let render = line_orig_to_render(cur.as_slice(), tab_width);
    let render_len = render.len();
    let ghost before = lines@;
    lines.push(Line { orig: cur, render });
    let n_lines = lines.len();
    proof {
        lemma_push_fits(before, lines@, render_len as int, n_lines as int);
    }
    lines
}

/// The number of lines and each line's length fit a `usize`, as they do for
/// lines held in a `Vec`.
pub open spec fn lines_fit(lines: Seq<Line>) -> bool {
    &&& lines.len() <= usize::MAX
    &&& forall|i: int| 0 <= i < lines.len() ==> #[trigger] line_len(lines, i) <= usize::MAX
}

/// Appending a line whose length fits keeps the lines fitting.
proof fn lemma_push_fits(before: Seq<Line>, after: Seq<Line>, last_len: int, n: int)
    requires
        lines_fit(before),
        after.len() == before.len() + 1,
        forall|j: int| 0 <= j < before.len() ==> after[j] == before[j],
        last_len == line_len(after, after.len() - 1) <= usize::MAX,
        n == after.len() <= usize::MAX,
    ensures
        lines_fit(after),
{
    assert forall|j: int| 0 <= j < after.len() implies #[trigger] line_len(after, j) <= usize::MAX by {
        if j < before.len() {
            assert(after[j] == before[j]);
            assert(line_len(before, j) <= usize::MAX);
        }
    }
}

/// Rendered length of line `i`.
pub open spec fn line_len(lines: Seq<Line>, i: int) -> int {
    lines[i].render@.len() as int
}

} // verus!
