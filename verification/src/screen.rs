//! A double-buffered character grid for an ANSI terminal.
//!
//! Writes land in an in-memory row-major buffer of already-rendered cells;
//! [`Screen::flush`] serializes the whole grid into one escape-sequence
//! block, so a frame costs a single write to the terminal. Sending the
//! block, and the clear-screen sequence a fresh screen wants, are the
//! caller's business: this type never touches a stream.

use vstd::arithmetic::mul::{
    lemma_mul_inequality, lemma_mul_is_commutative, lemma_mul_is_distributive_add_other_way,
};
use vstd::prelude::*;
use vstd::string::StringExecFns;

verus! {

/// What an untouched cell shows.
pub open spec fn blank_cell() -> Seq<char> {
    " "@
}

/// How a glyph with a 256-color palette index is rendered into a cell:
/// color-set sequence, the glyph, color-reset sequence.
pub open spec fn rendered_cell(color: Seq<char>, glyph: char) -> Seq<char> {
    "\x1b[38;5;"@ + color + "m"@ + seq![glyph] + "\x1b[0m"@
}

/// The cells of row `row`, left to right, up to column `k`, concatenated.
pub open spec fn row_prefix(cells: Seq<Seq<char>>, cols: int, row: int, k: int) -> Seq<char>
    decreases k,
{
    if k <= 0 {
        Seq::empty()
    } else {
        row_prefix(cells, cols, row, k - 1) + cells[row * cols + (k - 1)]
    }
}

/// One serialized row: carriage return, the row's cells, cursor down one.
pub open spec fn rendered_row(cells: Seq<Seq<char>>, cols: int, row: int) -> Seq<char> {
    "\r"@ + row_prefix(cells, cols, row, cols) + "\x1b[1B"@
}

/// The first `k` serialized rows, concatenated.
pub open spec fn rendered_frame(cells: Seq<Seq<char>>, cols: int, k: int) -> Seq<char>
    decreases k,
{
    if k <= 0 {
        Seq::empty()
    } else {
        rendered_frame(cells, cols, k - 1) + rendered_row(cells, cols, k - 1)
    }
}

/// A `cols` by `rows` grid of rendered cells, stored row-major.
pub struct Screen {
    buffer: Vec<String>,
    cols: usize,
    rows: usize,
}

impl Screen {
    pub closed spec fn spec_cols(self) -> int {
        self.cols as int
    }

    pub closed spec fn spec_rows(self) -> int {
        self.rows as int
    }

    /// The rendered text of each cell, row-major.
    pub closed spec fn cells(self) -> Seq<Seq<char>> {
        self.buffer@.map_values(|s: String| s@)
    }

    /// The buffer always holds exactly one cell per grid position.
    pub open spec fn wf(self) -> bool {
        self.cells().len() == self.spec_cols() * self.spec_rows()
    }

    /// Whether a write at this position lands on the grid.
    pub open spec fn in_bounds(self, row: int, col: int) -> bool {
        0 <= row < self.spec_rows() && 0 <= col < self.spec_cols()
    }

    /// A blank grid of the given dimensions.
    pub fn new(cols: usize, rows: usize) -> (s: Screen)
        requires
            cols * rows <= usize::MAX,
        ensures
            s.wf(),
            s.spec_cols() == cols,
            s.spec_rows() == rows,
            s.cells() =~= Seq::new((cols * rows) as nat, |i: int| blank_cell()),
    {
        let n: usize = cols * rows;
        let mut buffer: Vec<String> = Vec::new();
        let mut i: usize = 0;
        while i < n
            invariant
                i <= n,
                buffer@.len() == i,
                forall|k: int| 0 <= k < i ==> #[trigger] buffer@[k]@ == blank_cell(),
            decreases n - i,
        {
            buffer.push(" ".to_owned());
            i += 1;
        }
        let s = Screen { buffer, cols, rows };
        proof {
            assert(s.cells() =~= Seq::new((cols * rows) as nat, |i: int| blank_cell()));
        }
        s
    }

    /// Resets every cell to blank; the terminal is not touched.
    pub fn clear(&mut self)
        requires
            old(self).wf(),
        ensures
            final(self).wf(),
            final(self).spec_cols() == old(self).spec_cols(),
            final(self).spec_rows() == old(self).spec_rows(),
            final(self).cells() =~= Seq::new(old(self).cells().len(), |i: int| blank_cell()),
    {
        let n: usize = self.buffer.len();
        let mut i: usize = 0;
        while i < n
            invariant
                i <= n,
                self.buffer@.len() == n,
                self.cols == old(self).cols,
                self.rows == old(self).rows,
                forall|k: int| 0 <= k < i ==> #[trigger] self.buffer@[k]@ == blank_cell(),
            decreases n - i,
        {
            self.buffer[i] = " ".to_owned();
            i += 1;
        }
    }

    /// Renders `glyph` in `color` at the given grid position; a position off
    /// the grid on either axis is silently dropped and the buffer keeps its
    /// contents. A later write to the same cell replaces an earlier one.
    pub fn write_char(&mut self, glyph: char, color: String, row: i32, col: i32)
        requires
            old(self).wf(),
        ensures
            final(self).wf(),
            final(self).spec_cols() == old(self).spec_cols(),
            final(self).spec_rows() == old(self).spec_rows(),
            old(self).in_bounds(row as int, col as int) ==> final(self).cells() =~= old(
                self,
            ).cells().update(
                row as int * old(self).spec_cols() + col as int,
                rendered_cell(color@, glyph),
            ),
            !old(self).in_bounds(row as int, col as int) ==> final(self).cells() =~= old(
                self,
            ).cells(),
    {
        if row < 0 || col < 0 {
            return;
        }
        let r: usize = row as usize;
        let c: usize = col as usize;
        if r >= self.rows || c >= self.cols {
            return;
        }
        let mut cell: String = "\x1b[38;5;".to_owned();
        cell.append(color.as_str());
        cell.append("m");
        push_char(&mut cell, glyph);
        cell.append("\x1b[0m");
        let len: usize = self.buffer.len();
        proof {
            lemma_row_major_index(self.cols as int, self.rows as int, r as int, c as int);
            assert(len == self.cells().len());
        }
        let idx: usize = self.cols * r + c;
        self.buffer[idx] = cell;
        proof {
            assert(cell@ =~= rendered_cell(color@, glyph));
        }
    }

    /// The whole frame as one block: cursor home, then every row as a
    /// carriage return, the row's cells and a cursor-down sequence.
    pub fn flush(&self) -> (out: String)
        requires
            self.wf(),
        ensures
            out@ == "\x1b[0;0H"@ + rendered_frame(self.cells(), self.spec_cols(), self.spec_rows()),
    {
        let mut out: String = "\x1b[0;0H".to_owned();
        let mut r: usize = 0;
        while r < self.rows
            invariant
                self.wf(),
                r <= self.rows,
                out@ == "\x1b[0;0H"@ + rendered_frame(self.cells(), self.spec_cols(), r as int),
            decreases self.rows - r,
        {
            out.append("\r");
            let mut c: usize = 0;
            while c < self.cols
                invariant
                    self.wf(),
                    r < self.rows,
                    c <= self.cols,
                    out@ == "\x1b[0;0H"@ + rendered_frame(self.cells(), self.spec_cols(), r as int)
                        + "\r"@ + row_prefix(self.cells(), self.spec_cols(), r as int, c as int),
                decreases self.cols - c,
            {
                let len: usize = self.buffer.len();
                proof {
                    lemma_row_major_index(self.cols as int, self.rows as int, r as int, c as int);
                    assert(len == self.cells().len());
                }
                let idx: usize = self.cols * r + c;
                out.append(self.buffer[idx].as_str());
                c += 1;
            }
            out.append("\x1b[1B");
            r += 1;
        }
        out
    }
}

/// A row-major position lies below the end of the grid's buffer.
proof fn lemma_row_major_index(cols: int, rows: int, r: int, c: int)
    requires
        0 <= r < rows,
        0 <= c < cols,
    ensures
        0 <= cols * r + c < cols * rows,
{
    lemma_mul_is_distributive_add_other_way(cols, r, 1);
    lemma_mul_inequality(r + 1, rows, cols);
    lemma_mul_is_commutative(cols, r);
    lemma_mul_is_commutative(cols, rows);
    lemma_mul_is_commutative(cols, r + 1);
}

/// Relies on `String::push`: appends exactly the one character.
#[verifier::external_body]
fn push_char(s: &mut String, c: char)
    ensures
        final(s)@ == old(s)@.push(c),
{
    s.push(c);
}

} // verus!
