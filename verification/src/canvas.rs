//! The mathematical model of a frame buffer: which cells are drawn, and the
//! text they are shown as.

use crate::line::Coord2D;
use vstd::prelude::*;

verus! {

/// The character of a cell that nothing was drawn on.
pub const BACKGROUND: char = '.';

/// The character of a cell that a line passes through.
pub const DRAWN: char = '#';

/// What a `Buffer` stands for: its size, the set of cells that are drawn, and
/// whether it has been rendered before.
///
/// Cells are addressed as the drawing functions take them, by `(x, y)` with
/// `y` growing upward: the cell `(x, y)` sits in column `x` of the row
/// `rows - y`, counted from the top.
#[verifier::ext_equal]
pub struct Canvas {
    pub rows: nat,
    pub columns: nat,
    pub drawn: Set<Coord2D>,
    pub ever_rendered: bool,
}

impl Canvas {
    /// The cell `p` lies on the canvas: its column is below `columns` and its
    /// row `rows - p.1` is below `rows`.
    pub open spec fn in_frame(self, p: Coord2D) -> bool {
        &&& 0 <= p.0 < self.columns
        &&& 1 <= p.1 <= self.rows
    }

    /// Only cells of the canvas are drawn.
    pub open spec fn wf(self) -> bool {
        forall|p: Coord2D| self.drawn.contains(p) ==> self.in_frame(p)
    }

    /// A canvas of the given size with nothing drawn and never rendered.
    pub open spec fn blank(rows: nat, columns: nat) -> Canvas {
        Canvas { rows, columns, drawn: Set::empty(), ever_rendered: false }
    }

    /// This canvas with every cell reset to the background.
    pub open spec fn cleared(self) -> Canvas {
        Canvas { drawn: Set::empty(), ..self }
    }

    /// This canvas after drawing `cells`: those of them that lie on the canvas
    /// are drawn, the others are dropped, and nothing is erased.
    pub open spec fn with_cells(self, cells: Set<Coord2D>) -> Canvas {
        Canvas {
            drawn: Set::new(
                |p: Coord2D| self.drawn.contains(p) || (cells.contains(p) && self.in_frame(p)),
            ),
            ..self
        }
    }

    /// The character shown in column `column` of the row `row`, counted from
    /// the top.
    pub open spec fn glyph(self, row: int, column: int) -> char {
        if self.drawn.contains((column as isize, (self.rows - row) as isize)) {
            DRAWN
        } else {
            BACKGROUND
        }
    }

    /// The characters of the row `row`, left to right.
    pub open spec fn row_text(self, row: int) -> Seq<char> {
        Seq::new(self.columns, |column: int| self.glyph(row, column))
    }

    /// The first `count` rows from the top, each followed by a line break.
    pub open spec fn lines(self, count: nat) -> Seq<char>
        decreases count,
    {
        if count == 0 {
            Seq::empty()
        } else {
            self.lines((count - 1) as nat) + self.row_text(count - 1).push('\n')
        }
    }

    /// The printable image: every row, top to bottom, each followed by a line
    /// break.
    pub open spec fn image(self) -> Seq<char> {
        self.lines(self.rows)
    }

    /// This canvas once it has been rendered.
    pub open spec fn rendered(self) -> Canvas {
        Canvas { ever_rendered: true, ..self }
    }

    /// Drawing `a` and then `b` is drawing their union.
    pub proof fn lemma_with_cells_union(self, a: Set<Coord2D>, b: Set<Coord2D>)
        ensures
            self.with_cells(a).with_cells(b) == self.with_cells(a.union(b)),
    {
        assert(self.with_cells(a).with_cells(b) =~= self.with_cells(a.union(b)));
    }

    /// The order in which cells are drawn does not matter.
    pub proof fn lemma_with_cells_commutes(self, a: Set<Coord2D>, b: Set<Coord2D>)
        ensures
            self.with_cells(a).with_cells(b) == self.with_cells(b).with_cells(a),
    {
        assert(self.with_cells(a).with_cells(b) =~= self.with_cells(b).with_cells(a));
    }

    /// Drawing erases nothing and never leaves the canvas.
    pub proof fn lemma_with_cells_grows(self, cells: Set<Coord2D>)
        ensures
            self.drawn.subset_of(self.with_cells(cells).drawn),
            self.wf() ==> self.with_cells(cells).wf(),
    {
        let after = self.with_cells(cells);
        if self.wf() {
            assert forall|p: Coord2D| after.drawn.contains(p) implies after.in_frame(p) by {
                if self.drawn.contains(p) {
                    assert(self.in_frame(p));
                }
            }
        }
    }

    /// The image has one line per row: `columns` characters and a line break.
    /// The character at column `column` of the line `row` shows whether the
    /// cell `(column, rows - row)` is drawn.
    pub proof fn lemma_image_layout(self, row: int, column: int)
        requires
            0 <= row < self.rows,
            0 <= column <= self.columns,
        ensures
            self.image().len() == self.rows * (self.columns + 1),
            0 <= row * (self.columns + 1) + column < self.image().len(),
            self.image()[row * (self.columns + 1) + column] == if column < self.columns {
                self.glyph(row, column)
            } else {
                '\n'
            },
    {
        self.lemma_lines_layout(self.rows, row, column);
    }

    proof fn lemma_lines_layout(self, count: nat, row: int, column: int)
        requires
            0 <= row < count,
            0 <= column <= self.columns,
        ensures
            self.lines(count).len() == count * (self.columns + 1),
            0 <= row * (self.columns + 1) + column < self.lines(count).len(),
            self.lines(count)[row * (self.columns + 1) + column] == if column < self.columns {
                self.glyph(row, column)
            } else {
                '\n'
            },
        decreases count,
    {
        let width = self.columns + 1;
        let above = self.lines((count - 1) as nat);
        let line = self.row_text(count - 1).push('\n');
        assert((count - 1) * width + width == count * width) by (nonlinear_arith);
        if count == 1 {
            assert(above.len() == 0);
            assert(0 * width == 0);
        } else if row < count - 1 {
            self.lemma_lines_layout((count - 1) as nat, row, column);
        } else {
            self.lemma_lines_layout((count - 1) as nat, 0, 0);
        }
        assert(above.len() == (count - 1) * width);
        if row == count - 1 {
            assert(self.lines(count)[above.len() + column] == line[column]);
        }
    }

    /// Rendering does not change what the image shows.
    pub proof fn lemma_image_ignores_flag(self)
        ensures
            self.rendered().image() == self.image(),
    {
        self.lemma_lines_ignore_flag(self.rows);
    }

    proof fn lemma_lines_ignore_flag(self, count: nat)
        ensures
            self.rendered().lines(count) == self.lines(count),
        decreases count,
    {
        if count > 0 {
            self.lemma_lines_ignore_flag((count - 1) as nat);
            assert(self.rendered().row_text(count - 1) =~= self.row_text(count - 1));
        }
    }

    /// Drawing nothing changes nothing.
    pub proof fn lemma_with_no_cells(self)
        ensures
            self.with_cells(Set::empty()) == self,
    {
        assert(self.with_cells(Set::empty()) =~= self);
    }
}

} // verus!
