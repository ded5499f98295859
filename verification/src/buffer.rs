//! The frame buffer: a fixed grid of characters that lines are drawn onto.

use crate::canvas::{Canvas, BACKGROUND, DRAWN};
use crate::line::{in_range, line_cells, line_points, Coord2D};
use crate::shape::{
    cube_edges, edge_cells, edges_fit, lemma_polygon_corner, lemma_wireframe_no_edges,
    lemma_wireframe_push, polygon_cells, ring_edges, wireframe_cells, Shape,
};
use vstd::arithmetic::div_mod::{lemma_mod_self_0, lemma_small_mod};
use vstd::prelude::*;

verus! {

/// What `render_buffer` hands to the display: the text to print, and how far
/// the cursor has to move up first so that the text overwrites the frame
/// printed before it (`None` for the first frame, which has nothing to
/// overwrite).
pub struct Frame {
    pub image: String,
    pub cursor_up: Option<u16>,
}

/// `String::push` appends the given character to the end of the string.
pub assume_specification[ String::push ](s: &mut String, ch: char)
    ensures
        final(s)@ == old(s)@.push(ch),
;

/// A grid of `rows` by `columns` characters, stored row by row from the top.
/// Every cell holds either `BACKGROUND` or `DRAWN`.
pub struct Buffer {
    buffer: Vec<char>,
    rows: u8,
    columns: u8,
    ever_rendered: bool,
}

/// Row-major offsets stay inside a grid of `rows` by `columns` cells.
proof fn lemma_offset_in_grid(rows: int, columns: int, row: int, column: int)
    by (nonlinear_arith)
    requires
        0 <= row < rows,
        0 <= column < columns,
    ensures
        0 <= row * columns <= row * columns + column < rows * columns,
{
}

/// A grid whose sides fit in a byte has fewer than 2^16 cells.
proof fn lemma_grid_size(rows: u8, columns: u8)
    by (nonlinear_arith)
    ensures
        0 <= rows * columns <= 255 * 255,
{
}

/// Two cells of a grid with the same row-major offset are the same cell.
proof fn lemma_offset_injective(columns: int, r1: int, c1: int, r2: int, c2: int)
    by (nonlinear_arith)
    requires
        0 <= c1 < columns,
        0 <= c2 < columns,
        r1 * columns + c1 == r2 * columns + c2,
    ensures
        r1 == r2,
        c1 == c2,
{
}

/// Overwrites one cell of `cells`.
fn put(cells: &mut Vec<char>, i: usize, glyph: char)
    requires
        i < old(cells)@.len(),
    ensures
        final(cells)@ == old(cells)@.update(i as int, glyph),
    no_unwind
{
    cells[i] = glyph;
}

impl View for Buffer {
    type V = Canvas;

    closed spec fn view(&self) -> Canvas {
        Canvas {
            rows: self.rows as nat,
            columns: self.columns as nat,
            drawn: Set::new(|p: Coord2D| self.holds(p)),
            ever_rendered: self.ever_rendered,
        }
    }
}

impl Buffer {
    #[verifier::type_invariant]
    spec fn well_formed(self) -> bool {
        &&& self.buffer@.len() == self.rows * self.columns
        &&& forall|i: int|
            0 <= i < self.buffer@.len() ==> self.buffer@[i] == BACKGROUND || self.buffer@[i]
                == DRAWN
    }

    /// Where the cell `p` is stored.
    spec fn offset(self, p: Coord2D) -> int {
        (self.rows - p.1) * self.columns + p.0
    }

    /// The cell `p` lies on the grid and is drawn.
    spec fn holds(self, p: Coord2D) -> bool {
        &&& 0 <= p.0 < self.columns
        &&& 1 <= p.1 <= self.rows
        &&& self.buffer@[self.offset(p)] == DRAWN
    }

    /// A cell of the grid is stored inside the buffer.
    proof fn lemma_offset(self, p: Coord2D)
        requires
            self.buffer@.len() == self.rows * self.columns,
        ensures
            self@.in_frame(p) ==> 0 <= (self.rows - p.1) * self.columns <= self.offset(p)
                < self.buffer@.len() <= 255 * 255,
    {
        lemma_grid_size(self.rows, self.columns);
        if self@.in_frame(p) {
            lemma_offset_in_grid(self.rows as int, self.columns as int, self.rows - p.1, p.0 as int);
        }
    }

    /// Whatever a buffer holds, only cells of its own grid are drawn.
    pub proof fn lemma_view_wf(&self)
        ensures
            self@.wf(),
    {
    }

    /// Creates a buffer of `rows` by `columns` cells, all background.
    pub fn new(rows: u8, columns: u8) -> (buffer: Buffer)
        ensures
            buffer@ == Canvas::blank(rows as nat, columns as nat),
    {
        proof {
            lemma_grid_size(rows, columns);
        }
        let size: usize = rows as usize * columns as usize;
        let buffer = Buffer { buffer: vec![BACKGROUND; size], rows, columns, ever_rendered: false };
        proof {
            assert forall|p: Coord2D| !buffer.holds(p) by {
                buffer.lemma_offset(p);
            }
            assert(buffer@ =~= Canvas::blank(rows as nat, columns as nat));
        }
        buffer
    }

    /// Where the cell `p` is stored, if it lies on the grid.
    fn index_of(&self, p: Coord2D) -> (place: Option<usize>)
        ensures
            self@.in_frame(p) ==> place == Some(self.offset(p) as usize),
            !self@.in_frame(p) ==> place.is_none(),
    {
        proof {
            use_type_invariant(self);
            self.lemma_offset(p);
        }
        if 0 <= p.0 && p.0 < self.columns as isize && 1 <= p.1 && p.1 <= self.rows as isize {
            let row: usize = (self.rows as isize - p.1) as usize;
            let column: usize = p.0 as usize;
            Some(row * self.columns as usize + column)
        } else {
            None
        }
    }

    /// The number of rows.
    pub fn rows(&self) -> (rows: u8)
        ensures
            rows == self@.rows,
    {
        self.rows
    }

    /// The number of columns.
    pub fn columns(&self) -> (columns: u8)
        ensures
            columns == self@.columns,
    {
        self.columns
    }

    /// Whether the buffer has been rendered before.
    pub fn ever_rendered(&self) -> (yes: bool)
        ensures
            yes == self@.ever_rendered,
    {
        self.ever_rendered
    }

    /// Tells whether the cell `p` lies on the grid.
    pub fn in_frame(&self, p: Coord2D) -> (yes: bool)
        ensures
            yes == self@.in_frame(p),
    {
        self.index_of(p).is_some()
    }

    /// Tells whether the cell `p` is drawn. A cell off the grid never is.
    pub fn is_drawn(&self, p: Coord2D) -> (yes: bool)
        ensures
            yes == self@.drawn.contains(p),
    {
        proof {
            use_type_invariant(self);
            self.lemma_offset(p);
        }
        match self.index_of(p) {
            Some(i) => self.buffer[i] == DRAWN,
            None => false,
        }
    }

    /// Resets every cell to the background.
    pub fn clear(&mut self)
        ensures
            final(self)@ == old(self)@.cleared(),
    {
        proof {
            use_type_invariant(&*self);
        }
        let size: usize = self.buffer.len();
        let mut i: usize = 0;
        while i < size
            invariant
                i <= size,
                size == self.buffer@.len(),
                self.buffer@.len() == self.rows * self.columns,
                self.rows == old(self).rows,
                self.columns == old(self).columns,
                self.ever_rendered == old(self).ever_rendered,
                forall|k: int| 0 <= k < i ==> self.buffer@[k] == BACKGROUND,
                forall|k: int|
                    0 <= k < size ==> self.buffer@[k] == BACKGROUND || self.buffer@[k] == DRAWN,
            decreases size - i,
        {
            put(&mut self.buffer, i, BACKGROUND);
            i += 1;
        }
        proof {
            assert forall|p: Coord2D| !self.holds(p) by {
                self.lemma_offset(p);
            }
            assert(self@ =~= old(self)@.cleared());
        }
    }

    /// Draws the single cell `p`. A cell off the grid is dropped.
    pub fn plot(&mut self, p: Coord2D)
        ensures
            final(self)@ == old(self)@.with_cells(set![p]),
    {
        proof {
            use_type_invariant(&*self);
            self.lemma_offset(p);
        }
        if let Some(i) = self.index_of(p) {
            put(&mut self.buffer, i, DRAWN);
            proof {
                assert forall|q: Coord2D| self.holds(q) == (old(self).holds(q) || q == p) by {
                    self.lemma_offset(q);
                    if self@.in_frame(q) && self.offset(q) == self.offset(p) {
                        lemma_offset_injective(
                            self.columns as int,
                            self.rows - q.1,
                            q.0 as int,
                            self.rows - p.1,
                            p.0 as int,
                        );
                    }
                }
            }
        }
        assert(self@ =~= old(self)@.with_cells(set![p]));
    }

    /// Draws every cell of `points`. Cells off the grid are dropped.
    pub fn plot_all(&mut self, points: &Vec<Coord2D>)
        ensures
            final(self)@ == old(self)@.with_cells(points@.to_set()),
    {
        let ghost before = self@;
        proof {
            before.lemma_with_no_cells();
            assert(points@.take(0).to_set() =~= Set::<Coord2D>::empty());
        }
        let mut i: usize = 0;
        while i < points.len()
            invariant
                i <= points.len(),
                self@ == before.with_cells(points@.take(i as int).to_set()),
            decreases points.len() - i,
        {
            let ghost done = points@.take(i as int);
            self.plot(points[i]);
            proof {
                before.lemma_with_cells_union(done.to_set(), set![points@[i as int]]);
                assert(points@.take(i + 1) =~= done.push(points@[i as int]));
                done.lemma_push_to_set_commute(points@[i as int]);
                assert(done.to_set().union(set![points@[i as int]]) =~= done.to_set().insert(
                    points@[i as int],
                ));
            }
            i += 1;
        }
        assert(points@.take(points@.len() as int) =~= points@);
    }

    /// Draws the segment from `start` to `end`, both endpoints included.
    /// Cells of the segment that lie off the grid are dropped.
    pub fn draw_line(&mut self, start: Coord2D, end: Coord2D)
        requires
            in_range(start),
            in_range(end),
        ensures
            final(self)@ == old(self)@.with_cells(line_cells(start, end)),
            old(self)@.in_frame(start) ==> final(self)@.drawn.contains(start),
            old(self)@.in_frame(end) ==> final(self)@.drawn.contains(end),
    {
        let points = line_points(start, end);
        self.plot_all(&points);
    }

    /// Draws the closed outline through `vertices`: a segment from each vertex
    /// to the next, and one from the last back to the first. Every vertex
    /// that lies on the grid is drawn.
    pub fn draw_polygon(&mut self, vertices: Vec<Coord2D>)
        requires
            vertices@.len() >= 1,
            forall|i: int| 0 <= i < vertices@.len() ==> in_range(#[trigger] vertices@[i]),
        ensures
            final(self)@ == old(self)@.with_cells(polygon_cells(vertices@)),
            forall|i: int|
                0 <= i < vertices@.len() && old(self)@.in_frame(#[trigger] vertices@[i])
                    ==> final(self)@.drawn.contains(vertices@[i]),
    {
        let ghost before = self@;
        let ghost ring = ring_edges(vertices@.len());
        let last: usize = vertices.len() - 1;
        proof {
            before.lemma_with_no_cells();
            lemma_wireframe_no_edges(vertices@);
            assert(ring.take(0) =~= Seq::<(usize, usize)>::empty());
        }
        let mut i: usize = 0;
        while i < last
            invariant
                i <= last,
                last + 1 == vertices@.len(),
                ring == ring_edges(vertices@.len()),
                forall|i: int| 0 <= i < vertices@.len() ==> in_range(#[trigger] vertices@[i]),
                self@ == before.with_cells(wireframe_cells(vertices@, ring.take(i as int))),
            decreases last - i,
        {
            self.draw_line(vertices[i], vertices[i + 1]);
            proof {
                lemma_small_mod((i + 1) as nat, vertices@.len());
                assert(ring[i as int] == (i, (i + 1) as usize));
                assert(ring.take(i + 1) =~= ring.take(i as int).push(ring[i as int]));
                lemma_wireframe_push(vertices@, ring.take(i as int), ring[i as int]);
                before.lemma_with_cells_union(
                    wireframe_cells(vertices@, ring.take(i as int)),
                    edge_cells(vertices@, ring[i as int]),
                );
            }
            i += 1;
        }
        self.draw_line(vertices[last], vertices[0]);
        proof {
            lemma_mod_self_0(vertices@.len() as int);
            assert(ring[last as int] == (last, 0usize));
            assert(ring =~= ring.take(last as int).push(ring[last as int]));
            lemma_wireframe_push(vertices@, ring.take(last as int), ring[last as int]);
            before.lemma_with_cells_union(
                wireframe_cells(vertices@, ring.take(last as int)),
                edge_cells(vertices@, ring[last as int]),
            );
            assert forall|i: int|
                0 <= i < vertices@.len() && before.in_frame(
                    #[trigger] vertices@[i],
                ) implies self@.drawn.contains(vertices@[i]) by {
                lemma_polygon_corner(vertices@, i);
            }
        }
    }

    /// Draws every edge of `shape`, with its vertices placed at `points`.
    pub fn draw_wireframe(&mut self, shape: &Shape, points: &[Coord2D])
        requires
            points@.len() == shape.count(),
            forall|i: int| 0 <= i < points@.len() ==> in_range(#[trigger] points@[i]),
        ensures
            final(self)@ == old(self)@.with_cells(wireframe_cells(points@, shape.edge_list())),
    {
        let ghost before = self@;
        let edges = shape.edges();
        proof {
            before.lemma_with_no_cells();
            lemma_wireframe_no_edges(points@);
            assert(edges@.take(0) =~= Seq::<(usize, usize)>::empty());
        }
        let mut k: usize = 0;
        while k < edges.len()
            invariant
                k <= edges.len(),
                edges_fit(edges@, points@.len()),
                forall|i: int| 0 <= i < points@.len() ==> in_range(#[trigger] points@[i]),
                self@ == before.with_cells(wireframe_cells(points@, edges@.take(k as int))),
            decreases edges.len() - k,
        {
            let edge: (usize, usize) = edges[k];
            self.draw_line(points[edge.0], points[edge.1]);
            proof {
                assert(edges@.take(k + 1) =~= edges@.take(k as int).push(edge));
                lemma_wireframe_push(points@, edges@.take(k as int), edge);
                before.lemma_with_cells_union(
                    wireframe_cells(points@, edges@.take(k as int)),
                    edge_cells(points@, edge),
                );
            }
            k += 1;
        }
        assert(edges@.take(edges@.len() as int) =~= edges@);
    }

    /// Draws the twelve edges of a cube whose corners are placed at `corners`.
    pub fn draw_cube(&mut self, corners: &[Coord2D; 8])
        requires
            forall|i: int| 0 <= i < 8 ==> in_range(#[trigger] corners@[i]),
        ensures
            final(self)@ == old(self)@.with_cells(wireframe_cells(corners@, cube_edges())),
    {
        let cube = Shape::cube();
        self.draw_wireframe(&cube, corners.as_slice());
    }

    /// Lays the buffer out as text, one line per row from the top, and says
    /// how far the cursor must move up before the text is printed: not at all
    /// the first time, and `rows + 1` lines every time after, the one extra
    /// line being the blank line that ends a printed frame.
    pub fn render_buffer(&mut self) -> (frame: Frame)
        ensures
            frame.image@ == old(self)@.image(),
            frame.cursor_up == if old(self)@.ever_rendered {
                Some((old(self)@.rows + 1) as u16)
            } else {
                None
            },
            final(self)@ == old(self)@.rendered(),
    {
        proof {
            use_type_invariant(&*self);
        }
        let cursor_up: Option<u16> = if self.ever_rendered {
            Some(self.rows as u16 + 1)
        } else {
            None
        };
        self.ever_rendered = true;
        let ghost canvas = self@;
        let mut image = String::new();
        let mut row: usize = 0;
        while row < self.rows as usize
            invariant
                row <= self.rows,
                self.buffer@.len() == self.rows * self.columns,
                forall|i: int|
                    0 <= i < self.buffer@.len() ==> self.buffer@[i] == BACKGROUND
                        || self.buffer@[i] == DRAWN,
                canvas == self@,
                image@ == canvas.lines(row as nat),
            decreases self.rows - row,
        {
            let ghost above = image@;
            let mut column: usize = 0;
            while column < self.columns as usize
                invariant
                    row < self.rows,
                    column <= self.columns,
                    self.buffer@.len() == self.rows * self.columns,
                    forall|i: int|
                        0 <= i < self.buffer@.len() ==> self.buffer@[i] == BACKGROUND
                            || self.buffer@[i] == DRAWN,
                    canvas == self@,
                    image@ == above + canvas.row_text(row as int).take(column as int),
                decreases self.columns - column,
            {
                let ghost p: Coord2D = (column as isize, (self.rows - row) as isize);
                proof {
                    self.lemma_offset(p);
                    assert(self.offset(p) == row * self.columns + column);
                    assert(self.buffer@[self.offset(p)] == canvas.glyph(row as int, column as int));
                }
                image.push(self.buffer[row * self.columns as usize + column]);
                proof {
                    assert(canvas.row_text(row as int).take(column + 1) =~= canvas.row_text(
                        row as int,
                    ).take(column as int).push(canvas.glyph(row as int, column as int)));
                    assert(image@ =~= above + canvas.row_text(row as int).take(column + 1));
                }
                column += 1;
            }
            image.push('\n');
            proof {
                assert(canvas.row_text(row as int).take(self.columns as int) =~= canvas.row_text(
                    row as int,
                ));
                assert(image@ =~= above + canvas.row_text(row as int).push('\n'));
            }
            row += 1;
        }
        assert(self@ =~= old(self)@.rendered());
        assert(canvas.image() == old(self)@.image()) by {
            old(self)@.lemma_image_ignores_flag();
        }
        Frame { image, cursor_up }
    }
}

} // verus!
