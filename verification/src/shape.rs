//! Wireframe shapes: which vertices are joined by an edge.

use crate::line::{lemma_line_cells_endpoints, line_cells, Coord2D};
use vstd::prelude::*;

verus! {

/// Every index that `edges` names is below `count`.
pub open spec fn edges_fit(edges: Seq<(usize, usize)>, count: nat) -> bool {
    forall|k: int| 0 <= k < edges.len() ==> (#[trigger] edges[k]).0 < count && edges[k].1 < count
}

/// The cells of the segment that `edge` spans between two of `points`.
pub open spec fn edge_cells(points: Seq<Coord2D>, edge: (usize, usize)) -> Set<Coord2D> {
    line_cells(points[edge.0 as int], points[edge.1 as int])
}

/// The cells of all the segments that `edges` span between `points`.
pub open spec fn wireframe_cells(points: Seq<Coord2D>, edges: Seq<(usize, usize)>) -> Set<
    Coord2D,
> {
    Set::new(
        |p: Coord2D|
            exists|k: int| 0 <= k < edges.len() && #[trigger] edge_cells(points, edges[k]).contains(p),
    )
}

/// The edges of a closed loop through `count` vertices: each vertex is joined
/// to the next, and the last back to the first.
pub open spec fn ring_edges(count: nat) -> Seq<(usize, usize)> {
    Seq::new(count, |i: int| (i as usize, ((i + 1) % (count as int)) as usize))
}

/// The cells of the closed outline through `vertices`.
pub open spec fn polygon_cells(vertices: Seq<Coord2D>) -> Set<Coord2D> {
    wireframe_cells(vertices, ring_edges(vertices.len()))
}

/// The twelve edges of a cube whose corners are numbered front face first
/// (0 to 3, clockwise from the top left), then the back face (4 to 7).
pub open spec fn cube_edges() -> Seq<(usize, usize)> {
    seq![
        (4usize, 5usize),
        (5usize, 6usize),
        (6usize, 7usize),
        (4usize, 7usize),
        (2usize, 7usize),
        (3usize, 4usize),
        (0usize, 5usize),
        (1usize, 6usize),
        (0usize, 1usize),
        (1usize, 2usize),
        (2usize, 3usize),
        (0usize, 3usize),
    ]
}

/// No edges, no cells.
pub proof fn lemma_wireframe_no_edges(points: Seq<Coord2D>)
    ensures
        wireframe_cells(points, Seq::empty()) == Set::<Coord2D>::empty(),
{
    assert(wireframe_cells(points, Seq::empty()) =~= Set::<Coord2D>::empty());
}

/// One more edge adds the cells of its segment.
pub proof fn lemma_wireframe_push(
    points: Seq<Coord2D>,
    edges: Seq<(usize, usize)>,
    edge: (usize, usize),
)
    ensures
        wireframe_cells(points, edges.push(edge)) == wireframe_cells(points, edges).union(
            edge_cells(points, edge),
        ),
{
    let longer = edges.push(edge);
    assert forall|p: Coord2D|
        wireframe_cells(points, longer).contains(p) == (wireframe_cells(points, edges).contains(p)
            || edge_cells(points, edge).contains(p)) by {
        if wireframe_cells(points, edges).contains(p) {
            let k = choose|k: int|
                0 <= k < edges.len() && #[trigger] edge_cells(points, edges[k]).contains(p);
            assert(longer[k] == edges[k]);
        }
        if edge_cells(points, edge).contains(p) {
            assert(longer[edges.len() as int] == edge);
        }
        if wireframe_cells(points, longer).contains(p) {
            let k = choose|k: int|
                0 <= k < longer.len() && #[trigger] edge_cells(points, longer[k]).contains(p);
            if k < edges.len() {
                assert(longer[k] == edges[k]);
            }
        }
    }
    assert(wireframe_cells(points, longer) =~= wireframe_cells(points, edges).union(
        edge_cells(points, edge),
    ));
}

/// Every segment of a closed outline, the closing one from the last vertex
/// back to the first among them, lies in the outline.
pub proof fn lemma_polygon_edge(vertices: Seq<Coord2D>, i: int)
    requires
        0 <= i < vertices.len() <= usize::MAX,
    ensures
        line_cells(vertices[i], vertices[(i + 1) % (vertices.len() as int)]).subset_of(
            polygon_cells(vertices),
        ),
{
    let ring = ring_edges(vertices.len());
    let next = (i + 1) % (vertices.len() as int);
    assert(ring[i] == (i as usize, next as usize));
    assert(edge_cells(vertices, ring[i]) == line_cells(vertices[i], vertices[next]));
    assert forall|p: Coord2D| edge_cells(vertices, ring[i]).contains(p) implies polygon_cells(
        vertices,
    ).contains(p) by {}
}

/// Every vertex of a closed outline is one of its cells.
pub proof fn lemma_polygon_corner(vertices: Seq<Coord2D>, i: int)
    requires
        0 <= i < vertices.len() <= usize::MAX,
    ensures
        polygon_cells(vertices).contains(vertices[i]),
{
    lemma_polygon_edge(vertices, i);
    lemma_line_cells_endpoints(vertices[i], vertices[(i + 1) % (vertices.len() as int)]);
}

/// The fixed part of a wireframe shape: how many vertices it has and which
/// pairs of them an edge joins. Every edge names two existing vertices.
pub struct Shape {
    vertex_count: usize,
    edges: Vec<(usize, usize)>,
}

impl Shape {
    #[verifier::type_invariant]
    spec fn well_formed(self) -> bool {
        edges_fit(self.edges@, self.vertex_count as nat)
    }

    /// The number of vertices.
    pub closed spec fn count(self) -> nat {
        self.vertex_count as nat
    }

    /// The edges, as pairs of vertex indices.
    pub closed spec fn edge_list(self) -> Seq<(usize, usize)> {
        self.edges@
    }

    /// Builds a shape of `vertex_count` vertices joined by `edges`, or `None`
    /// if an edge names a vertex that does not exist.
    pub fn new(vertex_count: usize, edges: Vec<(usize, usize)>) -> (shape: Option<Shape>)
        ensures
            shape.is_some() == edges_fit(edges@, vertex_count as nat),
            shape matches Some(s) ==> s.count() == vertex_count && s.edge_list() == edges@,
    {
        let mut k: usize = 0;
        while k < edges.len()
            invariant
                k <= edges.len(),
                edges_fit(edges@.take(k as int), vertex_count as nat),
            decreases edges.len() - k,
        {
            if edges[k].0 >= vertex_count || edges[k].1 >= vertex_count {
                return None;
            }
            proof {
                assert forall|j: int| 0 <= j < k + 1 implies (#[trigger] edges@.take(k + 1)[j]).0
                    < vertex_count && edges@.take(k + 1)[j].1 < vertex_count by {
                    if j < k {
                        assert(edges@.take(k as int)[j] == edges@[j]);
                    }
                }
            }
            k += 1;
        }
        assert(edges@.take(edges@.len() as int) =~= edges@);
        Some(Shape { vertex_count, edges })
    }

    /// The cube: eight corners and twelve edges.
    pub fn cube() -> (shape: Shape)
        ensures
            shape.count() == 8,
            shape.edge_list() == cube_edges(),
    {
        let edges: Vec<(usize, usize)> = vec![
            (4, 5),
            (5, 6),
            (6, 7),
            (4, 7),
            (2, 7),
            (3, 4),
            (0, 5),
            (1, 6),
            (0, 1),
            (1, 2),
            (2, 3),
            (0, 3),
        ];
        assert(edges@ =~= cube_edges());
        Shape { vertex_count: 8, edges }
    }

    /// The number of vertices.
    pub fn vertex_count(&self) -> (count: usize)
        ensures
            count == self.count(),
    {
        self.vertex_count
    }

    /// The edges. Each names two vertices below `vertex_count`.
    pub fn edges(&self) -> (edges: &Vec<(usize, usize)>)
        ensures
            edges@ == self.edge_list(),
            edges_fit(edges@, self.count()),
    {
        proof {
            use_type_invariant(self);
        }
        &self.edges
    }
}

} // verus!
