//! Adjacency edges of the lattice.

use vstd::prelude::*;
use crate::space::{Direction, Point, Size};
use crate::space::{cell_index, in_bounds, index3, lemma_cell_index_bound};

verus! {

/// An edge to an adjacent cell.  The direction names where the edge's far
/// end (the cell this edge belongs to) lies, as seen from the neighbor: the
/// neighbor at `x - 1` is reached by an edge labelled `Right`.
#[derive(Clone, Copy, PartialEq, Eq, Structural, Debug)]
pub struct Edge {
    pub cell_id: usize,
    pub direction: Direction,
}

impl Edge {
    pub fn new(cell_id: usize, direction: Direction) -> (e: Edge)
        ensures
            e == (Edge { cell_id, direction }),
    {
        Edge { cell_id, direction }
    }
}

/// The edge list a point is owed: one entry per in-bounds axis neighbor, as
/// a (cell id, direction) pair, in the fixed order lower-x, upper-x,
/// lower-y, upper-y, lower-z, upper-z.
pub open spec fn edges_spec(size: Size, point: Point) -> Seq<(int, Direction)> {
    let x = point.x as int;
    let y = point.y as int;
    let z = point.z as int;
    let s = Seq::<(int, Direction)>::empty();
    let s = if x > 0 {
        s.push((index3(size, x - 1, y, z), Direction::Right))
    } else {
        s
    };
    let s = if x < size.width - 1 {
        s.push((index3(size, x + 1, y, z), Direction::Left))
    } else {
        s
    };
    let s = if y > 0 {
        s.push((index3(size, x, y - 1, z), Direction::Back))
    } else {
        s
    };
    let s = if y < size.depth - 1 {
        s.push((index3(size, x, y + 1, z), Direction::Front))
    } else {
        s
    };
    let s = if z > 0 {
        s.push((index3(size, x, y, z - 1), Direction::Up))
    } else {
        s
    };
    let s = if z < size.height - 1 {
        s.push((index3(size, x, y, z + 1), Direction::Down))
    } else {
        s
    };
    s
}

/// The mathematical reading of an edge list: each edge as a (cell id,
/// direction) pair.
pub open spec fn edge_view(s: Seq<Edge>) -> Seq<(int, Direction)> {
    s.map_values(|e: Edge| (e.cell_id as int, e.direction))
}

/// The number of in-bounds axis directions around a point: the cardinality
/// the point's edge list must have.
pub open spec fn in_bounds_direction_count(size: Size, point: Point) -> int {
    (if point.x > 0 { 1int } else { 0int })
        + (if point.x < size.width - 1 { 1int } else { 0int })
        + (if point.y > 0 { 1int } else { 0int })
        + (if point.y < size.depth - 1 { 1int } else { 0int })
        + (if point.z > 0 { 1int } else { 0int })
        + (if point.z < size.height - 1 { 1int } else { 0int })
}

/// Every edge list has exactly one entry per in-bounds axis direction, and
/// every entry's cell id is the id of an in-bounds point.
pub proof fn lemma_edges_spec_cardinality(size: Size, point: Point)
    requires
        in_bounds(size, point),
    ensures
        edges_spec(size, point).len() == in_bounds_direction_count(size, point),
        forall|i: int| 0 <= i < edges_spec(size, point).len()
            ==> 0 <= (#[trigger] edges_spec(size, point)[i]).0
                < size.width * size.depth * size.height,
{
    let s = edges_spec(size, point);
    assert forall|i: int| 0 <= i < s.len()
        implies 0 <= (#[trigger] s[i]).0 < size.width * size.depth * size.height by {
        let x = point.x;
        let y = point.y;
        let z = point.z;
        if x > 0 {
            lemma_cell_index_bound(size, Point { x: (x - 1) as usize, y, z });
        }
        if x < size.width - 1 {
            lemma_cell_index_bound(size, Point { x: (x + 1) as usize, y, z });
        }
        if y > 0 {
            lemma_cell_index_bound(size, Point { x, y: (y - 1) as usize, z });
        }
        if y < size.depth - 1 {
            lemma_cell_index_bound(size, Point { x, y: (y + 1) as usize, z });
        }
        if z > 0 {
            lemma_cell_index_bound(size, Point { x, y, z: (z - 1) as usize });
        }
        if z < size.height - 1 {
            lemma_cell_index_bound(size, Point { x, y, z: (z + 1) as usize });
        }
    }
}

/// Every edge leads to an axis neighbor: an in-bounds point exactly one
/// hop away from the edge list's owner.
pub proof fn lemma_edges_spec_neighbor(size: Size, point: Point, i: int)
    requires
        in_bounds(size, point),
        0 <= i < edges_spec(size, point).len(),
    ensures
        in_bounds(size, crate::space::point_of(size, edges_spec(size, point)[i].0)),
        crate::space::l1_distance(
            crate::space::point_of(size, edges_spec(size, point)[i].0),
            point,
        ) == 1,
{
    let x = point.x;
    let y = point.y;
    let z = point.z;
    if x > 0 {
        crate::space::lemma_point_of_cell_index(size, Point { x: (x - 1) as usize, y, z });
    }
    if x < size.width - 1 {
        crate::space::lemma_point_of_cell_index(size, Point { x: (x + 1) as usize, y, z });
    }
    if y > 0 {
        crate::space::lemma_point_of_cell_index(size, Point { x, y: (y - 1) as usize, z });
    }
    if y < size.depth - 1 {
        crate::space::lemma_point_of_cell_index(size, Point { x, y: (y + 1) as usize, z });
    }
    if z > 0 {
        crate::space::lemma_point_of_cell_index(size, Point { x, y, z: (z - 1) as usize });
    }
    if z < size.height - 1 {
        crate::space::lemma_point_of_cell_index(size, Point { x, y, z: (z + 1) as usize });
    }
}

/// Distinct edges of one cell lead to distinct neighbors: the six
/// candidate neighbor points are pairwise different, and the linearization
/// keeps them apart.
pub proof fn lemma_edges_spec_distinct(size: Size, point: Point, k1: int, k2: int)
    requires
        in_bounds(size, point),
        0 <= k1 < edges_spec(size, point).len(),
        0 <= k2 < edges_spec(size, point).len(),
        k1 != k2,
    ensures
        edges_spec(size, point)[k1].0 != edges_spec(size, point)[k2].0,
        edges_spec(size, point)[k1].0 != cell_index(size, point),
{
    let x = point.x;
    let y = point.y;
    let z = point.z;
    crate::space::lemma_point_of_cell_index(size, point);
    if x > 0 {
        crate::space::lemma_point_of_cell_index(size, Point { x: (x - 1) as usize, y, z });
    }
    if x < size.width - 1 {
        crate::space::lemma_point_of_cell_index(size, Point { x: (x + 1) as usize, y, z });
    }
    if y > 0 {
        crate::space::lemma_point_of_cell_index(size, Point { x, y: (y - 1) as usize, z });
    }
    if y < size.depth - 1 {
        crate::space::lemma_point_of_cell_index(size, Point { x, y: (y + 1) as usize, z });
    }
    if z > 0 {
        crate::space::lemma_point_of_cell_index(size, Point { x, y, z: (z - 1) as usize });
    }
    if z < size.height - 1 {
        crate::space::lemma_point_of_cell_index(size, Point { x, y, z: (z + 1) as usize });
    }
}

/// The cell id of a point: its rank in the enumeration order.
pub fn cell(size: Size, point: Point) -> (id: usize)
    requires
        in_bounds(size, point),
        size.width * size.depth * size.height <= usize::MAX,
    ensures
        id == cell_index(size, point),
{
    proof {
        lemma_cell_index_bound(size, point);
    }
    point.x + point.y * size.width + point.z * size.width * size.depth
}

/// The edge list of a point: one edge per in-bounds axis neighbor, in the
/// fixed order that `edges_spec` gives.
pub fn edges(dimensions: Size, point: Point) -> (r: Vec<Edge>)
    requires
        in_bounds(dimensions, point),
        dimensions.width * dimensions.depth * dimensions.height <= usize::MAX,
    ensures
        edge_view(r@) == edges_spec(dimensions, point),
{
    let mut r: Vec<Edge> = Vec::new();
    if point.x > 0 {
        let neighbor = cell(dimensions, Point::new(point.x - 1, point.y, point.z));
        r.push(Edge::new(neighbor, Direction::Right));
    }
    if point.x < dimensions.width - 1 {
        let neighbor = cell(dimensions, Point::new(point.x + 1, point.y, point.z));
        r.push(Edge::new(neighbor, Direction::Left));
    }
    if point.y > 0 {
        let neighbor = cell(dimensions, Point::new(point.x, point.y - 1, point.z));
        r.push(Edge::new(neighbor, Direction::Back));
    }
    if point.y < dimensions.depth - 1 {
        let neighbor = cell(dimensions, Point::new(point.x, point.y + 1, point.z));
        r.push(Edge::new(neighbor, Direction::Front));
    }
    if point.z > 0 {
        let neighbor = cell(dimensions, Point::new(point.x, point.y, point.z - 1));
        r.push(Edge::new(neighbor, Direction::Up));
    }
    if point.z < dimensions.height - 1 {
        let neighbor = cell(dimensions, Point::new(point.x, point.y, point.z + 1));
        r.push(Edge::new(neighbor, Direction::Down));
    }
    proof {
        assert(edge_view(r@) =~= edges_spec(dimensions, point));
    }
    r
}

} // verus!
