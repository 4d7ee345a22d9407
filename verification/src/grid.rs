//! A self-contained lattice value: every coordinate and every adjacency
//! edge list, built up front in enumeration order.

use vstd::prelude::*;
use crate::space;
use crate::space::{in_bounds, index3, lemma_cell_index_bound, lemma_point_of_cell_index};

verus! {

/// A cell position, stored by the grid in enumeration order.
#[derive(Clone, Copy, PartialEq, Eq, Structural, Debug)]
pub struct Coordinate {
    pub x: usize,
    pub y: usize,
    pub z: usize,
}

impl Coordinate {
    fn new(x: usize, y: usize, z: usize) -> (c: Self)
        ensures
            c == (Coordinate { x, y, z }),
    {
        Coordinate { x, y, z }
    }
}

/// One of the six axis-aligned directions an edge can take.
#[derive(Clone, Copy, PartialEq, Eq, Structural, Debug, Hash)]
pub enum Direction {
    Left,
    Right,
    Front,
    Back,
    Down,
    Up,
}

/// A cell id: the rank of a coordinate in enumeration order.
pub type Cell = usize;

/// An edge to an adjacent cell; the direction names where the edge's owner
/// lies as seen from that neighbor.
#[derive(Clone, Copy, PartialEq, Eq, Structural, Debug)]
pub struct Edge {
    pub direction: Direction,
    pub cell: Cell,
}

impl Edge {
    fn new(direction: Direction, cell: Cell) -> (e: Self)
        ensures
            e == (Edge { direction, cell }),
    {
        Edge { direction, cell }
    }
}

/// The grid: its extent, every coordinate in enumeration order, and each
/// cell's adjacency edge list.
#[derive(Debug)]
pub struct Grid {
    pub cell_count: usize,
    pub width: usize,
    pub depth: usize,
    pub height: usize,
    pub coordinates: Vec<Coordinate>,
    pub graph: Vec<Vec<Edge>>,
    pub directions: Vec<Direction>,
}

/// The extent of a grid as a lattice size.
pub open spec fn size3(width: usize, depth: usize, height: usize) -> space::Size {
    space::Size { width, depth, height }
}

/// The point a coordinate stands at.
pub open spec fn coordinate_point(c: Coordinate) -> space::Point {
    space::Point { x: c.x, y: c.y, z: c.z }
}

/// The edge list a coordinate is owed: one entry per in-bounds axis
/// neighbor, as a (cell id, direction) pair, in the fixed order lower-x,
/// upper-x, lower-y, upper-y, lower-z, upper-z.
pub open spec fn grid_edges_spec(size: space::Size, point: space::Point) -> Seq<
    (int, Direction),
> {
    let x = point.x as int;
    let y = point.y as int;
    let z = point.z as int;
    let s = Seq::<(int, Direction)>::empty();
    let s = if x > 0 {
        s.push((index3(size, x - 1, y, z), Direction::Right))
    } else {
        s
    };
    let s = if x < size.width - 1 {
        s.push((index3(size, x + 1, y, z), Direction::Left))
    } else {
        s
    };
    let s = if y > 0 {
        s.push((index3(size, x, y - 1, z), Direction::Back))
    } else {
        s
    };
    let s = if y < size.depth - 1 {
        s.push((index3(size, x, y + 1, z), Direction::Front))
    } else {
        s
    };
    let s = if z > 0 {
        s.push((index3(size, x, y, z - 1), Direction::Up))
    } else {
        s
    };
    let s = if z < size.height - 1 {
        s.push((index3(size, x, y, z + 1), Direction::Down))
    } else {
        s
    };
    s
}

/// What a finished grid promises: the extent is recorded, the cell count is
/// the dimension product, the coordinate list enumerates the lattice in
/// order, and every cell's edge list is exactly what `grid_edges_spec`
/// prescribes.
pub open spec fn grid_well_formed(g: Grid) -> bool {
    let size = size3(g.width, g.depth, g.height);
    &&& g.cell_count == g.width * g.depth * g.height
    &&& g.coordinates@.len() == g.cell_count
    &&& g.graph@.len() == g.cell_count
    &&& forall|id: int|
        0 <= id < g.cell_count ==> coordinate_point(#[trigger] g.coordinates@[id])
            == space::point_of(size, id)
    &&& forall|id: int|
        0 <= id < g.cell_count ==> (#[trigger] g.graph@[id])@.map_values(
            |e: Edge| (e.cell as int, e.direction),
        ) == grid_edges_spec(size, space::point_of(size, id))
}

/// Every cell's edge list has exactly one entry per in-bounds axis
/// direction — at most six — and every entry points at a cell of the
/// lattice.
pub proof fn lemma_grid_edges_cardinality(size: space::Size, point: space::Point)
    requires
        in_bounds(size, point),
    ensures
        grid_edges_spec(size, point).len() == crate::graph::in_bounds_direction_count(
            size,
            point,
        ),
        forall|i: int|
            0 <= i < grid_edges_spec(size, point).len() ==> 0 <= (#[trigger] grid_edges_spec(
                size,
                point,
            )[i]).0 < size.width * size.depth * size.height,
{
    let s = grid_edges_spec(size, point);
    assert forall|i: int| 0 <= i < s.len() implies 0 <= (#[trigger] s[i]).0 < size.width
        * size.depth * size.height by {
        let x = point.x;
        let y = point.y;
        let z = point.z;
        if x > 0 {
            lemma_cell_index_bound(size, space::Point { x: (x - 1) as usize, y, z });
        }
        if x < size.width - 1 {
            lemma_cell_index_bound(size, space::Point { x: (x + 1) as usize, y, z });
        }
        if y > 0 {
            lemma_cell_index_bound(size, space::Point { x, y: (y - 1) as usize, z });
        }
        if y < size.depth - 1 {
            lemma_cell_index_bound(size, space::Point { x, y: (y + 1) as usize, z });
        }
        if z > 0 {
            lemma_cell_index_bound(size, space::Point { x, y, z: (z - 1) as usize });
        }
        if z < size.height - 1 {
            lemma_cell_index_bound(size, space::Point { x, y, z: (z + 1) as usize });
        }
    }
}

/// A well-formed grid enumerates the lattice bijectively: each coordinate
/// maps back to its own id under the linearization, and no two cells share
/// a coordinate.
pub proof fn lemma_grid_coordinates_bijective(g: Grid)
    requires
        grid_well_formed(g),
    ensures
        forall|id: int|
            0 <= id < g.cell_count ==> space::cell_index(size3(g.width, g.depth, g.height),
                coordinate_point(#[trigger] g.coordinates@[id])) == id,
        forall|id1: int, id2: int|
            0 <= id1 < g.cell_count && 0 <= id2 < g.cell_count && id1 != id2
                ==> #[trigger] g.coordinates@[id1] != #[trigger] g.coordinates@[id2],
{
    let size = size3(g.width, g.depth, g.height);
    assert forall|id: int| 0 <= id < g.cell_count implies space::cell_index(
        size,
        coordinate_point(#[trigger] g.coordinates@[id]),
    ) == id by {
        space::lemma_cell_index_point_of(size, id);
    }
    assert forall|id1: int, id2: int|
        0 <= id1 < g.cell_count && 0 <= id2 < g.cell_count && id1 != id2 implies #[trigger] g
        .coordinates@[id1] != #[trigger] g.coordinates@[id2] by {
        space::lemma_cell_index_point_of(size, id1);
        space::lemma_cell_index_point_of(size, id2);
    }
}

/// The cell id of a coordinate.
fn cell(coordinate: Coordinate, width: usize, depth: usize) -> (id: usize)
    requires
        coordinate.x < width,
        coordinate.y < depth,
        coordinate.x + coordinate.y * width + coordinate.z * width * depth <= usize::MAX,
    ensures
        id == coordinate.x + coordinate.y * width + coordinate.z * width * depth,
{
    proof {
        assert(0 <= coordinate.y * width && coordinate.z * width <= coordinate.z * width
            * depth && 0 <= coordinate.z * width * depth) by (nonlinear_arith)
            requires
                coordinate.y < depth,
                coordinate.x < width,
                0 <= coordinate.y,
                0 <= coordinate.z,
                0 <= width,
                1 <= depth,
        ;
    }
    coordinate.x + coordinate.y * width + coordinate.z * width * depth
}

/// The edge list of one coordinate, built in the fixed direction order.
#[verifier::rlimit(30)]
fn edge_row(width: usize, depth: usize, height: usize, x: usize, y: usize, z: usize) -> (edges:
    Vec<Edge>)
    requires
        x < width,
        y < depth,
        z < height,
        width * depth * height <= usize::MAX,
    ensures
        edges@.map_values(|e: Edge| (e.cell as int, e.direction)) == grid_edges_spec(
            size3(width, depth, height),
            space::Point { x, y, z },
        ),
{
    let ghost size = size3(width, depth, height);
    let mut edges: Vec<Edge> = Vec::new();
    if x > 0 {
        proof {
            lemma_cell_index_bound(size, space::Point { x: (x - 1) as usize, y, z });
        }
        let neighbor = cell(Coordinate::new(x - 1, y, z), width, depth);
        edges.push(Edge::new(Direction::Right, neighbor));
    }
    if x < width - 1 {
        proof {
            lemma_cell_index_bound(size, space::Point { x: (x + 1) as usize, y, z });
        }
        let neighbor = cell(Coordinate::new(x + 1, y, z), width, depth);
        edges.push(Edge::new(Direction::Left, neighbor));
    }
    if y > 0 {
        proof {
            lemma_cell_index_bound(size, space::Point { x, y: (y - 1) as usize, z });
        }
        let neighbor = cell(Coordinate::new(x, y - 1, z), width, depth);
        edges.push(Edge::new(Direction::Back, neighbor));
    }
    if y < depth - 1 {
        proof {
            lemma_cell_index_bound(size, space::Point { x, y: (y + 1) as usize, z });
        }
        let neighbor = cell(Coordinate::new(x, y + 1, z), width, depth);
        edges.push(Edge::new(Direction::Front, neighbor));
    }
    if z > 0 {
        proof {
            lemma_cell_index_bound(size, space::Point { x, y, z: (z - 1) as usize });
        }
        let neighbor = cell(Coordinate::new(x, y, z - 1), width, depth);
        edges.push(Edge::new(Direction::Up, neighbor));
    }
    if z < height - 1 {
        proof {
            lemma_cell_index_bound(size, space::Point { x, y, z: (z + 1) as usize });
        }
        let neighbor = cell(Coordinate::new(x, y, z + 1), width, depth);
        edges.push(Edge::new(Direction::Down, neighbor));
    }
    proof {
        assert(edges@.map_values(|e: Edge| (e.cell as int, e.direction)) =~= grid_edges_spec(
            size,
            space::Point { x, y, z },
        ));
    }
    edges
}

impl Grid {
    /// Builds the whole lattice: coordinates in enumeration order (outer z,
    /// then y, then x) and, per cell, its edge list to every in-bounds axis
    /// neighbor.
    #[verifier::loop_isolation(false)]
    pub fn new(width: usize, depth: usize, height: usize) -> (g: Self)
        requires
            1 <= width,
            1 <= depth,
            1 <= height,
            width * depth * height <= usize::MAX,
        ensures
            g.width == width,
            g.depth == depth,
            g.height == height,
            grid_well_formed(g),
            g.directions@ =~= seq![
                Direction::Left,
                Direction::Right,
                Direction::Front,
                Direction::Back,
                Direction::Down,
                Direction::Up,
            ],
    {
        let ghost size = size3(width, depth, height);
        let ghost wd: int = width as int * depth as int;
        proof {
            assert(width * depth <= width * depth * height) by (nonlinear_arith)
                requires
                    0 <= width,
                    0 <= depth,
                    1 <= height,
            ;
        }
        let cell_count = width * depth * height;
        proof {
            assert(0int * wd == 0 && 0int * width == 0) by (nonlinear_arith);
        }
        let mut coordinates: Vec<Coordinate> = Vec::new();
        let mut graph: Vec<Vec<Edge>> = Vec::new();
        let directions = vec![
            Direction::Left,
            Direction::Right,
            Direction::Front,
            Direction::Back,
            Direction::Down,
            Direction::Up,
        ];
        for z in 0..height
            invariant
                coordinates@.len() == z * wd,
                graph@.len() == coordinates@.len(),
                forall|id: int|
                    0 <= id < coordinates@.len() ==> coordinate_point(
                        #[trigger] coordinates@[id],
                    ) == space::point_of(size, id),
                forall|id: int|
                    0 <= id < graph@.len() ==> (#[trigger] graph@[id])@.map_values(
                        |e: Edge| (e.cell as int, e.direction),
                    ) == grid_edges_spec(size, space::point_of(size, id)),
        {
            for y in 0..depth
                invariant
                    coordinates@.len() == z * wd + y * width,
                    graph@.len() == coordinates@.len(),
                    forall|id: int|
                        0 <= id < coordinates@.len() ==> coordinate_point(
                            #[trigger] coordinates@[id],
                        ) == space::point_of(size, id),
                    forall|id: int|
                        0 <= id < graph@.len() ==> (#[trigger] graph@[id])@.map_values(
                            |e: Edge| (e.cell as int, e.direction),
                        ) == grid_edges_spec(size, space::point_of(size, id)),
            {
                for x in 0..width
                    invariant
                        coordinates@.len() == z * wd + y * width + x,
                        graph@.len() == coordinates@.len(),
                        forall|id: int|
                            0 <= id < coordinates@.len() ==> coordinate_point(
                                #[trigger] coordinates@[id],
                            ) == space::point_of(size, id),
                        forall|id: int|
                            0 <= id < graph@.len() ==> (#[trigger] graph@[id])@.map_values(
                                |e: Edge| (e.cell as int, e.direction),
                            ) == grid_edges_spec(size, space::point_of(size, id)),
                {
                    let ghost here = space::Point { x, y, z };
                    proof {
                        assert(z * wd == z * width * depth) by (nonlinear_arith)
                            requires
                                wd == width * depth,
                        ;
                        lemma_cell_index_bound(size, here);
                        lemma_point_of_cell_index(size, here);
                        assert(coordinates@.len() == space::cell_index(size, here));
                    }
                    coordinates.push(Coordinate::new(x, y, z));
                    let edges = edge_row(width, depth, height, x, y, z);
                    graph.push(edges);
                }
                proof {
                    assert(z * wd + y * width + width == z * wd + (y + 1) * width)
                        by (nonlinear_arith);
                }
            }
            proof {
                assert(z * wd + depth * width == (z + 1) * wd) by (nonlinear_arith)
                    requires
                        wd == width * depth,
                ;
            }
        }
        proof {
            assert(height * wd == width * depth * height) by (nonlinear_arith)
                requires
                    wd == width * depth,
            ;
        }
        Self { cell_count, width, depth, height, coordinates, graph, directions }
    }
}

} // verus!

