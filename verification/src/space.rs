//! Points, sizes and axis directions of the 3D lattice.

use vstd::prelude::*;

verus! {

/// One of the six axis-aligned directions an edge of the lattice can take.
#[derive(Clone, Copy, PartialEq, Eq, Structural, Debug)]
pub enum Direction {
    Left,
    Right,
    Front,
    Back,
    Down,
    Up,
}

/// A cell position inside the lattice.
#[derive(Clone, Copy, PartialEq, Eq, Structural, Debug)]
pub struct Point {
    pub x: usize,
    pub y: usize,
    pub z: usize,
}

impl Point {
    pub fn new(x: usize, y: usize, z: usize) -> (p: Point)
        ensures
            p == (Point { x, y, z }),
    {
        Point { x, y, z }
    }
}

/// The extent of the lattice along the three axes.
#[derive(Clone, Copy, PartialEq, Eq, Structural, Debug)]
pub struct Size {
    pub width: usize,
    pub depth: usize,
    pub height: usize,
}

impl Size {
    pub fn new(width: usize, depth: usize, height: usize) -> (s: Size)
        ensures
            s == (Size { width, depth, height }),
    {
        Size { width, depth, height }
    }
}

/// Whether a point lies inside the lattice of the given size.
pub open spec fn in_bounds(size: Size, point: Point) -> bool {
    point.x < size.width && point.y < size.depth && point.z < size.height
}

/// The linearization of coordinates: cell ids enumerate x first, then y,
/// then z.
pub open spec fn index3(size: Size, x: int, y: int, z: int) -> int {
    x + y * size.width + z * size.width * size.depth
}

/// The cell id of a point.
pub open spec fn cell_index(size: Size, point: Point) -> int {
    index3(size, point.x as int, point.y as int, point.z as int)
}

/// The point whose cell id is `id`: the inverse of the linearization.
pub open spec fn point_of(size: Size, id: int) -> Point {
    Point {
        x: (id % (size.width as int)) as usize,
        y: ((id / (size.width as int)) % (size.depth as int)) as usize,
        z: (id / (size.width as int * size.depth as int)) as usize,
    }
}

/// The distance between two integers.
pub open spec fn abs_diff(a: int, b: int) -> int {
    if a >= b {
        a - b
    } else {
        b - a
    }
}

/// The hop distance between two points of the lattice: propagation along
/// axis edges covers exactly one unit of it per hop.
pub open spec fn l1_distance(p1: Point, p2: Point) -> int {
    abs_diff(p1.x as int, p2.x as int) + abs_diff(p1.y as int, p2.y as int) + abs_diff(
        p1.z as int,
        p2.z as int,
    )
}

/// The hop distance obeys the triangle inequality.
pub proof fn lemma_l1_triangle(a: Point, b: Point, c: Point)
    ensures
        l1_distance(a, c) <= l1_distance(a, b) + l1_distance(b, c),
{
}

/// An in-bounds point's cell id lies below the cell count, and the
/// summands of the linearization stay below it as well.
pub proof fn lemma_cell_index_bound(size: Size, point: Point)
    requires
        in_bounds(size, point),
    ensures
        0 <= cell_index(size, point) < size.width * size.depth * size.height,
        point.y * size.width + point.x < size.width * size.depth,
        point.z * size.width * size.depth <= cell_index(size, point),
        point.z * size.width <= point.z * size.width * size.depth,
        size.width * size.depth <= size.width * size.depth * size.height,
{
    let w = size.width as int;
    let d = size.depth as int;
    let h = size.height as int;
    let x = point.x as int;
    let y = point.y as int;
    let z = point.z as int;
    assert(0 <= x + y * w + z * w * d < w * d * h
        && y * w + x < w * d
        && z * w * d <= x + y * w + z * w * d
        && z * w <= z * w * d
        && w * d <= w * d * h) by (nonlinear_arith)
        requires
            0 <= x < w,
            0 <= y < d,
            0 <= z < h,
    ;
}

/// Linearizing a point and mapping the id back recovers the point.
pub proof fn lemma_point_of_cell_index(size: Size, point: Point)
    requires
        in_bounds(size, point),
    ensures
        point_of(size, cell_index(size, point)) == point,
{
    let w = size.width as int;
    let d = size.depth as int;
    let x = point.x as int;
    let y = point.y as int;
    let z = point.z as int;
    let id = cell_index(size, point);
    assert(id == (y + z * d) * w + x && id == z * (w * d) + (y * w + x)) by (nonlinear_arith)
        requires
            id == x + y * w + z * w * d,
    ;
    vstd::arithmetic::div_mod::lemma_fundamental_div_mod_converse(id, w, y + z * d, x);
    vstd::arithmetic::div_mod::lemma_fundamental_div_mod_converse(y + z * d, d, z, y);
    lemma_cell_index_bound(size, point);
    vstd::arithmetic::div_mod::lemma_fundamental_div_mod_converse(
        id,
        w * d,
        z,
        y * w + x,
    );
}

/// Every id below the cell count is the id of an in-bounds point.
pub proof fn lemma_cell_index_point_of(size: Size, id: int)
    requires
        0 <= id < size.width * size.depth * size.height,
    ensures
        in_bounds(size, point_of(size, id)),
        cell_index(size, point_of(size, id)) == id,
{
    let w = size.width as int;
    let d = size.depth as int;
    let h = size.height as int;
    assert(w > 0 && d > 0 && h > 0) by (nonlinear_arith)
        requires
            0 <= id < w * d * h,
            0 <= w,
            0 <= d,
            0 <= h,
    ;
    let x = id % w;
    let y = (id / w) % d;
    let z = id / (w * d);
    vstd::arithmetic::div_mod::lemma_fundamental_div_mod(id, w);
    vstd::arithmetic::div_mod::lemma_fundamental_div_mod(id / w, d);
    vstd::arithmetic::div_mod::lemma_fundamental_div_mod(id, w * d);
    vstd::arithmetic::div_mod::lemma_mod_bound(id, w);
    vstd::arithmetic::div_mod::lemma_mod_bound(id / w, d);
    vstd::arithmetic::div_mod::lemma_div_denominator(id, w, d);
    assert(id == x + y * w + z * (w * d) && z * (w * d) == z * w * d) by (nonlinear_arith)
        requires
            id == w * (id / w) + x,
            id / w == d * ((id / w) / d) + y,
            (id / w) / d == z,
    ;
    assert(0 <= x + y * w < w * d) by (nonlinear_arith)
        requires
            0 <= x < w,
            0 <= y < d,
    ;
    assert(0 <= z < h) by (nonlinear_arith)
        requires
            0 <= id < (w * d) * h,
            w * d > 0,
            id == z * (w * d) + (x + y * w),
            0 <= x + y * w < w * d,
    ;
}

/// The point-to-id mapping is a bijection between the in-bounds points and
/// the ids below the cell count: ids are in range, distinct points get
/// distinct ids, and every id is taken.
pub proof fn lemma_cell_index_bijective(size: Size, p1: Point, p2: Point)
    requires
        in_bounds(size, p1),
        in_bounds(size, p2),
        cell_index(size, p1) == cell_index(size, p2),
    ensures
        p1 == p2,
{
    lemma_point_of_cell_index(size, p1);
    lemma_point_of_cell_index(size, p2);
}

} // verus!
