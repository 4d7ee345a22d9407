//! The lattice: linearization, adjacency edges, grid construction.

use caldera::graph::{cell, edges, Edge};
use caldera::grid::Grid;
use caldera::space::{Direction, Point, Size};

#[test]
fn test_cell_linearization() {
    let size = Size::new(3, 4, 5);
    assert_eq!(cell(size, Point::new(0, 0, 0)), 0);
    assert_eq!(cell(size, Point::new(1, 0, 0)), 1);
    assert_eq!(cell(size, Point::new(0, 1, 0)), 3);
    assert_eq!(cell(size, Point::new(0, 0, 1)), 12);
    assert_eq!(cell(size, Point::new(2, 3, 4)), 2 + 3 * 3 + 4 * 12);
}

#[test]
fn test_cell_bijection() {
    // Every id below the cell count is hit exactly once, in enumeration
    // order: z outermost, then y, then x.
    let size = Size::new(2, 3, 4);
    let mut expected: usize = 0;
    for z in 0..4 {
        for y in 0..3 {
            for x in 0..2 {
                assert_eq!(cell(size, Point::new(x, y, z)), expected);
                expected += 1;
            }
        }
    }
    assert_eq!(expected, 2 * 3 * 4);
}

#[test]
fn test_edges_corner() {
    let size = Size::new(2, 2, 2);
    let r = edges(size, Point::new(0, 0, 0));
    assert_eq!(r.len(), 3);
    assert_eq!(r[0].cell_id, 1);
    assert!(matches!(r[0].direction, Direction::Left));
    assert_eq!(r[1].cell_id, 2);
    assert!(matches!(r[1].direction, Direction::Front));
    assert_eq!(r[2].cell_id, 4);
    assert!(matches!(r[2].direction, Direction::Down));

    let r = edges(size, Point::new(1, 1, 1));
    assert_eq!(r.len(), 3);
    assert_eq!(r[0].cell_id, 6);
    assert!(matches!(r[0].direction, Direction::Right));
    assert_eq!(r[1].cell_id, 5);
    assert!(matches!(r[1].direction, Direction::Back));
    assert_eq!(r[2].cell_id, 3);
    assert!(matches!(r[2].direction, Direction::Up));
}

#[test]
fn test_edges_interior_has_six() {
    let size = Size::new(3, 3, 3);
    let r = edges(size, Point::new(1, 1, 1));
    assert_eq!(r.len(), 6);
    let e = Edge::new(10, Direction::Up);
    assert_eq!(e.cell_id, 10);
}

#[test]
fn test_edges_single_cell_has_none() {
    let size = Size::new(1, 1, 1);
    let r = edges(size, Point::new(0, 0, 0));
    assert_eq!(r.len(), 0);
}

#[test]
fn test_grid_new() {
    let g = Grid::new(2, 3, 4);
    assert_eq!(g.cell_count, 24);
    assert_eq!(g.width, 2);
    assert_eq!(g.depth, 3);
    assert_eq!(g.height, 4);
    assert_eq!(g.coordinates.len(), 24);
    assert_eq!(g.graph.len(), 24);
    assert_eq!(g.directions.len(), 6);
    // Enumeration order: coordinate 0 is the origin, coordinate 1 its
    // x-neighbor, coordinate 2 starts the next row.
    assert_eq!((g.coordinates[0].x, g.coordinates[0].y, g.coordinates[0].z), (0, 0, 0));
    assert_eq!((g.coordinates[1].x, g.coordinates[1].y, g.coordinates[1].z), (1, 0, 0));
    assert_eq!((g.coordinates[2].x, g.coordinates[2].y, g.coordinates[2].z), (0, 1, 0));
    assert_eq!((g.coordinates[6].x, g.coordinates[6].y, g.coordinates[6].z), (0, 0, 1));
    // Each edge list has one entry per in-bounds axis direction.
    assert_eq!(g.graph[0].len(), 3);
    // The middle of a 3x3x3 grid sees all six neighbors.
    let g3 = Grid::new(3, 3, 3);
    let center = 1 + 1 * 3 + 1 * 9;
    assert_eq!(g3.graph[center].len(), 6);
    // Every edge points back within the lattice.
    for row in g3.graph.iter() {
        for e in row.iter() {
            assert!(e.cell < 27);
        }
    }
}

#[test]
fn test_grid_one_cell() {
    let g = Grid::new(1, 1, 1);
    assert_eq!(g.cell_count, 1);
    assert_eq!(g.graph[0].len(), 0);
}
