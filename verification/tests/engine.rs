//! The generation engine: whole runs of the wave function collapse.

use caldera::cells::Cell;
use caldera::math::SCALE;
use caldera::state::{Signal, State};
use caldera::space::Direction;
use caldera::{GenerationError, MapConfig, MapGenerator, MapSize, Node};

fn observations(cells: &[Cell]) -> Vec<Option<&'static str>> {
    cells.iter().map(|c| c.observation).collect()
}

#[test]
fn test_single_cell_single_state_collapses() {
    // One cell, one state with full initial weight: the run completes at
    // once, with no neighbor to propagate to, and the cell is observed as
    // that state.
    let states = vec![State::new("ground", vec![SCALE], vec![SCALE; 12])];
    let mut g = MapGenerator::from_states(MapSize::TestOne, MapConfig::Simple, states, 3, 2, 7);
    assert!(g.wave_function_collapse().is_ok());
    let cells = g.cells();
    assert_eq!(cells.len(), 1);
    assert_eq!(cells[0].observation, Some("ground"));
    assert_eq!((cells[0].point.x, cells[0].point.y, cells[0].point.z), (0, 0, 0));
}

#[test]
fn test_all_zero_initial_weights_fail() {
    // Every state's initial weight is zero at every point: the run fails
    // with a configuration error before the main loop, and never panics.
    let mut g = MapGenerator::new(MapSize::Small, MapConfig::TestInitialWeightsError, 1)
        .unwrap();
    assert_eq!(g.wave_function_collapse(), Err(GenerationError::InitialWeightsError));
}

#[test]
fn test_contradiction_is_deferred_to_observe() {
    // A single state whose update weight is negative: the first collapse
    // drives its neighbors' weights to zero.  The zeroed cells are not
    // failed eagerly; the run aborts with a contradiction once such a cell
    // is selected.
    let mut g = MapGenerator::new(MapSize::Small, MapConfig::TestContradiction, 5).unwrap();
    assert_eq!(g.wave_function_collapse(), Err(GenerationError::Contradiction));
}

#[test]
fn test_ground_everywhere() {
    // Two states, all the initial weight on the first: every cell collapses
    // to it.
    let mut g = MapGenerator::new(MapSize::Small, MapConfig::Test100Ground, 11).unwrap();
    assert!(g.wave_function_collapse().is_ok());
    let cells = g.cells();
    assert_eq!(cells.len(), 1000);
    assert!(cells.iter().all(|c| c.observation == Some("ground")));
}

#[test]
fn test_completed_run_observes_every_cell() {
    let mut g = MapGenerator::new(MapSize::Medium, MapConfig::Test100Ground, 3).unwrap();
    assert!(g.wave_function_collapse().is_ok());
    let cells = g.cells();
    assert_eq!(cells.len(), 8000);
    assert!(cells.iter().all(|c| c.observation.is_some()));
}

#[test]
fn test_same_seed_same_map() {
    // An explicit seed makes a run reproducible: the same configuration and
    // seed give the same observation map, and the engine draws no ambient
    // randomness.
    let run = |seed: u64| {
        let count = 10 * 10 * 10;
        let states = vec![
            State::new("ground", vec![SCALE; count], vec![SCALE / 2; 24]),
            State::new("sky", vec![SCALE; count], vec![SCALE / 2; 24]),
        ];
        let mut g = MapGenerator::from_states(
            MapSize::Small,
            MapConfig::Simple,
            states,
            3,
            2,
            seed,
        );
        g.wave_function_collapse().unwrap();
        observations(&g.cells())
    };
    let a = run(97);
    let b = run(97);
    assert_eq!(a, b);
    // Both states start equally likely, so the map is genuinely mixed:
    // the draws matter and the equality above is not vacuous.
    assert!(a.iter().any(|o| *o == Some("ground")));
    assert!(a.iter().any(|o| *o == Some("sky")));
}

#[test]
fn test_mv_import_size() {
    let g = MapGenerator::new(MapSize::Small, MapConfig::Test100Ground, 1).unwrap();
    assert_eq!(g.mv_import_size(), 30);
}

#[test]
fn test_plain_constructors() {
    let n = Node::new(4, "ground", 2);
    assert_eq!(n.current_cell_id, 4);
    assert_eq!(n.current_state_name, "ground");
    assert_eq!(n.current_distance, 2);

    let s = Signal::new("sky", Direction::Up, 1);
    assert_eq!(s.state_name, "sky");
    assert_eq!(s.distance, 1);
    assert!(matches!(s.direction, Direction::Up));

    let st = State::new("edge", vec![1, 2], vec![3, 4]);
    assert_eq!(st.name, "edge");
    assert_eq!(st.initial, vec![1, 2]);
    assert_eq!(st.update, vec![3, 4]);

    let c = Cell::new(caldera::space::Point::new(1, 2, 3), None);
    assert!(c.observation.is_none());
    assert_eq!(c.point.y, 2);

    assert_eq!(MapSize::Medium.dimensions().width, 20);
    assert_eq!(MapSize::TestOne.dimensions().height, 1);
}

#[test]
fn test_cells_store() {
    let mut store = caldera::cells::Cells::with_capacity(2);
    store.add(caldera::space::Point::new(0, 0, 0), vec![], vec![SCALE], 7, None);
    store.add(caldera::space::Point::new(1, 0, 0), vec![], vec![SCALE], 0, Some(0));
    assert_eq!(store.count, 2);
    let (point, observation) = store.get(1);
    assert_eq!(point.x, 1);
    assert_eq!(observation, Some(0));
    let (point, observation) = store.get(0);
    assert_eq!(point.x, 0);
    assert_eq!(observation, None);
}

#[test]
fn test_shaped_configs_need_tables() {
    // The two shaped configurations have no constant tables: the preset
    // constructor declines them and the caller supplies tables instead.
    assert!(MapGenerator::new(MapSize::Small, MapConfig::TestEdge, 0).is_none());
    assert!(MapGenerator::new(MapSize::Small, MapConfig::Simple, 0).is_none());
    assert!(MapGenerator::new(MapSize::Small, MapConfig::Test100Ground, 0).is_some());
}
