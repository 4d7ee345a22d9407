//! A voxel-map generator built on the wave function collapse algorithm.
//!
//! A rectangular lattice of cells starts out uncertain: each cell carries a
//! weight vector over the possible states.  The engine repeatedly picks the
//! uncollapsed cell of least entropy, fixes it to one state drawn at random in
//! proportion to its weights, and propagates the consequences of that choice
//! to nearby cells within a bounded distance.  Weights are fixed-point
//! integers throughout, so every step of the engine is verified.

use vstd::prelude::*;

pub mod cells;
pub mod graph;
pub mod grid;
pub mod math;
pub mod random;
pub mod space;
pub mod state;

use crate::cells::{Cell, Cells, count_none};
use crate::math::{
    clamp0, entropy_spec, is_one_hot, normalized_at, sum_clamped, sum_clamped_int, MAX_STATES,
    SCALE,
};
use crate::space::{l1_distance, point_of, Point, Size};
use crate::state::{state_well_formed, update_slot, Signal, State, MAX_DISTANCE_BOUND};

verus! {

/// The preset lattice extents a map can be generated at.
#[derive(Clone, Copy, PartialEq, Eq, Structural, Debug)]
pub enum MapSize {
    TestOne,
    Small,
    Medium,
    Large,
}

/// The preset state sets a map can be generated from.  The three `Test`
/// configurations below use constant weights; `TestEdge` and `Simple` shape
/// their fields with exponential falloffs, so their tables are built by the
/// caller and handed to `from_states`.
#[derive(Clone, Copy, PartialEq, Eq, Structural, Debug)]
pub enum MapConfig {
    TestInitialWeightsError,
    TestContradiction,
    TestEdge,
    Test100Ground,
    Simple,
}

/// Why a run aborted: an unsatisfiable initial field, or a cell whose
/// weights were driven to all-zero before it was observed.
#[derive(Clone, Copy, PartialEq, Eq, Structural, Debug)]
pub enum GenerationError {
    InitialWeightsError,
    Contradiction,
}

/// One frontier entry of a propagation pass.
pub struct Node {
    pub current_cell_id: usize,
    pub current_state_name: &'static str,
    pub current_distance: usize,
}

impl Node {
    pub fn new(current_cell_id: usize, current_state_name: &'static str, current_distance: usize)
        -> (n: Node)
        ensures
            n.current_cell_id == current_cell_id,
            n.current_state_name == current_state_name,
            n.current_distance == current_distance,
    {
        Node { current_cell_id, current_state_name, current_distance }
    }
}

/// The lattice extent of a preset size.
pub open spec fn dimensions_spec(m: MapSize) -> Size {
    match m {
        MapSize::TestOne => Size { width: 1, depth: 1, height: 1 },
        MapSize::Small => Size { width: 10, depth: 10, height: 10 },
        MapSize::Medium => Size { width: 20, depth: 20, height: 20 },
        MapSize::Large => Size { width: 30, depth: 30, height: 30 },
    }
}

impl MapSize {
    /// The lattice extent this preset stands for.
    pub fn dimensions(&self) -> (s: Size)
        ensures
            s == dimensions_spec(*self),
    {
        match *self {
            MapSize::TestOne => Size::new(1, 1, 1),
            MapSize::Small => Size::new(10, 10, 10),
            MapSize::Medium => Size::new(20, 20, 20),
            MapSize::Large => Size::new(30, 30, 30),
        }
    }
}

/// A map generator implementing the wave function collapse algorithm.
pub struct MapGenerator {
    pub size: MapSize,
    pub config: MapConfig,
    pub dimensions: Size,
    pub state_names: Vec<&'static str>,
    pub states: Vec<State>,
    pub tile_size: usize,
    pub max_distance: usize,
    pub cells: Cells,
    pub rng: rand::rngs::StdRng,
}

/// How many cells the generator's lattice has.
pub open spec fn cell_total(g: MapGenerator) -> int {
    g.dimensions.width * g.dimensions.depth * g.dimensions.height
}

/// The fixed, per-run configuration of a generator: a non-degenerate
/// lattice and a non-empty ordered state list whose tables cover every cell
/// and every signal.
pub open spec fn config_well_formed(g: MapGenerator) -> bool {
    &&& 1 <= g.dimensions.width
    &&& 1 <= g.dimensions.depth
    &&& 1 <= g.dimensions.height
    &&& cell_total(g) <= usize::MAX
    &&& 1 <= g.states@.len() <= MAX_STATES
    &&& g.state_names@.len() == g.states@.len()
    &&& 1 <= g.max_distance <= MAX_DISTANCE_BOUND
    &&& forall|s: int|
        0 <= s < g.states@.len() ==> state_well_formed(#[trigger] g.states@[s], cell_total(g),
            g.states@.len() as int, g.max_distance as int)
    &&& forall|s: int|
        0 <= s < g.states@.len() ==> #[trigger] g.state_names@[s] == g.states@[s].name
}

/// What holds of one cell of the store throughout a run: the weight vector
/// spans the states and is normalized or all zero; the point is the cell's
/// own; the edge list is the lattice's; and a collapsed cell is one-hot at
/// its observed state with entropy zero.
pub open spec fn cell_invariant(dimensions: Size, state_count: int, cells: Cells, c: int)
    -> bool {
    &&& cells.weights@[c]@.len() == state_count
    &&& forall|i: int|
        0 <= i < cells.weights@[c]@.len() ==> 0 <= #[trigger] cells.weights@[c]@[i] <= SCALE
    &&& cells.entropies@[c] >= 0
    &&& cells.points@[c] == point_of(dimensions, c)
    &&& crate::graph::edge_view(cells.edges@[c]@) == crate::graph::edges_spec(
        dimensions,
        point_of(dimensions, c),
    )
    &&& match cells.observations@[c] {
        Some(s) => s < state_count && is_one_hot(cells.weights@[c]@, s as int)
            && cells.entropies@[c] == 0,
        None => true,
    }
}

/// The full invariant of a running generator: a well-formed configuration
/// and a fully built store whose every cell satisfies `cell_invariant`.
pub open spec fn well_formed(g: MapGenerator) -> bool {
    &&& config_well_formed(g)
    &&& g.cells.count == cell_total(g)
    &&& g.cells.points@.len() == g.cells.count
    &&& g.cells.edges@.len() == g.cells.count
    &&& g.cells.weights@.len() == g.cells.count
    &&& g.cells.entropies@.len() == g.cells.count
    &&& g.cells.observations@.len() == g.cells.count
    &&& forall|c: int|
        0 <= c < g.cells.count ==> cell_invariant(g.dimensions, g.states@.len() as int,
            g.cells, c)
}

/// A generator that has been configured but not yet run: the store is
/// still empty.
pub open spec fn ready(g: MapGenerator) -> bool {
    &&& config_well_formed(g)
    &&& g.cells.count == 0
    &&& g.cells.points@.len() == 0
    &&& g.cells.edges@.len() == 0
    &&& g.cells.weights@.len() == 0
    &&& g.cells.entropies@.len() == 0
    &&& g.cells.observations@.len() == 0
}

/// The width of the selection jitter: entropy keys of freshly built cells
/// get a random offset below this, about a thousandth of a bit on each
/// side of its midpoint, breaking ties between equal-entropy cells
/// deterministically per run but unbiased across runs.
pub const JITTER_RANGE: u64 = 132;

/// The entropy key of a cell whose weights have been driven to all zero:
/// it never compares as smallest, so such a cell is selected only once
/// nothing else is left, and then fails at `observe`.
pub const DEGENERATE_ENTROPY: i64 = i64::MAX;

/// Whether every state's raw initial weight at cell `c` is non-positive:
/// such a cell has no satisfiable initial distribution.
pub open spec fn unsatisfiable_cell(states: Seq<State>, c: int) -> bool {
    forall|s: int| 0 <= s < states.len() ==> #[trigger] states[s].initial@[c] <= 0
}

/// The raw initial weight vector of one cell: every state's initial table
/// entry there, in state order.
pub open spec fn initial_field(states: Seq<State>, c: int) -> Seq<i64> {
    Seq::new(states.len(), |s: int| states[s].initial@[c])
}

/// What `initialize` leaves in one cell on success: still uncollapsed, the
/// normalized initial field as its weights (so their sum lies within one
/// rounding unit per state of `SCALE`), and as its entropy key the entropy
/// of those weights plus a jitter below `JITTER_RANGE`.
pub open spec fn initialized_cell(states: Seq<State>, cells: Cells, c: int) -> bool {
    let raw = initial_field(states, c);
    &&& cells.observations@[c] is None
    &&& sum_clamped(raw) > 0
    &&& cells.weights@[c]@.len() == states.len()
    &&& forall|i: int|
        0 <= i < cells.weights@[c]@.len() ==> #[trigger] cells.weights@[c]@[i]
            == normalized_at(raw, i)
    &&& SCALE - states.len() < sum_clamped(cells.weights@[c]@) <= SCALE
    &&& 0 <= cells.entropies@[c] - entropy_spec(cells.weights@[c]@) < JITTER_RANGE
}

/// What one propagated signal leaves in the receiving cell: the weights
/// become the normalized element-wise product of the old weights and the
/// states' update weights for the signal — the multiplicative combine — and
/// the entropy key is recomputed from them.  When every product is
/// non-positive there is no distribution left: the weights are all zero
/// and the key is the never-smallest sentinel, the deferred contradiction.
pub open spec fn signal_applied(
    states: Seq<State>,
    max_distance: int,
    old_weights: Seq<i64>,
    source_state: int,
    direction: crate::space::Direction,
    distance: int,
    new_weights: Seq<i64>,
    new_entropy: int,
) -> bool {
    let slot = update_slot(source_state, direction, distance, max_distance);
    let products = Seq::new(
        old_weights.len(),
        |i: int| old_weights[i] * states[i].update@[slot],
    );
    let total = sum_clamped_int(products);
    &&& new_weights.len() == old_weights.len()
    &&& (total > 0 ==> {
        &&& forall|i: int|
            0 <= i < new_weights.len() ==> #[trigger] new_weights[i] == clamp0(products[i])
                * SCALE / total
        &&& new_entropy == entropy_spec(new_weights)
    })
    &&& (total <= 0 ==> {
        &&& forall|i: int| 0 <= i < new_weights.len() ==> #[trigger] new_weights[i] == 0
        &&& new_entropy == DEGENERATE_ENTROPY
    })
}

/// Every preset extent is a small non-degenerate lattice.
pub proof fn lemma_dimensions_bound(m: MapSize)
    ensures
        1 <= dimensions_spec(m).width <= 30,
        1 <= dimensions_spec(m).depth <= 30,
        1 <= dimensions_spec(m).height <= 30,
        dimensions_spec(m).width * dimensions_spec(m).depth <= 900,
        dimensions_spec(m).width * dimensions_spec(m).depth * dimensions_spec(m).height
            <= 27000,
        m is TestOne ==> dimensions_spec(m).width * dimensions_spec(m).depth
            * dimensions_spec(m).height == 1,
{
    let d = dimensions_spec(m);
    assert(1 <= d.width <= 30 && 1 <= d.depth <= 30 && 1 <= d.height <= 30) by {
        match m {
            MapSize::TestOne => {},
            MapSize::Small => {},
            MapSize::Medium => {},
            MapSize::Large => {},
        }
    }
    assert(d.width * d.depth <= 900 && d.width * d.depth * d.height <= 27000)
        by (nonlinear_arith)
        requires
            1 <= d.width <= 30,
            1 <= d.depth <= 30,
            1 <= d.height <= 30,
    ;
    if m is TestOne {
        assert(d.width * d.depth * d.height == 1) by (nonlinear_arith)
            requires
                d.width == 1,
                d.depth == 1,
                d.height == 1,
        ;
    }
}

/// The constant-weight state tables of the three test configurations.
pub open spec fn test_config_states(config: MapConfig, states: Seq<State>, cell_count: int)
    -> bool {
    match config {
        MapConfig::TestInitialWeightsError => {
            &&& states.len() == 1
            &&& states[0].name@ == "ground"@
            &&& forall|c: int| 0 <= c < cell_count ==> #[trigger] states[0].initial@[c] == 0
            &&& forall|i: int|
                0 <= i < states[0].update@.len() ==> #[trigger] states[0].update@[i] == 0
        },
        MapConfig::TestContradiction => {
            &&& states.len() == 1
            &&& states[0].name@ == "ground"@
            &&& forall|c: int|
                0 <= c < cell_count ==> #[trigger] states[0].initial@[c] == SCALE
            &&& forall|i: int|
                0 <= i < states[0].update@.len() ==> #[trigger] states[0].update@[i]
                    == -SCALE
        },
        MapConfig::Test100Ground => {
            &&& states.len() == 2
            &&& states[0].name@ == "ground"@
            &&& states[1].name@ == "sky"@
            &&& forall|c: int|
                0 <= c < cell_count ==> #[trigger] states[0].initial@[c] == SCALE
            &&& forall|c: int| 0 <= c < cell_count ==> #[trigger] states[1].initial@[c] == 0
            &&& forall|i: int|
                0 <= i < states[0].update@.len() ==> #[trigger] states[0].update@[i] == SCALE
            &&& forall|i: int|
                0 <= i < states[1].update@.len() ==> #[trigger] states[1].update@[i] == SCALE
        },
        _ => false,
    }
}

/// The first wave of one collapse: every uncollapsed axis neighbor of the
/// collapsed cell receives the collapse's signal at distance one, labelled
/// with the direction of the edge that connects them.
pub open spec fn source_broadcast(
    dimensions: Size,
    states: Seq<State>,
    max_distance: int,
    pre_weights: Seq<Vec<i64>>,
    pre_observations: Seq<Option<usize>>,
    post_weights: Seq<Vec<i64>>,
    post_entropies: Seq<i64>,
    cell_id: int,
    source_state: int,
) -> bool {
    let es = crate::graph::edges_spec(dimensions, point_of(dimensions, cell_id));
    forall|k: int|
        0 <= k < es.len() && pre_observations[(#[trigger] es[k]).0] is None
            ==> signal_applied(states, max_distance, pre_weights[es[k].0]@, source_state,
                es[k].1, 1, post_weights[es[k].0]@, post_entropies[es[k].0] as int)
}

impl MapGenerator {
    /// A generator for one of the constant-weight test configurations, at
    /// the standard tile size and propagation bound.  The two shaped
    /// configurations need caller-built tables: for those this returns
    /// `None`, and `from_states` takes their tables instead.
    pub fn new(map_size: MapSize, map_config: MapConfig, seed: u64) -> (r: Option<
        MapGenerator,
    >)
        ensures
            (r is Some) <==> (map_config is TestInitialWeightsError
                || map_config is TestContradiction || map_config is Test100Ground),
            match r {
                Some(g) => {
                    &&& ready(g)
                    &&& g.dimensions == dimensions_spec(map_size)
                    &&& g.size == map_size
                    &&& g.config == map_config
                    &&& g.max_distance == 2
                    &&& g.tile_size == 3
                    &&& test_config_states(map_config, g.states@, cell_total(g))
                },
                None => true,
            },
    {
        let dimensions = map_size.dimensions();
        proof {
            lemma_dimensions_bound(map_size);
        }
        let cell_count = dimensions.width * dimensions.depth * dimensions.height;
        match map_config {
            MapConfig::TestInitialWeightsError => {
                let initial = crate::math::const_vec(cell_count, 0);
                let update = crate::math::const_vec(12, 0);
                let states = vec![State::new("ground", initial, update)];
                proof {
                    assert(states@.len() * 6 * (2int) == 12) by (nonlinear_arith)
                        requires
                            states@.len() == 1,
                    ;
                }
                Some(Self::from_states(map_size, map_config, states, 3, 2, seed))
            },
            MapConfig::TestContradiction => {
                let initial = crate::math::const_vec(cell_count, SCALE);
                let update = crate::math::const_vec(12, -SCALE);
                let states = vec![State::new("ground", initial, update)];
                proof {
                    assert(states@.len() * 6 * (2int) == 12) by (nonlinear_arith)
                        requires
                            states@.len() == 1,
                    ;
                }
                Some(Self::from_states(map_size, map_config, states, 3, 2, seed))
            },
            MapConfig::Test100Ground => {
                // The update weight of one is the multiplicative identity:
                // these states exert no influence on their neighbors.
                let ground_initial = crate::math::const_vec(cell_count, SCALE);
                let ground_update = crate::math::const_vec(24, SCALE);
                let sky_initial = crate::math::const_vec(cell_count, 0);
                let sky_update = crate::math::const_vec(24, SCALE);
                let states = vec![
                    State::new("ground", ground_initial, ground_update),
                    State::new("sky", sky_initial, sky_update),
                ];
                proof {
                    assert(states@.len() * 6 * (2int) == 24) by (nonlinear_arith)
                        requires
                            states@.len() == 2,
                    ;
                }
                Some(Self::from_states(map_size, map_config, states, 3, 2, seed))
            },
            MapConfig::TestEdge => None,
            MapConfig::Simple => None,
        }
    }

    /// A generator over an explicit ordered state list.  The caller supplies
    /// the per-state weight tables, the propagation bound and the seed of
    /// the run's random source.
    pub fn from_states(
        map_size: MapSize,
        map_config: MapConfig,
        states: Vec<State>,
        tile_size: usize,
        max_distance: usize,
        seed: u64,
    ) -> (g: MapGenerator)
        requires
            1 <= states@.len() <= MAX_STATES,
            1 <= max_distance <= MAX_DISTANCE_BOUND,
            forall|s: int|
                0 <= s < states@.len() ==> state_well_formed(#[trigger] states@[s],
                    dimensions_spec(map_size).width * dimensions_spec(map_size).depth
                        * dimensions_spec(map_size).height, states@.len() as int,
                    max_distance as int),
        ensures
            ready(g),
            g.dimensions == dimensions_spec(map_size),
            g.states == states,
            g.max_distance == max_distance,
            g.tile_size == tile_size,
            g.size == map_size,
            g.config == map_config,
    {
        let dimensions = map_size.dimensions();
        proof {
            lemma_dimensions_bound(map_size);
        }
        let n = states.len();
        let mut state_names: Vec<&'static str> = Vec::new();
        let mut s: usize = 0;
        while s < n
            invariant
                0 <= s <= n,
                n == states@.len(),
                state_names@.len() == s,
                forall|j: int| 0 <= j < s ==> #[trigger] state_names@[j] == states@[j].name,
            decreases n - s,
        {
            state_names.push(states[s].name);
            s = s + 1;
        }
        let cell_count = dimensions.width * dimensions.depth * dimensions.height;
        let cells = Cells::with_capacity(cell_count);
        let rng = crate::random::rng_from_seed(seed);
        MapGenerator {
            size: map_size,
            config: map_config,
            dimensions,
            state_names,
            states,
            tile_size: tile_size,
            max_distance: max_distance,
            cells,
            rng,
        }
    }

    /// Builds every cell: evaluates each state's initial weight, normalizes
    /// the vector and inspects it.  A cell with a proper distribution is
    /// stored uncollapsed, its entropy key jittered to break ties between
    /// equal-entropy cells.  A degenerate cell with a one-hot entry is
    /// collapsed at once — a branch the contract proves quiet, since a
    /// vector that fails to normalize is all zero — and a degenerate cell
    /// without one makes the whole run fail, exactly when some cell's raw
    /// initial weights are all non-positive.  On success every cell is
    /// still uncollapsed and carries the normalized initial field.
    fn initialize(&mut self) -> (r: Result<(), GenerationError>)
        requires
            ready(*old(self)),
        ensures
            final(self).dimensions == old(self).dimensions,
            final(self).states == old(self).states,
            final(self).state_names == old(self).state_names,
            final(self).max_distance == old(self).max_distance,
            final(self).tile_size == old(self).tile_size,
            final(self).size == old(self).size,
            final(self).config == old(self).config,
            r is Ok ==> well_formed(*final(self)),
            r is Ok ==> forall|c: int|
                0 <= c < cell_total(*old(self)) ==> #[trigger] initialized_cell(
                    final(self).states@,
                    final(self).cells,
                    c,
                ),
            (r is Ok) <==> !(exists|c: int|
                0 <= c < cell_total(*old(self)) && unsatisfiable_cell(old(self).states@, c)),
            r is Err ==> r == Err::<(), GenerationError>(GenerationError::InitialWeightsError),
    {
        let w = self.dimensions.width;
        let d = self.dimensions.depth;
        let h = self.dimensions.height;
        proof {
            assert(1 <= w * d && w * d <= w * d * h) by (nonlinear_arith)
                requires
                    1 <= w,
                    1 <= d,
                    1 <= h,
            ;
        }
        let wd = w * d;
        let count = w * d * h;
        let n = self.states.len();
        let mut id: usize = 0;
        while id < count
            invariant
                self.dimensions == old(self).dimensions,
                self.states == old(self).states,
                self.state_names == old(self).state_names,
                self.max_distance == old(self).max_distance,
                self.tile_size == old(self).tile_size,
                self.size == old(self).size,
                self.config == old(self).config,
                config_well_formed(*self),
                w == self.dimensions.width,
                d == self.dimensions.depth,
                h == self.dimensions.height,
                wd == w * d,
                1 <= w,
                1 <= d,
                count == cell_total(*self),
                n == self.states@.len(),
                0 <= id <= count,
                self.cells.count == id,
                self.cells.points@.len() == id,
                self.cells.edges@.len() == id,
                self.cells.weights@.len() == id,
                self.cells.entropies@.len() == id,
                self.cells.observations@.len() == id,
                forall|c: int|
                    0 <= c < id ==> cell_invariant(self.dimensions, n as int, self.cells,
                        c),
                forall|c: int|
                    0 <= c < id ==> #[trigger] initialized_cell(self.states@, self.cells,
                        c),
                forall|c: int| 0 <= c < id ==> !(#[trigger] unsatisfiable_cell(
                    self.states@,
                    c,
                )),
            decreases count - id,
        {
            let x = id % w;
            let y = (id / w) % d;
            let z = id / wd;
            let point = Point::new(x, y, z);
            proof {
                crate::space::lemma_cell_index_point_of(self.dimensions, id as int);
                assert(point == point_of(self.dimensions, id as int));
            }
            let edges = graph::edges(self.dimensions, point);
            let mut raw: Vec<i64> = Vec::new();
            let mut s: usize = 0;
            while s < n
                invariant
                    0 <= s <= n,
                    raw@.len() == s,
                    n == self.states@.len(),
                    config_well_formed(*self),
                    count == cell_total(*self),
                    id < count,
                    forall|j: int|
                        0 <= j < s ==> #[trigger] raw@[j]
                            == self.states@[j].initial@[id as int],
                decreases n - s,
            {
                let v = self.states[s].initial[id];
                raw.push(v);
                s = s + 1;
            }
            let ghost raw0 = raw@;
            let ok = crate::math::normalize(&mut raw);
            if ok {
                let ent = crate::math::entropy(&raw);
                let jitter = crate::random::rng_below(&mut self.rng, JITTER_RANGE) as i64;
                let ghost pre = *self;
                proof {
                    assert(raw0 =~= initial_field(self.states@, id as int));
                    crate::math::lemma_sum_clamped_pos_iff(raw0);
                }
                self.cells.add(point, edges, raw, ent + jitter, None);
                proof {
                    assert forall|c: int| 0 <= c < id + 1 implies cell_invariant(
                        self.dimensions,
                        n as int,
                        self.cells,
                        c,
                    ) && initialized_cell(self.states@, self.cells, c) by {
                        if c < id {
                            assert(cell_invariant(self.dimensions, n as int, pre.cells,
                                c));
                            assert(initialized_cell(self.states@, pre.cells, c));
                            assert(self.cells.weights@[c] == pre.cells.weights@[c]);
                            assert(self.cells.points@[c] == pre.cells.points@[c]);
                            assert(self.cells.edges@[c] == pre.cells.edges@[c]);
                            assert(self.cells.entropies@[c] == pre.cells.entropies@[c]);
                            assert(self.cells.observations@[c]
                                == pre.cells.observations@[c]);
                        } else {
                            assert(self.cells.weights@[c] == raw);
                            assert(self.cells.observations@[c] is None);
                            assert(self.cells.entropies@[c] == ent + jitter);
                        }
                    }
                }
            } else {
                match crate::math::find_full(&raw) {
                    Some(st) => {
                        let row = crate::math::one_hot_row(n, st);
                        let ghost pre = *self;
                        self.cells.add(point, edges, row, 0, Some(st));
                        proof {
                            assert(raw@[st as int] == SCALE);
                            assert(raw@[st as int] == 0);
                            assert(false);
                        }
                    },
                    None => {
                        proof {
                            assert forall|j: int|
                                0 <= j < n implies #[trigger] self.states@[j].initial@[
                                id as int] <= 0 by {
                                assert(raw0[j] == self.states@[j].initial@[id as int]);
                                assert(!(raw0[j] > 0));
                            }
                            assert(unsatisfiable_cell(self.states@, id as int));
                        }
                        return Err(GenerationError::InitialWeightsError);
                    },
                }
            }
            id = id + 1;
        }
        Ok(())
    }

    /// The uncollapsed cell with the smallest entropy key; among equals the
    /// earliest wins.  `None` exactly when every cell has collapsed — the
    /// main loop's termination signal.
    pub fn min_entropy_cell_id(&self) -> (r: Option<usize>)
        requires
            well_formed(*self),
        ensures
            (r is None) <==> (forall|c: int|
                0 <= c < self.cells.count ==> (#[trigger] self.cells.observations@[c])
                    is Some),
            match r {
                Some(i) => {
                    &&& i < self.cells.count
                    &&& self.cells.observations@[i as int] is None
                    &&& forall|c: int|
                        0 <= c < self.cells.count && (#[trigger] self.cells.observations@[c])
                            is None ==> self.cells.entropies@[i as int]
                            <= self.cells.entropies@[c]
                    &&& forall|c: int|
                        0 <= c < i && (#[trigger] self.cells.observations@[c]) is None
                            ==> self.cells.entropies@[c] > self.cells.entropies@[i as int]
                },
                None => true,
            },
    {
        let count = self.cells.count;
        let mut best: Option<usize> = None;
        let mut best_key: i64 = 0;
        let mut c: usize = 0;
        while c < count
            invariant
                count == self.cells.count,
                self.cells.observations@.len() == count,
                self.cells.entropies@.len() == count,
                0 <= c <= count,
                match best {
                    None => forall|j: int|
                        0 <= j < c ==> (#[trigger] self.cells.observations@[j]) is Some,
                    Some(b) => {
                        &&& b < c
                        &&& self.cells.observations@[b as int] is None
                        &&& best_key == self.cells.entropies@[b as int]
                        &&& forall|j: int|
                            0 <= j < c && (#[trigger] self.cells.observations@[j]) is None
                                ==> best_key <= self.cells.entropies@[j]
                        &&& forall|j: int|
                            0 <= j < b && (#[trigger] self.cells.observations@[j]) is None
                                ==> self.cells.entropies@[j] > best_key
                    },
                },
            decreases count - c,
        {
            if self.cells.observations[c].is_none() {
                let key = self.cells.entropies[c];
                let replace = match best {
                    None => true,
                    Some(_) => key < best_key,
                };
                if replace {
                    best = Some(c);
                    best_key = key;
                }
            }
            c = c + 1;
        }
        best
    }

    /// Collapses one cell: draws a state at random in proportion to the
    /// cell's current weights and pins the cell to it, one-hot with entropy
    /// zero.  A cell whose weights have been driven to all-zero cannot be
    /// drawn from: the run fails with `Contradiction`, exactly then, and
    /// nothing is changed.
    fn observe(&mut self, cell_id: usize) -> (r: Result<(), GenerationError>)
        requires
            well_formed(*old(self)),
            cell_id < old(self).cells.count,
            old(self).cells.observations@[cell_id as int] is None,
        ensures
            well_formed(*final(self)),
            final(self).dimensions == old(self).dimensions,
            final(self).states == old(self).states,
            final(self).state_names == old(self).state_names,
            final(self).max_distance == old(self).max_distance,
            final(self).tile_size == old(self).tile_size,
            final(self).size == old(self).size,
            final(self).config == old(self).config,
            final(self).cells.count == old(self).cells.count,
            final(self).cells.points == old(self).cells.points,
            final(self).cells.edges == old(self).cells.edges,
            (r is Err) <==> sum_clamped(old(self).cells.weights@[cell_id as int]@) == 0,
            r is Err ==> r == Err::<(), GenerationError>(GenerationError::Contradiction)
                && *final(self) == *old(self),
            r is Ok ==> final(self).cells.observations@[cell_id as int] is Some,
            r is Ok ==> forall|c: int|
                0 <= c < old(self).cells.count && c != cell_id
                    ==> (#[trigger] final(self).cells.observations@[c]) == old(self).cells.observations@[c] && final(self).cells.weights@[c] == old(self).cells.weights@[c] && final(self).cells.entropies@[c] == old(self).cells.entropies@[c],
            r is Ok ==> match final(self).cells.observations@[cell_id as int] {
                Some(s) => s < old(self).states@.len()
                    && old(self).cells.weights@[cell_id as int]@[s as int] > 0
                    && is_one_hot(final(self).cells.weights@[cell_id as int]@, s as int)
                    && final(self).cells.entropies@[cell_id as int] == 0,
                None => false,
            },
    {
        let n = self.states.len();
        let ghost row0 = self.cells.weights@[cell_id as int]@;
        let mut total: i64 = 0;
        let mut i: usize = 0;
        proof {
            assert(row0.subrange(0, 0) =~= Seq::<i64>::empty());
            assert(cell_invariant(self.dimensions, n as int, self.cells, cell_id as int));
        }
        while i < n
            invariant
                well_formed(*self),
                self == old(self),
                cell_id < self.cells.count,
                row0 == self.cells.weights@[cell_id as int]@,
                n == self.states@.len(),
                n == row0.len(),
                n <= MAX_STATES,
                forall|j: int| 0 <= j < n ==> 0 <= #[trigger] row0[j] <= SCALE,
                0 <= i <= n,
                total == sum_clamped(row0.subrange(0, i as int)),
                0 <= total <= i * SCALE,
            decreases n - i,
        {
            proof {
                assert(row0.subrange(0, i + 1).drop_last() =~= row0.subrange(0, i as int));
                assert(row0.subrange(0, i + 1).last() == row0[i as int]);
                assert(i * SCALE + SCALE == (i + 1) * SCALE) by (nonlinear_arith);
            }
            let w = self.cells.weights[cell_id][i];
            total = total + w;
            i = i + 1;
        }
        proof {
            assert(row0.subrange(0, n as int) =~= row0);
        }
        if total == 0 {
            return Err(GenerationError::Contradiction);
        }
        let draw = crate::random::rng_below(&mut self.rng, total as u64) as i64;
        let s = crate::math::pick_index(&self.cells.weights[cell_id], draw);
        let new_row = crate::math::one_hot_row(n, s);
        let ghost pre = *self;
        self.cells.weights.set(cell_id, new_row);
        self.cells.entropies.set(cell_id, 0);
        self.cells.observations.set(cell_id, Some(s));
        proof {
            let dims = self.dimensions;
            assert forall|c: int| 0 <= c < self.cells.count implies cell_invariant(
                dims,
                n as int,
                self.cells,
                c,
            ) by {
                assert(cell_invariant(dims, n as int, pre.cells, c));
                if c != cell_id {
                    assert(self.cells.weights@[c] == pre.cells.weights@[c]);
                    assert(self.cells.entropies@[c] == pre.cells.entropies@[c]);
                    assert(self.cells.observations@[c] == pre.cells.observations@[c]);
                }
            }
        }
        Ok(())
    }

    /// Applies one propagated signal to one uncollapsed neighbor: evaluates
    /// every state's update weight for the signal, combines it into the
    /// neighbor's weights by element-wise multiplication followed by
    /// normalization, and recomputes the entropy key.  A combination that
    /// leaves a proper distribution keeps the cell uncollapsed.  A
    /// degenerate one with a one-hot entry forces the cell to collapse at
    /// once, and the forced state is returned so that propagation can
    /// restart from it — though under the multiplicative rule a degenerate
    /// combination is all zero and never one-hot, so the contract proves
    /// that channel quiet.  A degenerate one without a one-hot entry is a
    /// latent contradiction: the cell keeps its all-zero weights and a
    /// never-smallest entropy key, and fails only if it is later selected.
    fn propagate_step(
        &mut self,
        neighbor: usize,
        source_state: usize,
        direction: crate::space::Direction,
        distance: usize,
    ) -> (forced: Option<usize>)
        requires
            well_formed(*old(self)),
            neighbor < old(self).cells.count,
            source_state < old(self).states@.len(),
            1 <= distance <= old(self).max_distance,
            old(self).cells.observations@[neighbor as int] is None,
        ensures
            well_formed(*final(self)),
            final(self).dimensions == old(self).dimensions,
            final(self).states == old(self).states,
            final(self).state_names == old(self).state_names,
            final(self).max_distance == old(self).max_distance,
            final(self).tile_size == old(self).tile_size,
            final(self).size == old(self).size,
            final(self).config == old(self).config,
            final(self).rng == old(self).rng,
            final(self).cells.count == old(self).cells.count,
            final(self).cells.points == old(self).cells.points,
            final(self).cells.edges == old(self).cells.edges,
            forall|c: int|
                0 <= c < old(self).cells.count && c != neighbor
                    ==> (#[trigger] final(self).cells.observations@[c]) == old(
                    self,
                ).cells.observations@[c],
            forall|c: int|
                0 <= c < old(self).cells.count && c != neighbor
                    ==> (#[trigger] final(self).cells.weights@[c]) == old(
                    self,
                ).cells.weights@[c],
            forall|c: int|
                0 <= c < old(self).cells.count && c != neighbor
                    ==> (#[trigger] final(self).cells.entropies@[c]) == old(
                    self,
                ).cells.entropies@[c],
            match forced {
                Some(stx) => stx < old(self).states@.len()
                    && final(self).cells.observations@[neighbor as int] == Some(stx),
                None => final(self).cells.observations@[neighbor as int] is None,
            },
            forced is None,
            signal_applied(old(self).states@, old(self).max_distance as int,
                old(self).cells.weights@[neighbor as int]@, source_state as int, direction,
                distance as int, final(self).cells.weights@[neighbor as int]@,
                final(self).cells.entropies@[neighbor as int] as int),
    {
        let n = self.states.len();
        let ghost slot = update_slot(source_state as int, direction, distance as int,
            self.max_distance as int);
        let signal = Signal::new(self.state_names[source_state], direction, distance);
        let mut update_vec: Vec<i64> = Vec::new();
        let mut t: usize = 0;
        while t < n
            invariant
                well_formed(*self),
                self == old(self),
                n == self.states@.len(),
                source_state < n,
                signal.direction == direction,
                signal.distance == distance,
                1 <= distance <= self.max_distance,
                slot == update_slot(source_state as int, direction, distance as int,
                    self.max_distance as int),
                0 <= t <= n,
                update_vec@.len() == t,
                forall|j: int|
                    0 <= j < t ==> -crate::math::MAX_UPDATE_WEIGHT <= #[trigger] update_vec@[j]
                        <= crate::math::MAX_UPDATE_WEIGHT,
                forall|j: int|
                    0 <= j < t ==> #[trigger] update_vec@[j] == self.states@[j].update@[slot],
            decreases n - t,
        {
            let w = self.states[t].update_weight(
                source_state,
                signal.direction,
                signal.distance,
                n,
                self.max_distance,
            );
            update_vec.push(w);
            t = t + 1;
        }
        let mut row = crate::math::copy_row(&self.cells.weights, neighbor);
        proof {
            assert(cell_invariant(self.dimensions, n as int, self.cells,
                neighbor as int));
        }
        let ghost old_row = row@;
        let ghost products = Seq::new(
            old_row.len(),
            |i: int| old_row[i] * self.states@[i].update@[slot],
        );
        crate::math::hadamard_product(&mut row, &update_vec);
        let ghost prod_row = row@;
        proof {
            assert forall|i: int| 0 <= i < prod_row.len() implies #[trigger] prod_row[i]
                as int == products[i] by {
                assert(update_vec@[i] == self.states@[i].update@[slot]);
            }
            crate::math::lemma_sum_clamped_int_matches(prod_row, products);
            crate::math::lemma_sum_clamped_pos_iff(prod_row);
            crate::math::lemma_sum_clamped_nonneg(prod_row);
        }
        let ok = crate::math::normalize(&mut row);
        let ghost pre = *self;
        if ok {
            let ent = crate::math::entropy(&row);
            self.cells.weights.set(neighbor, row);
            self.cells.entropies.set(neighbor, ent);
            proof {
                lemma_store_update_keeps_invariant(pre, *self, neighbor as int, n as int);
                assert(sum_clamped_int(products) > 0);
                assert forall|i: int|
                    0 <= i < self.cells.weights@[neighbor as int]@.len() implies #[trigger] self
                    .cells.weights@[neighbor as int]@[i] == clamp0(products[i]) * SCALE
                    / sum_clamped_int(products) by {
                    assert(self.cells.weights@[neighbor as int]@[i] == normalized_at(
                        prod_row,
                        i,
                    ));
                    assert(prod_row[i] as int == products[i]);
                }
            }
            None
        } else {
            match crate::math::find_full(&row) {
                Some(stx) => {
                    let forced_row = crate::math::one_hot_row(n, stx);
                    self.cells.weights.set(neighbor, forced_row);
                    self.cells.entropies.set(neighbor, 0);
                    self.cells.observations.set(neighbor, Some(stx));
                    proof {
                        assert(row@[stx as int] == SCALE);
                        assert(row@[stx as int] == 0);
                        assert(false);
                    }
                    Some(stx)
                },
                None => {
                    self.cells.weights.set(neighbor, row);
                    self.cells.entropies.set(neighbor, DEGENERATE_ENTROPY);
                    proof {
                        lemma_store_update_keeps_invariant(pre, *self, neighbor as int,
                            n as int);
                        assert(sum_clamped_int(products) == 0);
                    }
                    None
                },
            }
        }
    }

    /// Spreads the consequences of one collapse: a traversal from the
    /// just-collapsed cell, bounded by `max_distance` hops, touching each
    /// cell at most once per call.  Uncollapsed neighbors receive the
    /// collapse's signal; collapsed neighbors are never mutated, but the
    /// traversal may pass through them within the budget, carrying the
    /// originating state's identity onward.  A forced secondary collapse is
    /// pushed back at distance zero so its own broadcast restarts from it.
    /// Observations only ever accumulate: a collapsed cell stays as it was.
    #[verifier::rlimit(100)]
    fn propagate(&mut self, cell_id: usize)
        requires
            well_formed(*old(self)),
            cell_id < old(self).cells.count,
        ensures
            well_formed(*final(self)),
            final(self).dimensions == old(self).dimensions,
            final(self).states == old(self).states,
            final(self).state_names == old(self).state_names,
            final(self).max_distance == old(self).max_distance,
            final(self).tile_size == old(self).tile_size,
            final(self).size == old(self).size,
            final(self).config == old(self).config,
            final(self).rng == old(self).rng,
            final(self).cells.count == old(self).cells.count,
            final(self).cells.points == old(self).cells.points,
            final(self).cells.edges == old(self).cells.edges,
            old(self).cells.observations@[cell_id as int] is None ==> *final(self) == *old(self),
            forall|c: int|
                0 <= c < old(self).cells.count && (#[trigger] old(self).cells.observations@[c]) is Some ==> final(self).cells.observations@[c]
                    == old(self).cells.observations@[c] && final(self).cells.weights@[c]
                    == old(self).cells.weights@[c] && final(self).cells.entropies@[c]
                    == old(self).cells.entropies@[c],
            count_none(final(self).cells.observations@) <= count_none(
                old(self).cells.observations@,
            ),
            match old(self).cells.observations@[cell_id as int] {
                Some(src0) => (forall|c: int|
                    0 <= c < old(self).cells.count && ((#[trigger] final(self).cells.weights@[c]) != old(self).cells.weights@[c] || final(self).cells.entropies@[c] != old(self).cells.entropies@[c]) ==> old(self).cells.observations@[c] is None && l1_distance(
                        point_of(old(self).dimensions, c),
                        point_of(old(self).dimensions, cell_id as int),
                    ) <= old(self).max_distance && (exists|d: crate::space::Direction, h: int|
                        1 <= h <= old(self).max_distance && #[trigger] signal_applied(
                            old(self).states@,
                            old(self).max_distance as int,
                            old(self).cells.weights@[c]@,
                            src0 as int,
                            d,
                            h,
                            final(self).cells.weights@[c]@,
                            final(self).cells.entropies@[c] as int,
                        ))) && source_broadcast(
                    old(self).dimensions,
                    old(self).states@,
                    old(self).max_distance as int,
                    old(self).cells.weights@,
                    old(self).cells.observations@,
                    final(self).cells.weights@,
                    final(self).cells.entropies@,
                    cell_id as int,
                    src0 as int,
                ),
                None => true,
            },
    {
        let count = self.cells.count;
        let n = self.states.len();
        let source0 = match self.cells.observations[cell_id] {
            Some(s) => s,
            None => {
                return ;
            },
        };
        proof {
            assert(cell_invariant(self.dimensions, n as int, self.cells, cell_id as int));
        }
        let mut visited = crate::cells::unvisited(count);
        visited.set(cell_id, true);
        let mut stack: Vec<(Node, usize)> = Vec::new();
        stack.push((Node::new(cell_id, self.state_names[source0], 0), source0));
        let ghost mut applied_dir: Seq<crate::space::Direction> = Seq::new(
            count as nat,
            |i: int| crate::space::Direction::Left,
        );
        let ghost mut applied_dist: Seq<int> = Seq::new(count as nat, |i: int| 1int);
        let ghost mut source_done: bool = false;
        let ghost p0 = point_of(self.dimensions, cell_id as int);
        let ghost es = crate::graph::edges_spec(self.dimensions, p0);
        while stack.len() > 0
            invariant
                well_formed(*self),
                self.dimensions == old(self).dimensions,
                self.states == old(self).states,
                self.state_names == old(self).state_names,
                self.max_distance == old(self).max_distance,
                self.tile_size == old(self).tile_size,
                self.size == old(self).size,
                self.config == old(self).config,
                self.rng == old(self).rng,
                count == self.cells.count,
                n == self.states@.len(),
                cell_id < count,
                source0 < n,
                self.cells.points == old(self).cells.points,
                self.cells.edges == old(self).cells.edges,
                self.cells.observations@ == old(self).cells.observations@,
                visited@.len() == count,
                applied_dir.len() == count,
                applied_dist.len() == count,
                forall|k: int|
                    0 <= k < stack@.len() ==> (#[trigger] stack@[k]).0.current_cell_id
                        < count && stack@[k].1 == source0 && stack@[k].0.current_distance
                        < self.max_distance && l1_distance(
                        point_of(self.dimensions, stack@[k].0.current_cell_id as int),
                        point_of(self.dimensions, cell_id as int),
                    ) <= stack@[k].0.current_distance,
                forall|c: int|
                    0 <= c < count && !(#[trigger] visited@[c]) ==> self.cells.weights@[c]
                        == old(self).cells.weights@[c] && self.cells.entropies@[c] == old(self).cells.entropies@[c],
                forall|c: int|
                    0 <= c < count && (#[trigger] old(self).cells.observations@[c]) is Some
                        ==> self.cells.weights@[c] == old(self).cells.weights@[c]
                        && self.cells.entropies@[c] == old(self).cells.entropies@[c],
                forall|c: int|
                    0 <= c < count && ((#[trigger] self.cells.weights@[c]) != old(self).cells.weights@[c] || self.cells.entropies@[c] != old(self).cells.entropies@[c]) ==> old(self).cells.observations@[c] is None
                        && 1 <= applied_dist[c] <= self.max_distance && l1_distance(
                        point_of(self.dimensions, c),
                        point_of(self.dimensions, cell_id as int),
                    ) <= self.max_distance && signal_applied(
                        old(self).states@,
                        self.max_distance as int,
                        old(self).cells.weights@[c]@,
                        source0 as int,
                        applied_dir[c],
                        applied_dist[c],
                        self.cells.weights@[c]@,
                        self.cells.entropies@[c] as int,
                    ),
                p0 == point_of(self.dimensions, cell_id as int),
                es == crate::graph::edges_spec(self.dimensions, p0),
                !source_done ==> stack@.len() == 1 && stack@[0].0.current_cell_id == cell_id
                    && stack@[0].0.current_distance == 0,
                !source_done ==> forall|c: int|
                    0 <= c < count && c != cell_id ==> !(#[trigger] visited@[c]),
                source_done ==> forall|k: int|
                    0 <= k < es.len() ==> visited@[(#[trigger] es[k]).0],
                source_done ==> source_broadcast(
                    self.dimensions,
                    old(self).states@,
                    self.max_distance as int,
                    old(self).cells.weights@,
                    old(self).cells.observations@,
                    self.cells.weights@,
                    self.cells.entropies@,
                    cell_id as int,
                    source0 as int,
                ),
            decreases stack@.len() + crate::cells::count_false(visited@),
        {
            let item = stack.pop().unwrap();
            let node = item.0;
            let src = item.1;
            let current = node.current_cell_id;
            let current_distance = node.current_distance;
            let ghost m0 = stack@.len() + crate::cells::count_false(visited@);
            let edge_count = self.cells.edges[current].len();
            proof {
                crate::space::lemma_cell_index_point_of(self.dimensions, cell_id as int);
                crate::graph::lemma_edges_spec_cardinality(self.dimensions, p0);
                if !source_done {
                    assert(current == cell_id && current_distance == 0);
                    assert(cell_invariant(self.dimensions, n as int, self.cells,
                        cell_id as int));
                    assert(crate::graph::edge_view(self.cells.edges@[cell_id as int]@)
                        == es);
                }
            }
            let mut j: usize = 0;
            while j < edge_count
                invariant
                    well_formed(*self),
                    self.dimensions == old(self).dimensions,
                    self.states == old(self).states,
                    self.state_names == old(self).state_names,
                    self.max_distance == old(self).max_distance,
                    self.tile_size == old(self).tile_size,
                    self.size == old(self).size,
                    self.config == old(self).config,
                    self.rng == old(self).rng,
                    count == self.cells.count,
                    n == self.states@.len(),
                    cell_id < count,
                    source0 < n,
                    self.cells.points == old(self).cells.points,
                    self.cells.edges == old(self).cells.edges,
                    self.cells.observations@ == old(self).cells.observations@,
                    visited@.len() == count,
                    applied_dir.len() == count,
                    applied_dist.len() == count,
                    current < count,
                    src == source0,
                    current_distance < self.max_distance,
                    l1_distance(
                        point_of(self.dimensions, current as int),
                        point_of(self.dimensions, cell_id as int),
                    ) <= current_distance,
                    edge_count == self.cells.edges@[current as int]@.len(),
                    0 <= j <= edge_count,
                    stack@.len() + crate::cells::count_false(visited@) <= m0,
                    forall|k: int|
                        0 <= k < stack@.len() ==> (#[trigger] stack@[k]).0.current_cell_id
                            < count && stack@[k].1 == source0
                            && stack@[k].0.current_distance < self.max_distance
                            && l1_distance(
                            point_of(self.dimensions, stack@[k].0.current_cell_id as int),
                            point_of(self.dimensions, cell_id as int),
                        ) <= stack@[k].0.current_distance,
                    forall|c: int|
                        0 <= c < count && !(#[trigger] visited@[c])
                            ==> self.cells.weights@[c] == old(self).cells.weights@[c]
                            && self.cells.entropies@[c] == old(self).cells.entropies@[c],
                    forall|c: int|
                        0 <= c < count && (#[trigger] old(self).cells.observations@[c])
                            is Some ==> self.cells.weights@[c] == old(self).cells.weights@[c] && self.cells.entropies@[c] == old(self).cells.entropies@[c],
                    forall|c: int|
                        0 <= c < count && ((#[trigger] self.cells.weights@[c]) != old(self).cells.weights@[c] || self.cells.entropies@[c] != old(self).cells.entropies@[c]) ==> old(self).cells.observations@[c]
                            is None && 1 <= applied_dist[c] <= self.max_distance
                            && l1_distance(
                            point_of(self.dimensions, c),
                            point_of(self.dimensions, cell_id as int),
                        ) <= self.max_distance && signal_applied(
                            old(self).states@,
                            self.max_distance as int,
                            old(self).cells.weights@[c]@,
                            source0 as int,
                            applied_dir[c],
                            applied_dist[c],
                            self.cells.weights@[c]@,
                            self.cells.entropies@[c] as int,
                        ),
                    p0 == point_of(self.dimensions, cell_id as int),
                    es == crate::graph::edges_spec(self.dimensions, p0),
                    current != cell_id ==> source_done,
                    !source_done ==> current == cell_id && current_distance == 0,
                    !source_done ==> crate::graph::edge_view(
                        self.cells.edges@[cell_id as int]@,
                    ) == es && edge_count == es.len(),
                    !source_done ==> forall|c: int|
                        0 <= c < count && (#[trigger] visited@[c]) ==> c == cell_id || (
                        exists|k: int| 0 <= k < j && (#[trigger] es[k]).0 == c),
                    !source_done ==> forall|k: int|
                        0 <= k < j ==> visited@[(#[trigger] es[k]).0],
                    !source_done ==> forall|k: int|
                        0 <= k < j && old(self).cells.observations@[(#[trigger] es[k]).0]
                            is None ==> signal_applied(
                            old(self).states@,
                            self.max_distance as int,
                            old(self).cells.weights@[es[k].0]@,
                            source0 as int,
                            es[k].1,
                            1,
                            self.cells.weights@[es[k].0]@,
                            self.cells.entropies@[es[k].0] as int,
                        ),
                    source_done ==> forall|k: int|
                        0 <= k < es.len() ==> visited@[(#[trigger] es[k]).0],
                    source_done ==> source_broadcast(
                        self.dimensions,
                        old(self).states@,
                        self.max_distance as int,
                        old(self).cells.weights@,
                        old(self).cells.observations@,
                        self.cells.weights@,
                        self.cells.entropies@,
                        cell_id as int,
                        source0 as int,
                    ),
                decreases edge_count - j,
            {
                let e = self.cells.edges[current][j];
                let nb = e.cell_id;
                proof {
                    crate::space::lemma_cell_index_point_of(self.dimensions, cell_id as int);
                    crate::graph::lemma_edges_spec_cardinality(self.dimensions, p0);
                    crate::space::lemma_cell_index_point_of(self.dimensions, current as int);
                    crate::graph::lemma_edges_spec_cardinality(
                        self.dimensions,
                        point_of(self.dimensions, current as int),
                    );
                    assert(cell_invariant(self.dimensions, n as int, self.cells,
                        current as int));
                    assert(crate::graph::edge_view(self.cells.edges@[current as int]@)[
                        j as int] == (e.cell_id as int, e.direction));
                    assert(nb < count);
                    crate::graph::lemma_edges_spec_neighbor(
                        self.dimensions,
                        point_of(self.dimensions, current as int),
                        j as int,
                    );
                    crate::space::lemma_l1_triangle(
                        point_of(self.dimensions, nb as int),
                        point_of(self.dimensions, current as int),
                        point_of(self.dimensions, cell_id as int),
                    );
                    assert(l1_distance(
                        point_of(self.dimensions, nb as int),
                        point_of(self.dimensions, cell_id as int),
                    ) <= current_distance + 1);
                }
                if !visited[nb] {
                    proof {
                        assert(self.cells.weights@[nb as int] == old(self).cells.weights@[nb as int] && self.cells.entropies@[nb as int]
                            == old(self).cells.entropies@[nb as int]);
                    }
                    let ghost vpre = visited@;
                    visited.set(nb, true);
                    proof {
                        crate::cells::lemma_count_false_set_true(vpre, nb as int);
                        assert forall|c: int|
                            0 <= c < count && !(#[trigger] visited@[c]) implies self
                            .cells.weights@[c] == old(self).cells.weights@[c]
                            && self.cells.entropies@[c] == old(
                            self,
                        ).cells.entropies@[c] by {
                            assert(!vpre[c]);
                        }
                        if !source_done {
                            assert(es[j as int].0 == nb as int && es[j as int].1
                                == e.direction);
                            assert forall|c: int|
                                0 <= c < count && (#[trigger] visited@[c]) implies c
                                == cell_id || (exists|k: int|
                                0 <= k < j + 1 && (#[trigger] es[k]).0 == c) by {
                                if c == nb as int {
                                    assert(0 <= j < j + 1 && (es[j as int]).0 == c);
                                } else {
                                    assert(vpre[c]);
                                    if c != cell_id {
                                        let kw = choose|k: int|
                                            0 <= k < j && (#[trigger] es[k]).0 == c;
                                        assert(0 <= kw < j + 1 && (es[kw]).0 == c);
                                    }
                                }
                            }
                            assert forall|k: int| 0 <= k < j + 1 implies visited@[(
                            #[trigger] es[k]).0] by {
                                if k < j {
                                    assert(vpre[es[k].0]);
                                } else {
                                    assert(es[j as int].0 == nb as int);
                                }
                            }
                        }
                    }
                    let distance = current_distance + 1;
                    if self.cells.observations[nb].is_none() {
                        let ghost pre_step = *self;
                        let forced = self.propagate_step(nb, src, e.direction, distance);
                        proof {
                            applied_dir = applied_dir.update(nb as int, e.direction);
                            applied_dist = applied_dist.update(nb as int, distance as int);
                            assert(self.cells.observations@ =~= old(self).cells.observations@);
                            assert(signal_applied(
                                old(self).states@,
                                self.max_distance as int,
                                old(self).cells.weights@[nb as int]@,
                                source0 as int,
                                applied_dir[nb as int],
                                applied_dist[nb as int],
                                self.cells.weights@[nb as int]@,
                                self.cells.entropies@[nb as int] as int,
                            ));
                            assert forall|c: int|
                                0 <= c < count && ((#[trigger] self.cells.weights@[c])
                                    != old(self).cells.weights@[c]
                                    || self.cells.entropies@[c] != old(self).cells.entropies@[c]) implies old(self).cells.observations@[c] is None && 1 <= applied_dist[c]
                                <= self.max_distance && l1_distance(
                                point_of(self.dimensions, c),
                                point_of(self.dimensions, cell_id as int),
                            ) <= self.max_distance && signal_applied(
                                old(self).states@,
                                self.max_distance as int,
                                old(self).cells.weights@[c]@,
                                source0 as int,
                                applied_dir[c],
                                applied_dist[c],
                                self.cells.weights@[c]@,
                                self.cells.entropies@[c] as int,
                            ) by {
                                if c != nb as int {
                                    assert(self.cells.weights@[c]
                                        == pre_step.cells.weights@[c]);
                                    assert(self.cells.entropies@[c]
                                        == pre_step.cells.entropies@[c]);
                                }
                            }
                            if !source_done {
                                assert forall|k: int|
                                    0 <= k < j + 1 && old(self).cells.observations@[(
                                    #[trigger] es[k]).0] is None implies signal_applied(
                                    old(self).states@,
                                    self.max_distance as int,
                                    old(self).cells.weights@[es[k].0]@,
                                    source0 as int,
                                    es[k].1,
                                    1,
                                    self.cells.weights@[es[k].0]@,
                                    self.cells.entropies@[es[k].0] as int,
                                ) by {
                                    if k < j {
                                        assert(vpre[es[k].0]);
                                        assert(es[k].0 != nb as int);
                                        assert(self.cells.weights@[es[k].0]
                                            == pre_step.cells.weights@[es[k].0]);
                                        assert(self.cells.entropies@[es[k].0]
                                            == pre_step.cells.entropies@[es[k].0]);
                                    } else {
                                        assert(es[j as int].0 == nb as int
                                            && es[j as int].1 == e.direction);
                                        assert(distance == 1);
                                    }
                                }
                            } else {
                                assert forall|k: int| 0 <= k < es.len() implies visited@[(
                                #[trigger] es[k]).0] && (es[k]).0 != nb as int by {
                                    assert(vpre[(es[k]).0]);
                                }
                                assert forall|k: int|
                                    0 <= k < es.len() && old(self).cells.observations@[(
                                    #[trigger] es[k]).0] is None implies signal_applied(
                                    old(self).states@,
                                    self.max_distance as int,
                                    old(self).cells.weights@[es[k].0]@,
                                    source0 as int,
                                    es[k].1,
                                    1,
                                    self.cells.weights@[es[k].0]@,
                                    self.cells.entropies@[es[k].0] as int,
                                ) by {
                                    assert((es[k]).0 != nb as int);
                                    assert(self.cells.weights@[es[k].0]
                                        == pre_step.cells.weights@[es[k].0]);
                                    assert(self.cells.entropies@[es[k].0]
                                        == pre_step.cells.entropies@[es[k].0]);
                                }
                            }
                        }
                        match forced {
                            Some(stx) => {
                                stack.push((Node::new(nb, self.state_names[stx], 0), stx));
                            },
                            None => {
                                if distance < self.max_distance {
                                    stack.push(
                                        (Node::new(nb, self.state_names[src], distance), src),
                                    );
                                }
                            },
                        }
                    } else {
                        if distance < self.max_distance {
                            stack.push(
                                (Node::new(nb, self.state_names[src], distance), src),
                            );
                        }
                    }
                } else {
                    proof {
                        if !source_done {
                            assert(es[j as int].0 == nb as int);
                            assert(l1_distance(point_of(self.dimensions, nb as int), p0)
                                == 1);
                            if nb == cell_id {
                                assert(l1_distance(p0, p0) == 0);
                                assert(false);
                            }
                            let kw = choose|k: int|
                                0 <= k < j && (#[trigger] es[k]).0 == nb as int;
                            crate::graph::lemma_edges_spec_distinct(self.dimensions, p0,
                                kw, j as int);
                            assert(false);
                        }
                    }
                }
                j = j + 1;
            }
            proof {
                crate::cells::lemma_count_false_nonneg(visited@);
                if !source_done {
                    source_done = true;
                    assert(current == cell_id);
                    assert(source_broadcast(
                        self.dimensions,
                        old(self).states@,
                        self.max_distance as int,
                        old(self).cells.weights@,
                        old(self).cells.observations@,
                        self.cells.weights@,
                        self.cells.entropies@,
                        cell_id as int,
                        source0 as int,
                    )) by {
                        assert forall|k: int|
                            0 <= k < es.len() && old(self).cells.observations@[(
                            #[trigger] es[k]).0] is None implies signal_applied(
                            old(self).states@,
                            self.max_distance as int,
                            old(self).cells.weights@[es[k].0]@,
                            source0 as int,
                            es[k].1,
                            1,
                            self.cells.weights@[es[k].0]@,
                            self.cells.entropies@[es[k].0] as int,
                        ) by {
                            assert(k < edge_count);
                        }
                    }
                }
            }
        }
        proof {
            assert(source_done);
            crate::cells::lemma_count_none_monotone(
                old(self).cells.observations@,
                self.cells.observations@,
            );
            assert forall|c: int|
                0 <= c < count && ((#[trigger] self.cells.weights@[c]) != old(self).cells.weights@[c] || self.cells.entropies@[c] != old(self).cells.entropies@[c]) implies (exists|d: crate::space::Direction, h: int|
                1 <= h <= self.max_distance && #[trigger] signal_applied(
                    old(self).states@,
                    self.max_distance as int,
                    old(self).cells.weights@[c]@,
                    source0 as int,
                    d,
                    h,
                    self.cells.weights@[c]@,
                    self.cells.entropies@[c] as int,
                )) by {
                assert(1 <= applied_dist[c] <= self.max_distance && signal_applied(
                    old(self).states@,
                    self.max_distance as int,
                    old(self).cells.weights@[c]@,
                    source0 as int,
                    applied_dir[c],
                    applied_dist[c],
                    self.cells.weights@[c]@,
                    self.cells.entropies@[c] as int,
                ));
            }
        }
    }

    /// Runs a whole generation: builds the store, then repeatedly picks the
    /// uncollapsed cell of least entropy, collapses it and propagates, until
    /// every cell has collapsed.  On success every cell carries an
    /// observation and a one-hot weight vector.  The run fails with
    /// `InitialWeightsError` exactly when some cell's initial field is
    /// unsatisfiable, and with `Contradiction` only after a selected cell's
    /// weights had been driven to all zero; either failure aborts the run
    /// with no partial result.
    pub fn wave_function_collapse(&mut self) -> (r: Result<(), GenerationError>)
        requires
            ready(*old(self)),
        ensures
            r is Ok ==> well_formed(*final(self)),
            r is Ok ==> final(self).cells.count == cell_total(*old(self)),
            r is Ok ==> forall|c: int|
                0 <= c < final(self).cells.count
                    ==> (#[trigger] final(self).cells.observations@[c]) is Some,
            r is Ok ==> forall|c: int|
                0 <= c < final(self).cells.count
                    ==> match #[trigger] final(self).cells.observations@[c] {
                        Some(s) => is_one_hot(final(self).cells.weights@[c]@, s as int),
                        None => false,
                    },
            (r == Err::<(), GenerationError>(GenerationError::InitialWeightsError)) <==> (
            exists|c: int|
                0 <= c < cell_total(*old(self)) && unsatisfiable_cell(old(self).states@, c)),
            r == Err::<(), GenerationError>(GenerationError::Contradiction) ==> cell_total(
                *old(self),
            ) > 1,
            final(self).dimensions == old(self).dimensions,
            final(self).states == old(self).states,
            final(self).state_names == old(self).state_names,
            final(self).max_distance == old(self).max_distance,
            final(self).tile_size == old(self).tile_size,
            final(self).size == old(self).size,
            final(self).config == old(self).config,
    {
        match self.initialize() {
            Err(e) => {
                return Err(e);
            },
            Ok(()) => {},
        }
        proof {
            assert forall|c: int|
                0 <= c < self.cells.count && (#[trigger] self.cells.observations@[c])
                    is None implies sum_clamped(self.cells.weights@[c]@) > 0 by {
                assert(initialized_cell(self.states@, self.cells, c));
            }
        }
        loop
            invariant
                well_formed(*self),
                self.dimensions == old(self).dimensions,
                self.states == old(self).states,
                self.state_names == old(self).state_names,
                self.max_distance == old(self).max_distance,
                self.tile_size == old(self).tile_size,
                self.size == old(self).size,
                self.config == old(self).config,
                !(exists|c: int|
                    0 <= c < cell_total(*old(self)) && unsatisfiable_cell(
                        old(self).states@,
                        c,
                    )),
                cell_total(*self) == 1 ==> forall|c: int|
                    0 <= c < self.cells.count && (#[trigger] self.cells.observations@[c])
                        is None ==> sum_clamped(self.cells.weights@[c]@) > 0,
            decreases count_none(self.cells.observations@),
        {
            match self.min_entropy_cell_id() {
                None => {
                    proof {
                        assert forall|c: int| 0 <= c < self.cells.count implies (
                        match #[trigger] self.cells.observations@[c] {
                            Some(s) => is_one_hot(self.cells.weights@[c]@, s as int),
                            None => false,
                        }) by {
                            assert(cell_invariant(self.dimensions, self.states@.len() as int,
                                self.cells, c));
                        }
                    }
                    return Ok(());
                },
                Some(id) => {
                    let ghost pre_obs = self.cells.observations@;
                    let ghost pre_run = *self;
                    match self.observe(id) {
                        Err(e) => {
                            proof {
                                assert(cell_total(*self) >= 1) by (nonlinear_arith)
                                    requires
                                        1 <= self.dimensions.width,
                                        1 <= self.dimensions.depth,
                                        1 <= self.dimensions.height,
                                        cell_total(*self) == self.dimensions.width
                                            * self.dimensions.depth * self.dimensions.height,
                                ;
                                assert(cell_total(*self) != 1);
                            }
                            return Err(e);
                        },
                        Ok(()) => {},
                    }
                    proof {
                        if cell_total(*self) == 1 {
                            assert forall|c: int|
                                0 <= c < self.cells.count && (#[trigger] self
                                    .cells.observations@[c]) is None implies sum_clamped(
                                self.cells.weights@[c]@,
                            ) > 0 by {
                                assert(c != id);
                                assert(self.cells.weights@[c] == pre_run.cells.weights@[c]);
                            }
                        }
                    }
                    proof {
                        match self.cells.observations@[id as int] {
                            Some(v) => {
                                assert(self.cells.observations@ =~= pre_obs.update(
                                    id as int,
                                    Some(v),
                                ));
                                crate::cells::lemma_count_none_set_some(pre_obs, id as int,
                                    v);
                            },
                            None => {
                                assert(false);
                            },
                        }
                    }
                    self.propagate(id);
                    proof {
                        crate::cells::lemma_count_none_nonneg(self.cells.observations@);
                    }
                },
            }
        }
    }

    /// The read view of every cell, in enumeration order: its point and,
    /// once collapsed, the name of its observed state.  Legal at any stage
    /// of a run: before initialization the store is empty and so is the
    /// view.
    pub fn cells(&self) -> (r: Vec<Cell>)
        requires
            self.cells.points@.len() == self.cells.count,
            self.cells.observations@.len() == self.cells.count,
            forall|c: int|
                0 <= c < self.cells.count ==> match #[trigger] self.cells.observations@[c] {
                    Some(s) => s < self.state_names@.len(),
                    None => true,
                },
        ensures
            r@.len() == self.cells.count,
            forall|c: int|
                0 <= c < r@.len() ==> (#[trigger] r@[c]).point == self.cells.points@[c],
            forall|c: int|
                0 <= c < r@.len() ==> match self.cells.observations@[c] {
                    Some(s) => (#[trigger] r@[c]).observation == Some(
                        self.state_names@[s as int],
                    ),
                    None => r@[c].observation is None,
                },
    {
        let count = self.cells.count;
        let mut r: Vec<Cell> = Vec::new();
        let mut id: usize = 0;
        while id < count
            invariant
                count == self.cells.count,
                self.cells.points@.len() == count,
                self.cells.observations@.len() == count,
                forall|c: int|
                    0 <= c < count ==> match #[trigger] self.cells.observations@[c] {
                        Some(s) => s < self.state_names@.len(),
                        None => true,
                    },
                0 <= id <= count,
                r@.len() == id,
                forall|c: int|
                    0 <= c < id ==> (#[trigger] r@[c]).point == self.cells.points@[c],
                forall|c: int|
                    0 <= c < id ==> match self.cells.observations@[c] {
                        Some(s) => (#[trigger] r@[c]).observation == Some(
                            self.state_names@[s as int],
                        ),
                        None => r@[c].observation is None,
                    },
            decreases count - id,
        {
            let observation = match self.cells.observations[id] {
                Some(s) => Some(self.state_names[s]),
                None => None,
            };
            r.push(Cell::new(self.cells.points[id], observation));
            id = id + 1;
        }
        r
    }

    /// The extent of the exported scene: the largest lattice dimension
    /// scaled by the tile size.
    pub fn mv_import_size(&self) -> (r: usize)
        requires
            self.dimensions.width * self.tile_size <= usize::MAX,
            self.dimensions.depth * self.tile_size <= usize::MAX,
            self.dimensions.height * self.tile_size <= usize::MAX,
        ensures
            r == max_dimension(self.dimensions) * self.tile_size,
    {
        let Size { width, depth, height } = self.dimensions;
        let max_dimension_size = if width >= depth && width >= height {
            width
        } else if depth >= height {
            depth
        } else {
            height
        };
        max_dimension_size * self.tile_size
    }
}

/// The largest of a lattice's three dimensions.
pub open spec fn max_dimension(s: Size) -> int {
    if s.width >= s.depth && s.width >= s.height {
        s.width as int
    } else if s.depth >= s.height {
        s.depth as int
    } else {
        s.height as int
    }
}

/// After one cell's weights and entropy key are replaced by a vector that
/// satisfies the cell's own invariant, every cell of the store still
/// satisfies its invariant.
proof fn lemma_store_update_keeps_invariant(
    pre: MapGenerator,
    cur: MapGenerator,
    target: int,
    state_count: int,
)
    requires
        0 <= target < pre.cells.count,
        pre.cells.weights@.len() == pre.cells.count,
        pre.cells.entropies@.len() == pre.cells.count,
        pre.cells.observations@.len() == pre.cells.count,
        state_count == pre.states@.len(),
        forall|c: int|
            0 <= c < pre.cells.count ==> cell_invariant(pre.dimensions, state_count,
                pre.cells, c),
        cur.dimensions == pre.dimensions,
        cur.cells.count == pre.cells.count,
        cur.cells.points == pre.cells.points,
        cur.cells.edges == pre.cells.edges,
        cur.cells.weights@ == pre.cells.weights@.update(target, cur.cells.weights@[target]),
        cur.cells.entropies@ == pre.cells.entropies@.update(
            target,
            cur.cells.entropies@[target],
        ),
        cur.cells.observations@ == pre.cells.observations@,
        cur.cells.weights@[target]@.len() == state_count,
        forall|i: int|
            0 <= i < cur.cells.weights@[target]@.len()
                ==> 0 <= #[trigger] cur.cells.weights@[target]@[i] <= SCALE,
        cur.cells.entropies@[target] >= 0,
        cur.cells.observations@[target] is None,
    ensures
        forall|c: int|
            0 <= c < cur.cells.count ==> cell_invariant(cur.dimensions, state_count,
                cur.cells, c),
{
    assert forall|c: int| 0 <= c < cur.cells.count implies cell_invariant(
        cur.dimensions,
        state_count,
        cur.cells,
        c,
    ) by {
        assert(cell_invariant(pre.dimensions, state_count, pre.cells, c));
        if c != target {
            assert(cur.cells.weights@[c] == pre.cells.weights@[c]);
            assert(cur.cells.entropies@[c] == pre.cells.entropies@[c]);
        }
    }
}

} // verus!

