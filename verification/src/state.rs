//! States and propagation signals.
//!
//! A state is a named column of the probability field: a raw initial weight
//! for every cell of the lattice, and a raw update weight for every signal
//! that can reach it.  Both are supplied as precomputed tables over the
//! signal's finite domain (source state, direction, distance), so a caller
//! may fill them from any shaping functions it likes.

use vstd::prelude::*;
use crate::math::{MAX_UPDATE_WEIGHT, MAX_STATES};
use crate::space::Direction;

verus! {

/// The largest propagation bound the update-table indexing is sized for.
pub const MAX_DISTANCE_BOUND: usize = 4096;

/// One hop of propagated influence: which state collapsed, in which
/// direction the influence travelled (as seen from the receiving cell), and
/// how many hops it has covered.
#[derive(Clone, Copy)]
pub struct Signal {
    pub state_name: &'static str,
    pub direction: Direction,
    pub distance: usize,
}

impl Signal {
    pub fn new(state_name: &'static str, direction: Direction, distance: usize) -> (s: Signal)
        ensures
            s == (Signal { state_name, direction, distance }),
    {
        Signal { state_name, direction, distance }
    }
}

/// The rank of a direction in the fixed direction order used by update
/// tables.
pub open spec fn direction_rank(d: Direction) -> int {
    match d {
        Direction::Left => 0,
        Direction::Right => 1,
        Direction::Front => 2,
        Direction::Back => 3,
        Direction::Down => 4,
        Direction::Up => 5,
    }
}

/// Where the update weight for a signal lives in a state's flattened
/// update table.
pub open spec fn update_slot(source_state: int, d: Direction, distance: int, max_distance: int)
    -> int {
    (source_state * 6 + direction_rank(d)) * max_distance + (distance - 1)
}

/// One state of the wave: a name and its two weight tables.  `initial`
/// holds one raw weight per cell, in cell id order.  `update` holds one raw
/// weight per signal, flattened by `update_slot`: source state, then
/// direction, then distance (from 1 to the propagation bound).
pub struct State {
    pub name: &'static str,
    pub initial: Vec<i64>,
    pub update: Vec<i64>,
}

/// Whether a state's tables have the right extent and bounded entries for
/// a lattice of `cell_count` cells, `state_count` states and propagation
/// bound `max_distance`.
pub open spec fn state_well_formed(
    s: State,
    cell_count: int,
    state_count: int,
    max_distance: int,
) -> bool {
    &&& s.initial@.len() == cell_count
    &&& forall|i: int|
        0 <= i < s.initial@.len() ==> -MAX_UPDATE_WEIGHT <= #[trigger] s.initial@[i]
            <= MAX_UPDATE_WEIGHT
    &&& s.update@.len() == state_count * 6 * max_distance
    &&& forall|i: int|
        0 <= i < s.update@.len() ==> -MAX_UPDATE_WEIGHT <= #[trigger] s.update@[i]
            <= MAX_UPDATE_WEIGHT
}

impl State {
    pub fn new(name: &'static str, initial: Vec<i64>, update: Vec<i64>) -> (s: State)
        ensures
            s.name == name,
            s.initial == initial,
            s.update == update,
    {
        State { name, initial, update }
    }

    /// The raw update weight this state receives from a signal.
    pub fn update_weight(
        &self,
        source_state: usize,
        direction: Direction,
        distance: usize,
        state_count: usize,
        max_distance: usize,
    ) -> (w: i64)
        requires
            state_well_formed(*self, self.initial@.len() as int, state_count as int,
                max_distance as int),
            source_state < state_count,
            1 <= distance <= max_distance,
            state_count <= MAX_STATES,
            max_distance <= MAX_DISTANCE_BOUND,
        ensures
            w == self.update@[update_slot(source_state as int, direction, distance as int,
                max_distance as int)],
            -MAX_UPDATE_WEIGHT <= w <= MAX_UPDATE_WEIGHT,
    {
        let rank: usize = match direction {
            Direction::Left => 0,
            Direction::Right => 1,
            Direction::Front => 2,
            Direction::Back => 3,
            Direction::Down => 4,
            Direction::Up => 5,
        };
        proof {
            let ss = source_state as int;
            let sc = state_count as int;
            let md = max_distance as int;
            let rk = rank as int;
            assert((ss * 6 + rk) * md + (distance - 1) < sc * 6 * md && (ss * 6 + rk) * md
                >= 0) by (nonlinear_arith)
                requires
                    0 <= ss < sc,
                    0 <= rk < 6,
                    1 <= distance <= md,
            ;
            assert((ss * 6 + rk) * md + (distance - 1) <= 25190400) by (nonlinear_arith)
                requires
                    0 <= ss < sc,
                    sc <= 1024,
                    0 <= rk < 6,
                    1 <= distance <= md,
                    md <= 4096,
            ;
        }
        let slot = (source_state * 6 + rank) * max_distance + (distance - 1);
        self.update[slot]
    }
}

} // verus!
