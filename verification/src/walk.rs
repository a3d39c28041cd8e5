//! A small grid-walk environment for tabular learners.
//!
//! A walker moves on a rectangular grid; stepping off the grid leaves it in
//! place. Reaching one distinguished square pays a unit reward. The random
//! variant moves where asked only with a given probability, else to one of
//! the other three neighbors.

use vstd::prelude::*;
use rand::Rng;
use crate::fx::FX_ONE;
use crate::env::{Env, DeterministicEnv, RandomEnv};

verus! {

/// Largest grid coordinate magnitude the walks accept.
pub const GRID_MAX: i32 = 1000000;

/// A move on the grid.
#[derive(Clone, Copy, Debug, PartialEq, Eq, Structural, Hash)]
pub enum Move {
    Up,
    Down,
    Left,
    Right,
}

/// A grid square: a row and a column.
#[derive(Clone, Copy, Debug, PartialEq, Eq, Structural, Hash)]
pub struct Square(pub i32, pub i32);

/// The neighbor a move proposes, before any grid clamping.
pub open spec fn neighbor_of(s: Square, a: Move) -> Square {
    match a {
        Move::Up => Square((s.0 - 1) as i32, s.1),
        Move::Down => Square((s.0 + 1) as i32, s.1),
        Move::Left => Square(s.0, (s.1 - 1) as i32),
        Move::Right => Square(s.0, (s.1 + 1) as i32),
    }
}

/// Whether a square lies on the grid bounded by `lower_right`.
pub open spec fn on_grid(s: Square, lower_right: Square) -> bool {
    0 <= s.0 <= lower_right.0 && 0 <= s.1 <= lower_right.1
}

/// The deterministic grid walk.
pub struct Walk {
    pub lower_right: Square,
    pub start: Square,
}

/// Well-formedness: a grid of bounded positive extent with the start on it.
pub open spec fn walk_wf(w: Walk) -> bool {
    &&& 0 <= w.lower_right.0 <= GRID_MAX
    &&& 0 <= w.lower_right.1 <= GRID_MAX
    &&& on_grid(w.start, w.lower_right)
}

/// Where the deterministic walk goes: the proposed neighbor if it is on the
/// grid, else the walker stays in place.
pub open spec fn walk_next_of(w: Walk, s: Square, a: Move) -> Square {
    if on_grid(neighbor_of(s, a), w.lower_right) {
        neighbor_of(s, a)
    } else {
        s
    }
}

/// The reward a transition pays: one unit for reaching the goal square.
pub open spec fn walk_reward_of(next: Square) -> int {
    if next == Square(5, 0) {
        FX_ONE as int
    } else {
        0
    }
}

impl Walk {
    /// The next state of the deterministic walk, exactly `walk_next_of`;
    /// the walker never leaves the grid.
    pub fn walk_next(&self, state: &Square, action: &Move) -> (r: Square)
        requires
            walk_wf(*self),
            on_grid(*state, self.lower_right),
        ensures
            r == walk_next_of(*self, *state, *action),
            on_grid(r, self.lower_right),
    {
        let proposed: Square = match action {
            Move::Up => Square(state.0 - 1, state.1),
            Move::Down => Square(state.0 + 1, state.1),
            Move::Left => Square(state.0, state.1 - 1),
            Move::Right => Square(state.0, state.1 + 1),
        };
        if proposed.0 <= self.lower_right.0 && proposed.1 <= self.lower_right.1
            && proposed.0 >= 0 && proposed.1 >= 0 {
            proposed
        } else {
            *state
        }
    }

    /// The reward of a transition: exactly `walk_reward_of` the next state.
    pub fn walk_reward(&self, next_state: &Square) -> (r: i64)
        ensures
            r as int == walk_reward_of(*next_state),
    {
        if next_state.0 == 5 && next_state.1 == 0 {
            FX_ONE
        } else {
            0
        }
    }
}

impl Env<Square, Move> for Walk {
    fn possible_actions(&self, _state: &Square) -> Vec<Move> {
        let mut r: Vec<Move> = Vec::new();
        r.push(Move::Up);
        r.push(Move::Down);
        r.push(Move::Left);
        r.push(Move::Right);
        r
    }

    fn reward(&self, _state: &Square, _action: &Move, next_state: &Square) -> i64 {
        self.walk_reward(next_state)
    }

    fn initial_state(&self) -> Square {
        self.start
    }
}

impl DeterministicEnv<Square, Move> for Walk {
    fn next_state(&self, state: &Square, action: &Move) -> Square {
        if 0 <= self.lower_right.0 && self.lower_right.0 <= GRID_MAX
            && 0 <= self.lower_right.1 && self.lower_right.1 <= GRID_MAX
            && 0 <= state.0 && state.0 <= self.lower_right.0
            && 0 <= state.1 && state.1 <= self.lower_right.1
            && 0 <= self.start.0 && self.start.0 <= self.lower_right.0
            && 0 <= self.start.1 && self.start.1 <= self.lower_right.1 {
            self.walk_next(state, action)
        } else {
            *state
        }
    }
}

/// The random grid walk: the desired neighbor is reached with probability
/// `p`, each other neighbor with a third of the remainder.
pub struct RandomWalk {
    pub start: Square,
    pub p: i64,
}

/// Well-formedness: a probability between zero and one.
pub open spec fn random_walk_wf(w: RandomWalk) -> bool {
    0 <= w.p <= FX_ONE
}

/// The probability a transition entry carries: `p` for the desired
/// neighbor, a third of the remainder for each other.
pub open spec fn walk_prob_of(w: RandomWalk, desired: Move, a: Move) -> int {
    if a == desired {
        w.p as int
    } else {
        crate::fx::tdiv(FX_ONE as int - w.p, 3)
    }
}

impl RandomWalk {
    /// A random walk from the origin with the given success probability.
    pub fn new(success_probability: i64) -> (r: RandomWalk)
        requires
            0 <= success_probability <= FX_ONE,
        ensures
            random_walk_wf(r),
            r.start == Square(0, 0),
            r.p == success_probability,
    {
        RandomWalk { start: Square(0, 0), p: success_probability }
    }

    /// The four possible next states with their probabilities, in move order
    /// (up, down, left, right): the desired neighbor carries the success
    /// probability, each other neighbor a third of the remainder.
    pub fn transition_probs(&self, state: &Square, action: &Move) -> (r: Vec<(Square, i64)>)
        requires
            random_walk_wf(*self),
            -GRID_MAX < state.0 < GRID_MAX,
            -GRID_MAX < state.1 < GRID_MAX,
        ensures
            r@.len() == 4,
            r@[0].0 == neighbor_of(*state, Move::Up)
                && r@[0].1 as int == walk_prob_of(*self, *action, Move::Up),
            r@[1].0 == neighbor_of(*state, Move::Down)
                && r@[1].1 as int == walk_prob_of(*self, *action, Move::Down),
            r@[2].0 == neighbor_of(*state, Move::Left)
                && r@[2].1 as int == walk_prob_of(*self, *action, Move::Left),
            r@[3].0 == neighbor_of(*state, Move::Right)
                && r@[3].1 as int == walk_prob_of(*self, *action, Move::Right),
    {
        let q: i64 = ((FX_ONE - self.p) as u64 / 3u64) as i64;
        let pu: i64 = if matches!(action, Move::Up) { self.p } else { q };
        let pd: i64 = if matches!(action, Move::Down) { self.p } else { q };
        let pl: i64 = if matches!(action, Move::Left) { self.p } else { q };
        let pr: i64 = if matches!(action, Move::Right) { self.p } else { q };
        let mut r: Vec<(Square, i64)> = Vec::new();
        r.push((Square(state.0 - 1, state.1), pu));
        r.push((Square(state.0 + 1, state.1), pd));
        r.push((Square(state.0, state.1 - 1), pl));
        r.push((Square(state.0, state.1 + 1), pr));
        r
    }

    /// Pick the next state from a uniform draw below one, by walking the
    /// cumulative distribution of the four neighbors in move order; a draw
    /// beyond the accumulated mass (possible only through rounding) falls to
    /// the last neighbor.
    pub fn sample_with(&self, state: &Square, action: &Move, draw: i64) -> (r: Square)
        requires
            random_walk_wf(*self),
            -GRID_MAX <= state.0 <= GRID_MAX,
            -GRID_MAX <= state.1 <= GRID_MAX,
            0 <= draw < FX_ONE,
        ensures
            r == neighbor_of(*state, Move::Up) || r == neighbor_of(*state, Move::Down)
                || r == neighbor_of(*state, Move::Left)
                || r == neighbor_of(*state, Move::Right),
    {
        let q: i64 = ((FX_ONE - self.p) as u64 / 3u64) as i64;
        let p0: i64 = if matches!(action, Move::Up) { self.p } else { q };
        let p1: i64 = if matches!(action, Move::Down) { self.p } else { q };
        let p2: i64 = if matches!(action, Move::Left) { self.p } else { q };
        let c1: i64 = p0;
        let c2: i64 = c1 + p1;
        let c3: i64 = c2 + p2;
        if draw < c1 {
            Square(state.0 - 1, state.1)
        } else if draw < c2 {
            Square(state.0 + 1, state.1)
        } else if draw < c3 {
            Square(state.0, state.1 - 1)
        } else {
            Square(state.0, state.1 + 1)
        }
    }

    /// Sample the next state: draw once, then pick through the cumulative
    /// distribution. The result is always one of the four neighbors.
    pub fn sample_next_state(&self, state: &Square, action: &Move) -> (r: Square)
        requires
            random_walk_wf(*self),
            -GRID_MAX <= state.0 <= GRID_MAX,
            -GRID_MAX <= state.1 <= GRID_MAX,
        ensures
            r == neighbor_of(*state, Move::Up) || r == neighbor_of(*state, Move::Down)
                || r == neighbor_of(*state, Move::Left)
                || r == neighbor_of(*state, Move::Right),
    {
        let draw: i64 = random_unit();
        self.sample_with(state, action, draw)
    }
}

/// Relies on `rand::Rng::random_range`: a uniform draw from the given
/// half-open range, used as a fixed-point fraction of one.
#[verifier::external_body]
fn random_unit() -> (r: i64)
    ensures
        0 <= r < FX_ONE,
{
    rand::rng().random_range(0i64..4294967296i64)
}

impl Env<Square, Move> for RandomWalk {
    fn possible_actions(&self, _state: &Square) -> Vec<Move> {
        let mut r: Vec<Move> = Vec::new();
        r.push(Move::Up);
        r.push(Move::Down);
        r.push(Move::Left);
        r.push(Move::Right);
        r
    }

    fn reward(&self, _state: &Square, _action: &Move, next_state: &Square) -> i64 {
        if next_state.0 == 5 && next_state.1 == 0 {
            FX_ONE
        } else {
            0
        }
    }

    fn initial_state(&self) -> Square {
        self.start
    }
}

impl RandomEnv<Square, Move> for RandomWalk {
    fn transition(&self, state: &Square, action: &Move) -> Vec<(Square, i64)> {
        if state.0 > -GRID_MAX && state.0 < GRID_MAX && state.1 > -GRID_MAX
            && state.1 < GRID_MAX && 0 <= self.p && self.p <= FX_ONE {
            self.transition_probs(state, action)
        } else {
            Vec::new()
        }
    }
}

} // verus!
