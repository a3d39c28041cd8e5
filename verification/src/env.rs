//! Environment capabilities for tabular learners.
//!
//! An environment names its actions, pays rewards for transitions, and has
//! an initial state; deterministic environments compute the next state,
//! random ones enumerate the possible next states with their probabilities
//! (fixed-point fractions of one).

use vstd::prelude::*;

verus! {

/// One observed transition, as handed to a learner.
#[derive(Debug)]
pub struct Transition<S, A> {
    pub state: S,
    pub action: A,
    pub next_state: S,
}

/// An environment over states `S` and actions `A`.
pub trait Env<S, A> {
    /// The actions available in a state.
    fn possible_actions(&self, state: &S) -> Vec<A>;

    /// The reward paid for a transition.
    fn reward(&self, state: &S, action: &A, next_state: &S) -> i64;

    /// The state an episode starts from.
    fn initial_state(&self) -> S;
}

/// An environment whose transitions are deterministic.
pub trait DeterministicEnv<S, A>: Env<S, A> {
    /// The state an action leads to.
    fn next_state(&self, state: &S, action: &A) -> S;
}

/// An environment whose transitions are random.
pub trait RandomEnv<S, A>: Env<S, A> {
    /// The possible next states with their probabilities, as fixed-point
    /// fractions of one.
    fn transition(&self, state: &S, action: &A) -> Vec<(S, i64)>;
}

} // verus!
