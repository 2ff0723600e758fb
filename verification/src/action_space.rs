//! Discrete action spaces: actions are drawn at random from `1..=n`.
//!
//! The caller draws with a generator of its choice (for example
//! `rng.gen_range(1..n + 1)`, seeded for reproducible runs) and hands the draw
//! in; the space turns draws into actions.

use vstd::prelude::*;

verus! {

/// The action that a draw `v` from `1..=n` gives: `v` as an `i32` (which wraps
/// for draws beyond `i32::MAX`, as the cast does).
pub open spec fn action_of(v: usize) -> i32 {
    v as i32
}

/// Whether `action` is what some draw from `1..=n` gives.
pub open spec fn drawn_from(action: i32, n: usize) -> bool {
    exists|v: usize| 1 <= v <= n && #[trigger] action_of(v) == action
}

/// The action that the draw `v` gives.
pub fn action_from_draw(v: usize) -> (action: i32)
    requires
        1 <= v,
    ensures
        action == action_of(v),
        v <= i32::MAX ==> action == v,
{
    v as i32
}

/// One action among `n`: action 1 to action n.
pub struct CategoricalActionSpace {
    pub n: usize,
}

impl CategoricalActionSpace {
    /// The space of actions `1..=n`.
    pub fn new(n: usize) -> (space: Self)
        ensures
            space.n == n,
    {
        Self { n }
    }

    /// The action of the space that `draw`, a random draw from `1..=n`, gives.
    pub fn sample(&self, draw: usize) -> (action: i32)
        requires
            1 <= draw <= self.n,
        ensures
            action == action_of(draw),
            drawn_from(action, self.n),
            self.n <= i32::MAX ==> 1 <= action <= self.n,
    {
        action_from_draw(draw)
    }
}

/// One action for each of several dimensions: in dimension `i`, action 1 to
/// action `n[i]`.
pub struct MultiCategoricalActionSpace {
    pub n: Vec<usize>,
}

impl MultiCategoricalActionSpace {
    /// The space with `n[i]` actions in dimension `i`.
    pub fn new(n: Vec<usize>) -> (space: Self)
        ensures
            space.n == n,
    {
        Self { n }
    }

    /// The actions that `draws` give, one per dimension, in order: `draws[i]` is
    /// a random draw from `1..=n[i]`.
    pub fn sample(&self, draws: &Vec<usize>) -> (actions: Vec<i32>)
        requires
            draws.len() == self.n.len(),
            forall|i: int| 0 <= i < self.n.len() ==> 1 <= #[trigger] draws[i] <= self.n[i],
        ensures
            actions.len() == self.n.len(),
            forall|i: int| 0 <= i < self.n.len() ==> #[trigger] actions[i] == action_of(draws[i]),
            forall|i: int| 0 <= i < self.n.len() ==> drawn_from(#[trigger] actions[i], self.n[i]),
            forall|i: int|
                0 <= i < self.n.len() && self.n[i] <= i32::MAX ==> 1 <= #[trigger] actions[i]
                    <= self.n[i],
    {
        let mut actions: Vec<i32> = Vec::new();
        let mut i: usize = 0;
        while i < self.n.len()
            invariant
                i <= self.n.len(),
                draws.len() == self.n.len(),
                actions.len() == i,
                forall|j: int| 0 <= j < self.n.len() ==> 1 <= #[trigger] draws[j] <= self.n[j],
                forall|j: int| 0 <= j < i ==> #[trigger] actions[j] == action_of(draws[j]),
            decreases self.n.len() - i,
        {
            let a = action_from_draw(draws[i]);
            actions.push(a);
            i = i + 1;
        }
        assert forall|j: int| 0 <= j < self.n.len() implies drawn_from(#[trigger] actions[j], self.n[j]) by {
            assert(action_of(draws[j]) == actions[j]);
        }
        actions
    }
}

} // verus!
