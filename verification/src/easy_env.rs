//! Two small environments in which the agent must name the cell that mirrors a
//! randomly drawn state: reward 1 for the mirrored cell, less the farther away
//! the chosen action lies.

use crate::random::{gen_range, thread_rng};
use vstd::arithmetic::div_mod::{
    lemma_fundamental_div_mod, lemma_fundamental_div_mod_converse, lemma_mod_pos_bound,
};
use vstd::prelude::*;

verus! {

/// Absolute value of an integer.
pub open spec fn abs(x: int) -> int {
    if x < 0 {
        -x
    } else {
        x
    }
}

/// The cell that mirrors `state` on a line of `n` cells: `n - state - 1`.
pub open spec fn mirror(n: int, state: int) -> int {
    n - state - 1
}

/// Reward of `action` in a one-dimensional environment of `n` cells in `state`.
pub open spec fn line_reward(n: int, state: int, action: int) -> int {
    1 - abs(mirror(n, state) - action)
}

/// Reward of `action` in a two-dimensional `n` by `n` environment in state
/// `(s0, s1)`. The action names the cell `action % n` along the first axis and
/// `action / n` along the second.
pub open spec fn grid_reward(n: int, s0: int, s1: int, action: int) -> int {
    1 - abs(mirror(n, s0) - action % n) - abs(mirror(n, s1) - action / n)
}

/// Absolute value of an `i32` whose negation fits.
fn abs_i32(x: i32) -> (r: i32)
    requires
        x > i32::MIN,
    ensures
        r == abs(x as int),
{
    if x < 0 {
        -x
    } else {
        x
    }
}

/// One-dimensional environment: the state is a cell in `0..n`.
pub struct EasyEnv1 {
    n: usize,
    state: usize,
}

impl EasyEnv1 {
    #[verifier::type_invariant]
    spec fn inv(&self) -> bool {
        0 < self.n && self.state < self.n
    }

    /// Number of cells.
    pub closed spec fn size(&self) -> nat {
        self.n as nat
    }

    /// The current state.
    pub closed spec fn current(&self) -> nat {
        self.state as nat
    }

    /// A new environment of `n` cells in a randomly drawn state.
    pub fn new(n: usize) -> (env: Self)
        requires
            n > 0,
        ensures
            env.size() == n,
            env.current() < n,
    {
        let mut rng = thread_rng();
        let state = gen_range(&mut rng, 0, n);
        EasyEnv1 { n, state }
    }

    /// The current state.
    pub fn state(&self) -> (s: usize)
        ensures
            s == self.current(),
            s < self.size(),
    {
        proof {
            use_type_invariant(self);
        }
        self.state
    }

    /// Rewards `action` against the mirror of the current state, then moves to a
    /// freshly drawn state. The reward is an `i32`: cell numbers up to `2^31` keep
    /// it exact.
    pub fn step(&mut self, action: usize) -> (reward: i32)
        requires
            action < old(self).size(),
            old(self).size() <= 0x8000_0000,
        ensures
            reward == line_reward(old(self).size() as int, old(self).current() as int, action as int),
            final(self).size() == old(self).size(),
            final(self).current() < final(self).size(),
    {
        proof {
            use_type_invariant(&*self);
        }
        let goal = self.n - self.state - 1;
        let d = (goal as i32) - (action as i32);
        let reward = 1 - abs_i32(d);
        let mut rng = thread_rng();
        self.state = gen_range(&mut rng, 0, self.n);
        reward
    }
}

/// Two-dimensional environment: the state is a cell of an `n` by `n` grid, and an
/// action names one of the `n * n` cells.
pub struct EasyEnv2 {
    n: usize,
    nn: usize,
    state: (usize, usize),
}

/// Facts of division that locate an action on the grid.
proof fn lemma_grid_cell(action: int, n: int)
    requires
        0 < n,
        0 <= action < n * n,
    ensures
        0 <= action % n < n,
        0 <= action / n < n,
        action == (action / n) * n + action % n,
{
    lemma_fundamental_div_mod(action, n);
    lemma_mod_pos_bound(action, n);
    let q = action / n;
    let r = action % n;
    assert(q * n == n * q) by (nonlinear_arith);
    assert(0 <= q < n) by (nonlinear_arith)
        requires
            action == n * q + r,
            0 <= r < n,
            0 <= action < n * n,
            0 < n,
    ;
}

impl EasyEnv2 {
    #[verifier::type_invariant]
    spec fn inv(&self) -> bool {
        &&& 0 < self.n
        &&& self.nn == self.n * self.n
        &&& self.state.0 < self.n
        &&& self.state.1 < self.n
    }

    /// Number of cells along each axis.
    pub closed spec fn size(&self) -> nat {
        self.n as nat
    }

    /// The current state.
    pub closed spec fn current(&self) -> (nat, nat) {
        (self.state.0 as nat, self.state.1 as nat)
    }

    /// A new `n` by `n` environment in a randomly drawn state.
    pub fn new(n: usize) -> (env: Self)
        requires
            n > 0,
            n * n <= usize::MAX,
        ensures
            env.size() == n,
            env.current().0 < n,
            env.current().1 < n,
    {
        let mut rng = thread_rng();
        let s0 = gen_range(&mut rng, 0, n);
        let s1 = gen_range(&mut rng, 0, n);
        EasyEnv2 { n, nn: n * n, state: (s0, s1) }
    }

    /// The current state.
    pub fn state(&self) -> (s: (usize, usize))
        ensures
            s.0 == self.current().0,
            s.1 == self.current().1,
            s.0 < self.size(),
            s.1 < self.size(),
    {
        proof {
            use_type_invariant(self);
        }
        self.state
    }

    /// Rewards `action`, read as the cell `(action % n, action / n)`, against the
    /// mirror of the current state, then moves to a freshly drawn state. The
    /// reward is an `i32`: cell numbers up to `2^31` convert to it without loss,
    /// and the reward itself must not fall below `i32::MIN`.
    pub fn step(&mut self, action: usize) -> (reward: i32)
        requires
            action < old(self).size() * old(self).size(),
            old(self).size() <= 0x8000_0000,
            i32::MIN <= grid_reward(
                old(self).size() as int,
                old(self).current().0 as int,
                old(self).current().1 as int,
                action as int,
            ),
        ensures
            reward == grid_reward(
                old(self).size() as int,
                old(self).current().0 as int,
                old(self).current().1 as int,
                action as int,
            ),
            final(self).size() == old(self).size(),
            final(self).current().0 < final(self).size(),
            final(self).current().1 < final(self).size(),
    {
        proof {
            use_type_invariant(&*self);
            lemma_grid_cell(action as int, self.n as int);
        }
        let action_y = action / self.n;
        let action_x = action % self.n;
        let goal = (self.n - self.state.0 - 1, self.n - self.state.1 - 1);
        let dx = abs_i32((goal.0 as i32) - (action_x as i32));
        let dy = abs_i32((goal.1 as i32) - (action_y as i32));
        let reward = 1 - dx - dy;
        let mut rng = thread_rng();
        let s0 = gen_range(&mut rng, 0, self.n);
        let s1 = gen_range(&mut rng, 0, self.n);
        self.state = (s0, s1);
        reward
    }
}

/// In the one-dimensional environment no action earns more than 1, and an action
/// earns 1 exactly when it names the mirror of the state.
pub proof fn line_reward_peaks_at_mirror(n: int, state: int, action: int)
    requires
        0 <= state < n,
        0 <= action < n,
    ensures
        line_reward(n, state, action) <= 1,
        line_reward(n, state, action) == 1 <==> action == mirror(n, state),
{
}

/// In the two-dimensional environment no action earns more than 1, and an action
/// earns 1 exactly when it names the mirrored cell, whose number is
/// `mirror(s1) * n + mirror(s0)`.
pub proof fn grid_reward_peaks_at_mirror(n: int, s0: int, s1: int, action: int)
    requires
        0 <= s0 < n,
        0 <= s1 < n,
        0 <= action < n * n,
    ensures
        grid_reward(n, s0, s1, action) <= 1,
        grid_reward(n, s0, s1, action) == 1 <==> action == mirror(n, s1) * n + mirror(n, s0),
{
    lemma_grid_cell(action, n);
    let g0 = mirror(n, s0);
    let g1 = mirror(n, s1);
    if action == g1 * n + g0 {
        lemma_fundamental_div_mod_converse(action, n, g1, g0);
    }
}


/// In the one-dimensional environment the reward moves by exactly one per cell:
/// stepping the action one cell to the right gains 1 while the action lies left
/// of the mirrored cell `n - state - 1`, and loses 1 from there on. With the
/// reward of 1 at the mirrored cell, this fixes every reward: `1` minus the
/// distance to the mirrored cell, with no floor.
pub proof fn line_reward_moves_one_per_cell(n: int, state: int, action: int)
    requires
        0 <= state < n,
        0 <= action,
        action + 1 < n,
    ensures
        line_reward(n, state, action + 1) == line_reward(n, state, action) + (if action < n - state
            - 1 {
            1int
        } else {
            -1int
        }),
{
}

/// The reward at the two ends of the line: action 0 earns `1 - (n - state - 1)`
/// and action `n - 1` earns `1 - state`.
pub proof fn line_reward_at_the_ends(n: int, state: int)
    requires
        0 <= state < n,
    ensures
        line_reward(n, state, 0) == 2 + state - n,
        line_reward(n, state, n - 1) == 1 - state,
{
}

/// Facts of division for the cell to the right of an action and the cell below it.
proof fn lemma_grid_neighbours(action: int, n: int)
    requires
        0 < n,
        0 <= action < n * n,
    ensures
        action % n + 1 < n ==> (action + 1) % n == action % n + 1 && (action + 1) / n == action / n,
        (action + n) % n == action % n,
        (action + n) / n == action / n + 1,
{
    lemma_grid_cell(action, n);
    let q = action / n;
    let r = action % n;
    if r + 1 < n {
        lemma_fundamental_div_mod_converse(action + 1, n, q, r + 1);
    }
    assert((q + 1) * n == q * n + n) by (nonlinear_arith);
    lemma_fundamental_div_mod_converse(action + n, n, q + 1, r);
}

/// In the two-dimensional environment the reward moves by exactly one per cell
/// along each axis: moving the action one cell along the first axis (action + 1,
/// within a row) gains 1 while it lies before the mirror `n - s0 - 1` and loses 1
/// from there on; moving one cell along the second axis (action + n) does the
/// same against `n - s1 - 1`. With the reward of 1 at the mirrored cell, this
/// fixes every reward: `1` minus the Manhattan distance to the mirrored cell,
/// with no floor.
pub proof fn grid_reward_moves_one_per_cell(n: int, s0: int, s1: int, action: int)
    requires
        0 <= s0 < n,
        0 <= s1 < n,
        0 <= action < n * n,
    ensures
        action % n + 1 < n ==> grid_reward(n, s0, s1, action + 1) == grid_reward(n, s0, s1, action)
            + (if action % n < n - s0 - 1 {
            1int
        } else {
            -1int
        }),
        action + n < n * n ==> grid_reward(n, s0, s1, action + n) == grid_reward(
            n,
            s0,
            s1,
            action,
        ) + (if action / n < n - s1 - 1 {
            1int
        } else {
            -1int
        }),
{
    lemma_grid_neighbours(action, n);
}

/// The reward of the first cell, action 0 at `(0, 0)`: `1` minus the distances
/// `n - s0 - 1` and `n - s1 - 1` of the mirrored cell from it.
pub proof fn grid_reward_at_the_first_cell(n: int, s0: int, s1: int)
    requires
        0 <= s0 < n,
        0 <= s1 < n,
    ensures
        grid_reward(n, s0, s1, 0) == 1 - (n - s0 - 1) - (n - s1 - 1),
{
    assert(0int % n == 0 && 0int / n == 0) by (nonlinear_arith)
        requires
            0 < n,
    ;
}

/// A run of the one-dimensional environment: each environment after the first
/// is what a `step` left, so it keeps the size and has a state inside it, as
/// `step` ensures.
pub open spec fn line_run(run: Seq<EasyEnv1>) -> bool {
    forall|i: int|
        0 < i < run.len() ==> #[trigger] run[i].size() == run[i - 1].size() && run[i].current()
            < run[i].size()
}

/// Over any run that starts from `EasyEnv1::new(n)`, every environment has `n`
/// cells and a state among them.
pub proof fn line_run_stays_in_range(run: Seq<EasyEnv1>, n: nat)
    requires
        run.len() > 0,
        run[0].size() == n,
        run[0].current() < n,
        line_run(run),
    ensures
        forall|i: int| 0 <= i < run.len() ==> #[trigger] run[i].size() == n && run[i].current() < n,
    decreases run.len(),
{
    if run.len() > 1 {
        let shorter = run.drop_last();
        assert forall|i: int| 0 < i < shorter.len() implies #[trigger] shorter[i].size()
            == shorter[i - 1].size() && shorter[i].current() < shorter[i].size() by {
            assert(shorter[i] == run[i] && shorter[i - 1] == run[i - 1]);
        }
        line_run_stays_in_range(shorter, n);
        assert forall|i: int| 0 <= i < run.len() implies #[trigger] run[i].size() == n
            && run[i].current() < n by {
            if i < run.len() - 1 {
                assert(shorter[i] == run[i]);
            } else {
                assert(shorter[i - 1] == run[i - 1]);
            }
        }
    }
}

/// A run of the two-dimensional environment: each environment after the first
/// is what a `step` left, so it keeps the size and has a state inside the grid,
/// as `step` ensures.
pub open spec fn grid_run(run: Seq<EasyEnv2>) -> bool {
    forall|i: int|
        0 < i < run.len() ==> #[trigger] run[i].size() == run[i - 1].size() && run[i].current().0
            < run[i].size() && run[i].current().1 < run[i].size()
}

/// Over any run that starts from `EasyEnv2::new(n)`, every environment is `n`
/// cells wide and its state lies inside the grid.
pub proof fn grid_run_stays_in_range(run: Seq<EasyEnv2>, n: nat)
    requires
        run.len() > 0,
        run[0].size() == n,
        run[0].current().0 < n,
        run[0].current().1 < n,
        grid_run(run),
    ensures
        forall|i: int|
            0 <= i < run.len() ==> #[trigger] run[i].size() == n && run[i].current().0 < n
                && run[i].current().1 < n,
    decreases run.len(),
{
    if run.len() > 1 {
        let shorter = run.drop_last();
        assert forall|i: int| 0 < i < shorter.len() implies #[trigger] shorter[i].size()
            == shorter[i - 1].size() && shorter[i].current().0 < shorter[i].size()
            && shorter[i].current().1 < shorter[i].size() by {
            assert(shorter[i] == run[i] && shorter[i - 1] == run[i - 1]);
        }
        grid_run_stays_in_range(shorter, n);
        assert forall|i: int| 0 <= i < run.len() implies #[trigger] run[i].size() == n
            && run[i].current().0 < n && run[i].current().1 < n by {
            if i < run.len() - 1 {
                assert(shorter[i] == run[i]);
            } else {
                assert(shorter[i - 1] == run[i - 1]);
            }
        }
    }
}

} // verus!
