//! The Q-learning agent: a value table plus learning rate, discount
//! factor, exploration rate and exploration decay, with one `query`
//! operation combining the Bellman backup and epsilon-greedy selection.

use vstd::prelude::*;

use crate::fixed::SCALE;
use crate::fixed::decayed;
use crate::fixed::div_scale;
use crate::fixed::lemma_decay_monotone;
use crate::fixed::lemma_mul_bound;
use crate::fixed::lemma_tdiv_scale_bound;
use crate::fixed::tdiv_scale;
use crate::rng::draw_i64;
use crate::rng::draw_index;
use crate::rng::rng_from_entropy;
use crate::rng::rng_from_seed;
use crate::table::Q_LIMIT;
use crate::table::ValueTable;
use crate::table::is_first_max;

verus! {

/// Default learning rate: 0.2.
pub const DEFAULT_ALPHA: i64 = 200_000;

/// Default discount factor: 0.9.
pub const DEFAULT_GAMMA: i64 = 900_000;

/// Default initial exploration rate: 0.5.
pub const DEFAULT_RAR: i64 = 500_000;

/// Default exploration decay factor: 0.99.
pub const DEFAULT_RADR: i64 = 990_000;

/// Magnitude bound on rewards passed to `query`, so the backup's
/// intermediate products fit the fixed-point arithmetic.
pub const REWARD_LIMIT: i64 = 1_000_000_000_000;

/// The one-step Bellman backup in fixed point: blend the previous
/// estimate with the observed reward plus the discounted estimate of the
/// current state under the executed action.
pub open spec fn bellman(q_prev: int, q_curr: int, reward: int, alpha: int, gamma: int) -> int {
    tdiv_scale((SCALE - alpha) * q_prev) + tdiv_scale(
        alpha * (reward + tdiv_scale(gamma * q_curr)),
    )
}

/// Clamp an updated estimate into the cell range a value table keeps.
pub open spec fn clamp_q(v: int) -> int {
    if v > Q_LIMIT {
        Q_LIMIT as int
    } else if v < -(Q_LIMIT as int) {
        -(Q_LIMIT as int)
    } else {
        v
    }
}

/// A tabular Q-learning agent. It owns its value table, its policy
/// parameters and its random source; the source is seedable, so runs can
/// be made deterministic by construction.
pub struct QLearner {
    /// The state-action value estimates.
    pub table: ValueTable,
    /// Learning rate, in `(0, 1]` fixed point.
    pub alpha: i64,
    /// Discount factor, in `[0, 1]` fixed point.
    pub gamma: i64,
    /// Exploration rate, in `[0, 1]` fixed point; decays on every
    /// training update and is never reset.
    pub rar: i64,
    /// Exploration decay factor, in `(0, 1]` fixed point.
    pub radr: i64,
    /// The agent's own random source.
    pub rng: rand::rngs::StdRng,
}

impl QLearner {
    /// The table is well formed and every parameter is in its range.
    pub open spec fn wf(self) -> bool {
        &&& self.table.wf()
        &&& 0 < self.alpha <= SCALE
        &&& 0 <= self.gamma <= SCALE
        &&& 0 <= self.rar <= SCALE
        &&& 0 < self.radr <= SCALE
    }

    /// A new agent with default parameters, a freshly seeded random
    /// source, and a table of estimates drawn uniformly from
    /// `[-1.0, 1.0)`.
    pub fn new(n_states: usize, n_actions: usize) -> (l: Self)
        requires
            n_states >= 1,
            n_actions >= 1,
        ensures
            l.wf(),
            l.table.n_states == n_states,
            l.table.n_actions == n_actions,
            l.alpha == DEFAULT_ALPHA,
            l.gamma == DEFAULT_GAMMA,
            l.rar == DEFAULT_RAR,
            l.radr == DEFAULT_RADR,
            forall|s: int, a: int|
                0 <= s < n_states && 0 <= a < n_actions ==> -SCALE <= #[trigger] l.table.at(s, a)
                    < SCALE,
    {
        let mut rng = rng_from_entropy();
        let table = ValueTable::new(n_states, n_actions, &mut rng);
        QLearner {
            table,
            alpha: DEFAULT_ALPHA,
            gamma: DEFAULT_GAMMA,
            rar: DEFAULT_RAR,
            radr: DEFAULT_RADR,
            rng,
        }
    }

    /// As `new`, but with the random source seeded from `seed`, for
    /// reproducible runs.
    pub fn with_seed(n_states: usize, n_actions: usize, seed: u64) -> (l: Self)
        requires
            n_states >= 1,
            n_actions >= 1,
        ensures
            l.wf(),
            l.table.n_states == n_states,
            l.table.n_actions == n_actions,
            l.alpha == DEFAULT_ALPHA,
            l.gamma == DEFAULT_GAMMA,
            l.rar == DEFAULT_RAR,
            l.radr == DEFAULT_RADR,
            forall|s: int, a: int|
                0 <= s < n_states && 0 <= a < n_actions ==> -SCALE <= #[trigger] l.table.at(s, a)
                    < SCALE,
    {
        let mut rng = rng_from_seed(seed);
        let table = ValueTable::new(n_states, n_actions, &mut rng);
        QLearner {
            table,
            alpha: DEFAULT_ALPHA,
            gamma: DEFAULT_GAMMA,
            rar: DEFAULT_RAR,
            radr: DEFAULT_RADR,
            rng,
        }
    }

    /// Query (and, when `update` holds, train) the agent.
    ///
    /// The greedy candidate is the first-argmax of the current state's
    /// row, read before any update. When `update` holds, the previous
    /// state-action cell is backed up by the Bellman rule — keyed by the
    /// executed `action`, not the greedy candidate — and the exploration
    /// rate decays by exactly the factor `radr`. With probability `rar`
    /// the returned action is replaced by one drawn uniformly from all
    /// `n_actions` valid indices (the whole range, bounds included).
    pub fn query(
        &mut self,
        s_curr: usize,
        s_prev: usize,
        action: usize,
        reward: i64,
        update: bool,
    ) -> (next: usize)
        requires
            old(self).wf(),
            s_curr < old(self).table.n_states,
            s_prev < old(self).table.n_states,
            action < old(self).table.n_actions,
            -REWARD_LIMIT <= reward <= REWARD_LIMIT,
        ensures
            final(self).wf(),
            final(self).table.n_states == old(self).table.n_states,
            final(self).table.n_actions == old(self).table.n_actions,
            final(self).alpha == old(self).alpha,
            final(self).gamma == old(self).gamma,
            final(self).radr == old(self).radr,
            next < old(self).table.n_actions,
            old(self).rar == 0 ==> is_first_max(
                old(self).table.cells@[s_curr as int]@,
                next as int,
            ),
            update ==> final(self).table.at(s_prev as int, action as int) == clamp_q(
                bellman(
                    old(self).table.at(s_prev as int, action as int),
                    old(self).table.at(s_curr as int, action as int),
                    reward as int,
                    old(self).alpha as int,
                    old(self).gamma as int,
                ),
            ),
            update ==> forall|s: int, a: int|
                0 <= s < old(self).table.n_states && 0 <= a < old(self).table.n_actions && !(s
                    == s_prev && a == action)
                    ==> final(self).table.at(s, a) == old(self).table.at(s, a),
            update ==> final(self).rar == decayed(old(self).rar as int, old(self).radr as int),
            !update ==> forall|s: int, a: int|
                0 <= s < old(self).table.n_states && 0 <= a < old(self).table.n_actions
                    ==> final(self).table.at(s, a) == old(self).table.at(s, a),
            !update ==> final(self).rar == old(self).rar,
    {
        let candidate = self.table.best_action(s_curr);
        if update {
            let q_prev = self.table.get(s_prev, action);
            let q_curr = self.table.get(s_curr, action);
            let one_minus_a: i64 = SCALE - self.alpha;
            proof {
                lemma_mul_bound(one_minus_a as int, q_prev as int, SCALE as int, Q_LIMIT as int);
            }
            let p1: i64 = one_minus_a * q_prev;
            proof {
                lemma_tdiv_scale_bound(p1 as int, 1_000_000_000_000_000_000);
            }
            let t1: i64 = div_scale(p1);
            proof {
                lemma_mul_bound(self.gamma as int, q_curr as int, SCALE as int, Q_LIMIT as int);
            }
            let p2: i64 = self.gamma * q_curr;
            proof {
                lemma_tdiv_scale_bound(p2 as int, 1_000_000_000_000_000_000);
            }
            let t2: i64 = div_scale(p2);
            let inner: i64 = reward + t2;
            proof {
                lemma_mul_bound(
                    self.alpha as int,
                    inner as int,
                    SCALE as int,
                    2_000_000_000_000,
                );
            }
            let p3: i64 = self.alpha * inner;
            proof {
                lemma_tdiv_scale_bound(p3 as int, 2_000_000_000_000_000_000);
            }
            let t3: i64 = div_scale(p3);
            let raw: i64 = t1 + t3;
            let v: i64 = if raw > Q_LIMIT {
                Q_LIMIT
            } else if raw < -Q_LIMIT {
                -Q_LIMIT
            } else {
                raw
            };
            assert(v == clamp_q(
                bellman(
                    q_prev as int,
                    q_curr as int,
                    reward as int,
                    self.alpha as int,
                    self.gamma as int,
                ),
            ));
            self.table.set(s_prev, action, v);
        }
        let rdraw = draw_i64(&mut self.rng, 0, SCALE);
        let next = if rdraw < self.rar {
            draw_index(&mut self.rng, self.table.n_actions)
        } else {
            candidate
        };
        if update {
            proof {
                lemma_mul_bound(self.rar as int, self.radr as int, SCALE as int, SCALE as int);
                lemma_decay_monotone(self.rar as int, self.radr as int);
            }
            let pd: i64 = self.rar * self.radr;
            self.rar = div_scale(pd);
        }
        next
    }
}

} // verus!
