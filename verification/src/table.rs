//! The state-action value table: a dense grid of fixed-point estimates,
//! indexed by state and action, with read, in-place update and best-action
//! (first-argmax) lookup.

use vstd::prelude::*;

use crate::fixed::SCALE;
use crate::rng::draw_i64;

verus! {

/// Magnitude bound kept on every cell of a value table. Updates clamp to
/// this bound, so all fixed-point arithmetic on cells stays in range.
pub const Q_LIMIT: i64 = 1_000_000_000_000;

/// `k` is the lowest index attaining the maximum of `row`: every entry is
/// at most `row[k]`, and every earlier entry is strictly below it.
pub open spec fn is_first_max(row: Seq<i64>, k: int) -> bool {
    &&& 0 <= k < row.len()
    &&& forall|j: int| 0 <= j < row.len() ==> row[j] <= row[k]
    &&& forall|j: int| 0 <= j < k ==> row[j] < row[k]
}

/// A table of value estimates in fixed-point millionths, one cell per
/// (state, action) pair. Dimensions are fixed at construction and every
/// cell is initialized.
pub struct ValueTable {
    /// Number of states (rows).
    pub n_states: usize,
    /// Number of actions (columns).
    pub n_actions: usize,
    /// The estimates: `cells[state][action]`.
    pub cells: Vec<Vec<i64>>,
}

impl ValueTable {
    /// Dimensions are positive, every row has `n_actions` cells, and every
    /// cell's magnitude is within `Q_LIMIT`.
    pub open spec fn wf(self) -> bool {
        &&& self.n_states >= 1
        &&& self.n_actions >= 1
        &&& self.cells@.len() == self.n_states
        &&& forall|s: int| 0 <= s < self.n_states ==> (#[trigger] self.cells@[s])@.len()
            == self.n_actions
        &&& forall|s: int, a: int|
            0 <= s < self.n_states && 0 <= a < self.n_actions ==> -Q_LIMIT
                <= #[trigger] self.cells@[s]@[a] <= Q_LIMIT
    }

    /// The estimate stored for `(s, a)`.
    pub open spec fn at(self, s: int, a: int) -> int {
        self.cells@[s]@[a] as int
    }

    /// Allocate an `n_states` by `n_actions` table, each cell drawn
    /// independently and uniformly from `[-1.0, 1.0)` in fixed point.
    pub fn new(n_states: usize, n_actions: usize, rng: &mut rand::rngs::StdRng) -> (t: Self)
        requires
            n_states >= 1,
            n_actions >= 1,
        ensures
            t.wf(),
            t.n_states == n_states,
            t.n_actions == n_actions,
            forall|s: int, a: int|
                0 <= s < n_states && 0 <= a < n_actions ==> -SCALE <= #[trigger] t.at(s, a)
                    < SCALE,
    {
        let mut cells: Vec<Vec<i64>> = Vec::new();
        let mut i: usize = 0;
        while i < n_states
            invariant
                i <= n_states,
                n_states >= 1,
                n_actions >= 1,
                cells@.len() == i,
                forall|s: int| 0 <= s < i ==> (#[trigger] cells@[s])@.len() == n_actions,
                forall|s: int, a: int|
                    0 <= s < i && 0 <= a < n_actions ==> -SCALE <= #[trigger] cells@[s]@[a]
                        < SCALE,
            decreases n_states - i,
        {
            let mut row: Vec<i64> = Vec::new();
            let mut j: usize = 0;
            while j < n_actions
                invariant
                    j <= n_actions,
                    row@.len() == j,
                    forall|a: int| 0 <= a < j ==> -SCALE <= #[trigger] row@[a] < SCALE,
                decreases n_actions - j,
            {
                let v = draw_i64(rng, -SCALE, SCALE);
                row.push(v);
                j = j + 1;
            }
            cells.push(row);
            i = i + 1;
        }
        ValueTable { n_states, n_actions, cells }
    }

    /// Read the estimate for `(state, action)`.
    pub fn get(&self, state: usize, action: usize) -> (v: i64)
        requires
            self.wf(),
            state < self.n_states,
            action < self.n_actions,
        ensures
            v == self.at(state as int, action as int),
    {
        self.cells[state][action]
    }

    /// Overwrite the estimate for `(state, action)`; every other cell is
    /// untouched.
    pub fn set(&mut self, state: usize, action: usize, value: i64)
        requires
            old(self).wf(),
            state < old(self).n_states,
            action < old(self).n_actions,
            -Q_LIMIT <= value <= Q_LIMIT,
        ensures
            final(self).wf(),
            final(self).n_states == old(self).n_states,
            final(self).n_actions == old(self).n_actions,
            final(self).at(state as int, action as int) == value,
            forall|s: int, a: int|
                0 <= s < old(self).n_states && 0 <= a < old(self).n_actions && !(s == state && a
                    == action) ==> final(self).at(s, a) == old(self).at(s, a),
    {
        let row: &mut Vec<i64> = &mut self.cells[state];
        row.set(action, value);
    }

    /// The lowest action index attaining the row's maximum estimate. Ties
    /// are broken deterministically toward the lower index.
    pub fn best_action(&self, state: usize) -> (a: usize)
        requires
            self.wf(),
            state < self.n_states,
        ensures
            is_first_max(self.cells@[state as int]@, a as int),
    {
        let mut best: usize = 0;
        let mut i: usize = 1;
        while i < self.n_actions
            invariant
                self.wf(),
                state < self.n_states,
                1 <= i <= self.n_actions,
                best < i,
                forall|j: int| 0 <= j < i ==> self.cells@[state as int]@[j]
                    <= self.cells@[state as int]@[best as int],
                forall|j: int| 0 <= j < best ==> self.cells@[state as int]@[j]
                    < self.cells@[state as int]@[best as int],
            decreases self.n_actions - i,
        {
            if self.cells[state][i] > self.cells[state][best] {
                best = i;
            }
            i = i + 1;
        }
        best
    }
}

/// Law: on a row whose maximum is attained at `i` alone, the first-argmax
/// is `i` itself.
pub proof fn lemma_first_max_unique(row: Seq<i64>, k: int, i: int)
    requires
        is_first_max(row, k),
        0 <= i < row.len(),
        forall|j: int| 0 <= j < row.len() && j != i ==> row[j] < row[i],
    ensures
        k == i,
{
    if k != i {
        assert(row[k] < row[i]);
        assert(row[i] <= row[k]);
    }
}

/// Law: on a row whose maximum is attained exactly at two indices
/// `i1 < i2`, the first-argmax is the lower one, `i1`.
pub proof fn lemma_first_max_tie(row: Seq<i64>, k: int, i1: int, i2: int)
    requires
        is_first_max(row, k),
        0 <= i1 < i2 < row.len(),
        row[i1] == row[i2],
        forall|j: int| 0 <= j < row.len() ==> row[j] <= row[i1],
        forall|j: int| 0 <= j < row.len() && j != i1 && j != i2 ==> row[j] < row[i1],
    ensures
        k == i1,
{
    assert(row[i1] <= row[k]);
    if k < i1 {
        assert(row[k] < row[i1]);
        assert(row[i1] <= row[k]);
    }
    if k > i1 {
        assert(row[i1] < row[k]);
        assert(row[k] <= row[i1]);
    }
}

} // verus!
