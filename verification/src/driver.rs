//! The training driver: repeated episodes over a working copy of the
//! map, one agent query per transition, actuator noise injected on top
//! of the agent's own exploration, and the mean episodic return.

use vstd::prelude::*;

use crate::fixed::SCALE;
use crate::fixed::decay_iter;
use crate::fixed::decayed;
use crate::fixed::div_trunc;
use crate::fixed::lemma_decay_iter_add;
use crate::fixed::lemma_decay_monotone;
use crate::fixed::tdiv;
use crate::learner::QLearner;
use crate::rng::draw_i64;
use crate::rng::draw_index;
use crate::world::BOT_MARK;
use crate::world::GOAL;
use crate::world::QUICKSAND_SPENT;
use crate::world::START;
use crate::world::TRAIL_MARK;
use crate::world::discretize;
use crate::world::get_object_location;
use crate::world::has_marker;
use crate::world::lemma_state_id_bound;
use crate::world::map_wf;
use crate::world::move_bot;
use crate::world::set_cell;

verus! {

/// Probability of actuator noise, in fixed point: 0.20.
pub const RANDOM_RATE: i64 = 200_000;

/// Hard cap on the steps of one episode.
pub const MAX_MOVES: usize = 100_000;

/// Cap on the episodes of one training run, so the mean's intermediate
/// sum fits the fixed-point arithmetic.
pub const MAX_EPISODES: usize = 100_000;

/// Least accumulated reward an episode can reach: the quicksand penalty
/// on every one of the capped steps.
pub const EPISODE_MIN: i64 = -10_000_000;

/// Greatest accumulated reward an episode can reach: the goal reward on
/// every one of the capped steps.
pub const EPISODE_MAX: i64 = 100_000;

/// Sum of a sequence of episode scores.
pub open spec fn seq_sum(s: Seq<i64>) -> int
    decreases s.len(),
{
    if s.len() == 0 {
        0
    } else {
        seq_sum(s.drop_last()) + s.last()
    }
}

/// An owned copy of the map, cell for cell: each episode works on one
/// and the canonical map is never mutated by training.
pub fn clone_map(map: &Vec<Vec<usize>>) -> (r: Vec<Vec<usize>>)
    ensures
        r.deep_view() == map.deep_view(),
{
    let height = map.len();
    let mut out: Vec<Vec<usize>> = Vec::new();
    let mut i: usize = 0;
    while i < height
        invariant
            height == map@.len(),
            i <= height,
            out@.len() == i,
            forall|k: int| 0 <= k < i ==> (#[trigger] out@[k])@ == map@[k]@,
        decreases height - i,
    {
        let row_len = map[i].len();
        let mut row: Vec<usize> = Vec::new();
        let mut j: usize = 0;
        while j < row_len
            invariant
                height == map@.len(),
                i < height,
                row_len == map@[i as int]@.len(),
                j <= row_len,
                row@.len() == j,
                forall|k: int| 0 <= k < j ==> #[trigger] row@[k] == map@[i as int]@[k],
        decreases row_len - j,
        {
            let cell = map[i][j];
            row.push(cell);
            j = j + 1;
        }
        proof {
            assert(row@ =~= map@[i as int]@);
        }
        out.push(row);
        i = i + 1;
    }
    proof {
        assert(out.deep_view() =~~= map.deep_view());
    }
    out
}

/// One training episode from `start`: query the agent once for an
/// initial action, then step, learn from the observed transition, and
/// let actuator noise override the chosen action with probability
/// `RANDOM_RATE`, until the bot stands on `goal` or the step cap ends
/// the episode. Works on its own copy of the map, marking the trail as
/// it goes; returns the episode's accumulated reward.
pub fn run_episode(
    learner: &mut QLearner,
    map: &Vec<Vec<usize>>,
    start: (usize, usize),
    goal: (usize, usize),
    rng: &mut rand::rngs::StdRng,
) -> (score: i64)
    requires
        old(learner).wf(),
        map_wf(map.deep_view()),
        old(learner).table.n_actions == 4,
        map.deep_view().len() * map.deep_view()[0].len() <= old(learner).table.n_states,
        start.0 < map.deep_view().len(),
        start.1 < map.deep_view()[0].len(),
        goal.0 < map.deep_view().len(),
        goal.1 < map.deep_view()[0].len(),
    ensures
        final(learner).wf(),
        final(learner).table.n_states == old(learner).table.n_states,
        final(learner).table.n_actions == old(learner).table.n_actions,
        final(learner).alpha == old(learner).alpha,
        final(learner).gamma == old(learner).gamma,
        final(learner).radr == old(learner).radr,
        final(learner).rar <= old(learner).rar,
        EPISODE_MIN <= score <= EPISODE_MAX,
        exists|k: nat|
            #![trigger decay_iter(old(learner).rar as int, old(learner).radr as int, k)]
            (1 <= k <= MAX_MOVES + 1 && final(learner).rar as int == decay_iter(
                old(learner).rar as int,
                old(learner).radr as int,
                k,
            ) && -100 * (k - 1) <= score as int <= k - 1),
{
    let width = map[0].len();
    let mut localmap = clone_map(map);
    let mut bot_row = start.0;
    let mut bot_col = start.1;
    proof {
        lemma_state_id_bound(
            bot_row as int,
            bot_col as int,
            map.deep_view().len() as int,
            width as int,
        );
    }
    let s0 = discretize((bot_row, bot_col), width);
    let ghost rar_entry = learner.rar;
    let ghost radr0: int = learner.radr as int;
    let mut action = learner.query(s0, s0, 0, 0, true);
    proof {
        lemma_decay_monotone(rar_entry as int, radr0);
        assert(decay_iter(rar_entry as int, radr0, 0) == rar_entry as int);
        assert(decay_iter(rar_entry as int, radr0, 1) == decayed(rar_entry as int, radr0));
    }
    let mut count: usize = 0;
    let mut total: i64 = 0;
    while !(bot_row == goal.0 && bot_col == goal.1) && count < MAX_MOVES
        invariant
            learner.wf(),
            learner.table.n_states == old(learner).table.n_states,
            learner.table.n_actions == old(learner).table.n_actions,
            learner.table.n_actions == 4,
            learner.alpha == old(learner).alpha,
            learner.gamma == old(learner).gamma,
            learner.radr == old(learner).radr,
            learner.rar <= rar_entry,
            rar_entry == old(learner).rar,
            radr0 == old(learner).radr as int,
            learner.rar as int == decay_iter(rar_entry as int, radr0, (count + 1) as nat),
            map_wf(map.deep_view()),
            map_wf(localmap.deep_view()),
            localmap.deep_view().len() == map.deep_view().len(),
            localmap.deep_view()[0].len() == map.deep_view()[0].len(),
            width == map.deep_view()[0].len(),
            map.deep_view().len() * map.deep_view()[0].len() <= learner.table.n_states,
            bot_row < localmap.deep_view().len(),
            bot_col < localmap.deep_view()[0].len(),
            action < 4,
            count <= MAX_MOVES,
            -100 * (count as int) <= total as int <= count as int,
        decreases MAX_MOVES - count,
    {
        let (new_pos, reward) = move_bot(&mut localmap, (bot_row, bot_col), action);
        proof {
            lemma_state_id_bound(
                bot_row as int,
                bot_col as int,
                localmap.deep_view().len() as int,
                width as int,
            );
            lemma_state_id_bound(
                new_pos.0 as int,
                new_pos.1 as int,
                localmap.deep_view().len() as int,
                width as int,
            );
        }
        let prev_state = discretize((bot_row, bot_col), width);
        let new_state = discretize(new_pos, width);
        let micro: i64 = reward * SCALE;
        let ghost rar_step: i64 = learner.rar;
        action = learner.query(new_state, prev_state, action, micro, true);
        proof {
            lemma_decay_monotone(rar_step as int, radr0);
            assert(decay_iter(rar_entry as int, radr0, (count + 2) as nat) == decayed(
                decay_iter(rar_entry as int, radr0, (count + 1) as nat),
                radr0,
            ));
        }
        let noise = draw_i64(rng, 0, SCALE);
        if noise < RANDOM_RATE {
            action = draw_index(rng, learner.table.n_actions);
        }
        proof {
            assert(localmap.deep_view()[bot_row as int] == localmap@[
                bot_row as int
            ].deep_view());
        }
        if localmap[bot_row][bot_col] != QUICKSAND_SPENT {
            set_cell(&mut localmap, bot_row, bot_col, TRAIL_MARK);
        }
        proof {
            assert(localmap.deep_view()[new_pos.0 as int] == localmap@[
                new_pos.0 as int
            ].deep_view());
        }
        if localmap[new_pos.0][new_pos.1] != QUICKSAND_SPENT {
            set_cell(&mut localmap, new_pos.0, new_pos.1, BOT_MARK);
        }
        bot_row = new_pos.0;
        bot_col = new_pos.1;
        total = total + reward;
        count = count + 1;
    }
    proof {
        let kw: nat = (count + 1) as nat;
        assert(1 <= kw <= MAX_MOVES + 1);
        assert(learner.rar as int == decay_iter(rar_entry as int, radr0, kw));
        assert(-100 * (kw - 1) <= total as int <= kw - 1);
    }
    total
}

/// Run `iterations` training episodes between the map's start and goal
/// markers and collect each episode's accumulated reward. Returns `None`
/// when the map lacks either marker.
pub fn run_episodes(
    learner: &mut QLearner,
    map: &Vec<Vec<usize>>,
    iterations: usize,
    rng: &mut rand::rngs::StdRng,
) -> (r: Option<Vec<i64>>)
    requires
        old(learner).wf(),
        map_wf(map.deep_view()),
        old(learner).table.n_actions == 4,
        map.deep_view().len() * map.deep_view()[0].len() <= old(learner).table.n_states,
        iterations >= 1,
    ensures
        final(learner).wf(),
        final(learner).table.n_states == old(learner).table.n_states,
        final(learner).table.n_actions == old(learner).table.n_actions,
        final(learner).alpha == old(learner).alpha,
        final(learner).gamma == old(learner).gamma,
        final(learner).radr == old(learner).radr,
        final(learner).rar <= old(learner).rar,
        r.is_some() <==> has_marker(map.deep_view(), START) && has_marker(
            map.deep_view(),
            GOAL,
        ),
        r.is_none() ==> *final(learner) == *old(learner),
        r.is_some() ==> exists|k: nat|
            #![trigger decay_iter(old(learner).rar as int, old(learner).radr as int, k)]
            (iterations <= k <= iterations * (MAX_MOVES + 1) && final(learner).rar as int
                == decay_iter(old(learner).rar as int, old(learner).radr as int, k)),
        match r {
            Some(scores) => {
                &&& scores@.len() == iterations
                &&& forall|i: int|
                    0 <= i < iterations ==> EPISODE_MIN <= #[trigger] scores@[i] <= EPISODE_MAX
            },
            None => true,
        },
{
    let start = match get_object_location(map, START) {
        Some(p) => p,
        None => {
            return None;
        },
    };
    let goal = match get_object_location(map, GOAL) {
        Some(p) => p,
        None => {
            return None;
        },
    };
    let ghost rar_entry = learner.rar;
    let ghost radr0: int = learner.radr as int;
    let ghost mut updates: nat = 0;
    let mut scores: Vec<i64> = Vec::new();
    let mut i: usize = 0;
    while i < iterations
        invariant
            learner.wf(),
            learner.table.n_states == old(learner).table.n_states,
            learner.table.n_actions == old(learner).table.n_actions,
            learner.table.n_actions == 4,
            learner.alpha == old(learner).alpha,
            learner.gamma == old(learner).gamma,
            learner.radr == old(learner).radr,
            learner.rar <= rar_entry,
            rar_entry == old(learner).rar,
            radr0 == old(learner).radr as int,
            i <= updates <= i * (MAX_MOVES + 1),
            learner.rar as int == decay_iter(rar_entry as int, radr0, updates),
            map_wf(map.deep_view()),
            map.deep_view().len() * map.deep_view()[0].len() <= learner.table.n_states,
            start.0 < map.deep_view().len(),
            start.1 < map.deep_view()[0].len(),
            goal.0 < map.deep_view().len(),
            goal.1 < map.deep_view()[0].len(),
            i <= iterations,
            scores@.len() == i,
            forall|k: int| 0 <= k < i ==> EPISODE_MIN <= #[trigger] scores@[k] <= EPISODE_MAX,
        decreases iterations - i,
    {
        let ghost pre_rar: int = learner.rar as int;
        let s = run_episode(learner, map, start, goal, rng);
        proof {
            let k_i: nat = choose|k: nat|
                #![trigger decay_iter(pre_rar, radr0, k)]
                (1 <= k <= MAX_MOVES + 1 && learner.rar as int == decay_iter(pre_rar, radr0, k)
                    && -100 * (k - 1) <= s as int <= k - 1);
            lemma_decay_iter_add(rar_entry as int, radr0, updates, k_i);
            assert((i + 1) * ((MAX_MOVES + 1) as int) == i * ((MAX_MOVES + 1) as int) + (MAX_MOVES
                + 1)) by (nonlinear_arith);
            updates = updates + k_i;
        }
        scores.push(s);
        i = i + 1;
    }
    proof {
        assert(iterations <= updates <= iterations * (MAX_MOVES + 1));
        assert(learner.rar as int == decay_iter(rar_entry as int, radr0, updates));
    }
    Some(scores)
}

/// The mean of the episode scores, in fixed-point micro-units:
/// `(sum * SCALE) / count`, rounded toward zero.
pub fn mean_micro(scores: &Vec<i64>) -> (m: i64)
    requires
        1 <= scores@.len() <= MAX_EPISODES,
        forall|i: int|
            0 <= i < scores@.len() ==> EPISODE_MIN <= #[trigger] scores@[i] <= EPISODE_MAX,
    ensures
        m as int == tdiv(seq_sum(scores@) * (SCALE as int), scores@.len() as int),
{
    let n = scores.len();
    let mut sum: i64 = 0;
    let mut i: usize = 0;
    while i < n
        invariant
            n == scores@.len(),
            n <= MAX_EPISODES,
            forall|k: int| 0 <= k < n ==> EPISODE_MIN <= #[trigger] scores@[k] <= EPISODE_MAX,
            i <= n,
            sum as int == seq_sum(scores@.take(i as int)),
            -10_000_000 * (i as int) <= sum as int <= 100_000 * (i as int),
        decreases n - i,
    {
        let ghost pre = scores@.take(i as int);
        proof {
            assert(EPISODE_MIN <= scores@[i as int] <= EPISODE_MAX);
            assert(-10_000_000 * (i as int) >= -1_000_000_000_000);
            assert(100_000 * (i as int) <= 10_000_000_000);
        }
        sum = sum + scores[i];
        proof {
            let post = scores@.take((i + 1) as int);
            assert(post.drop_last() =~= pre);
            assert(post.last() == scores@[i as int]);
            assert(seq_sum(post) == seq_sum(pre) + scores@[i as int]);
        }
        i = i + 1;
    }
    proof {
        assert(scores@.take(n as int) =~= scores@);
    }
    let prod: i64 = sum * SCALE;
    div_trunc(prod, n as i64)
}

/// Train over `iterations` episodes and report the mean episodic return
/// in fixed-point micro-units, or `None` when the map lacks its start or
/// goal marker.
pub fn run_training(
    map: &Vec<Vec<usize>>,
    iterations: usize,
    learner: &mut QLearner,
    rng: &mut rand::rngs::StdRng,
) -> (r: Option<i64>)
    requires
        old(learner).wf(),
        map_wf(map.deep_view()),
        old(learner).table.n_actions == 4,
        map.deep_view().len() * map.deep_view()[0].len() <= old(learner).table.n_states,
        1 <= iterations <= MAX_EPISODES,
    ensures
        final(learner).wf(),
        final(learner).table.n_states == old(learner).table.n_states,
        final(learner).table.n_actions == old(learner).table.n_actions,
        final(learner).alpha == old(learner).alpha,
        final(learner).gamma == old(learner).gamma,
        final(learner).radr == old(learner).radr,
        final(learner).rar <= old(learner).rar,
        r.is_some() <==> has_marker(map.deep_view(), START) && has_marker(
            map.deep_view(),
            GOAL,
        ),
        r.is_none() ==> *final(learner) == *old(learner),
        r.is_some() ==> exists|k: nat|
            #![trigger decay_iter(old(learner).rar as int, old(learner).radr as int, k)]
            (iterations <= k <= iterations * (MAX_MOVES + 1) && final(learner).rar as int
                == decay_iter(old(learner).rar as int, old(learner).radr as int, k)),
        match r {
            Some(m) => exists|scores: Seq<i64>|
                #![trigger seq_sum(scores)]
                (scores.len() == iterations && (forall|i: int|
                    0 <= i < iterations ==> EPISODE_MIN <= #[trigger] scores[i] <= EPISODE_MAX)
                    && m as int == tdiv(seq_sum(scores) * (SCALE as int), iterations as int)),
            None => true,
        },
{
    match run_episodes(learner, map, iterations, rng) {
        None => None,
        Some(scores) => {
            let m = mean_micro(&scores);
            proof {
                assert(scores@.len() == iterations);
                assert(m as int == tdiv(seq_sum(scores@) * (SCALE as int), iterations as int));
            }
            Some(m)
        },
    }
}

} // verus!
