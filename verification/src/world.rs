//! The grid-world environment: a rectangular grid of cell markers, a
//! transition rule with rewards, object lookup, and the flattening of
//! two-dimensional positions into scalar state identifiers.

use vstd::prelude::*;

verus! {

/// An empty cell.
pub const EMPTY: usize = 0;

/// An obstacle: moving onto it resolves to no movement.
pub const OBSTACLE: usize = 1;

/// Trail marker left on the cell the bot has just entered.
pub const BOT_MARK: usize = 2;

/// The bot's start marker.
pub const START: usize = 3;

/// Trail marker left on a cell the bot has left.
pub const TRAIL_MARK: usize = 4;

/// Quicksand not yet visited: full penalty, and visiting spends it.
pub const QUICKSAND_FRESH: usize = 5;

/// Quicksand already visited: the penalty still applies.
pub const QUICKSAND_SPENT: usize = 6;

/// The goal marker.
pub const GOAL: usize = 7;

/// Reward for an ordinary step, and for a move resolved to a no-op.
pub const REWARD_STEP: i64 = -1;

/// Reward for landing on quicksand, fresh or spent.
pub const REWARD_QUICKSAND: i64 = -100;

/// Reward for landing on the goal marker.
pub const REWARD_GOAL: i64 = 1;

/// A well-formed map: at least one row and one column, all rows of one
/// width, and few enough cells that every state identifier fits a `usize`.
pub open spec fn map_wf(m: Seq<Seq<usize>>) -> bool {
    &&& m.len() >= 1
    &&& m[0].len() >= 1
    &&& forall|r: int| 0 <= r < m.len() ==> (#[trigger] m[r]).len() == m[0].len()
    &&& m.len() * m[0].len() <= usize::MAX
}

/// Some cell of the map holds the marker `obj`.
pub open spec fn has_marker(m: Seq<Seq<usize>>, obj: usize) -> bool {
    exists|r: int, c: int|
        #![trigger m[r][c]]
        0 <= r < m.len() && 0 <= c < m[0].len() && m[r][c] == obj
}

/// Row of the cell one step from row `r` in direction `action`
/// (0 = north, 1 = east, 2 = south, 3 = west).
pub open spec fn target_row(r: int, action: int) -> int {
    if action == 0 {
        r - 1
    } else if action == 2 {
        r + 1
    } else {
        r
    }
}

/// Column of the cell one step from column `c` in direction `action`.
pub open spec fn target_col(c: int, action: int) -> int {
    if action == 1 {
        c + 1
    } else if action == 3 {
        c - 1
    } else {
        c
    }
}

/// A move from `(r, c)` in direction `action` is blocked: the target cell
/// lies off the grid or carries an obstacle.
pub open spec fn move_blocked(m: Seq<Seq<usize>>, r: int, c: int, action: int) -> bool {
    let tr = target_row(r, action);
    let tc = target_col(c, action);
    ||| tr < 0
    ||| tr >= m.len()
    ||| tc < 0
    ||| tc >= m[0].len()
    ||| m[tr][tc] == OBSTACLE
}

/// Row of the position a move resolves to: the target, or the original
/// row when the move is blocked.
pub open spec fn step_row(m: Seq<Seq<usize>>, r: int, c: int, action: int) -> int {
    if move_blocked(m, r, c, action) {
        r
    } else {
        target_row(r, action)
    }
}

/// Column of the position a move resolves to.
pub open spec fn step_col(m: Seq<Seq<usize>>, r: int, c: int, action: int) -> int {
    if move_blocked(m, r, c, action) {
        c
    } else {
        target_col(c, action)
    }
}

/// The reward a move earns: the step cost for a blocked or ordinary move,
/// the quicksand penalty for quicksand fresh or spent, the goal reward
/// for the goal marker.
pub open spec fn step_reward(m: Seq<Seq<usize>>, r: int, c: int, action: int) -> int {
    if move_blocked(m, r, c, action) {
        REWARD_STEP as int
    } else {
        let cell = m[target_row(r, action)][target_col(c, action)];
        if cell == QUICKSAND_FRESH || cell == QUICKSAND_SPENT {
            REWARD_QUICKSAND as int
        } else if cell == GOAL {
            REWARD_GOAL as int
        } else {
            REWARD_STEP as int
        }
    }
}

/// The map after a move: unchanged, except that landing on fresh
/// quicksand spends it.
pub open spec fn step_map(m: Seq<Seq<usize>>, r: int, c: int, action: int) -> Seq<Seq<usize>> {
    let tr = target_row(r, action);
    let tc = target_col(c, action);
    if !move_blocked(m, r, c, action) && m[tr][tc] == QUICKSAND_FRESH {
        m.update(tr, m[tr].update(tc, QUICKSAND_SPENT))
    } else {
        m
    }
}

/// Overwrite one cell of the map.
pub fn set_cell(map: &mut Vec<Vec<usize>>, r: usize, c: usize, v: usize)
    requires
        r < old(map).deep_view().len(),
        c < old(map).deep_view()[r as int].len(),
    ensures
        final(map).deep_view() == old(map).deep_view().update(
            r as int,
            old(map).deep_view()[r as int].update(c as int, v),
        ),
        final(map).deep_view().len() == old(map).deep_view().len(),
        forall|i: int|
            0 <= i < old(map).deep_view().len() ==> (#[trigger] final(map).deep_view()[i]).len()
                == old(map).deep_view()[i].len(),
{
    let row: &mut Vec<usize> = &mut map[r];
    row.set(c, v);
    proof {
        assert(map.deep_view() =~~= old(map).deep_view().update(
            r as int,
            old(map).deep_view()[r as int].update(c as int, v),
        ));
    }
}

/// Scan the map for a cell holding `obj`. Returns the last match in
/// row-major order, or `None` when no cell holds the marker.
pub fn get_object_location(map: &Vec<Vec<usize>>, obj: usize) -> (found: Option<(usize, usize)>)
    requires
        map_wf(map.deep_view()),
    ensures
        match found {
            Some(pos) => {
                &&& pos.0 < map.deep_view().len()
                &&& pos.1 < map.deep_view()[0].len()
                &&& map.deep_view()[pos.0 as int][pos.1 as int] == obj
                &&& forall|r2: int, c2: int|
                    0 <= r2 < map.deep_view().len() && 0 <= c2 < map.deep_view()[0].len()
                        && map.deep_view()[r2][c2] == obj ==> r2 < pos.0 || (r2 == pos.0 && c2
                        <= pos.1)
            },
            None => forall|r2: int, c2: int|
                0 <= r2 < map.deep_view().len() && 0 <= c2 < map.deep_view()[0].len()
                    ==> map.deep_view()[r2][c2] != obj,
        },
{
    let height = map.len();
    let width = map[0].len();
    let mut found: Option<(usize, usize)> = None;
    let mut r: usize = 0;
    while r < height
        invariant
            map_wf(map.deep_view()),
            height == map.deep_view().len(),
            width == map.deep_view()[0].len(),
            r <= height,
            match found {
                Some(pos) => {
                    &&& pos.0 < r
                    &&& pos.1 < width
                    &&& map.deep_view()[pos.0 as int][pos.1 as int] == obj
                    &&& forall|r2: int, c2: int|
                        0 <= r2 < r && 0 <= c2 < width && map.deep_view()[r2][c2] == obj ==> r2
                            < pos.0 || (r2 == pos.0 && c2 <= pos.1)
                },
                None => forall|r2: int, c2: int|
                    0 <= r2 < r && 0 <= c2 < width ==> map.deep_view()[r2][c2] != obj,
            },
        decreases height - r,
    {
        let mut c: usize = 0;
        while c < width
            invariant
                map_wf(map.deep_view()),
                height == map.deep_view().len(),
                width == map.deep_view()[0].len(),
                r < height,
                c <= width,
                match found {
                    Some(pos) => {
                        &&& (pos.0 < r || (pos.0 == r && pos.1 < c))
                        &&& pos.0 < height
                        &&& pos.1 < width
                        &&& map.deep_view()[pos.0 as int][pos.1 as int] == obj
                        &&& forall|r2: int, c2: int|
                            0 <= r2 < height && 0 <= c2 < width && (r2 < r || (r2 == r && c2 < c))
                                && map.deep_view()[r2][c2] == obj ==> r2 < pos.0 || (r2 == pos.0
                                && c2 <= pos.1)
                    },
                    None => forall|r2: int, c2: int|
                        0 <= r2 < height && 0 <= c2 < width && (r2 < r || (r2 == r && c2 < c))
                            ==> map.deep_view()[r2][c2] != obj,
                },
            decreases width - c,
        {
            proof {
                assert(map.deep_view()[r as int] == map@[r as int].deep_view());
            }
            if map[r][c] == obj {
                found = Some((r, c));
            }
            c = c + 1;
        }
        r = r + 1;
    }
    found
}

/// Move the bot from `prev_pos` one step in direction `action`, spending
/// fresh quicksand when it is landed on, and return the resolved position
/// with the reward earned.
pub fn move_bot(map: &mut Vec<Vec<usize>>, prev_pos: (usize, usize), action: usize) -> (res: (
    (usize, usize),
    i64,
))
    requires
        map_wf(old(map).deep_view()),
        prev_pos.0 < old(map).deep_view().len(),
        prev_pos.1 < old(map).deep_view()[0].len(),
        action < 4,
    ensures
        map_wf(final(map).deep_view()),
        final(map).deep_view().len() == old(map).deep_view().len(),
        final(map).deep_view()[0].len() == old(map).deep_view()[0].len(),
        final(map).deep_view() == step_map(
            old(map).deep_view(),
            prev_pos.0 as int,
            prev_pos.1 as int,
            action as int,
        ),
        res.0.0 as int == step_row(
            old(map).deep_view(),
            prev_pos.0 as int,
            prev_pos.1 as int,
            action as int,
        ),
        res.0.1 as int == step_col(
            old(map).deep_view(),
            prev_pos.0 as int,
            prev_pos.1 as int,
            action as int,
        ),
        res.1 as int == step_reward(
            old(map).deep_view(),
            prev_pos.0 as int,
            prev_pos.1 as int,
            action as int,
        ),
        res.0.0 < old(map).deep_view().len(),
        res.0.1 < old(map).deep_view()[0].len(),
        REWARD_QUICKSAND <= res.1 <= REWARD_GOAL,
{
    let (old_row, old_col) = prev_pos;
    let height = map.len();
    let width = map[0].len();
    let candidate: Option<(usize, usize)> = if action == 0 {
        if old_row == 0 {
            None
        } else {
            Some((old_row - 1, old_col))
        }
    } else if action == 1 {
        if old_col + 1 >= width {
            None
        } else {
            Some((old_row, old_col + 1))
        }
    } else if action == 2 {
        if old_row + 1 >= height {
            None
        } else {
            Some((old_row + 1, old_col))
        }
    } else {
        if old_col == 0 {
            None
        } else {
            Some((old_row, old_col - 1))
        }
    };
    match candidate {
        None => ((old_row, old_col), REWARD_STEP),
        Some((new_row, new_col)) => {
            proof {
                assert(map.deep_view()[new_row as int] == map@[new_row as int].deep_view());
            }
            let cell = map[new_row][new_col];
            if cell == OBSTACLE {
                ((old_row, old_col), REWARD_STEP)
            } else if cell == QUICKSAND_FRESH {
                set_cell(map, new_row, new_col, QUICKSAND_SPENT);
                ((new_row, new_col), REWARD_QUICKSAND)
            } else if cell == QUICKSAND_SPENT {
                ((new_row, new_col), REWARD_QUICKSAND)
            } else if cell == GOAL {
                ((new_row, new_col), REWARD_GOAL)
            } else {
                ((new_row, new_col), REWARD_STEP)
            }
        },
    }
}

/// Flatten a two-dimensional position into the scalar state identifier
/// `row * width + col`.
pub fn discretize(pos: (usize, usize), width: usize) -> (s: usize)
    requires
        width >= 1,
        pos.1 < width,
        (pos.0 as int) * (width as int) + (pos.1 as int) <= usize::MAX,
    ensures
        s as int == (pos.0 as int) * (width as int) + (pos.1 as int),
{
    pos.0 * width + pos.1
}

/// State identifiers of in-bounds positions are distinct cells of the
/// flattened range `[0, h * w)`.
pub proof fn lemma_state_id_bound(r: int, c: int, h: int, w: int)
    requires
        0 <= r < h,
        0 <= c < w,
    ensures
        0 <= r * w + c < h * w,
{
    assert(0 <= r * w + c < h * w) by (nonlinear_arith)
        requires
            0 <= r < h,
            0 <= c < w,
    ;
}

/// Law: a step whose in-bounds target carries no obstacle, quicksand or
/// goal marker moves the bot exactly one cell along the chosen direction,
/// earns the default step reward, and leaves the map unchanged.
pub proof fn lemma_step_interior(m: Seq<Seq<usize>>, r: int, c: int, action: int)
    requires
        map_wf(m),
        0 <= r < m.len(),
        0 <= c < m[0].len(),
        0 <= action < 4,
        0 <= target_row(r, action) < m.len(),
        0 <= target_col(c, action) < m[0].len(),
        m[target_row(r, action)][target_col(c, action)] != OBSTACLE,
        m[target_row(r, action)][target_col(c, action)] != QUICKSAND_FRESH,
        m[target_row(r, action)][target_col(c, action)] != QUICKSAND_SPENT,
        m[target_row(r, action)][target_col(c, action)] != GOAL,
    ensures
        step_row(m, r, c, action) == target_row(r, action),
        step_col(m, r, c, action) == target_col(c, action),
        action == 0 ==> step_row(m, r, c, action) == r - 1 && step_col(m, r, c, action) == c,
        action == 1 ==> step_row(m, r, c, action) == r && step_col(m, r, c, action) == c + 1,
        action == 2 ==> step_row(m, r, c, action) == r + 1 && step_col(m, r, c, action) == c,
        action == 3 ==> step_row(m, r, c, action) == r && step_col(m, r, c, action) == c - 1,
        step_reward(m, r, c, action) == REWARD_STEP,
        step_map(m, r, c, action) == m,
{
}

/// Law: a step toward the grid boundary or an obstacle leaves the bot's
/// position and the map unchanged, with the default step reward.
pub proof fn lemma_step_blocked(m: Seq<Seq<usize>>, r: int, c: int, action: int)
    requires
        map_wf(m),
        0 <= r < m.len(),
        0 <= c < m[0].len(),
        0 <= action < 4,
        move_blocked(m, r, c, action),
    ensures
        step_row(m, r, c, action) == r,
        step_col(m, r, c, action) == c,
        step_reward(m, r, c, action) == REWARD_STEP,
        step_map(m, r, c, action) == m,
{
}

/// Law: landing on fresh quicksand earns the quicksand penalty and leaves
/// the cell marked spent.
pub proof fn lemma_step_quicksand(m: Seq<Seq<usize>>, r: int, c: int, action: int)
    requires
        map_wf(m),
        0 <= r < m.len(),
        0 <= c < m[0].len(),
        0 <= action < 4,
        !move_blocked(m, r, c, action),
        m[target_row(r, action)][target_col(c, action)] == QUICKSAND_FRESH,
    ensures
        step_reward(m, r, c, action) == REWARD_QUICKSAND,
        step_map(m, r, c, action)[target_row(r, action)][target_col(c, action)]
            == QUICKSAND_SPENT,
        map_wf(step_map(m, r, c, action)),
{
    let tr = target_row(r, action);
    let tc = target_col(c, action);
    let m2 = step_map(m, r, c, action);
    assert(m2[tr].len() == m[tr].len());
    assert(forall|i: int| 0 <= i < m2.len() ==> (#[trigger] m2[i]).len() == m2[0].len());
}

/// Law: landing on spent quicksand — as a cell just spent by an earlier
/// step is — still earns the quicksand penalty, and spends nothing more.
pub proof fn lemma_step_quicksand_again(m: Seq<Seq<usize>>, r: int, c: int, action: int)
    requires
        map_wf(m),
        0 <= r < m.len(),
        0 <= c < m[0].len(),
        0 <= action < 4,
        !move_blocked(m, r, c, action),
        m[target_row(r, action)][target_col(c, action)] == QUICKSAND_SPENT,
    ensures
        step_reward(m, r, c, action) == REWARD_QUICKSAND,
        step_map(m, r, c, action) == m,
{
}

/// Law: landing on the goal marker earns the goal reward.
pub proof fn lemma_step_goal(m: Seq<Seq<usize>>, r: int, c: int, action: int)
    requires
        map_wf(m),
        0 <= r < m.len(),
        0 <= c < m[0].len(),
        0 <= action < 4,
        !move_blocked(m, r, c, action),
        m[target_row(r, action)][target_col(c, action)] == GOAL,
    ensures
        step_reward(m, r, c, action) == REWARD_GOAL,
        step_row(m, r, c, action) == target_row(r, action),
        step_col(m, r, c, action) == target_col(c, action),
        step_map(m, r, c, action) == m,
{
}

} // verus!
