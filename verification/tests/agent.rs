use qlearn::QLearner;
use qlearn::SCALE;

const Q_RANGE: i64 = 1_000_000;

#[test]
fn qlearner_walk() {
    let mut q = QLearner::new(100, 4);
    let mut original_q_table: Vec<Vec<i64>> = Vec::new();
    for s in 0..q.table.n_states {
        let mut row: Vec<i64> = Vec::new();
        for a in 0..q.table.n_actions {
            row.push(q.table.get(s, a));
        }
        original_q_table.push(row);
    }
    let mut state: usize = 0;
    let mut prev_state: usize = 1;
    let mut action: usize = 3;
    let reward: i64 = 1_000_000;
    for _ in 0..10000 {
        action = q.query(state, prev_state, action, reward, true);
        prev_state = state;
        state = (state + 3) % 100;
    }
    // Compare "trained" q-table to original
    let mut changed = 0usize;
    for i in 0..q.table.n_states {
        for j in 0..q.table.n_actions {
            if original_q_table[i][j] != q.table.get(i, j) {
                changed += 1;
            }
        }
    }
    assert!(changed > 0);
}

#[test]
fn new_table_cells_in_unit_range() {
    let q = QLearner::with_seed(50, 4, 7);
    for s in 0..50 {
        for a in 0..4 {
            let v = q.table.get(s, a);
            assert!(-Q_RANGE <= v && v < Q_RANGE);
        }
    }
}

#[test]
fn best_action_unique_maximum() {
    let mut q = QLearner::with_seed(3, 4, 1);
    q.table.set(0, 0, 1_000);
    q.table.set(0, 1, 2_000);
    q.table.set(0, 2, 3_000);
    q.table.set(0, 3, 0);
    assert_eq!(q.table.best_action(0), 2);
}

#[test]
fn best_action_tie_takes_lowest_index() {
    let mut q = QLearner::with_seed(3, 4, 1);
    q.table.set(1, 0, 5_000);
    q.table.set(1, 1, 9_000);
    q.table.set(1, 2, 9_000);
    q.table.set(1, 3, 2_000);
    assert_eq!(q.table.best_action(1), 1);
}

#[test]
fn query_without_update_leaves_table_and_rate() {
    let mut q = QLearner::with_seed(4, 4, 42);
    let mut before: Vec<Vec<i64>> = Vec::new();
    for s in 0..4 {
        let mut row: Vec<i64> = Vec::new();
        for a in 0..4 {
            row.push(q.table.get(s, a));
        }
        before.push(row);
    }
    let rar_before = q.rar;
    for _ in 0..25 {
        let next = q.query(2, 1, 3, 500_000, false);
        assert!(next < 4);
    }
    for s in 0..4 {
        for a in 0..4 {
            assert_eq!(q.table.get(s, a), before[s][a]);
        }
    }
    assert_eq!(q.rar, rar_before);
}

#[test]
fn query_with_update_applies_bellman_and_decay() {
    let mut q = QLearner::with_seed(4, 4, 9);
    q.table.set(1, 2, 1_000_000);
    q.table.set(0, 2, 2_000_000);
    let untouched = q.table.get(3, 1);
    let next = q.query(0, 1, 2, 1_000_000, true);
    assert!(next < 4);
    // (1 - 0.2) * 1.0 + 0.2 * (1.0 + 0.9 * 2.0) = 1.36
    assert_eq!(q.table.get(1, 2), 1_360_000);
    assert_eq!(q.table.get(0, 2), 2_000_000);
    assert_eq!(q.table.get(3, 1), untouched);
    // 0.5 * 0.99 = 0.495
    assert_eq!(q.rar, 495_000);
}

#[test]
fn exploration_rate_decays_monotonically() {
    let mut q = QLearner::with_seed(4, 4, 11);
    let mut expected = q.rar;
    for _ in 0..50 {
        let prev = q.rar;
        q.query(0, 0, 0, 0, true);
        expected = expected * q.radr / SCALE;
        assert_eq!(q.rar, expected);
        assert!(q.rar <= prev);
        assert!(q.rar >= 0);
    }
    // 0.5 * 0.99^50 is about 0.3025
    assert!(q.rar < 350_000);
}

// The exploration draw covers every valid action index, the last one
// included: with the rate forced to one, all four actions must appear.
#[test]
fn forced_exploration_stays_in_action_range() {
    let mut q = QLearner::with_seed(6, 4, 23);
    q.rar = SCALE;
    let mut seen = [false; 4];
    for _ in 0..200 {
        let next = q.query(1, 0, 0, 0, false);
        assert!(next < 4);
        seen[next] = true;
    }
    assert!(seen[0] && seen[1] && seen[2] && seen[3]);
}

#[test]
fn greedy_when_exploration_rate_is_zero() {
    let mut q = QLearner::with_seed(2, 4, 5);
    q.rar = 0;
    q.table.set(0, 0, -5_000);
    q.table.set(0, 1, 8_000);
    q.table.set(0, 2, 8_000);
    q.table.set(0, 3, -1_000);
    for _ in 0..20 {
        assert_eq!(q.query(0, 1, 0, 0, false), 1);
    }
}
