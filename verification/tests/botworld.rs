use qlearn::QLearner;
use qlearn::driver::mean_micro;
use qlearn::driver::run_episodes;
use qlearn::driver::run_training;
use qlearn::rng::rng_from_seed;
use qlearn::world::discretize;
use qlearn::world::get_object_location;
use qlearn::world::move_bot;

fn empty_map(height: usize, width: usize) -> Vec<Vec<usize>> {
    let mut map: Vec<Vec<usize>> = Vec::new();
    for _ in 0..height {
        let mut row: Vec<usize> = Vec::new();
        for _ in 0..width {
            row.push(0);
        }
        map.push(row);
    }
    map
}

fn reference_map() -> Vec<Vec<usize>> {
    vec![
        vec![0, 1, 0, 0, 0, 1, 0, 1, 0, 7],
        vec![1, 0, 0, 0, 0, 0, 1, 0, 0, 0],
        vec![0, 0, 1, 1, 0, 1, 0, 1, 0, 1],
        vec![1, 1, 0, 0, 0, 0, 1, 0, 0, 0],
        vec![0, 0, 0, 0, 0, 0, 0, 0, 1, 0],
        vec![0, 1, 0, 1, 1, 0, 0, 1, 0, 0],
        vec![1, 0, 0, 0, 0, 1, 0, 0, 0, 1],
        vec![0, 0, 0, 0, 0, 0, 0, 1, 0, 0],
        vec![1, 0, 1, 0, 0, 1, 0, 0, 1, 0],
        vec![3, 0, 0, 0, 0, 0, 1, 0, 0, 0],
    ]
}

// A full-scale training exercise would run thousands of episodes; 100
// keep this end-to-end run inside the per-test time budget, since late
// in a long run the same-action backup lets episodes drift toward the
// step cap.
#[test]
fn qlearner_test() {
    let worldmap = reference_map();
    let mut learner = QLearner::with_seed(120, 4, 100);
    let mut rng = rng_from_seed(10000);
    let iterations: usize = 100;
    let avg = run_training(&worldmap, iterations, &mut learner, &mut rng);
    // the mean is in micro-units; each episode scores between -100 per
    // step over the whole cap and +1 per step
    let micro = avg.unwrap();
    assert!(-10_000_000_000_000 <= micro && micro <= 100_000_000_000);
}

#[test]
fn interior_step_moves_one_cell() {
    let mut map = empty_map(3, 3);
    assert_eq!(move_bot(&mut map, (1, 1), 0), ((0, 1), -1));
    assert_eq!(move_bot(&mut map, (1, 1), 1), ((1, 2), -1));
    assert_eq!(move_bot(&mut map, (1, 1), 2), ((2, 1), -1));
    assert_eq!(move_bot(&mut map, (1, 1), 3), ((1, 0), -1));
}

#[test]
fn boundary_step_stays_put() {
    let mut map = empty_map(2, 2);
    assert_eq!(move_bot(&mut map, (0, 1), 0), ((0, 1), -1));
    assert_eq!(move_bot(&mut map, (0, 1), 1), ((0, 1), -1));
    assert_eq!(move_bot(&mut map, (1, 0), 2), ((1, 0), -1));
    assert_eq!(move_bot(&mut map, (1, 0), 3), ((1, 0), -1));
}

#[test]
fn obstacle_step_stays_put() {
    let mut map = empty_map(3, 3);
    map[0][1] = 1;
    assert_eq!(move_bot(&mut map, (1, 1), 0), ((1, 1), -1));
    assert_eq!(map[0][1], 1);
}

#[test]
fn quicksand_penalty_and_spending() {
    let mut map = empty_map(3, 3);
    map[0][1] = 5;
    assert_eq!(move_bot(&mut map, (1, 1), 0), ((0, 1), -100));
    assert_eq!(map[0][1], 6);
    assert_eq!(move_bot(&mut map, (1, 1), 0), ((0, 1), -100));
    assert_eq!(map[0][1], 6);
}

#[test]
fn goal_step_rewards_one() {
    let mut map = empty_map(3, 3);
    map[0][1] = 7;
    assert_eq!(move_bot(&mut map, (1, 1), 0), ((0, 1), 1));
    assert_eq!(map[0][1], 7);
}

#[test]
fn locate_finds_marker() {
    let map = reference_map();
    assert_eq!(get_object_location(&map, 3), Some((9, 0)));
    assert_eq!(get_object_location(&map, 7), Some((0, 9)));
}

#[test]
fn locate_missing_marker_is_none() {
    let map = reference_map();
    assert_eq!(get_object_location(&map, 9), None);
}

#[test]
fn locate_returns_last_match() {
    let mut map = empty_map(3, 3);
    map[0][0] = 5;
    map[1][2] = 5;
    assert_eq!(get_object_location(&map, 5), Some((1, 2)));
}

#[test]
fn discretize_flattens_row_major() {
    assert_eq!(discretize((9, 0), 10), 90);
    assert_eq!(discretize((0, 9), 10), 9);
    assert_eq!(discretize((2, 7), 10), 27);
}

#[test]
fn mean_micro_exact_values() {
    let scores: Vec<i64> = vec![1, 2];
    assert_eq!(mean_micro(&scores), 1_500_000);
    let negatives: Vec<i64> = vec![-3, 2];
    assert_eq!(mean_micro(&negatives), -500_000);
    let single: Vec<i64> = vec![-7];
    assert_eq!(mean_micro(&single), -7_000_000);
}

#[test]
fn training_without_markers_reports_none() {
    let map = empty_map(4, 4);
    let mut learner = QLearner::with_seed(16, 4, 3);
    let mut rng = rng_from_seed(4);
    assert_eq!(run_training(&map, 10, &mut learner, &mut rng), None);
}

#[test]
fn training_improves_later_episodes() {
    let worldmap = reference_map();
    let mut learner = QLearner::with_seed(120, 4, 77);
    let mut rng = rng_from_seed(1234);
    let scores = run_episodes(&mut learner, &worldmap, 300, &mut rng).unwrap();
    assert_eq!(scores.len(), 300);
    let early: i64 = scores[..100].iter().sum();
    let late: i64 = scores[200..].iter().sum();
    assert!(late >= early);
}
