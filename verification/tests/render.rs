use audio_stream::render::{
    bar_height, left_of_budget, map_range, step, tick_budget, DisplayState, FULL_HEIGHT,
    TICKS_TO_TARGET, TICK_RATE,
};
use audio_stream::spectrum::{Band, StereoFrame, UNIT};
use crossbeam::channel::unbounded;

fn bands(amplitudes: &[i64]) -> Vec<Band> {
    amplitudes
        .iter()
        .enumerate()
        .map(|(i, a)| Band { frequency: 250_000 + 1000 * i as u64, amplitude: *a })
        .collect()
}

fn levels(state: &DisplayState) -> Vec<i64> {
    (0..state.bars()).map(|i| state.level(i).unwrap()).collect()
}

fn frame(left: &[i64], right: &[i64]) -> StereoFrame {
    StereoFrame { left: bands(left), right: bands(right) }
}

#[test]
fn render_constants() {
    assert_eq!(TICKS_TO_TARGET, 10);
    assert_eq!(FULL_HEIGHT, 500);
}

#[test]
fn map_range_is_linear_inside() {
    assert_eq!(map_range(500_000, (0, 1_000_000), (0, 500)), 250);
    assert_eq!(map_range(5, (0, 10), (100, 200)), 150);
    assert_eq!(map_range(-5, (-10, 10), (0, 100)), 25);
    assert_eq!(map_range(1, (0, 3), (0, 10)), 3);
    assert_eq!(map_range(2, (0, 3), (0, 10)), 6);
}

#[test]
fn map_range_holds_the_value_inside_the_first_range() {
    assert_eq!(map_range(-7, (0, 10), (100, 200)), 100);
    assert_eq!(map_range(70, (0, 10), (100, 200)), 200);
    assert_eq!(map_range(i64::MIN, (0, 10), (100, 200)), 100);
    assert_eq!(map_range(i64::MAX, (0, 10), (100, 200)), 200);
}

#[test]
fn map_range_to_a_falling_range() {
    assert_eq!(map_range(250_000, (0, 1_000_000), (500, 0)), 375);
    assert_eq!(map_range(0, (0, 10), (200, 100)), 200);
    assert_eq!(map_range(10, (0, 10), (200, 100)), 100);
    assert_eq!(map_range(1, (0, 3), (10, 0)), 7);
}

#[test]
fn map_range_over_the_widest_ranges() {
    assert_eq!(map_range(i64::MAX, (i64::MIN, i64::MAX), (i64::MIN, i64::MAX)), i64::MAX);
    assert_eq!(map_range(i64::MIN, (i64::MIN, i64::MAX), (i64::MIN, i64::MAX)), i64::MIN);
    assert_eq!(map_range(0, (i64::MIN, i64::MAX), (i64::MIN, i64::MAX)), 0);
    assert_eq!(map_range(i64::MAX, (i64::MIN, i64::MAX), (i64::MAX, i64::MIN)), i64::MIN);
    assert_eq!(map_range(5, (0, 10), (7, 7)), 7);
}

#[test]
fn map_range_from_a_range_the_wrong_way_round() {
    assert_eq!(map_range(5, (10, 0), (100, 200)), 200);
    assert_eq!(map_range(-50, (10, 0), (100, 200)), 200);
    assert_eq!(map_range(50, (10, 0), (200, 100)), 100);
}

#[test]
fn level_of_a_bar_that_is_not_there() {
    let state = DisplayState::new(3);
    assert_eq!(state.level(2), Some(0));
    assert_eq!(state.level(3), None);
    assert_eq!(DisplayState::new(0).level(0), None);
}

#[test]
fn tick_budget_is_a_second_over_the_rate() {
    assert_eq!(TICK_RATE, 144);
    assert_eq!(tick_budget(TICK_RATE), Some(6_944_444));
    assert_eq!(tick_budget(1), Some(1_000_000_000));
    assert_eq!(tick_budget(60), Some(16_666_666));
    assert_eq!(tick_budget(u32::MAX), Some(0));
    assert_eq!(tick_budget(0), None);
}

#[test]
fn what_is_left_of_the_budget() {
    assert_eq!(left_of_budget(6_944_444, 0), 6_944_444);
    assert_eq!(left_of_budget(6_944_444, 1_000_000), 5_944_444);
    assert_eq!(left_of_budget(6_944_444, 6_944_443), 1);
    assert_eq!(left_of_budget(6_944_444, 6_944_444), 0);
    assert_eq!(left_of_budget(6_944_444, u64::MAX), 0);
    assert_eq!(left_of_budget(0, 0), 0);
}

#[test]
fn bar_heights() {
    assert_eq!(bar_height(0), 0);
    assert_eq!(bar_height(UNIT), 500);
    assert_eq!(bar_height(UNIT / 2), 250);
    assert_eq!(bar_height(2 * UNIT), 500);
    assert_eq!(bar_height(-5), 0);
    assert_eq!(bar_height(1_999), 0);
    assert_eq!(bar_height(2_000), 1);
    assert_eq!(bar_height(999_999), 499);
    assert_eq!(bar_height(i64::MAX), 500);
    assert_eq!(bar_height(i64::MIN), 0);
}

#[test]
fn one_step_is_a_tenth_of_the_way() {
    assert_eq!(step(0, 0, 100), 10);
    assert_eq!(step(50, 0, 100), 60);
    assert_eq!(step(0, 100, 0), -10);
    assert_eq!(step(7, 3, 3), 7);
}

#[test]
fn a_step_rounds_towards_zero() {
    assert_eq!(step(0, 0, 95), 9);
    assert_eq!(step(0, 0, -95), -9);
    assert_eq!(step(0, 0, 9), 0);
    assert_eq!(step(0, 0, -9), 0);
}

#[test]
fn a_step_is_held_at_the_range() {
    assert_eq!(step(i64::MAX, 0, 100), i64::MAX);
    assert_eq!(step(i64::MIN, 100, 0), i64::MIN);
    assert_eq!(step(0, i64::MIN, i64::MAX), 1844674407370955161);
    assert_eq!(step(i64::MAX - 3, 0, 100), i64::MAX);
}

#[test]
fn new_display_rests_at_zero() {
    let mut state = DisplayState::new(6);
    assert_eq!(state.bars(), 6);
    assert_eq!(levels(&state), vec![0; 6]);
    state.advance();
    assert_eq!(levels(&state), vec![0; 6]);
    assert_eq!(state.heights(), vec![0; 6]);
    assert_eq!(DisplayState::new(0).bars(), 0);
}

#[test]
fn left_is_mirrored_and_right_runs_on() {
    let mut state = DisplayState::new(6);
    assert!(state.retarget(&bands(&[10, 20, 30, 40]), &bands(&[100, 200, 300])));
    // retarget alone moves nothing
    assert_eq!(levels(&state), vec![0; 6]);
    state.advance();
    assert_eq!(levels(&state), vec![3, 2, 1, 10, 20, 30]);
    for _ in 0..9 {
        state.advance();
    }
    assert_eq!(levels(&state), vec![30, 20, 10, 100, 200, 300]);
}

#[test]
fn odd_bar_count_leaves_the_last_bar() {
    let mut state = DisplayState::new(5);
    assert!(state.retarget(&bands(&[10, 20]), &bands(&[100, 200])));
    for _ in 0..10 {
        state.advance();
    }
    assert_eq!(levels(&state), vec![20, 10, 100, 200, 0]);
}

#[test]
fn short_frame_is_passed_over() {
    let mut state = DisplayState::new(6);
    assert!(!state.retarget(&bands(&[10, 20]), &bands(&[100, 200, 300])));
    assert!(!state.retarget(&bands(&[10, 20, 30]), &bands(&[100, 200])));
    state.advance();
    assert_eq!(levels(&state), vec![0; 6]);
    assert!(state.retarget(&bands(&[10, 20, 30]), &bands(&[100, 200, 300])));
}

#[test]
fn ten_ticks_reach_the_target() {
    let mut state = DisplayState::new(4);
    let f = frame(&[1_000_000, 123_457], &[999_999, 5]);
    state.tick(Some(&f));
    for _ in 0..9 {
        state.tick(None);
    }
    let reached = levels(&state);
    let target = [123_457, 1_000_000, 999_999, 5];
    for (r, t) in reached.iter().zip(target.iter()) {
        assert!((t - r).abs() < 10, "{} {}", r, t);
        assert!(r <= t);
    }
    assert_eq!(reached, vec![123_450, 1_000_000, 999_990, 0]);
}

#[test]
fn ten_ticks_reach_a_lower_target_from_above() {
    let mut state = DisplayState::new(2);
    state.tick(Some(&frame(&[1000], &[2000])));
    for _ in 0..9 {
        state.tick(None);
    }
    assert_eq!(levels(&state), vec![1000, 2000]);
    state.tick(Some(&frame(&[5], &[1001])));
    for _ in 0..9 {
        state.tick(None);
    }
    // steps of -99: 1000 - 990 and 2000 - 990
    assert_eq!(levels(&state), vec![10, 1010]);
}

#[test]
fn equal_old_and_target_leave_the_bars_alone() {
    let mut state = DisplayState::new(4);
    state.tick(Some(&frame(&[300, 400], &[500, 600])));
    for _ in 0..9 {
        state.tick(None);
    }
    assert_eq!(levels(&state), vec![400, 300, 500, 600]);
    // the same frame again: old and target agree from here on
    state.tick(Some(&frame(&[300, 400], &[500, 600])));
    for _ in 0..1000 {
        state.tick(None);
        assert_eq!(levels(&state), vec![400, 300, 500, 600]);
    }
}

#[test]
fn bars_keep_moving_past_ten_ticks() {
    let mut state = DisplayState::new(2);
    state.tick(Some(&frame(&[100], &[0])));
    for _ in 0..19 {
        state.tick(None);
    }
    assert_eq!(levels(&state), vec![200, 0]);
}

#[test]
fn frame_mid_way_restarts_from_where_the_bars_stand() {
    let mut state = DisplayState::new(2);
    state.tick(Some(&frame(&[100], &[100])));
    state.tick(None);
    state.tick(None);
    assert_eq!(levels(&state), vec![30, 30]);
    state.tick(Some(&frame(&[130], &[30])));
    assert_eq!(levels(&state), vec![40, 30]);
}

#[test]
fn heights_follow_the_levels() {
    let mut state = DisplayState::new(4);
    state.tick(Some(&frame(&[10_000_000, 5_000_000], &[40_000, -10_000_000])));
    assert_eq!(levels(&state), vec![500_000, 1_000_000, 4_000, -1_000_000]);
    assert_eq!(state.heights(), vec![250, 500, 2, 0]);
}

#[test]
fn poll_takes_the_newest_frame() {
    let (tx, rx) = unbounded::<StereoFrame>();
    let mut state = DisplayState::new(2);
    assert!(!state.poll(&rx));
    assert_eq!(levels(&state), vec![0, 0]);
    tx.send(frame(&[10], &[20])).unwrap();
    tx.send(frame(&[30], &[40])).unwrap();
    tx.send(frame(&[500], &[600])).unwrap();
    assert!(state.poll(&rx));
    assert_eq!(rx.len(), 0);
    assert_eq!(levels(&state), vec![50, 60]);
    assert!(!state.poll(&rx));
    assert_eq!(levels(&state), vec![100, 120]);
}

#[test]
fn poll_on_a_disconnected_channel() {
    let (tx, rx) = unbounded::<StereoFrame>();
    tx.send(frame(&[10], &[20])).unwrap();
    drop(tx);
    let mut state = DisplayState::new(2);
    assert!(state.poll(&rx));
    assert!(!state.poll(&rx));
    assert_eq!(levels(&state), vec![2, 4]);
}
