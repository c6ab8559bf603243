use delay_core::lane::tap_position;
use delay_core::Lane;

/// A minimal source for exercising the lane: the same constant and ramp
/// shapes the plugin's amplitude lane offers.
#[derive(Clone, Copy, Debug, PartialEq)]
enum Source {
    Constant(f32),
    Ramp { start: f32, end: f32 },
}

fn sourced(source: Source, index: usize, count: usize) -> f32 {
    let (numer, denom) = tap_position(index, count);
    let x = numer as f32 / denom as f32;
    match source {
        Source::Constant(v) => v,
        Source::Ramp { start, end } => start + (end - start) * x,
    }
}

/// Resolved value of tap `i`, clamped to the lane range.
fn value(lane: &Lane<Source, f32>, i: usize) -> f32 {
    let (lo, hi) = lane.range();
    lane.resolve(i, sourced(lane.source(), i, lane.count())).clamp(lo, hi)
}

/// Detach tap `i` at its current resolved value.
fn detach(lane: &mut Lane<Source, f32>, i: usize) {
    let current = value(lane, i);
    lane.detach(i, current);
}

fn approx(a: f32, b: f32) {
    assert!((a - b).abs() < 1e-6, "expected {b}, got {a}");
}

#[test]
fn linked_taps_follow_the_source() {
    let lane = Lane::new(Source::Ramp { start: 0.0, end: 1.0 }, (0.0, 1.0), 5);
    approx(value(&lane, 0), 0.0);
    approx(value(&lane, 2), 0.5);
    approx(value(&lane, 4), 1.0);
}

#[test]
fn single_tap_samples_source_start() {
    let lane = Lane::new(Source::Ramp { start: 0.2, end: 0.9 }, (0.0, 1.0), 1);
    approx(value(&lane, 0), 0.2);
}

#[test]
fn detach_freezes_current_value() {
    let mut lane = Lane::new(Source::Ramp { start: 0.0, end: 1.0 }, (0.0, 1.0), 5);
    detach(&mut lane, 2);
    approx(value(&lane, 2), 0.5); // frozen at what it was
    assert!(!lane.is_linked(2));
    // Changing the source no longer moves it.
    lane.set_source(Source::Constant(0.1));
    approx(value(&lane, 2), 0.5);
    // ...but linked neighbours do move.
    approx(value(&lane, 0), 0.1);
}

#[test]
fn relink_resamples() {
    let mut lane = Lane::new(Source::Ramp { start: 0.0, end: 1.0 }, (0.0, 1.0), 5);
    detach(&mut lane, 2);
    lane.set_source(Source::Constant(0.3));
    approx(value(&lane, 2), 0.5);
    lane.relink(2);
    approx(value(&lane, 2), 0.3); // back on the source
    assert!(lane.is_linked(2));
}

#[test]
fn editing_source_moves_linked_leaves_detached() {
    let mut lane = Lane::new(Source::Constant(0.5), (0.0, 1.0), 4);
    lane.set_tap_value(1, 0.8); // detach via explicit set
    lane.set_source(Source::Constant(0.2));
    approx(value(&lane, 0), 0.2);
    approx(value(&lane, 1), 0.8); // detached override held
    approx(value(&lane, 2), 0.2);
}

#[test]
fn values_are_clamped_to_range() {
    // Pan-style bipolar range; a ramp that overshoots gets clamped.
    let lane = Lane::new(Source::Ramp { start: -2.0, end: 2.0 }, (-1.0, 1.0), 3);
    approx(value(&lane, 0), -1.0);
    approx(value(&lane, 1), 0.0);
    approx(value(&lane, 2), 1.0);
}

#[test]
fn set_tap_value_detaches() {
    let mut lane = Lane::new(Source::Constant(0.5), (0.0, 1.0), 3);
    assert!(lane.is_linked(1));
    lane.set_tap_value(1, 0.25);
    assert!(!lane.is_linked(1));
    approx(value(&lane, 1), 0.25);
}

#[test]
fn shrinking_then_growing_restores_edits() {
    let mut lane = Lane::new(Source::Constant(0.5), (0.0, 1.0), 8);
    lane.set_tap_value(5, 0.9);
    lane.set_count(3);
    assert_eq!(lane.count(), 3);
    // Tap 5 is gone: not linked, and reads the source like any absent tap.
    assert!(!lane.is_linked(5));
    approx(lane.resolve(5, 0.5), 0.5);
    lane.set_count(8);
    assert!(!lane.is_linked(5));
    approx(value(&lane, 5), 0.9);
}

#[test]
fn new_taps_start_linked() {
    let mut lane = Lane::new(Source::Constant(0.5), (0.0, 1.0), 2);
    lane.set_tap_value(0, 0.1);
    lane.set_tap_value(1, 0.2);
    lane.set_count(4);
    assert_eq!(lane.count(), 4);
    assert!(!lane.is_linked(1));
    assert!(lane.is_linked(2));
    assert!(lane.is_linked(3));
    approx(value(&lane, 3), 0.5);
}

#[test]
fn edits_outside_active_taps_are_ignored() {
    let mut lane = Lane::new(Source::Constant(0.5), (0.0, 1.0), 2);
    lane.set_tap_value(2, 0.9);
    lane.detach(7, 0.3);
    lane.relink(9);
    assert_eq!(lane.count(), 2);
    lane.set_count(3);
    assert!(lane.is_linked(2));
}

#[test]
fn relink_all_discards_every_edit() {
    let mut lane = Lane::new(Source::Constant(0.5), (0.0, 1.0), 4);
    lane.set_tap_value(0, 0.1);
    lane.set_tap_value(3, 0.9);
    lane.set_count(2);
    lane.relink_all();
    lane.set_count(4);
    for i in 0..4 {
        assert!(lane.is_linked(i));
        approx(value(&lane, i), 0.5);
    }
}

#[test]
fn range_can_be_widened() {
    let mut lane = Lane::new(Source::Constant(-0.5), (0.0, 1.0), 2);
    approx(value(&lane, 0), 0.0);
    lane.set_range(-1.0, 1.0);
    assert_eq!(lane.range(), (-1.0, 1.0));
    approx(value(&lane, 0), -0.5);
}

#[test]
fn detach_keeps_an_existing_override() {
    let mut lane = Lane::new(Source::Constant(0.5), (0.0, 1.0), 2);
    lane.set_tap_value(1, 0.7);
    lane.detach(1, 0.2);
    approx(value(&lane, 1), 0.7);
}

#[test]
fn tap_positions_span_zero_to_one() {
    assert_eq!(tap_position(0, 5), (0, 4));
    assert_eq!(tap_position(4, 5), (4, 4));
    assert_eq!(tap_position(0, 1), (0, 1));
    assert_eq!(tap_position(3, 0), (0, 1));
}

#[test]
fn stored_states_include_retained_taps() {
    let mut lane = Lane::new(Source::Constant(0.5), (0.0, 1.0), 4);
    lane.set_tap_value(1, 0.2);
    lane.set_tap_value(3, 0.9);
    lane.set_count(2);
    assert_eq!(lane.stored_states(), vec![None, Some(0.2), None, Some(0.9)]);
}

#[test]
fn rebuilt_lane_restores_edits_after_regrowing() {
    let mut lane = Lane::new(Source::Constant(0.5), (0.0, 1.0), 4);
    lane.set_tap_value(3, 0.9);
    lane.set_count(2);
    let mut rebuilt = Lane::from_states(Source::Constant(0.5), (0.0, 1.0), lane.stored_states());
    assert_eq!(rebuilt.count(), 4);
    rebuilt.set_count(2);
    assert_eq!(rebuilt.stored_states(), lane.stored_states());
    rebuilt.set_count(4);
    approx(value(&rebuilt, 3), 0.9);
    assert!(rebuilt.is_linked(2));
}
