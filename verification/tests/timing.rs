use delay_core::axis::{label_stride, tick_indices};
use delay_core::{Beats, NoteDivision};

fn beats_f32(d: NoteDivision) -> f32 {
    let b = d.beats();
    b.numer as f32 / b.denom as f32
}

#[test]
fn note_divisions_in_quarter_beats() {
    assert_eq!(NoteDivision::Whole.beats(), Beats { numer: 4, denom: 1 });
    assert_eq!(NoteDivision::DottedQuarter.beats(), Beats { numer: 3, denom: 2 });
    assert_eq!(NoteDivision::QuarterTriplet.beats(), Beats { numer: 2, denom: 3 });
    assert_eq!(NoteDivision::SixteenthTriplet.beats(), Beats { numer: 1, denom: 6 });
    assert_eq!(beats_f32(NoteDivision::Half), 2.0);
    assert_eq!(beats_f32(NoteDivision::Quarter), 1.0);
    assert_eq!(beats_f32(NoteDivision::DottedEighth), 0.75);
    assert_eq!(beats_f32(NoteDivision::Eighth), 0.5);
    assert_eq!(beats_f32(NoteDivision::EighthTriplet), 1.0 / 3.0);
    assert_eq!(beats_f32(NoteDivision::Sixteenth), 0.25);
}

#[test]
fn dotted_and_triplet_values_scale_the_plain_one() {
    let q = beats_f32(NoteDivision::Quarter);
    assert_eq!(beats_f32(NoteDivision::DottedQuarter), q * 1.5);
    assert!((beats_f32(NoteDivision::QuarterTriplet) - q * 2.0 / 3.0).abs() < 1e-6);
}

#[test]
fn axis_stride_aims_for_six_labels() {
    assert_eq!(label_stride(0), 1);
    assert_eq!(label_stride(1), 1);
    assert_eq!(label_stride(6), 1);
    assert_eq!(label_stride(7), 2);
    assert_eq!(label_stride(8), 2);
    assert_eq!(label_stride(128), 22);
}

#[test]
fn axis_ticks_start_at_zero_and_stay_few() {
    assert_eq!(tick_indices(0), Vec::<usize>::new());
    assert_eq!(tick_indices(1), vec![0]);
    assert_eq!(tick_indices(8), vec![0, 2, 4, 6]);
    assert_eq!(tick_indices(13), vec![0, 3, 6, 9, 12]);
    for count in 1..=128usize {
        let ticks = tick_indices(count);
        assert!(!ticks.is_empty() && ticks.len() <= 6, "{count}: {ticks:?}");
        assert_eq!(ticks[0], 0);
        assert!(*ticks.last().unwrap() < count);
    }
}
