use delay_core::TapRoster;

#[test]
fn appended_taps_are_live() {
    let mut roster = TapRoster::new();
    let kept = roster.retarget(&Vec::new(), 3);
    assert_eq!(kept, 0);
    assert_eq!(roster.num_taps(), 3);
}

#[test]
fn removed_tap_is_retained_while_fading() {
    let mut roster = TapRoster::new();
    roster.retarget(&Vec::new(), 2);
    // Drop to one tap while the second is still audible.
    let kept = roster.retarget(&vec![false, false], 1);
    assert_eq!(kept, 2);
    assert_eq!(roster.num_taps(), 2, "removed tap is retained while fading");
    // Still fading on the next update: still retained.
    assert_eq!(roster.retarget(&vec![false, false], 1), 2);
    assert_eq!(roster.num_taps(), 2);
}

#[test]
fn faded_out_tap_is_dropped() {
    let mut roster = TapRoster::new();
    roster.retarget(&Vec::new(), 2);
    roster.retarget(&vec![false, false], 1);
    // Once faded, a later update garbage-collects the dead slot.
    let kept = roster.retarget(&vec![false, true], 1);
    assert_eq!(kept, 1);
    assert_eq!(roster.num_taps(), 1, "faded-out tap is dropped");
}

#[test]
fn live_slots_are_never_collected() {
    let mut roster = TapRoster::new();
    roster.retarget(&Vec::new(), 3);
    // A live slot that happens to be silent (gain 0) is not dying: kept.
    let kept = roster.retarget(&vec![true, true, true], 3);
    assert_eq!(kept, 3);
    assert_eq!(roster.num_taps(), 3);
}

#[test]
fn collection_stops_at_a_slot_still_sounding() {
    let mut roster = TapRoster::new();
    roster.retarget(&Vec::new(), 4);
    roster.retarget(&vec![false; 4], 1);
    // Slots 1..4 dying; slot 3 faded, slot 2 not yet: only slot 3 goes.
    let kept = roster.retarget(&vec![false, true, false, true], 1);
    assert_eq!(kept, 3);
    assert_eq!(roster.num_taps(), 3);
}

#[test]
fn regrowing_revives_a_dying_slot() {
    let mut roster = TapRoster::new();
    roster.retarget(&Vec::new(), 3);
    roster.retarget(&vec![false; 3], 1);
    // Back to three taps before the removed ones faded: same slots, live.
    let kept = roster.retarget(&vec![false; 3], 3);
    assert_eq!(kept, 3);
    assert_eq!(roster.num_taps(), 3);
    // Nothing is dying now, so even "faded" flags drop nothing.
    assert_eq!(roster.retarget(&vec![true; 3], 3), 3);
}

#[test]
fn reserving_keeps_the_slots() {
    let mut roster = TapRoster::new();
    roster.retarget(&Vec::new(), 2);
    roster.reserve_taps(128);
    assert_eq!(roster.num_taps(), 2);
}
