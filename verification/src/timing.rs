//! The exact length of each note division a tempo-synced tap spacing can use.

use vstd::prelude::*;

verus! {

/// Note division used as the tap spacing when the delay is tempo-synced.
#[derive(Clone, Copy, Debug, PartialEq, Eq, Structural)]
pub enum NoteDivision {
    Whole,
    Half,
    DottedQuarter,
    Quarter,
    QuarterTriplet,
    DottedEighth,
    Eighth,
    EighthTriplet,
    Sixteenth,
    SixteenthTriplet,
}

/// An exact length in quarter-note beats, `numer / denom`.
#[derive(Clone, Copy, Debug, PartialEq, Eq, Structural)]
pub struct Beats {
    pub numer: u32,
    pub denom: u32,
}

impl NoteDivision {
    /// Length of the division in quarter-note beats, as a pair
    /// `(numerator, denominator)` in lowest terms.
    pub open spec fn beats_spec(self) -> (int, int) {
        match self {
            NoteDivision::Whole => (4, 1),
            NoteDivision::Half => (2, 1),
            NoteDivision::DottedQuarter => (3, 2),
            NoteDivision::Quarter => (1, 1),
            NoteDivision::QuarterTriplet => (2, 3),
            NoteDivision::DottedEighth => (3, 4),
            NoteDivision::Eighth => (1, 2),
            NoteDivision::EighthTriplet => (1, 3),
            NoteDivision::Sixteenth => (1, 4),
            NoteDivision::SixteenthTriplet => (1, 6),
        }
    }

    /// Length of this division in quarter-note beats, exactly.
    pub fn beats(self) -> (b: Beats)
        ensures
            b.numer == self.beats_spec().0,
            b.denom == self.beats_spec().1,
            b.denom > 0,
    {
        match self {
            NoteDivision::Whole => Beats { numer: 4, denom: 1 },
            NoteDivision::Half => Beats { numer: 2, denom: 1 },
            NoteDivision::DottedQuarter => Beats { numer: 3, denom: 2 },
            NoteDivision::Quarter => Beats { numer: 1, denom: 1 },
            NoteDivision::QuarterTriplet => Beats { numer: 2, denom: 3 },
            NoteDivision::DottedEighth => Beats { numer: 3, denom: 4 },
            NoteDivision::Eighth => Beats { numer: 1, denom: 2 },
            NoteDivision::EighthTriplet => Beats { numer: 1, denom: 3 },
            NoteDivision::Sixteenth => Beats { numer: 1, denom: 4 },
            NoteDivision::SixteenthTriplet => Beats { numer: 1, denom: 6 },
        }
    }
}

/// Whether division `a` lasts `num / den` times as long as division `b`.
pub open spec fn lasts(a: NoteDivision, num: int, den: int, b: NoteDivision) -> bool {
    a.beats_spec().0 * b.beats_spec().1 * den == b.beats_spec().0 * a.beats_spec().1 * num
}

/// The division table follows the notation: a whole note is four beats, each
/// straight division is half the one above it, a dotted value is three halves
/// of the plain one, and a triplet two thirds of it.
pub proof fn lemma_divisions_follow_notation()
    ensures
        NoteDivision::Whole.beats_spec() == (4int, 1int),
        lasts(NoteDivision::Half, 1, 2, NoteDivision::Whole),
        lasts(NoteDivision::Quarter, 1, 2, NoteDivision::Half),
        lasts(NoteDivision::Eighth, 1, 2, NoteDivision::Quarter),
        lasts(NoteDivision::Sixteenth, 1, 2, NoteDivision::Eighth),
        lasts(NoteDivision::DottedQuarter, 3, 2, NoteDivision::Quarter),
        lasts(NoteDivision::DottedEighth, 3, 2, NoteDivision::Eighth),
        lasts(NoteDivision::QuarterTriplet, 2, 3, NoteDivision::Quarter),
        lasts(NoteDivision::EighthTriplet, 2, 3, NoteDivision::Eighth),
        lasts(NoteDivision::SixteenthTriplet, 2, 3, NoteDivision::Sixteenth),
{
}

} // verus!
