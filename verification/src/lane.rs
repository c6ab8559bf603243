//! Lane link model (the spine of the design).
//!
//! A **lane** is a source + `N` discrete taps that sample it + per-tap detach
//! overrides. Each tap is either
//!
//! - **linked**: its value is whatever the source gives at that tap, so
//!   editing the source moves every linked tap at once, or
//! - **detached**: its value is a stored override that ignores the source.
//!
//! The lane is generic over the source description `S` and the value type
//! `V`; evaluating a source at a tap is the caller's business, and
//! [`Lane::resolve`] decides which of the sourced value and the override a tap
//! takes.
//!
//! Tap-count changes follow one rule: growing the lane appends taps, shrinking
//! it removes them from the end, and a removed tap's state is kept so growing
//! the lane again restores it. Taps that never existed start linked.

use vstd::prelude::*;

verus! {

/// The abstract state of a lane.
///
/// `taps[i]` is the state of active tap `i`: `None` when it is linked,
/// `Some(v)` when it is detached at `v`. `retained` holds the states of the
/// taps removed by shrinking the lane, in index order: `retained[0]` belongs
/// to tap `taps.len()`.
#[verifier::ext_equal]
pub struct LaneModel<S, V> {
    pub source: S,
    pub min: V,
    pub max: V,
    pub taps: Seq<Option<V>>,
    pub retained: Seq<Option<V>>,
}

impl<S, V> LaneModel<S, V> {
    /// Number of active taps.
    pub open spec fn count(self) -> nat {
        self.taps.len()
    }

    /// Every tap state the lane remembers, active ones first.
    pub open spec fn stored(self) -> Seq<Option<V>> {
        self.taps + self.retained
    }

    /// The override of tap `i`; `None` for a linked tap or an index that is
    /// not an active tap.
    pub open spec fn override_at(self, i: int) -> Option<V> {
        if 0 <= i < self.taps.len() {
            self.taps[i]
        } else {
            None
        }
    }

    /// Whether tap `i` is an active tap that follows the source.
    pub open spec fn linked(self, i: int) -> bool {
        0 <= i < self.taps.len() && self.taps[i] is None
    }

    /// What tap `i` takes when the source gives `sourced` there.
    pub open spec fn resolve(self, i: int, sourced: V) -> V {
        match self.override_at(i) {
            Some(v) => v,
            None => sourced,
        }
    }

    /// A lane with `count` linked taps and nothing retained.
    pub open spec fn fresh(source: S, min: V, max: V, count: nat) -> Self {
        LaneModel { source, min, max, taps: Seq::new(count, |i: int| None), retained: Seq::empty() }
    }

    /// The remembered states padded with linked taps up to length `n`.
    pub open spec fn padded(self, n: nat) -> Seq<Option<V>> {
        if n > self.stored().len() {
            self.stored() + Seq::new((n - self.stored().len()) as nat, |i: int| None)
        } else {
            self.stored()
        }
    }

    /// The lane after setting its tap count to `n`.
    pub open spec fn with_count(self, n: nat) -> Self {
        LaneModel {
            source: self.source,
            min: self.min,
            max: self.max,
            taps: self.padded(n).take(n as int),
            retained: self.padded(n).skip(n as int),
        }
    }

    /// The lane with active tap `i` set to state `o`; unchanged when `i` is
    /// not an active tap.
    pub open spec fn with_state(self, i: int, o: Option<V>) -> Self {
        if 0 <= i < self.taps.len() {
            LaneModel { taps: self.taps.update(i, o), ..self }
        } else {
            self
        }
    }

    /// The lane with every remembered tap linked again.
    pub open spec fn all_linked(self) -> Self {
        LaneModel {
            taps: Seq::new(self.taps.len(), |i: int| None),
            retained: Seq::new(self.retained.len(), |i: int| None),
            ..self
        }
    }
}

/// Normalized position of tap `index` among `count` taps, as the exact
/// fraction `numer / denom`: taps are spread evenly from `0` (the first) to
/// `1` (the last), and a single tap sits at the start.
pub open spec fn position_spec(index: nat, count: nat) -> (nat, nat) {
    if count <= 1 {
        (0, 1)
    } else {
        (index, (count - 1) as nat)
    }
}

/// Normalized position of tap `index` among `count` taps, as the exact
/// fraction `(numer, denom)`.
pub fn tap_position(index: usize, count: usize) -> (pos: (usize, usize))
    ensures
        pos.0 == position_spec(index as nat, count as nat).0,
        pos.1 == position_spec(index as nat, count as nat).1,
        pos.1 > 0,
{
    if count <= 1 {
        (0, 1)
    } else {
        (index, count - 1)
    }
}

/// Every active tap lies within the source's domain `[0, 1]`: the first at 0,
/// the last at 1 once there are at least two taps.
pub proof fn lemma_positions_span_unit(count: nat, index: nat)
    requires
        index < count,
    ensures
        position_spec(index, count).1 > 0,
        position_spec(index, count).0 <= position_spec(index, count).1,
        index == 0 ==> position_spec(index, count).0 == 0,
        count >= 2 && index == count - 1 ==> position_spec(index, count).0 == position_spec(
            index,
            count,
        ).1,
{
}

/// A parameter lane: a source plus taps that sample it.
pub struct Lane<S, V> {
    source: S,
    /// Resolved values are meant to be clamped to this inclusive range.
    min: V,
    max: V,
    /// Active taps, `None` when linked.
    taps: Vec<Option<V>>,
    /// States of the taps removed by shrinking the lane, in index order.
    retained: Vec<Option<V>>,
}

impl<S, V> View for Lane<S, V> {
    type V = LaneModel<S, V>;

    closed spec fn view(&self) -> LaneModel<S, V> {
        LaneModel {
            source: self.source,
            min: self.min,
            max: self.max,
            taps: self.taps@,
            retained: self.retained@,
        }
    }
}

impl<S: Copy, V: Copy> Lane<S, V> {
    /// Create a lane with `count` linked taps and the range `range`.
    pub fn new(source: S, range: (V, V), count: usize) -> (lane: Self)
        ensures
            lane@ == LaneModel::fresh(source, range.0, range.1, count as nat),
    {
        let mut taps: Vec<Option<V>> = Vec::new();
        while taps.len() < count
            invariant
                taps.len() <= count,
                forall|i: int| 0 <= i < taps.len() ==> taps@[i] is None,
            decreases count - taps.len(),
        {
            taps.push(None);
        }
        let lane = Lane { source, min: range.0, max: range.1, taps, retained: Vec::new() };
        assert(lane@ =~= LaneModel::fresh(source, range.0, range.1, count as nat));
        lane
    }

    /// Rebuild a lane from remembered tap states (as returned by
    /// [`Lane::stored_states`]): every state becomes an active tap, nothing is
    /// retained. Shrinking the lane afterwards retains the removed states.
    pub fn from_states(source: S, range: (V, V), states: Vec<Option<V>>) -> (lane: Self)
        ensures
            lane@ == (LaneModel {
                source,
                min: range.0,
                max: range.1,
                taps: states@,
                retained: Seq::<Option<V>>::empty(),
            }),
    {
        let lane = Lane { source, min: range.0, max: range.1, taps: states, retained: Vec::new() };
        assert(lane@.retained =~= Seq::<Option<V>>::empty());
        lane
    }

    /// Every tap state the lane remembers, active taps first, then the taps
    /// retained after shrinking, in index order: `None` for a linked tap,
    /// `Some(v)` for one detached at `v`.
    pub fn stored_states(&self) -> (states: Vec<Option<V>>)
        ensures
            states@ == self@.stored(),
    {
        let mut states: Vec<Option<V>> = Vec::new();
        let mut i: usize = 0;
        while i < self.taps.len()
            invariant
                i <= self.taps.len(),
                states@ == self.taps@.take(i as int),
            decreases self.taps.len() - i,
        {
            states.push(self.taps[i]);
            i = i + 1;
            assert(states@ =~= self.taps@.take(i as int));
        }
        let mut k: usize = 0;
        while k < self.retained.len()
            invariant
                k <= self.retained.len(),
                states@ == self.taps@ + self.retained@.take(k as int),
            decreases self.retained.len() - k,
        {
            states.push(self.retained[k]);
            k = k + 1;
            assert(states@ =~= self.taps@ + self.retained@.take(k as int));
        }
        assert(self.taps@.take(self.taps.len() as int) =~= self.taps@);
        assert(self.retained@.take(self.retained.len() as int) =~= self.retained@);
        states
    }

    /// Number of active taps.
    pub fn count(&self) -> (n: usize)
        ensures
            n == self@.count(),
    {
        self.taps.len()
    }

    /// The current source.
    pub fn source(&self) -> (s: S)
        ensures
            s == self@.source,
    {
        self.source
    }

    /// Replace the source. Linked taps follow the new source from now on;
    /// detached taps keep their overrides.
    pub fn set_source(&mut self, source: S)
        ensures
            final(self)@ == (LaneModel { source, ..old(self)@ }),
    {
        self.source = source;
    }

    /// The inclusive range resolved values are clamped to, `(min, max)`.
    pub fn range(&self) -> (r: (V, V))
        ensures
            r == (self@.min, self@.max),
    {
        (self.min, self.max)
    }

    /// Replace the clamping range; tap states are untouched.
    pub fn set_range(&mut self, min: V, max: V)
        ensures
            final(self)@ == (LaneModel { min, max, ..old(self)@ }),
    {
        self.min = min;
        self.max = max;
    }

    /// Whether tap `index` is an active tap linked to the source.
    pub fn is_linked(&self, index: usize) -> (b: bool)
        ensures
            b == self@.linked(index as int),
    {
        if index < self.taps.len() {
            self.taps[index].is_none()
        } else {
            false
        }
    }

    /// The value tap `index` takes when the source gives `sourced` there: its
    /// override when detached, `sourced` when linked or not an active tap.
    /// The caller clamps the result to [`Lane::range`].
    pub fn resolve(&self, index: usize, sourced: V) -> (v: V)
        ensures
            v == self@.resolve(index as int, sourced),
    {
        if index < self.taps.len() {
            match self.taps[index] {
                Some(v) => v,
                None => sourced,
            }
        } else {
            sourced
        }
    }

    /// Detach tap `index`, freezing it at `current`, the value it resolves to
    /// right now, so it does not jump. No-op if it is already detached or not
    /// an active tap.
    pub fn detach(&mut self, index: usize, current: V)
        ensures
            final(self)@ == if old(self)@.linked(index as int) {
                old(self)@.with_state(index as int, Some(current))
            } else {
                old(self)@
            },
    {
        if index < self.taps.len() && self.taps[index].is_none() {
            self.taps.set(index, Some(current));
            assert(self@ =~= old(self)@.with_state(index as int, Some(current)));
        }
    }

    /// Relink tap `index` so it follows the source again. No-op if it is not
    /// an active tap.
    pub fn relink(&mut self, index: usize)
        ensures
            final(self)@ == old(self)@.with_state(index as int, None),
    {
        if index < self.taps.len() {
            self.taps.set(index, None);
            assert(self@ =~= old(self)@.with_state(index as int, None));
        }
    }

    /// Set tap `index` to an explicit value, detaching it if needed. This is
    /// what dragging a tap calls. No-op if it is not an active tap.
    pub fn set_tap_value(&mut self, index: usize, value: V)
        ensures
            final(self)@ == old(self)@.with_state(index as int, Some(value)),
    {
        if index < self.taps.len() {
            self.taps.set(index, Some(value));
            assert(self@ =~= old(self)@.with_state(index as int, Some(value)));
        }
    }

    /// Relink every tap, retained ones included, discarding all manual edits.
    pub fn relink_all(&mut self)
        ensures
            final(self)@ == old(self)@.all_linked(),
    {
        let mut i: usize = 0;
        while i < self.taps.len()
            invariant
                self.taps.len() == old(self).taps.len(),
                self.retained@ == old(self).retained@,
                self.source == old(self).source,
                self.min == old(self).min,
                self.max == old(self).max,
                i <= self.taps.len(),
                forall|j: int| 0 <= j < i ==> self.taps@[j] is None,
            decreases self.taps.len() - i,
        {
            self.taps.set(i, None);
            i = i + 1;
        }
        let mut k: usize = 0;
        while k < self.retained.len()
            invariant
                self.taps.len() == old(self).taps.len(),
                self.retained.len() == old(self).retained.len(),
                self.source == old(self).source,
                self.min == old(self).min,
                self.max == old(self).max,
                k <= self.retained.len(),
                forall|j: int| 0 <= j < self.taps.len() ==> self.taps@[j] is None,
                forall|j: int| 0 <= j < k ==> self.retained@[j] is None,
            decreases self.retained.len() - k,
        {
            self.retained.set(k, None);
            k = k + 1;
        }
        assert(self@ =~= old(self)@.all_linked());
    }

    /// Set the number of active taps. Growing appends taps at the end (a tap
    /// removed earlier comes back with its retained state, a new one starts
    /// linked); shrinking removes taps from the end and retains their state.
    pub fn set_count(&mut self, count: usize)
        ensures
            final(self)@ == old(self)@.with_count(count as nat),
    {
        let ghost all = old(self)@.stored();
        while self.taps.len() > count
            invariant
                self.taps@ + self.retained@ == all,
                self.source == old(self).source,
                self.min == old(self).min,
                self.max == old(self).max,
            decreases self.taps.len(),
        {
            let last = self.taps.pop().unwrap();
            self.retained.insert(0, last);
            proof {
                let t = self.taps@;
                let r = self.retained@;
                assert(t + r =~= all);
            }
        }
        let ghost target = old(self)@.padded(count as nat);
        while self.taps.len() < count
            invariant
                self.taps.len() <= count,
                self.taps.len() + self.retained.len() == if self.taps.len() > all.len() {
                    self.taps.len() as int
                } else {
                    all.len() as int
                },
                self.taps@ + self.retained@ == target.take(self.taps.len() + self.retained.len()),
                all == old(self)@.stored(),
                target == old(self)@.padded(count as nat),
                self.source == old(self).source,
                self.min == old(self).min,
                self.max == old(self).max,
            decreases count - self.taps.len(),
        {
            if self.retained.len() > 0 {
                let first = self.retained.remove(0);
                self.taps.push(first);
                proof {
                    assert(self.taps@ + self.retained@ =~= target.take(
                        self.taps.len() + self.retained.len(),
                    ));
                }
            } else {
                self.taps.push(None);
                proof {
                    assert(self.taps@ + self.retained@ =~= target.take(
                        self.taps.len() + self.retained.len(),
                    ));
                }
            }
        }
        proof {
            let t = self.taps@;
            let r = self.retained@;
            let n = count as int;
            assert(t.len() == n);
            assert(target.len() == t.len() + r.len());
            assert(target.take(target.len() as int) =~= target);
            assert(t + r =~= target);
            assert forall|k: int| 0 <= k < r.len() implies r[k] == target[n + k] by {
                assert((t + r)[n + k] == r[k]);
            }
            assert(t =~= target.take(n));
            assert(r =~= target.skip(n));
        }
    }
}

/// Shrinking or growing the lane and then going back to the old tap count
/// restores every active tap exactly: edits survive a count round trip.
pub proof fn lemma_count_round_trip<S, V>(lane: LaneModel<S, V>, n: nat)
    ensures
        lane.with_count(n).with_count(lane.count()).taps == lane.taps,
{
    let mid = lane.with_count(n);
    let back = mid.with_count(lane.count());
    assert(mid.stored() =~= lane.padded(n));
    assert(back.taps =~= lane.taps);
}

/// Changing the tap count never alters a tap that stays active, and a tap that
/// becomes active takes its retained state, or starts linked when it never
/// existed before.
pub proof fn lemma_count_change_keeps_states<S, V>(lane: LaneModel<S, V>, n: nat, i: int)
    requires
        0 <= i < n,
    ensures
        i < lane.count() ==> lane.with_count(n).taps[i] == lane.taps[i],
        lane.count() <= i < lane.stored().len() ==> lane.with_count(n).taps[i] == lane.retained[i
            - lane.count()],
        lane.stored().len() <= i ==> lane.with_count(n).taps[i] is None,
{
}

/// Editing the source moves every linked tap and leaves every detached one:
/// a linked tap resolves to whatever the source gives it, a detached tap to
/// its override whatever the source gives it.
pub proof fn lemma_source_edits_move_only_linked<S, V>(
    lane: LaneModel<S, V>,
    source: S,
    i: int,
    sourced: V,
)
    ensures
        (LaneModel { source, ..lane }).resolve(i, sourced) == lane.resolve(i, sourced),
        lane.linked(i) ==> lane.resolve(i, sourced) == sourced,
        (0 <= i < lane.count() && !lane.linked(i)) ==> lane.resolve(i, sourced)
            == lane.taps[i].unwrap(),
{
}

/// Detaching freezes a linked tap at the value it had (setting a tap's value
/// by dragging it is the same edit with the dragged value); relinking makes
/// it follow the source again and undoes the edit.
pub proof fn lemma_detach_then_relink<S, V>(lane: LaneModel<S, V>, i: int, current: V, sourced: V)
    requires
        lane.linked(i),
    ensures
        !lane.with_state(i, Some(current)).linked(i),
        lane.with_state(i, Some(current)).resolve(i, sourced) == current,
        lane.with_state(i, Some(current)).with_state(i, None).linked(i),
        lane.with_state(i, Some(current)).with_state(i, None).resolve(i, sourced) == sourced,
        lane.with_state(i, Some(current)).with_state(i, None) == lane,
{
    assert(lane.with_state(i, Some(current)).with_state(i, None).taps =~= lane.taps);
}

/// Editing one tap leaves every other tap as it was.
pub proof fn lemma_edits_are_local<S, V>(lane: LaneModel<S, V>, i: int, o: Option<V>, j: int, sourced: V)
    requires
        i != j,
    ensures
        lane.with_state(i, o).resolve(j, sourced) == lane.resolve(j, sourced),
        lane.with_state(i, o).linked(j) == lane.linked(j),
{
}

/// Saving the remembered states and rebuilding from them loses no edit: the
/// rebuilt lane remembers exactly the same states, and taking it back to the
/// old tap count gives back the same active taps and retained states.
pub proof fn lemma_states_round_trip<S, V>(lane: LaneModel<S, V>)
    ensures
        ({
            let rebuilt = LaneModel {
                source: lane.source,
                min: lane.min,
                max: lane.max,
                taps: lane.stored(),
                retained: Seq::<Option<V>>::empty(),
            };
            &&& rebuilt.stored() == lane.stored()
            &&& rebuilt.with_count(lane.count()) == lane
        }),
{
    let rebuilt = LaneModel {
        source: lane.source,
        min: lane.min,
        max: lane.max,
        taps: lane.stored(),
        retained: Seq::<Option<V>>::empty(),
    };
    assert(rebuilt.stored() =~= lane.stored());
    let back = rebuilt.with_count(lane.count());
    assert(rebuilt.padded(lane.count()) =~= lane.stored());
    assert(back.taps =~= lane.taps);
    assert(back.retained =~= lane.retained);
}

/// Taps are evenly spaced along the source: the first sits at 0, each next
/// tap is one step further, every tap shares one denominator, the last one
/// sits at 1, and a lone tap sits at the start.
pub proof fn lemma_positions_evenly_spaced(count: nat, index: nat)
    ensures
        count >= 2 && index + 1 < count ==> position_spec(index + 1, count).0 == position_spec(
            index,
            count,
        ).0 + 1,
        count >= 2 ==> position_spec(index, count).1 == count - 1,
        count >= 2 ==> position_spec(0, count).0 == 0,
        count >= 2 ==> position_spec((count - 1) as nat, count).0 == count - 1,
        count <= 1 ==> position_spec(index, count) == (0nat, 1nat),
{
}

/// Setting an active tap's value makes it resolve to that value, whatever its
/// state before (linked, or detached at an earlier value), and detaches it;
/// a later set wins over an earlier one; no other tap and not the tap count
/// change.
pub proof fn lemma_set_value_wins<S, V>(lane: LaneModel<S, V>, i: int, v: V, w: V, sourced: V, j: int)
    requires
        0 <= i < lane.count(),
    ensures
        lane.with_state(i, Some(v)).resolve(i, sourced) == v,
        !lane.with_state(i, Some(v)).linked(i),
        lane.with_state(i, Some(v)).with_state(i, Some(w)).resolve(i, sourced) == w,
        lane.with_state(i, Some(v)).count() == lane.count(),
        j != i ==> lane.with_state(i, Some(v)).resolve(j, sourced) == lane.resolve(j, sourced),
        lane.with_state(i, None).linked(i),
        lane.with_state(i, None).resolve(i, sourced) == sourced,
{
}

/// After relinking all, every active tap is linked and resolves to whatever
/// the source gives it, every retained state is linked too, and the tap count
/// and the number of remembered taps are unchanged.
pub proof fn lemma_relink_all_discards_edits<S, V>(lane: LaneModel<S, V>, i: int, k: int, sourced: V)
    ensures
        lane.all_linked().count() == lane.count(),
        lane.all_linked().stored().len() == lane.stored().len(),
        0 <= i < lane.count() ==> lane.all_linked().linked(i),
        lane.all_linked().resolve(i, sourced) == sourced,
        0 <= k < lane.stored().len() ==> lane.all_linked().stored()[k] is None,
{
}

/// A count change never drops a remembered state: afterwards the lane has
/// `n` active taps, remembers every state it remembered before at the same
/// index, and remembers exactly up to the larger of the old length and `n`,
/// the new ones linked.
pub proof fn lemma_count_change_keeps_memory<S, V>(lane: LaneModel<S, V>, n: nat, k: int)
    ensures
        lane.with_count(n).count() == n,
        lane.with_count(n).stored().len() == if n > lane.stored().len() {
            n
        } else {
            lane.stored().len()
        },
        0 <= k < lane.stored().len() ==> lane.with_count(n).stored()[k] == lane.stored()[k],
        lane.stored().len() <= k < n ==> lane.with_count(n).stored()[k] is None,
{
    let after = lane.with_count(n);
    assert(after.stored() =~= lane.padded(n));
}

/// Only the final tap count matters: any sequence of count changes ends in
/// the same active taps as going there directly.
pub proof fn lemma_count_history_irrelevant<S, V>(lane: LaneModel<S, V>, a: nat, b: nat)
    ensures
        lane.with_count(a).with_count(b).taps == lane.with_count(b).taps,
        lane.with_count(a).with_count(b).count() == b,
{
    let mid = lane.with_count(a);
    assert(mid.stored() =~= lane.padded(a));
    let x = mid.with_count(b).taps;
    let y = lane.with_count(b).taps;
    assert forall|k: int| 0 <= k < b implies x[k] == y[k] by {
        assert(mid.padded(b)[k] == lane.padded(b)[k]);
    }
    assert(x =~= y);
}

} // verus!
