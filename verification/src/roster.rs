//! Lifecycle of the engine's tap slots.
//!
//! The engine keeps one slot per tap, carrying that tap's smoothed gain and
//! pan. When the tap set is replaced, existing slots (by index) keep their
//! smoother state so gain and pan ramp from where they were; new slots are
//! appended and fade in; slots past the new length are marked *dying* and fade
//! their gain to zero, and a dying slot at the end is dropped only once it has
//! faded out. Neither a count increase nor a decrease clicks.
//!
//! [`TapRoster`] is that bookkeeping: one *dying* flag per slot. The engine
//! owns the slots themselves and reports which have faded out.

use vstd::prelude::*;

verus! {

/// How many slots survive collection: trailing slots that are both dying and
/// faded out are dropped, stopping at the first one that is not.
pub open spec fn kept_after_collect(dying: Seq<bool>, faded: Seq<bool>, n: nat) -> nat
    decreases n,
{
    if n == 0 {
        0
    } else if dying[n - 1] && faded[n - 1] {
        kept_after_collect(dying, faded, (n - 1) as nat)
    } else {
        n
    }
}

/// The dying flags after retargeting to `requested` taps when `kept` slots
/// survived collection: the first `requested` slots are live, any surviving
/// slot beyond them is dying.
pub open spec fn retargeted(kept: nat, requested: nat) -> Seq<bool> {
    Seq::new(if kept > requested { kept } else { requested }, |i: int| i >= requested)
}

/// One dying flag per engine tap slot.
pub struct TapRoster {
    dying: Vec<bool>,
}

impl View for TapRoster {
    type V = Seq<bool>;

    /// `self@[i]` is whether slot `i` is fading out after removal.
    closed spec fn view(&self) -> Seq<bool> {
        self.dying@
    }
}

impl TapRoster {
    /// No slots.
    pub fn new() -> (r: Self)
        ensures
            r@ == Seq::<bool>::empty(),
    {
        TapRoster { dying: Vec::new() }
    }

    /// Number of slots, including any still fading out after removal.
    pub fn num_taps(&self) -> (n: usize)
        ensures
            n == self@.len(),
    {
        self.dying.len()
    }

    /// Pre-allocate room for `max_taps` slots so retargeting up to that many
    /// taps never allocates.
    pub fn reserve_taps(&mut self, max_taps: usize)
        ensures
            final(self)@ == old(self)@,
    {
        if max_taps > self.dying.len() {
            self.dying.reserve(max_taps - self.dying.len());
        }
    }

    /// Replace the tap set with `requested` taps. `faded[i]` tells whether
    /// slot `i` has faded out. Returns how many slots survived collection:
    /// the engine drops the rest, updates slots below `requested`, appends
    /// new ones up to `requested`, and fades out the survivors beyond it.
    pub fn retarget(&mut self, faded: &Vec<bool>, requested: usize) -> (kept: usize)
        requires
            faded@.len() == old(self)@.len(),
        ensures
            kept == kept_after_collect(old(self)@, faded@, old(self)@.len()),
            final(self)@ == retargeted(kept as nat, requested as nat),
    {
        let ghost start = self.dying@;
        // Collect trailing slots that have finished fading out.
        let mut kept = self.dying.len();
        while kept > 0 && self.dying[kept - 1] && faded[kept - 1]
            invariant
                self.dying@ == start,
                faded@.len() == start.len(),
                kept <= start.len(),
                kept_after_collect(start, faded@, kept as nat) == kept_after_collect(
                    start,
                    faded@,
                    start.len(),
                ),
            decreases kept,
        {
            kept = kept - 1;
        }
        self.dying.truncate(kept);
        // Revive or append the requested slots.
        let mut i: usize = 0;
        while i < requested
            invariant
                kept <= start.len(),
                i <= requested,
                self.dying.len() == if i > kept { i } else { kept },
                forall|j: int| 0 <= j < i ==> !self.dying@[j],
            decreases requested - i,
        {
            if i < self.dying.len() {
                self.dying.set(i, false);
            } else {
                self.dying.push(false);
            }
            i = i + 1;
        }
        // Any remaining surviving slots are removed taps: fade them out.
        let mut j: usize = requested;
        while j < self.dying.len()
            invariant
                requested <= j,
                self.dying.len() == if requested > kept { requested } else { kept },
                forall|k: int| 0 <= k < requested ==> !self.dying@[k],
                forall|k: int| requested <= k < j ==> self.dying@[k],
            decreases self.dying.len() - j,
        {
            self.dying.set(j, true);
            j = j + 1;
        }
        assert(self.dying@ =~= retargeted(kept as nat, requested as nat));
        kept
    }
}

/// Collection never keeps more slots than there are, and never drops a slot
/// that is still sounding or still live: every slot beyond the kept prefix is
/// dying and has faded out.
pub proof fn lemma_collect_drops_only_faded(dying: Seq<bool>, faded: Seq<bool>, n: nat)
    requires
        n <= dying.len(),
        n <= faded.len(),
    ensures
        kept_after_collect(dying, faded, n) <= n,
        forall|i: int|
            kept_after_collect(dying, faded, n) <= i < n ==> #[trigger] dying[i] && faded[i],
        kept_after_collect(dying, faded, n) > 0 ==> !(dying[kept_after_collect(dying, faded, n)
            - 1] && faded[kept_after_collect(dying, faded, n) - 1]),
    decreases n,
{
    if n > 0 && dying[n - 1] && faded[n - 1] {
        lemma_collect_drops_only_faded(dying, faded, (n - 1) as nat);
    }
}

/// A removed tap is retained while it fades: if the last slot has not faded
/// out yet, retargeting to fewer taps keeps every slot.
pub proof fn lemma_fading_slot_is_retained(dying: Seq<bool>, faded: Seq<bool>, requested: nat)
    requires
        dying.len() == faded.len(),
        dying.len() > 0,
        !faded[dying.len() - 1],
        requested <= dying.len(),
    ensures
        retargeted(kept_after_collect(dying, faded, dying.len()), requested).len() == dying.len(),
{
}

/// Once every removed slot has faded out, the next retarget to the same taps
/// drops them: exactly the requested slots remain, all live.
pub proof fn lemma_faded_slots_are_dropped(dying: Seq<bool>, faded: Seq<bool>, requested: nat)
    requires
        dying.len() == faded.len(),
        forall|i: int| requested <= i < dying.len() ==> #[trigger] dying[i] && faded[i],
    ensures
        retargeted(kept_after_collect(dying, faded, dying.len()), requested).len() == requested,
        forall|i: int|
            0 <= i < requested ==> !#[trigger] retargeted(
                kept_after_collect(dying, faded, dying.len()),
                requested,
            )[i],
{
    lemma_collect_drops_only_faded(dying, faded, dying.len());
    let kept = kept_after_collect(dying, faded, dying.len());
    if kept > requested {
        assert(dying[kept - 1] && faded[kept - 1]);
    }
}

/// The slot lifecycle of one retarget: afterwards there are at least the
/// requested slots and never more than before or requested; the first
/// `requested` slots are live and the rest are removed taps fading out; and
/// every slot that was dropped had been removed earlier and had faded out.
pub proof fn lemma_retarget_lifecycle(dying: Seq<bool>, faded: Seq<bool>, requested: nat)
    requires
        dying.len() == faded.len(),
    ensures
        ({
            let kept = kept_after_collect(dying, faded, dying.len());
            let after = retargeted(kept, requested);
            &&& requested <= after.len()
            &&& after.len() <= if dying.len() > requested { dying.len() } else { requested }
            &&& forall|i: int| 0 <= i < requested ==> !#[trigger] after[i]
            &&& forall|i: int| requested <= i < after.len() ==> #[trigger] after[i]
            &&& forall|i: int| kept <= i < dying.len() ==> #[trigger] dying[i] && faded[i]
        }),
{
    lemma_collect_drops_only_faded(dying, faded, dying.len());
}

} // verus!
