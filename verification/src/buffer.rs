//! Circular delay line.
//!
//! A single-channel circular buffer of samples. `write` pushes one sample; the
//! line remembers the last `len` samples, newest first. The abstract view of a
//! line is exactly that history: `line@[d]` is the sample written `d` writes
//! ago (`d == 0` is the newest). Fractional reads interpolate between
//! `line@[d]` and `line@[d + 1]`, which [`DelayLine::neighbours`] hands out for
//! every `d <= max_delay()`.

use vstd::prelude::*;

verus! {

/// The history after pushing `sample` onto `h`: `sample` becomes the newest
/// entry, every other entry ages by one and the oldest falls off the end.
pub open spec fn pushed<S>(h: Seq<S>, sample: S) -> Seq<S>
    recommends
        h.len() > 0,
{
    seq![sample] + h.subrange(0, h.len() - 1)
}

/// The history after pushing every sample of `xs` onto `h`, in order.
pub open spec fn pushed_all<S>(h: Seq<S>, xs: Seq<S>) -> Seq<S>
    decreases xs.len(),
{
    if xs.len() == 0 {
        h
    } else {
        pushed(pushed_all(h, xs.drop_last()), xs.last())
    }
}

/// A constant history of `len` copies of `s`.
pub open spec fn silent<S>(s: S, len: nat) -> Seq<S> {
    Seq::new(len, |d: int| s)
}

/// A circular delay line. Allocate once with [`DelayLine::new`] and reuse; it
/// never reallocates while writing or reading.
pub struct DelayLine<S> {
    buffer: Vec<S>,
    /// Index the *next* written sample will occupy.
    write_pos: usize,
}

impl<S> DelayLine<S> {
    #[verifier::type_invariant]
    spec fn inv(self) -> bool {
        &&& self.buffer.len() >= 3
        &&& self.write_pos < self.buffer.len()
    }

    /// Storage slot holding the sample written `d` writes ago.
    spec fn slot(self, d: int) -> int {
        if d < self.write_pos {
            self.write_pos - 1 - d
        } else {
            self.write_pos + self.buffer.len() - 1 - d
        }
    }
}

impl<S> View for DelayLine<S> {
    type V = Seq<S>;

    /// The stored history, newest sample first.
    closed spec fn view(&self) -> Seq<S> {
        Seq::new(self.buffer.len() as nat, |d: int| self.buffer@[self.slot(d)])
    }
}

impl<S: Copy> DelayLine<S> {
    /// Create a delay line that can look back up to `max_delay_samples`, filled
    /// with `silence`.
    ///
    /// Two extra slots are allocated so that interpolation at the maximum delay
    /// (which reads `floor(delay)` and `floor(delay) + 1`) stays in bounds. A
    /// request for zero delay is treated as one.
    pub fn new(max_delay_samples: usize, silence: S) -> (line: Self)
        requires
            max_delay_samples <= usize::MAX - 2,
        ensures
            line@ == silent(silence, (if max_delay_samples < 1 { 1 } else { max_delay_samples }) as nat + 2),
    {
        let capacity = if max_delay_samples < 1 { 1 } else { max_delay_samples };
        let len = capacity + 2;
        let mut buffer: Vec<S> = Vec::new();
        while buffer.len() < len
            invariant
                buffer.len() <= len,
                forall|i: int| 0 <= i < buffer.len() ==> buffer@[i] == silence,
            decreases len - buffer.len(),
        {
            buffer.push(silence);
        }
        let line = DelayLine { buffer, write_pos: 0 };
        assert(line@ =~= silent(silence, len as nat));
        line
    }

    /// Largest delay (in samples) that can be read back with interpolation.
    pub fn max_delay(&self) -> (m: usize)
        ensures
            m == self@.len() - 2,
            m >= 1,
            m <= usize::MAX - 2,
    {
        proof { use_type_invariant(self); }
        self.buffer.len() - 2
    }

    /// Overwrite the whole history with `silence` and reset the write head.
    /// Call on transport changes to avoid bleeding stale audio.
    pub fn reset(&mut self, silence: S)
        ensures
            final(self)@ == silent(silence, old(self)@.len()),
        no_unwind
    {
        proof { use_type_invariant(&*self); }
        let len = self.buffer.len();
        let mut i: usize = 0;
        while i < len
            invariant
                len == self.buffer.len(),
                len >= 3,
                self.write_pos < len,
                i <= len,
                forall|j: int| 0 <= j < i ==> self.buffer@[j] == silence,
            decreases len - i,
        {
            self.buffer[i] = silence;
            i = i + 1;
        }
        self.write_pos = 0;
        assert(self@ =~= silent(silence, len as nat));
    }

    /// Push one sample. The most recently written sample is the one read back
    /// at delay `0`; every older sample moves one step further back.
    pub fn write(&mut self, sample: S)
        ensures
            final(self)@ == pushed(old(self)@, sample),
        no_unwind
    {
        proof { use_type_invariant(&*self); }
        let ghost before = self@;
        let pos = self.write_pos;
        let len = self.buffer.len();
        self.buffer[pos] = sample;
        let next = if pos + 1 == len { 0 } else { pos + 1 };
        self.write_pos = next;
        proof {
            let after = self@;
            let expect = pushed(before, sample);
            assert forall|d: int| 0 <= d < len implies #[trigger] after[d] == expect[d] by {
                if d > 0 {
                    assert(expect[d] == before[d - 1]);
                }
            }
            assert(after =~= expect);
        }
    }

    /// The sample written `delay` writes ago.
    pub fn sample_at(&self, delay: usize) -> (s: S)
        requires
            delay < self@.len(),
        ensures
            s == self@[delay as int],
    {
        proof { use_type_invariant(self); }
        let len = self.buffer.len();
        let idx = if delay < self.write_pos {
            self.write_pos - 1 - delay
        } else {
            self.write_pos + (len - 1 - delay)
        };
        self.buffer[idx]
    }

    /// The interpolation pair for a delay between `delay` and `delay + 1`: the
    /// newer neighbour (written `delay` writes ago) and the older one.
    pub fn neighbours(&self, delay: usize) -> (pair: (S, S))
        requires
            delay <= self@.len() - 2,
        ensures
            pair.0 == self@[delay as int],
            pair.1 == self@[delay + 1],
    {
        (self.sample_at(delay), self.sample_at(delay + 1))
    }
}

/// The newest sample of a history is the one just written.
pub proof fn lemma_newest_is_last_written<S>(h: Seq<S>, sample: S)
    requires
        h.len() > 0,
    ensures
        pushed(h, sample).len() == h.len(),
        pushed(h, sample)[0] == sample,
        forall|d: int| 0 < d < h.len() ==> #[trigger] pushed(h, sample)[d] == h[d - 1],
{
}

/// Reading back a sequence of writes: after pushing `xs` onto a history `h`,
/// the sample at delay `d` is the `d`-th most recent of `xs` while `d` is
/// within `xs`, and the older history of `h` beyond that, up to the length of
/// the line. In particular integer delays read back exactly what was written,
/// and a line read before it has filled returns what it was filled with.
pub proof fn lemma_writes_read_back<S>(h: Seq<S>, xs: Seq<S>)
    requires
        h.len() > 0,
    ensures
        pushed_all(h, xs).len() == h.len(),
        forall|d: int|
            0 <= d < h.len() && d < xs.len() ==> #[trigger] pushed_all(h, xs)[d] == xs[xs.len() - 1
                - d],
        forall|d: int|
            0 <= d < h.len() && xs.len() <= d ==> #[trigger] pushed_all(h, xs)[d] == h[d
                - xs.len()],
    decreases xs.len(),
{
    if xs.len() > 0 {
        let prev = xs.drop_last();
        lemma_writes_read_back(h, prev);
        let before = pushed_all(h, prev);
        let after = pushed_all(h, xs);
        assert(after == pushed(before, xs.last()));
        assert forall|d: int| 0 <= d < h.len() && d < xs.len() implies #[trigger] after[d]
            == xs[xs.len() - 1 - d] by {
            if d > 0 {
                assert(after[d] == before[d - 1]);
                assert(prev[prev.len() - 1 - (d - 1)] == xs[xs.len() - 1 - d]);
            }
        }
        assert forall|d: int| 0 <= d < h.len() && xs.len() <= d implies #[trigger] after[d] == h[d
            - xs.len()] by {
            assert(after[d] == before[d - 1]);
        }
    }
}

/// After a reset every delay reads back the silence the line was reset with,
/// however much audio had been written before.
pub proof fn lemma_reset_is_silent<S>(s: S, len: nat, d: int)
    requires
        0 <= d < len,
    ensures
        silent(s, len)[d] == s,
{
}

/// A reset line is indistinguishable from a fresh line built with its
/// `max_delay()`: the same history now, and the same history after any
/// sequence of writes to both.
pub proof fn lemma_reset_matches_fresh<S>(len: nat, s: S, xs: Seq<S>)
    requires
        len >= 3,
    ensures
        ({
            let m = (len - 2) as nat;
            let fresh_len = (if m < 1 { 1 } else { m }) + 2;
            &&& fresh_len == len
            &&& silent(s, len) == silent(s, fresh_len as nat)
            &&& pushed_all(silent(s, len), xs) == pushed_all(silent(s, fresh_len as nat), xs)
        }),
{
}

} // verus!
