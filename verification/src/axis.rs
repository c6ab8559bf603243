//! Tick placement on the shared time axis under both lanes.
//!
//! Every tap has a position on the axis, but labelling each one would be
//! illegible at high tap counts, so only every `stride`-th tap gets a tick,
//! aiming for about six labels.

use vstd::prelude::*;

verus! {

/// Distance (in taps) between labelled ticks for `count` taps: `count / 6`
/// rounded up, and at least 1.
pub open spec fn stride_spec(count: nat) -> nat {
    if count == 0 {
        1
    } else {
        ((count + 5) / 6) as nat
    }
}

/// Number of ticks for `count` taps: the multiples of the stride below
/// `count`.
pub open spec fn tick_count_spec(count: nat) -> nat {
    ((count + stride_spec(count) - 1) / (stride_spec(count) as int)) as nat
}

/// Distance (in taps) between labelled ticks for `count` taps.
pub fn label_stride(count: usize) -> (stride: usize)
    ensures
        stride == stride_spec(count as nat),
        stride >= 1,
        stride * 6 >= count,
        stride == 1 || 6 * (stride - 1) < count,
{
    if count == 0 {
        1
    } else {
        count / 6 + if count % 6 == 0 { 0 } else { 1 }
    }
}

/// The indices of the taps that get a labelled tick: `0, stride, 2·stride, …`
/// below `count`, in increasing order.
pub fn tick_indices(count: usize) -> (ticks: Vec<usize>)
    ensures
        ticks@.len() == tick_count_spec(count as nat),
        forall|k: int| 0 <= k < ticks@.len() ==> ticks@[k] == k * stride_spec(count as nat),
{
    let stride = label_stride(count);
    let mut ticks: Vec<usize> = Vec::new();
    let mut i: usize = 0;
    assert(ticks.len() * stride == 0) by (nonlinear_arith)
        requires
            ticks.len() == 0,
    ;
    while i < count
        invariant
            stride == stride_spec(count as nat),
            stride >= 1,
            i <= count,
            i < count ==> i == ticks.len() * stride,
            i == count ==> ticks.len() * stride >= count,
            ticks.len() == 0 || (ticks.len() - 1) * stride < count,
            forall|k: int| 0 <= k < ticks@.len() ==> ticks@[k] == k * stride,
        decreases count - i,
    {
        let ghost before = ticks.len();
        ticks.push(i);
        proof {
            assert(before * stride + stride == ticks.len() * stride) by (nonlinear_arith)
                requires
                    ticks.len() == before + 1,
            ;
        }
        if count - i > stride {
            i = i + stride;
        } else {
            i = count;
        }
    }
    proof {
        let n = ticks.len() as int;
        let s = stride as int;
        let c = count as int;
        assert(n == (c + s - 1) / s) by (nonlinear_arith)
            requires
                s >= 1,
                c >= 0,
                n * s >= c,
                n == 0 || (n - 1) * s < c,
                c == 0 ==> n == 0,
        ;
    }
    ticks
}

/// The axis carries at most six labels, the first at tap 0 and the last on
/// an existing tap.
pub proof fn lemma_ticks_are_few(count: nat)
    requires
        count > 0,
    ensures
        1 <= tick_count_spec(count) <= 6,
        (tick_count_spec(count) - 1) * stride_spec(count) < count,
{
    let s = stride_spec(count) as int;
    let c = count as int;
    assert(6 * s >= c);
    assert(1 <= (c + s - 1) / s <= 6 && ((c + s - 1) / s - 1) * s < c) by (nonlinear_arith)
        requires
            s >= 1,
            c >= 1,
            6 * s >= c,
    ;
}

/// The stride is the smallest one that needs at most six labels: six strides
/// cover every tap, and one step less would not, unless the stride is 1.
pub proof fn lemma_stride_is_smallest(count: nat)
    ensures
        stride_spec(count) >= 1,
        stride_spec(count) * 6 >= count,
        stride_spec(count) == 1 || 6 * (stride_spec(count) - 1) < count,
{
}

} // verus!
