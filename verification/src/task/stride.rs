//! Stride arithmetic: strides live on a 64-bit counter that wraps around,
//! and are compared by the sign of their wrapped difference.

use vstd::prelude::*;
use crate::config::BIG_STRIDE;

verus! {

/// Half of the range of the stride counter.
pub const HALF_RANGE: u64 = 0x8000_0000_0000_0000;

/// How far `to` lies ahead of `from` when counting upward from `from` and
/// wrapping around at the top of the counter.
pub open spec fn ahead(to: u64, from: u64) -> int {
    if to >= from {
        to - from
    } else {
        to - from + 0x1_0000_0000_0000_0000
    }
}

/// Whether stride `a` comes before stride `b`: the wrapped difference
/// `a - b`, read as a signed number, is negative.
pub open spec fn stride_less(a: u64, b: u64) -> bool {
    ahead(a, b) >= HALF_RANGE
}

/// The stride of a task after it has been charged `pass` for one time slice.
pub open spec fn charged(stride: u64, pass: u64) -> u64 {
    if stride + pass > u64::MAX {
        (stride + pass - 0x1_0000_0000_0000_0000) as u64
    } else {
        (stride + pass) as u64
    }
}

/// Compares two strides on the wrapping counter.
pub fn stride_before(a: u64, b: u64) -> (less: bool)
    ensures
        less == stride_less(a, b),
{
    a.wrapping_sub(b) >= HALF_RANGE
}

/// Charges a stride with one pass, wrapping around at the top of the counter.
pub fn charge(stride: u64, pass: u64) -> (next: u64)
    ensures
        next == charged(stride, pass),
{
    stride.wrapping_add(pass)
}

/// The pass of a task of the given priority: the stride it is charged for
/// each time slice.
pub fn pass_of(priority: u64) -> (pass: u64)
    requires
        priority >= 1,
    ensures
        pass == BIG_STRIDE / priority,
        pass <= BIG_STRIDE,
{
    assert(BIG_STRIDE / priority <= BIG_STRIDE) by (nonlinear_arith)
        requires
            priority >= 1,
    ;
    BIG_STRIDE / priority
}

/// The place in `strides` of the stride that is served next: the first one
/// that no later stride comes before. A scan from the front keeps the best
/// stride seen so far and replaces it only by one that comes strictly before
/// it, so of equal strides the one nearest the front wins.
pub open spec fn least_index(strides: Seq<u64>) -> int
    decreases strides.len(),
{
    if strides.len() <= 1 {
        0
    } else {
        let best = least_index(strides.drop_last());
        if stride_less(strides.last(), strides[best]) {
            strides.len() - 1
        } else {
            best
        }
    }
}

/// Whether every stride lies at most `width` ahead of `base`.
pub open spec fn in_window(strides: Seq<u64>, base: u64, width: int) -> bool {
    forall|i: int| 0 <= i < strides.len() ==> ahead(#[trigger] strides[i], base) <= width
}

/// Whether every stride lies less than half the counter's range ahead of
/// `base`. Strides that do are ordered by the wrapping comparison as they are
/// by their distance from `base`.
pub open spec fn comparable(strides: Seq<u64>, base: u64) -> bool {
    in_window(strides, base, HALF_RANGE - 1)
}

/// The chosen place is always a place of the sequence.
pub proof fn lemma_least_index_in_range(strides: Seq<u64>)
    requires
        strides.len() > 0,
    ensures
        0 <= least_index(strides) < strides.len(),
    decreases strides.len(),
{
    if strides.len() > 1 {
        lemma_least_index_in_range(strides.drop_last());
    }
}

/// Two strides that both lie less than half the counter's range ahead of a
/// common base compare as their distances from that base do.
pub proof fn lemma_stride_less_in_window(a: u64, b: u64, base: u64)
    requires
        ahead(a, base) < HALF_RANGE,
        ahead(b, base) < HALF_RANGE,
    ensures
        stride_less(a, b) <==> ahead(a, base) < ahead(b, base),
        a == b <==> ahead(a, base) == ahead(b, base),
{
}

/// While all ready strides lie within less than half the counter's range of
/// one another, the stride that is served next is a least one under the
/// wrapping comparison: no stride comes before it. Among equal least strides
/// it is the one nearest the front: it comes strictly before every stride in
/// front of it.
pub proof fn lemma_least_index_is_minimum(strides: Seq<u64>, base: u64)
    requires
        strides.len() > 0,
        comparable(strides, base),
    ensures
        0 <= least_index(strides) < strides.len(),
        forall|j: int|
            0 <= j < strides.len() ==> !stride_less(
                #[trigger] strides[j],
                strides[least_index(strides)],
            ),
        forall|j: int|
            0 <= j < least_index(strides) ==> stride_less(
                strides[least_index(strides)],
                #[trigger] strides[j],
            ),
    decreases strides.len(),
{
    let k = least_index(strides);
    lemma_least_index_in_range(strides);
    if strides.len() > 1 {
        let front = strides.drop_last();
        let best = least_index(front);
        assert forall|i: int| 0 <= i < front.len() implies ahead(#[trigger] front[i], base)
            <= HALF_RANGE - 1 by {
            assert(front[i] == strides[i]);
        }
        lemma_least_index_is_minimum(front, base);
        assert(front[best] == strides[best]);
        lemma_stride_less_in_window(strides.last(), strides[best], base);
        assert forall|j: int| 0 <= j < strides.len() implies !stride_less(
            #[trigger] strides[j],
            strides[k],
        ) by {
            lemma_stride_less_in_window(strides[j], strides[k], base);
            if j < front.len() {
                assert(front[j] == strides[j]);
                lemma_stride_less_in_window(strides[j], strides[best], base);
            }
        }
        assert forall|j: int| 0 <= j < k implies stride_less(strides[k], #[trigger] strides[j]) by {
            lemma_stride_less_in_window(strides[k], strides[j], base);
            assert(front[j] == strides[j]);
            lemma_stride_less_in_window(strides[j], strides[best], base);
            lemma_stride_less_in_window(strides[best], strides[j], base);
        }
    }
}

/// Charging the task that is served next keeps the strides close together:
/// if every stride lay at most `BIG_STRIDE` ahead of some base and the pass
/// is at most `BIG_STRIDE`, then afterwards every stride lies at most
/// `BIG_STRIDE` ahead of the stride that was least. So the strides never
/// drift half the counter's range apart, and the wrapping comparison stays
/// an order.
pub proof fn lemma_charge_keeps_window(strides: Seq<u64>, base: u64, pass: u64)
    requires
        strides.len() > 0,
        in_window(strides, base, BIG_STRIDE as int),
        pass <= BIG_STRIDE,
    ensures
        in_window(
            strides.update(
                least_index(strides),
                charged(strides[least_index(strides)], pass),
            ),
            strides[least_index(strides)],
            BIG_STRIDE as int,
        ),
{
    let k = least_index(strides);
    assert(comparable(strides, base)) by {
        assert forall|i: int| 0 <= i < strides.len() implies ahead(#[trigger] strides[i], base)
            <= HALF_RANGE - 1 by {}
    }
    lemma_least_index_is_minimum(strides, base);
    let least = strides[k];
    let after = strides.update(k, charged(least, pass));
    assert forall|i: int| 0 <= i < after.len() implies ahead(#[trigger] after[i], least)
        <= BIG_STRIDE by {
        if i == k {
            assert(after[i] == charged(least, pass));
        } else {
            assert(after[i] == strides[i]);
            lemma_stride_less_in_window(strides[i], least, base);
            assert(!stride_less(strides[i], least));
        }
    }
}

} // verus!
