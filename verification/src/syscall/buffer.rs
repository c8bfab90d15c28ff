//! Bytes on their way to a task's memory.
//!
//! A buffer in a task's memory is contiguous for the task, but the kernel
//! reaches it as a list of segments, one for each page that the buffer
//! touches. A value is written to such a buffer as little-endian bytes,
//! segment by segment.

use vstd::prelude::*;

verus! {

/// The `n` low bytes of `x`, the lowest first.
pub open spec fn le_bytes(x: nat, n: nat) -> Seq<u8>
    decreases n,
{
    if n == 0 {
        Seq::empty()
    } else {
        seq![(x % 256) as u8] + le_bytes(x / 256, (n - 1) as nat)
    }
}

/// `le_bytes(x, n)` has `n` bytes.
pub proof fn lemma_le_bytes_len(x: nat, n: nat)
    ensures
        le_bytes(x, n).len() == n,
    decreases n,
{
    if n > 0 {
        lemma_le_bytes_len(x / 256, (n - 1) as nat);
    }
}

/// Appends the `n` low bytes of `x` to `out`, the lowest first.
pub fn push_le_bytes(out: &mut Vec<u8>, x: u64, n: usize)
    ensures
        final(out)@ == old(out)@ + le_bytes(x as nat, n as nat),
{
    let mut rest: u64 = x;
    let mut i: usize = 0;
    assert(out@ + le_bytes(rest as nat, (n - i) as nat) =~= old(out)@ + le_bytes(
        x as nat,
        n as nat,
    ));
    while i < n
        invariant
            0 <= i <= n,
            out@ + le_bytes(rest as nat, (n - i) as nat) == old(out)@ + le_bytes(
                x as nat,
                n as nat,
            ),
        decreases n - i,
    {
        let ghost before: Seq<u8> = out@;
        let low: u8 = (rest % 256) as u8;
        out.push(low);
        proof {
            let tail = le_bytes((rest / 256) as nat, (n - i - 1) as nat);
            assert(le_bytes(rest as nat, (n - i) as nat) == seq![low] + tail);
            assert(before.push(low) + tail =~= before + (seq![low] + tail));
        }
        rest = rest / 256;
        i = i + 1;
    }
    assert(out@ + Seq::<u8>::empty() =~= out@);
}

/// The contents of the given segments, in order.
pub open spec fn rows(segments: Seq<Vec<u8>>) -> Seq<Seq<u8>> {
    segments.map_values(|segment: Vec<u8>| segment@)
}

/// The number of bytes in the first `i` segments together: the place in the
/// whole buffer at which segment `i` starts.
pub open spec fn offset_of(segments: Seq<Seq<u8>>, i: int) -> int
    decreases i,
{
    if i <= 0 {
        0
    } else {
        offset_of(segments, i - 1) + segments[i - 1].len()
    }
}

/// The first `i` segments joined into one sequence of bytes.
pub open spec fn joined(segments: Seq<Seq<u8>>, i: int) -> Seq<u8>
    decreases i,
{
    if i <= 0 {
        Seq::empty()
    } else {
        joined(segments, i - 1) + segments[i - 1]
    }
}

/// The number of bytes in all the segments together.
pub open spec fn total_len(segments: Seq<Seq<u8>>) -> int {
    offset_of(segments, segments.len() as int)
}

/// All the segments joined into one sequence of bytes: the buffer as the
/// task sees it.
pub open spec fn contents(segments: Seq<Seq<u8>>) -> Seq<u8> {
    joined(segments, segments.len() as int)
}

/// A segment that starts at place `offset` of the whole buffer, after `src`
/// has been written to the buffer from its start: the bytes of `src` that
/// fall into the segment replace what was there, the others stay.
pub open spec fn segment_written(src: Seq<u8>, segment: Seq<u8>, offset: int) -> Seq<u8> {
    Seq::new(
        segment.len(),
        |j: int|
            if offset + j < src.len() {
                src[offset + j]
            } else {
                segment[j]
            },
    )
}

/// The segments after `src` has been written to the buffer from its start.
/// Every segment keeps its length. As many bytes are written as fit: the
/// end of `src` is dropped if the buffer is shorter, and the end of the
/// buffer stays as it was if `src` is shorter.
pub open spec fn written(src: Seq<u8>, segments: Seq<Seq<u8>>) -> Seq<Seq<u8>> {
    Seq::new(
        segments.len(),
        |i: int| segment_written(src, segments[i], offset_of(segments, i)),
    )
}

/// Offsets never go down, and start at zero.
pub proof fn lemma_offset_of_nonnegative(segments: Seq<Seq<u8>>, i: int)
    ensures
        offset_of(segments, i) >= 0,
    decreases i,
{
    if i > 0 {
        lemma_offset_of_nonnegative(segments, i - 1);
    }
}

/// Read back as one sequence of bytes, the first `i` segments hold the start
/// of `src` after the write, as far as they reach, followed by what they
/// held before.
pub proof fn lemma_written_joined(src: Seq<u8>, segments: Seq<Seq<u8>>, i: int)
    requires
        0 <= i <= segments.len(),
    ensures
        joined(written(src, segments), i).len() == joined(segments, i).len(),
        joined(segments, i).len() == offset_of(segments, i),
        forall|t: int|
            0 <= t < offset_of(segments, i) ==> #[trigger] joined(written(src, segments), i)[t] == (
            if t < src.len() {
                src[t]
            } else {
                joined(segments, i)[t]
            }),
    decreases i,
{
    if i > 0 {
        lemma_written_joined(src, segments, i - 1);
        lemma_offset_of_nonnegative(segments, i - 1);
        let after = written(src, segments);
        let start = offset_of(segments, i - 1);
        assert(after[i - 1] == segment_written(src, segments[i - 1], start));
        assert forall|t: int| 0 <= t < offset_of(segments, i) implies #[trigger] joined(after, i)[t]
            == (if t < src.len() {
            src[t]
        } else {
            joined(segments, i)[t]
        }) by {
            if t >= start {
                assert(joined(after, i)[t] == after[i - 1][t - start]);
                assert(joined(segments, i)[t] == segments[i - 1][t - start]);
            } else {
                assert(joined(after, i)[t] == joined(after, i - 1)[t]);
                assert(joined(segments, i)[t] == joined(segments, i - 1)[t]);
            }
        }
    }
}

/// A buffer that is exactly as long as `src` holds `src` after the write,
/// whatever way it is cut into segments.
pub proof fn lemma_written_holds_source(src: Seq<u8>, segments: Seq<Seq<u8>>)
    requires
        total_len(segments) == src.len(),
    ensures
        contents(written(src, segments)) == src,
{
    let n = segments.len() as int;
    lemma_written_joined(src, segments, n);
    assert(joined(written(src, segments), n) =~= src);
}

/// Writes `src` to the buffer that the segments of `dst` make up, from the
/// start of the buffer, one segment after the other.
pub fn copy_to_segments(src: &Vec<u8>, dst: &mut Vec<Vec<u8>>)
    ensures
        rows(final(dst)@) == written(src@, rows(old(dst)@)),
        total_len(rows(old(dst)@)) == src@.len() ==> contents(rows(final(dst)@)) == src@,
{
    let ghost before: Seq<Seq<u8>> = rows(dst@);
    let count: usize = dst.len();
    let total: usize = src.len();
    let mut out: Vec<Vec<u8>> = Vec::new();
    let mut done: usize = 0;
    let mut i: usize = 0;
    while i < count
        invariant
            count == dst@.len(),
            total == src@.len(),
            before == rows(dst@),
            0 <= i <= count,
            out@.len() == i,
            done <= total,
            done == if offset_of(before, i as int) < total {
                offset_of(before, i as int)
            } else {
                total as int
            },
            forall|k: int|
                0 <= k < i ==> (#[trigger] out@[k])@ == segment_written(
                    src@,
                    before[k],
                    offset_of(before, k),
                ),
        decreases count - i,
    {
        let ghost start: int = offset_of(before, i as int);
        proof {
            lemma_offset_of_nonnegative(before, i as int);
            assert(before[i as int] == dst@[i as int]@);
            assert(offset_of(before, i + 1) == start + before[i as int].len());
        }
        let length: usize = dst[i].len();
        let mut fresh: Vec<u8> = Vec::new();
        let mut j: usize = 0;
        while j < length
            invariant
                i < count,
                count == dst@.len(),
                total == src@.len(),
                length == dst@[i as int]@.len(),
                0 <= j <= length,
                0 <= start,
                done <= total,
                done == if start + j < total {
                    start + j
                } else {
                    total as int
                },
                fresh@.len() == j,
                forall|t: int|
                    0 <= t < j ==> #[trigger] fresh@[t] == (if start + t < total {
                        src@[start + t]
                    } else {
                        dst@[i as int]@[t]
                    }),
            decreases length - j,
        {
            if done < total {
                fresh.push(src[done]);
                done = done + 1;
            } else {
                fresh.push(dst[i][j]);
            }
            j = j + 1;
        }
        proof {
            assert(fresh@ =~= segment_written(src@, before[i as int], start));
        }
        out.push(fresh);
        i = i + 1;
    }
    proof {
        assert(rows(out@) =~= written(src@, before));
        if total_len(before) == src@.len() {
            lemma_written_holds_source(src@, before);
        }
    }
    *dst = out;
}

} // verus!
