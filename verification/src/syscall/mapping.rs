//! What mapping and unmapping memory do to an address space, and what
//! follows from it.
//!
//! An address space is modelled as a map from page numbers to permissions.
//! The functions here say, for every address space and every request,
//! whether the request is granted and which address space results.

use vstd::prelude::*;
use crate::config::PAGE_SIZE;
use crate::mm::address::{page_ceil, page_floor};
use crate::mm::memory_set::{all_mapped, any_mapped, map_range, unmap_range};
use crate::mm::permission::{port_permission, port_valid, MapPermission};
use crate::syscall::error::SyscallError;

verus! {

/// Whether a request to map `len` bytes from address `start` with port bits
/// `port` is granted in address space `space`, and if not, why not. The
/// arguments are looked at first: the start must be page-aligned, and the
/// port must name at least one of read, write and execute and nothing else.
/// Then no page that the bytes touch may be mapped already.
pub open spec fn mmap_outcome(
    space: Map<usize, MapPermission>,
    start: usize,
    len: usize,
    port: usize,
) -> Result<(), SyscallError> {
    if start % PAGE_SIZE != 0 || !port_valid(port) {
        Err(SyscallError::InvalidArgument)
    } else if any_mapped(space, page_floor(start), page_ceil((start + len) as usize)) {
        Err(SyscallError::RegionConflict)
    } else {
        Ok(())
    }
}

/// The address space `space` after a request to map `len` bytes from
/// address `start` with port bits `port`. A request that is granted maps
/// every page that the bytes touch, with the permission that the port asks
/// for; one that is refused changes nothing.
pub open spec fn mmap_space(
    space: Map<usize, MapPermission>,
    start: usize,
    len: usize,
    port: usize,
) -> Map<usize, MapPermission> {
    if mmap_outcome(space, start, len, port) is Ok {
        map_range(
            space,
            page_floor(start),
            page_ceil((start + len) as usize),
            port_permission(port),
        )
    } else {
        space
    }
}

/// Whether a request to unmap `len` bytes from address `start` is granted
/// in address space `space`, and if not, why not. The start must be
/// page-aligned, and every page that the bytes touch must be mapped.
pub open spec fn munmap_outcome(
    space: Map<usize, MapPermission>,
    start: usize,
    len: usize,
) -> Result<(), SyscallError> {
    if start % PAGE_SIZE != 0 {
        Err(SyscallError::InvalidArgument)
    } else if !all_mapped(space, page_floor(start), page_ceil((start + len) as usize)) {
        Err(SyscallError::RegionNotFullyMapped)
    } else {
        Ok(())
    }
}

/// The address space `space` after a request to unmap `len` bytes from
/// address `start`. A request that is granted unmaps every page that the
/// bytes touch; one that is refused changes nothing.
pub open spec fn munmap_space(
    space: Map<usize, MapPermission>,
    start: usize,
    len: usize,
) -> Map<usize, MapPermission> {
    if munmap_outcome(space, start, len) is Ok {
        unmap_range(space, page_floor(start), page_ceil((start + len) as usize))
    } else {
        space
    }
}

/// A request to map memory whose start is not page-aligned, or whose port
/// has a bit above the three lowest set, or has none of the three lowest
/// set, is refused as an invalid argument, whatever is mapped, and changes
/// nothing.
pub proof fn lemma_mmap_refuses_bad_arguments(
    space: Map<usize, MapPermission>,
    start: usize,
    len: usize,
    port: usize,
)
    requires
        start % PAGE_SIZE != 0 || port & !7usize != 0 || port & 7usize == 0,
    ensures
        mmap_outcome(space, start, len, port) == Err::<(), SyscallError>(
            SyscallError::InvalidArgument,
        ),
        mmap_space(space, start, len, port) == space,
{
    assert((port & !7usize != 0 || port & 7usize == 0) <==> !(1 <= port <= 7)) by (bit_vector);
}

/// Whether the bytes of two requests touch a page in common.
pub open spec fn share_a_page(start: usize, len: usize, start2: usize, len2: usize) -> bool {
    let first = page_floor(start);
    let end = page_ceil((start + len) as usize);
    let first2 = page_floor(start2);
    let end2 = page_ceil((start2 + len2) as usize);
    first < end && first2 < end2 && first < end2 && first2 < end
}

/// After a request to map memory has been granted, a second request that
/// touches one of the pages just mapped is refused and leaves the address
/// space as the first request made it: every page is mapped as before, with
/// the permission it had. If the arguments of the second request are valid,
/// the reason is the conflict.
pub proof fn lemma_mmap_refuses_overlap(
    space: Map<usize, MapPermission>,
    start: usize,
    len: usize,
    port: usize,
    start2: usize,
    len2: usize,
    port2: usize,
)
    requires
        mmap_outcome(space, start, len, port) is Ok,
        share_a_page(start, len, start2, len2),
    ensures
        mmap_outcome(mmap_space(space, start, len, port), start2, len2, port2) is Err,
        start2 % PAGE_SIZE == 0 && port_valid(port2) ==> mmap_outcome(
            mmap_space(space, start, len, port),
            start2,
            len2,
            port2,
        ) == Err::<(), SyscallError>(SyscallError::RegionConflict),
        mmap_space(mmap_space(space, start, len, port), start2, len2, port2) == mmap_space(
            space,
            start,
            len,
            port,
        ),
{
    let mapped = mmap_space(space, start, len, port);
    let shared: usize = if page_floor(start) <= page_floor(start2) {
        page_floor(start2)
    } else {
        page_floor(start)
    };
    assert(mapped.dom().contains(shared));
}

/// Unmapping exactly what a granted request has just mapped is granted too
/// and gives back the address space from before the request, in which no
/// page that the request touched is mapped.
pub proof fn lemma_munmap_undoes_mmap(
    space: Map<usize, MapPermission>,
    start: usize,
    len: usize,
    port: usize,
)
    requires
        mmap_outcome(space, start, len, port) is Ok,
    ensures
        munmap_outcome(mmap_space(space, start, len, port), start, len) is Ok,
        munmap_space(mmap_space(space, start, len, port), start, len) == space,
        !any_mapped(
            munmap_space(mmap_space(space, start, len, port), start, len),
            page_floor(start),
            page_ceil((start + len) as usize),
        ),
{
    let first = page_floor(start);
    let last = page_ceil((start + len) as usize);
    let mapped = mmap_space(space, start, len, port);
    assert forall|p: usize| first <= p < last implies #[trigger] mapped.dom().contains(p) by {}
    assert(munmap_space(mapped, start, len) =~= space);
}

/// Unmapping a range a second time, right after it has been unmapped, is
/// refused unless the range holds no page at all: nothing is left to unmap.
pub proof fn lemma_munmap_twice_fails(space: Map<usize, MapPermission>, start: usize, len: usize)
    requires
        munmap_outcome(space, start, len) is Ok,
        page_floor(start) < page_ceil((start + len) as usize),
    ensures
        munmap_outcome(munmap_space(space, start, len), start, len) == Err::<(), SyscallError>(
            SyscallError::RegionNotFullyMapped,
        ),
{
    let rest = munmap_space(space, start, len);
    assert(!rest.dom().contains(page_floor(start)));
}

/// A request to map memory, as the task states it.
pub struct MapRequest {
    pub start: usize,
    pub len: usize,
    pub port: usize,
}

impl MapRequest {
    /// Whether the arguments of the request are valid.
    pub open spec fn valid(self) -> bool {
        &&& self.start % PAGE_SIZE == 0
        &&& port_valid(self.port)
        &&& self.start + self.len <= usize::MAX
    }

    /// Whether the bytes of the request touch page `p`.
    pub open spec fn touches(self, p: usize) -> bool {
        page_floor(self.start) <= p < page_ceil((self.start + self.len) as usize)
    }
}

/// The address space `space` after the given requests to map memory have
/// been made one after the other.
pub open spec fn mapped_all(
    space: Map<usize, MapPermission>,
    requests: Seq<MapRequest>,
) -> Map<usize, MapPermission>
    decreases requests.len(),
{
    if requests.len() == 0 {
        space
    } else {
        let last = requests.last();
        mmap_space(mapped_all(space, requests.drop_last()), last.start, last.len, last.port)
    }
}

/// Whether one of the requests touches page `p`.
pub open spec fn touched(requests: Seq<MapRequest>, p: usize) -> bool {
    exists|i: int| 0 <= i < requests.len() && #[trigger] requests[i].touches(p)
}

/// Whether the requests have valid arguments, touch no page that is mapped
/// in `space`, and touch no page twice among them.
pub open spec fn apart(space: Map<usize, MapPermission>, requests: Seq<MapRequest>) -> bool {
    &&& forall|i: int| 0 <= i < requests.len() ==> (#[trigger] requests[i]).valid()
    &&& forall|i: int, p: usize|
        0 <= i < requests.len() && (#[trigger] requests[i].touches(p)) ==> !space.dom().contains(p)
    &&& forall|i: int, j: int, p: usize|
        0 <= i < j < requests.len() && (#[trigger] requests[i].touches(p)) ==> !(
        #[trigger] requests[j].touches(p))
}

/// The first `n` of requests that are apart are apart.
proof fn lemma_apart_prefix(space: Map<usize, MapPermission>, requests: Seq<MapRequest>, n: int)
    requires
        apart(space, requests),
        0 <= n <= requests.len(),
    ensures
        apart(space, requests.take(n)),
{
    let front = requests.take(n);
    assert forall|i: int| 0 <= i < front.len() implies (#[trigger] front[i]).valid() by {
        assert(front[i] == requests[i]);
    }
    assert forall|i: int, p: usize|
        0 <= i < front.len() && (#[trigger] front[i].touches(p)) implies !space.dom().contains(
        p,
    ) by {
        assert(front[i] == requests[i]);
        assert(requests[i].touches(p));
    }
    assert forall|i: int, j: int, p: usize|
        0 <= i < j < front.len() && (#[trigger] front[i].touches(p)) implies !(
    #[trigger] front[j].touches(p)) by {
        assert(front[i] == requests[i]);
        assert(front[j] == requests[j]);
        assert(requests[i].touches(p));
    }
}

/// What is mapped after requests that are apart: the pages that were mapped
/// before and the pages that a request touches.
proof fn lemma_mapped_all_pages(space: Map<usize, MapPermission>, requests: Seq<MapRequest>)
    requires
        apart(space, requests),
    ensures
        forall|p: usize| #[trigger]
            mapped_all(space, requests).dom().contains(p) <==> space.dom().contains(p) || touched(
                requests,
                p,
            ),
        requests.len() > 0 ==> mmap_outcome(
            mapped_all(space, requests.drop_last()),
            requests.last().start,
            requests.last().len,
            requests.last().port,
        ) is Ok,
    decreases requests.len(),
{
    if requests.len() > 0 {
        let n = requests.len() - 1;
        let front = requests.drop_last();
        let last = requests.last();
        assert(front =~= requests.take(n));
        lemma_apart_prefix(space, requests, n);
        lemma_mapped_all_pages(space, front);
        let so_far = mapped_all(space, front);
        let first = page_floor(last.start);
        let end = page_ceil((last.start + last.len) as usize);
        assert forall|p: usize| first <= p < end implies !so_far.dom().contains(p) by {
            assert(requests[n].touches(p));
            if touched(front, p) {
                let i = choose|i: int| 0 <= i < front.len() && #[trigger] front[i].touches(p);
                assert(front[i] == requests[i]);
                assert(requests[i].touches(p));
            }
        }
        assert(requests[n].valid());
        assert(mmap_outcome(so_far, last.start, last.len, last.port) is Ok);
        let all = mapped_all(space, requests);
        assert forall|p: usize| #[trigger]
            all.dom().contains(p) <==> space.dom().contains(p) || touched(requests, p) by {
            if first <= p < end {
                assert(requests[n].touches(p));
            }
            if touched(front, p) {
                let i = choose|i: int| 0 <= i < front.len() && #[trigger] front[i].touches(p);
                assert(front[i] == requests[i]);
                assert(requests[i].touches(p));
            }
            if touched(requests, p) {
                let i = choose|i: int| 0 <= i < requests.len() && #[trigger] requests[i].touches(p);
                if i < n {
                    assert(front[i] == requests[i]);
                    assert(front[i].touches(p));
                }
            }
        }
    }
}

/// The permissions after requests that are apart: a page that a request
/// touches has the permission that the request asked for, and a page that
/// was mapped before has the permission it had.
proof fn lemma_mapped_all_permissions(space: Map<usize, MapPermission>, requests: Seq<MapRequest>)
    requires
        apart(space, requests),
    ensures
        forall|i: int, p: usize|
            0 <= i < requests.len() && (#[trigger] requests[i].touches(p)) ==> mapped_all(
                space,
                requests,
            )[p] == port_permission(requests[i].port),
        forall|p: usize|
            space.dom().contains(p) ==> #[trigger] mapped_all(space, requests)[p] == space[p],
    decreases requests.len(),
{
    if requests.len() > 0 {
        let n = requests.len() - 1;
        let front = requests.drop_last();
        let last = requests.last();
        assert(front =~= requests.take(n));
        lemma_apart_prefix(space, requests, n);
        lemma_mapped_all_permissions(space, front);
        lemma_mapped_all_pages(space, front);
        lemma_mapped_all_pages(space, requests);
        let so_far = mapped_all(space, front);
        let all = mapped_all(space, requests);
        let first = page_floor(last.start);
        let end = page_ceil((last.start + last.len) as usize);
        assert(all == map_range(so_far, first, end, port_permission(last.port)));
        assert forall|i: int, p: usize|
            0 <= i < requests.len() && (#[trigger] requests[i].touches(p)) implies all[p]
            == port_permission(requests[i].port) by {
            assert(touched(requests, p));
            assert(all.dom().contains(p));
            if i < n {
                assert(front[i] == requests[i]);
                assert(front[i].touches(p));
                assert(!requests[n].touches(p));
                assert(so_far.dom().contains(p));
                assert(so_far[p] == port_permission(front[i].port));
            } else {
                assert(first <= p < end);
            }
        }
        assert forall|p: usize| space.dom().contains(p) implies #[trigger] all[p] == space[p] by {
            assert(so_far.dom().contains(p));
            assert(all.dom().contains(p));
            assert(so_far[p] == space[p]);
            if first <= p < end {
                assert(requests[n].touches(p));
            }
        }
    }
}

/// Requests with valid arguments that touch no page that is mapped already
/// and no page that another of them touches are all granted, one after the
/// other, and map exactly the pages that they touch: afterwards a page is
/// mapped if and only if it was mapped before or one of the requests touches
/// it, each page that a request touches has the permission that the request
/// asked for, and each page that was mapped before has the permission it had.
pub proof fn lemma_disjoint_requests_are_granted(
    space: Map<usize, MapPermission>,
    requests: Seq<MapRequest>,
)
    requires
        apart(space, requests),
    ensures
        forall|i: int|
            0 <= i < requests.len() ==> mmap_outcome(
                mapped_all(space, requests.take(i)),
                (#[trigger] requests[i]).start,
                requests[i].len,
                requests[i].port,
            ) is Ok,
        forall|p: usize| #[trigger]
            mapped_all(space, requests).dom().contains(p) <==> space.dom().contains(p) || touched(
                requests,
                p,
            ),
        forall|i: int, p: usize|
            0 <= i < requests.len() && (#[trigger] requests[i].touches(p)) ==> mapped_all(
                space,
                requests,
            )[p] == port_permission(requests[i].port),
        forall|p: usize|
            space.dom().contains(p) ==> #[trigger] mapped_all(space, requests)[p] == space[p],
{
    lemma_mapped_all_pages(space, requests);
    lemma_mapped_all_permissions(space, requests);
    assert forall|i: int| 0 <= i < requests.len() implies mmap_outcome(
        mapped_all(space, requests.take(i)),
        (#[trigger] requests[i]).start,
        requests[i].len,
        requests[i].port,
    ) is Ok by {
        let upto = requests.take(i + 1);
        lemma_apart_prefix(space, requests, i + 1);
        lemma_mapped_all_pages(space, upto);
        assert(upto.drop_last() =~= requests.take(i));
        assert(upto.last() == requests[i]);
    }
}

} // verus!
