//! The address space of one task: a set of mapped regions that never
//! overlap.
//!
//! The mathematical model of an address space is a map from page numbers to
//! the permission that the page is mapped with; a page outside the map's
//! domain is not mapped.

use vstd::prelude::*;
use crate::mm::address::{page_ceil, page_floor, VirtAddr, VirtPageNum};
use crate::mm::permission::MapPermission;

verus! {

/// Whether some page from `start` up to, but not including, `end` is mapped.
pub open spec fn any_mapped(space: Map<usize, MapPermission>, start: usize, end: usize) -> bool {
    exists|p: usize| start <= p < end && #[trigger] space.dom().contains(p)
}

/// Whether every page from `start` up to, but not including, `end` is mapped.
pub open spec fn all_mapped(space: Map<usize, MapPermission>, start: usize, end: usize) -> bool {
    forall|p: usize| start <= p < end ==> #[trigger] space.dom().contains(p)
}

/// The address space `space` with the pages from `start` up to `end` mapped
/// with `perm`.
pub open spec fn map_range(
    space: Map<usize, MapPermission>,
    start: usize,
    end: usize,
    perm: MapPermission,
) -> Map<usize, MapPermission> {
    Map::new(
        |p: usize| space.dom().contains(p) || start <= p < end,
        |p: usize|
            if start <= p < end {
                perm
            } else {
                space[p]
            },
    )
}

/// The address space `space` without the pages from `start` up to `end`.
pub open spec fn unmap_range(
    space: Map<usize, MapPermission>,
    start: usize,
    end: usize,
) -> Map<usize, MapPermission> {
    Map::new(|p: usize| space.dom().contains(p) && !(start <= p < end), |p: usize| space[p])
}

/// A run of virtual pages mapped with one permission: the pages from `start`
/// up to, but not including, `end`.
#[derive(Clone, Copy, Debug, PartialEq, Eq, Structural)]
pub struct MapArea {
    pub start: VirtPageNum,
    pub end: VirtPageNum,
    pub perm: MapPermission,
}

impl MapArea {
    /// Whether page `p` lies in this region.
    pub open spec fn holds(self, p: usize) -> bool {
        self.start.0 <= p < self.end.0
    }

    /// Whether `self` lies inside `outer` and has its permission.
    pub open spec fn within(self, outer: MapArea) -> bool {
        &&& outer.start.0 <= self.start.0
        &&& self.end.0 <= outer.end.0
        &&& self.perm == outer.perm
    }

    /// The region of the pages that the addresses from `start_va` up to
    /// `end_va` touch.
    pub fn new(start_va: VirtAddr, end_va: VirtAddr, perm: MapPermission) -> (area: MapArea)
        ensures
            area.start.0 == page_floor(start_va.0),
            area.end.0 == page_ceil(end_va.0),
            area.perm == perm,
    {
        MapArea { start: start_va.floor(), end: end_va.ceil(), perm }
    }
}

/// Every region holds at least one page, and the regions stand in ascending
/// order without touching the same page twice.
spec fn ordered(areas: Seq<MapArea>) -> bool {
    &&& forall|i: int| 0 <= i < areas.len() ==> (#[trigger] areas[i]).start.0 < areas[i].end.0
    &&& forall|i: int, j: int|
        0 <= i < j < areas.len() ==> (#[trigger] areas[i]).end.0 <= (#[trigger] areas[j]).start.0
}

/// Whether one of the regions holds page `p`.
spec fn held(areas: Seq<MapArea>, p: usize) -> bool {
    exists|i: int| 0 <= i < areas.len() && #[trigger] areas[i].holds(p)
}

/// The index of a region that holds page `p`.
spec fn holder(areas: Seq<MapArea>, p: usize) -> int {
    choose|i: int| 0 <= i < areas.len() && #[trigger] areas[i].holds(p)
}

/// The pages that the regions map, each with its region's permission.
spec fn pages(areas: Seq<MapArea>) -> Map<usize, MapPermission> {
    Map::new(|p: usize| held(areas, p), |p: usize| areas[holder(areas, p)].perm)
}

/// In an ordered list a page lies in one region at most, so the region that
/// holds it decides its permission.
proof fn lemma_holder_unique(areas: Seq<MapArea>, i: int, p: usize)
    requires
        ordered(areas),
        0 <= i < areas.len(),
        areas[i].holds(p),
    ensures
        held(areas, p),
        holder(areas, p) == i,
        pages(areas).dom().contains(p),
        pages(areas)[p] == areas[i].perm,
{
    let j = holder(areas, p);
    assert(0 <= j < areas.len() && areas[j].holds(p));
    if j < i {
        assert(areas[j].end.0 <= areas[i].start.0);
    } else if i < j {
        assert(areas[i].end.0 <= areas[j].start.0);
    }
}

/// The address space of one task.
pub struct MemorySet {
    areas: Vec<MapArea>,
}

impl MemorySet {
    /// The regions of an address space never overlap.
    #[verifier::type_invariant]
    spec fn regions_apart(self) -> bool {
        ordered(self.areas@)
    }

    /// The mapped pages, each with its permission.
    pub closed spec fn view(&self) -> Map<usize, MapPermission> {
        pages(self.areas@)
    }

    /// An address space in which nothing is mapped.
    pub fn new_bare() -> (set: MemorySet)
        ensures
            set@ == Map::<usize, MapPermission>::empty(),
    {
        let set = MemorySet { areas: Vec::new() };
        assert(set@ =~= Map::<usize, MapPermission>::empty());
        set
    }

    /// The permission that page `vpn` is mapped with, if it is mapped.
    pub fn permission_at(&self, vpn: VirtPageNum) -> (perm: Option<MapPermission>)
        ensures
            self@.dom().contains(vpn.0) ==> perm == Some(self@[vpn.0]),
            !self@.dom().contains(vpn.0) ==> perm is None,
    {
        proof {
            use_type_invariant(self);
        }
        let p: usize = vpn.0;
        let n: usize = self.areas.len();
        let mut i: usize = 0;
        while i < n
            invariant
                n == self.areas@.len(),
                0 <= i <= n,
                p == vpn.0,
                ordered(self.areas@),
                forall|k: int| 0 <= k < i ==> !(#[trigger] self.areas@[k]).holds(p),
            decreases n - i,
        {
            let area: MapArea = self.areas[i];
            if area.start.0 <= p && p < area.end.0 {
                proof {
                    lemma_holder_unique(self.areas@, i as int, p);
                }
                return Some(area.perm);
            }
            i = i + 1;
        }
        None
    }

    /// Whether a page from `start` up to, but not including, `end` is
    /// already mapped.
    pub fn range_conflicts(&self, start: VirtPageNum, end: VirtPageNum) -> (conflict: bool)
        ensures
            conflict == any_mapped(self@, start.0, end.0),
    {
        proof {
            use_type_invariant(self);
        }
        let s: usize = start.0;
        let e: usize = end.0;
        if s >= e {
            return false;
        }
        let n: usize = self.areas.len();
        let mut i: usize = 0;
        while i < n
            invariant
                n == self.areas@.len(),
                0 <= i <= n,
                s == start.0,
                e == end.0,
                s < e,
                ordered(self.areas@),
                forall|k: int|
                    0 <= k < i ==> !((#[trigger] self.areas@[k]).start.0 < e && s
                        < self.areas@[k].end.0),
            decreases n - i,
        {
            let area: MapArea = self.areas[i];
            if area.start.0 < e && s < area.end.0 {
                proof {
                    let p: usize = if area.start.0 <= s {
                        s
                    } else {
                        area.start.0
                    };
                    assert(self.areas@[i as int].holds(p));
                    lemma_holder_unique(self.areas@, i as int, p);
                    assert(s <= p < e && self@.dom().contains(p));
                }
                return true;
            }
            i = i + 1;
        }
        proof {
            assert forall|p: usize| s <= p < e implies !self@.dom().contains(p) by {
                if held(self.areas@, p) {
                    let k = holder(self.areas@, p);
                    assert(self.areas@[k].holds(p));
                }
            }
        }
        false
    }

    /// Whether every page from `start` up to, but not including, `end` is
    /// mapped.
    pub fn range_covered(&self, start: VirtPageNum, end: VirtPageNum) -> (covered: bool)
        ensures
            covered == all_mapped(self@, start.0, end.0),
    {
        proof {
            use_type_invariant(self);
        }
        let s: usize = start.0;
        let e: usize = end.0;
        let n: usize = self.areas.len();
        let mut cursor: usize = s;
        let mut i: usize = 0;
        while i < n && cursor < e
            invariant
                n == self.areas@.len(),
                0 <= i <= n,
                s == start.0,
                e == end.0,
                s <= cursor,
                ordered(self.areas@),
                forall|p: usize| s <= p < cursor && p < e ==> #[trigger] self@.dom().contains(p),
                forall|k: int| 0 <= k < i ==> (#[trigger] self.areas@[k]).end.0 <= cursor,
            decreases n - i,
        {
            let area: MapArea = self.areas[i];
            if area.end.0 <= cursor {
                // This region lies wholly before the first page still to be found.
            } else if area.start.0 <= cursor {
                proof {
                    assert forall|p: usize| s <= p < area.end.0 && p < e implies #[trigger]
                        self@.dom().contains(p) by {
                        if p >= cursor {
                            assert(self.areas@[i as int].holds(p));
                            lemma_holder_unique(self.areas@, i as int, p);
                        }
                    }
                }
                cursor = area.end.0;
            } else {
                proof {
                    if held(self.areas@, cursor) {
                        let k = holder(self.areas@, cursor);
                        assert(self.areas@[k].holds(cursor));
                        if k > i {
                            assert(self.areas@[i as int].end.0 <= self.areas@[k].start.0);
                        }
                    }
                    assert(!self@.dom().contains(cursor));
                }
                return false;
            }
            i = i + 1;
        }
        if cursor < e {
            proof {
                if held(self.areas@, cursor) {
                    let k = holder(self.areas@, cursor);
                    assert(self.areas@[k].holds(cursor));
                }
                assert(!self@.dom().contains(cursor));
            }
            false
        } else {
            true
        }
    }

    /// Maps the pages from `start` up to, but not including, `end` with
    /// permission `perm`. None of them may be mapped already.
    pub fn map_pages(&mut self, start: VirtPageNum, end: VirtPageNum, perm: MapPermission)
        requires
            !any_mapped(old(self)@, start.0, end.0),
        ensures
            final(self)@ == map_range(old(self)@, start.0, end.0, perm),
    {
        proof {
            use_type_invariant(&*self);
        }
        let area: MapArea = MapArea { start, end, perm };
        let s: usize = start.0;
        let e: usize = end.0;
        if s >= e {
            assert(self@ =~= map_range(self@, s, e, perm));
            return ;
        }
        let mut areas: Vec<MapArea> = Vec::new();
        std::mem::swap(&mut areas, &mut self.areas);
        let ghost before: Seq<MapArea> = areas@;
        let n: usize = areas.len();
        let mut i: usize = 0;
        while i < n && areas[i].end.0 <= s
            invariant
                n == areas@.len(),
                0 <= i <= n,
                areas@ == before,
                forall|k: int| 0 <= k < i ==> (#[trigger] areas@[k]).end.0 <= s,
            decreases n - i,
        {
            i = i + 1;
        }
        proof {
            // The first region that does not end before the new one starts
            // after it, or one of its pages would be mapped twice.
            if i < n {
                let next: MapArea = before[i as int];
                if next.start.0 < e {
                    let p: usize = if next.start.0 <= s {
                        s
                    } else {
                        next.start.0
                    };
                    assert(next.holds(p));
                    lemma_holder_unique(before, i as int, p);
                    assert(s <= p < e && pages(before).dom().contains(p));
                }
                assert(e <= next.start.0);
            }
        }
        areas.insert(i, area);
        proof {
            let after: Seq<MapArea> = areas@;
            assert(after == before.insert(i as int, area));
            assert(ordered(after)) by {
                assert forall|a: int, b: int| 0 <= a < b < after.len() implies
                    (#[trigger] after[a]).end.0 <= (#[trigger] after[b]).start.0 by {
                    let a0: int = if a < i {
                        a
                    } else {
                        a - 1
                    };
                    let b0: int = if b < i {
                        b
                    } else {
                        b - 1
                    };
                    if a == i {
                        assert(after[b] == before[b0]);
                        assert(before[i as int].end.0 <= before[b0].start.0 || b0 == i);
                    } else if b == i {
                        assert(after[a] == before[a0]);
                    } else {
                        assert(after[a] == before[a0]);
                        assert(after[b] == before[b0]);
                    }
                }
                assert forall|a: int| 0 <= a < after.len() implies (#[trigger] after[a]).start.0
                    < after[a].end.0 by {
                    if a < i {
                        assert(after[a] == before[a]);
                    } else if a > i {
                        assert(after[a] == before[a - 1]);
                    }
                }
            }
            let target = map_range(pages(before), s, e, perm);
            assert forall|p: usize| #[trigger]
                pages(after).dom().contains(p) implies target.dom().contains(p) && pages(after)[p]
                == target[p] by {
                let j = holder(after, p);
                assert(after[j].holds(p));
                lemma_holder_unique(after, j, p);
                if j != i {
                    let j0: int = if j < i {
                        j
                    } else {
                        j - 1
                    };
                    assert(after[j] == before[j0]);
                    lemma_holder_unique(before, j0, p);
                }
            }
            assert forall|p: usize| #[trigger]
                target.dom().contains(p) implies pages(after).dom().contains(p) by {
                if s <= p < e {
                    assert(after[i as int].holds(p));
                } else {
                    let j0 = holder(before, p);
                    assert(before[j0].holds(p));
                    let j: int = if j0 < i {
                        j0
                    } else {
                        j0 + 1
                    };
                    assert(after[j] == before[j0]);
                    assert(after[j].holds(p));
                }
            }
            assert(pages(after) =~= target);
        }
        self.areas = areas;
    }

    /// Unmaps every page from `start` up to, but not including, `end`, if
    /// all of them are mapped, and says whether it did. Where a page of the
    /// range is not mapped, nothing changes.
    pub fn unmap_pages(&mut self, start: VirtPageNum, end: VirtPageNum) -> (done: bool)
        ensures
            done == all_mapped(old(self)@, start.0, end.0),
            done ==> final(self)@ == unmap_range(old(self)@, start.0, end.0),
            !done ==> final(self)@ == old(self)@,
    {
        proof {
            use_type_invariant(&*self);
        }
        if !self.range_covered(start, end) {
            return false;
        }
        let s: usize = start.0;
        let e: usize = end.0;
        if s >= e {
            assert(self@ =~= unmap_range(self@, s, e));
            return true;
        }
        let mut kept: Vec<MapArea> = Vec::new();
        let n: usize = self.areas.len();
        let mut i: usize = 0;
        while i < n
            invariant
                n == self.areas@.len(),
                0 <= i <= n,
                s < e,
                ordered(self.areas@),
                ordered(kept@),
                forall|j: int, k: int|
                    0 <= j < kept@.len() && i <= k < n ==> (#[trigger] kept@[j]).end.0 <= (
                    #[trigger] self.areas@[k]).start.0,
                forall|j: int|
                    0 <= j < kept@.len() ==> !((#[trigger] kept@[j]).start.0 < e && s
                        < kept@[j].end.0) && exists|k: int|
                        0 <= k < i && kept@[j].within(#[trigger] self.areas@[k]),
                forall|k: int, p: usize|
                    0 <= k < i && (#[trigger] self.areas@[k].holds(p)) && !(s <= p < e) ==> held(
                        kept@,
                        p,
                    ),
            decreases n - i,
        {
            let area: MapArea = self.areas[i];
            let ghost kept_before: Seq<MapArea> = kept@;
            proof {
                assert forall|j: int| 0 <= j < kept_before.len() implies (
                #[trigger] kept_before[j]).end.0 <= area.start.0 by {
                    assert(kept_before[j].end.0 <= self.areas@[i as int].start.0);
                }
            }
            if area.end.0 <= s || e <= area.start.0 {
                kept.push(area);
                proof {
                    assert(kept@[kept_before.len() as int].within(self.areas@[i as int]));
                }
            } else {
                if area.start.0 < s {
                    let left: MapArea = MapArea {
                        start: area.start,
                        end: VirtPageNum(s),
                        perm: area.perm,
                    };
                    kept.push(left);
                    proof {
                        assert(kept@[kept_before.len() as int].within(self.areas@[i as int]));
                    }
                }
                if e < area.end.0 {
                    let right: MapArea = MapArea {
                        start: VirtPageNum(e),
                        end: area.end,
                        perm: area.perm,
                    };
                    let ghost kept_mid: Seq<MapArea> = kept@;
                    kept.push(right);
                    proof {
                        assert(kept@[kept_mid.len() as int].within(self.areas@[i as int]));
                    }
                }
            }
            proof {
                let now: Seq<MapArea> = kept@;
                // What was kept before is still there, at the same place.
                assert(kept_before.len() <= now.len());
                assert forall|j: int| 0 <= j < kept_before.len() implies now[j]
                    == kept_before[j] by {}
                // Every new piece lies inside the region just read.
                assert forall|j: int| kept_before.len() <= j < now.len() implies (
                #[trigger] now[j]).within(area) && now[j].start.0 < now[j].end.0 && !(
                now[j].start.0 < e && s < now[j].end.0) by {}
                assert forall|j: int, k: int|
                    0 <= j < now.len() && i + 1 <= k < n implies (#[trigger] now[j]).end.0 <= (
                #[trigger] self.areas@[k]).start.0 by {
                    if j < kept_before.len() {
                        assert(now[j] == kept_before[j]);
                    } else {
                        assert(now[j].within(area));
                        assert(self.areas@[i as int].end.0 <= self.areas@[k].start.0);
                    }
                }
                assert forall|j: int| 0 <= j < now.len() implies !((#[trigger] now[j]).start.0 < e
                    && s < now[j].end.0) && exists|k: int|
                    0 <= k < i + 1 && now[j].within(#[trigger] self.areas@[k]) by {
                    if j < kept_before.len() {
                        assert(now[j] == kept_before[j]);
                        let k = choose|k: int|
                            0 <= k < i && kept_before[j].within(#[trigger] self.areas@[k]);
                        assert(now[j].within(self.areas@[k]));
                    } else {
                        assert(now[j].within(self.areas@[i as int]));
                    }
                }
                assert(ordered(now)) by {
                    assert forall|a: int, b: int| 0 <= a < b < now.len() implies (
                    #[trigger] now[a]).end.0 <= (#[trigger] now[b]).start.0 by {
                        if b < kept_before.len() {
                            assert(now[a] == kept_before[a]);
                            assert(now[b] == kept_before[b]);
                        } else if a < kept_before.len() {
                            assert(now[a] == kept_before[a]);
                            assert(now[b].within(area));
                        } else {
                            // Two new pieces: the left one ends where the
                            // range starts, the right one starts where it ends.
                        }
                    }
                    assert forall|a: int| 0 <= a < now.len() implies (#[trigger] now[a]).start.0
                        < now[a].end.0 by {
                        if a < kept_before.len() {
                            assert(now[a] == kept_before[a]);
                        }
                    }
                }
                assert forall|k: int, p: usize|
                    0 <= k < i + 1 && (#[trigger] self.areas@[k].holds(p)) && !(s <= p < e)
                    implies held(now, p) by {
                    if k < i {
                        assert(held(kept_before, p));
                        let j = holder(kept_before, p);
                        assert(kept_before[j].holds(p));
                        assert(now[j] == kept_before[j]);
                        assert(now[j].holds(p));
                    } else {
                        assert(area.holds(p));
                        if area.end.0 <= s || e <= area.start.0 {
                            assert(now[kept_before.len() as int] == area);
                            assert(now[kept_before.len() as int].holds(p));
                        } else if p < s {
                            assert(now[kept_before.len() as int].holds(p));
                        } else {
                            assert(now[now.len() - 1].holds(p));
                        }
                    }
                }
            }
            i = i + 1;
        }
        proof {
            let before: Seq<MapArea> = self.areas@;
            let after: Seq<MapArea> = kept@;
            let target = unmap_range(pages(before), s, e);
            assert forall|p: usize| #[trigger]
                pages(after).dom().contains(p) implies target.dom().contains(p) && pages(after)[p]
                == target[p] by {
                let j = holder(after, p);
                assert(after[j].holds(p));
                lemma_holder_unique(after, j, p);
                let k = choose|k: int| 0 <= k < n && after[j].within(#[trigger] before[k]);
                assert(before[k].holds(p));
                lemma_holder_unique(before, k, p);
            }
            assert forall|p: usize| #[trigger]
                target.dom().contains(p) implies pages(after).dom().contains(p) by {
                let k = holder(before, p);
                assert(before[k].holds(p));
            }
            assert(pages(after) =~= target);
        }
        self.areas = kept;
        true
    }

    /// Whether the addresses from `start_va` up to `end_va` touch a page
    /// that is already mapped.
    pub fn conflicts_check(&self, start_va: VirtAddr, end_va: VirtAddr) -> (conflict: bool)
        ensures
            conflict == any_mapped(self@, page_floor(start_va.0), page_ceil(end_va.0)),
    {
        self.range_conflicts(start_va.floor(), end_va.ceil())
    }

    /// Maps the pages that the addresses from `start_va` up to `end_va`
    /// touch, with permission `perm`. None of them may be mapped already.
    pub fn insert_framed_area(&mut self, start_va: VirtAddr, end_va: VirtAddr, perm: MapPermission)
        requires
            !any_mapped(old(self)@, page_floor(start_va.0), page_ceil(end_va.0)),
        ensures
            final(self)@ == map_range(
                old(self)@,
                page_floor(start_va.0),
                page_ceil(end_va.0),
                perm,
            ),
    {
        let area = MapArea::new(start_va, end_va, perm);
        self.map_pages(area.start, area.end, area.perm);
    }

    /// Unmaps every page that the addresses from `start_va` up to `end_va`
    /// touch and returns 0, if all of them are mapped. Otherwise changes
    /// nothing and returns -1.
    pub fn remove_framed_area(&mut self, start_va: VirtAddr, end_va: VirtAddr) -> (status: isize)
        ensures
            all_mapped(old(self)@, page_floor(start_va.0), page_ceil(end_va.0)) ==> status == 0
                && final(self)@ == unmap_range(
                old(self)@,
                page_floor(start_va.0),
                page_ceil(end_va.0),
            ),
            !all_mapped(old(self)@, page_floor(start_va.0), page_ceil(end_va.0)) ==> status == -1
                && final(self)@ == old(self)@,
    {
        if self.unmap_pages(start_va.floor(), end_va.ceil()) {
            0
        } else {
            -1
        }
    }
}

} // verus!
