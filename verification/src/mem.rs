//! The address-space model: page-grained framed mappings per process, and the
//! physical frame accountant that backs them.
//!
//! A `MemorySet` owns the mappings of one address space as a list of disjoint
//! page ranges, each backed by a run of physical frames. The page-table walk
//! that realises these mappings in hardware is a collaborator outside this
//! crate; the model answers the same queries it would (overlap, translation,
//! permission of a page).

use vstd::arithmetic::div_mod::lemma_div_is_ordered;
use vstd::prelude::*;

use crate::config::{PAGE_SIZE, PERM_R, PERM_U, PERM_X, PPN_LIMIT, TRAMPOLINE_PPN, TRAMPOLINE_VPN};

verus! {

/// One contiguous range of mapped virtual pages `[start_vpn, end_vpn)`,
/// backed by the physical frames `start_ppn ..` in order, all with the same
/// permission bits.
pub struct MapArea {
    pub start_vpn: usize,
    pub end_vpn: usize,
    pub perm: u8,
    pub start_ppn: usize,
}

/// The virtual page `vpn` lies inside area `a`.
pub open spec fn area_contains(a: MapArea, vpn: int) -> bool {
    a.start_vpn <= vpn < a.end_vpn
}

/// The page ranges of `a` and `b` share no page.
pub open spec fn areas_disjoint(a: MapArea, b: MapArea) -> bool {
    a.end_vpn <= b.start_vpn || b.end_vpn <= a.start_vpn
}

/// An area is non-empty, lies inside the virtual address space, and its
/// frame run stays below the frame bound.
pub open spec fn area_wf(a: MapArea) -> bool {
    &&& a.start_vpn < a.end_vpn
    &&& a.end_vpn <= TRAMPOLINE_VPN + 1
    &&& a.start_ppn + (a.end_vpn - a.start_vpn) <= PPN_LIMIT
}

/// No page belongs to two areas of the list.
pub open spec fn areas_pairwise_disjoint(areas: Seq<MapArea>) -> bool {
    forall|i: int, j: int|
        0 <= i < j < areas.len() ==> areas_disjoint(#[trigger] areas[i], #[trigger] areas[j])
}

/// The area of `areas` that maps `vpn`, searching from the back; `None` when
/// no area contains `vpn`. On a disjoint list the result does not depend on
/// the search order.
pub open spec fn find_area(areas: Seq<MapArea>, vpn: int) -> Option<MapArea>
    decreases areas.len(),
{
    if areas.len() == 0 {
        None
    } else if area_contains(areas.last(), vpn) {
        Some(areas.last())
    } else {
        find_area(areas.drop_last(), vpn)
    }
}

/// `find_area` succeeds exactly when some area contains `vpn`, and then
/// returns one of the containing areas.
pub proof fn lemma_find_area_exists(areas: Seq<MapArea>, vpn: int)
    ensures
        (find_area(areas, vpn) is Some) <==> (exists|i: int|
            0 <= i < areas.len() && area_contains(#[trigger] areas[i], vpn)),
        find_area(areas, vpn) is Some ==> exists|i: int|
            0 <= i < areas.len() && #[trigger] areas[i] == find_area(areas, vpn).unwrap()
                && area_contains(areas[i], vpn),
    decreases areas.len(),
{
    if areas.len() > 0 {
        if area_contains(areas.last(), vpn) {
            assert(area_contains(areas[areas.len() - 1], vpn));
        } else {
            lemma_find_area_exists(areas.drop_last(), vpn);
            let dropped = areas.drop_last();
            if find_area(areas, vpn) is Some {
                let i = choose|i: int|
                    0 <= i < dropped.len() && #[trigger] dropped[i] == find_area(
                        dropped,
                        vpn,
                    ).unwrap() && area_contains(dropped[i], vpn);
                assert(areas[i] == find_area(areas, vpn).unwrap() && area_contains(areas[i], vpn));
            }
            if exists|i: int| 0 <= i < areas.len() && area_contains(#[trigger] areas[i], vpn) {
                let i = choose|i: int|
                    0 <= i < areas.len() && area_contains(#[trigger] areas[i], vpn);
                assert(i < areas.len() - 1);
                assert(area_contains(dropped[i], vpn));
            }
        }
    }
}

/// On a disjoint list, the area containing `vpn` is the one `find_area`
/// returns.
pub proof fn lemma_find_area_at(areas: Seq<MapArea>, vpn: int, i: int)
    requires
        areas_pairwise_disjoint(areas),
        0 <= i < areas.len(),
        area_contains(areas[i], vpn),
    ensures
        find_area(areas, vpn) == Some(areas[i]),
    decreases areas.len(),
{
    if i == areas.len() - 1 {
        assert(area_contains(areas.last(), vpn));
    } else {
        assert(areas_disjoint(areas[i], areas[areas.len() - 1]));
        assert(!area_contains(areas.last(), vpn));
        let dropped = areas.drop_last();
        assert forall|p: int, q: int| 0 <= p < q < dropped.len() implies areas_disjoint(
            #[trigger] dropped[p],
            #[trigger] dropped[q],
        ) by {
            assert(areas_disjoint(areas[p], areas[q]));
        }
        lemma_find_area_at(dropped, vpn, i);
    }
}

/// Accountant for physical frames. Frames below `next_ppn` have been handed
/// out; `free` more can still be granted. Frames of removed mappings are
/// retired, never reissued, so a frame number granted once backs at most one
/// mapping ever.
pub struct FrameAllocator {
    pub next_ppn: usize,
    pub free: usize,
}

impl FrameAllocator {
    /// Every frame the accountant can ever grant stays below the frame bound.
    pub open spec fn wf(self) -> bool {
        self.next_ppn + self.free <= PPN_LIMIT
    }

    /// A fresh accountant holding `frames` grantable frames.
    pub fn new(frames: usize) -> (r: FrameAllocator)
        requires
            frames <= PPN_LIMIT,
        ensures
            r.wf(),
            r.next_ppn == 0,
            r.free == frames,
    {
        FrameAllocator { next_ppn: 0, free: frames }
    }

    /// How many frames can still be granted.
    pub fn free_frame_count(&self) -> (r: usize)
        ensures
            r == self.free,
    {
        self.free
    }

    /// Grants a run of `pages` fresh frames and returns the first frame
    /// number.
    pub fn alloc_frames(&mut self, pages: usize) -> (base: usize)
        requires
            old(self).wf(),
            pages <= old(self).free,
        ensures
            final(self).wf(),
            base == old(self).next_ppn,
            final(self).next_ppn == old(self).next_ppn + pages,
            final(self).free == old(self).free - pages,
    {
        let base = self.next_ppn;
        self.next_ppn = self.next_ppn + pages;
        self.free = self.free - pages;
        base
    }
}

/// One process's address space: a disjoint list of framed areas and the token
/// (page-table root frame) that identifies it to the translation hardware.
pub struct MemorySet {
    pub areas: Vec<MapArea>,
    pub satp: usize,
}

impl MemorySet {
    /// An address space with no mappings, rooted at `satp`.
    pub fn new_bare(satp: usize) -> (r: MemorySet)
        ensures
            r.wf(),
            r.areas@.len() == 0,
            r.satp == satp,
    {
        MemorySet { areas: Vec::new(), satp }
    }

    /// All areas are well formed and pairwise disjoint.
    pub open spec fn wf(self) -> bool {
        &&& forall|i: int| 0 <= i < self.areas@.len() ==> area_wf(#[trigger] self.areas@[i])
        &&& areas_pairwise_disjoint(self.areas@)
    }

    /// The virtual page `vpn` is mapped.
    pub open spec fn is_mapped(self, vpn: int) -> bool {
        find_area(self.areas@, vpn) is Some
    }

    /// Permission bits of the mapping of `vpn`; meaningful only when mapped.
    pub open spec fn perm_at(self, vpn: int) -> u8 {
        find_area(self.areas@, vpn).unwrap().perm
    }

    /// Physical frame behind the mapping of `vpn`; meaningful only when
    /// mapped.
    pub open spec fn ppn_at(self, vpn: int) -> int {
        let a = find_area(self.areas@, vpn).unwrap();
        a.start_ppn + (vpn - a.start_vpn)
    }

    /// Some page of `[svpn, evpn)` is mapped.
    pub open spec fn range_overlaps(self, svpn: int, evpn: int) -> bool {
        exists|vpn: int| svpn <= vpn < evpn && self.is_mapped(vpn)
    }

    /// Some area covers exactly the page range `[svpn, evpn)`.
    pub open spec fn has_exact_area(self, svpn: int, evpn: int) -> bool {
        exists|i: int|
            0 <= i < self.areas@.len() && (#[trigger] self.areas@[i]).start_vpn == svpn
                && self.areas@[i].end_vpn == evpn
    }

    /// A byte of virtual address `va` can be accessed from user mode with
    /// every permission in `required`: its page is mapped, user-accessible,
    /// and grants those bits.
    pub open spec fn spec_accessible(self, va: int, required: u8) -> bool {
        let vpn = va / PAGE_SIZE as int;
        &&& self.is_mapped(vpn)
        &&& (self.perm_at(vpn) & PERM_U) != 0
        &&& (self.perm_at(vpn) & required) == required
    }

    /// The token identifying this address space to the translation hardware.
    pub fn token(&self) -> (r: usize)
        ensures
            r == self.satp,
    {
        self.satp
    }

    /// Index of the area containing `vpn`, if any.
    fn locate(&self, vpn: usize) -> (r: Option<usize>)
        ensures
            match r {
                Some(i) => i < self.areas@.len() && area_contains(self.areas@[i as int], vpn as int),
                None => !self.is_mapped(vpn as int),
            },
    {
        let n = self.areas.len();
        for i in 0..n
            invariant
                n == self.areas@.len(),
                forall|k: int| 0 <= k < i ==> !area_contains(#[trigger] self.areas@[k], vpn as int),
        {
            let a = &self.areas[i];
            if a.start_vpn <= vpn && vpn < a.end_vpn {
                return Some(i);
            }
        }
        proof {
            lemma_find_area_exists(self.areas@, vpn as int);
        }
        None
    }

    /// Virtual-to-physical translation of one page, as the page-table walk
    /// would answer it.
    pub fn translate(&self, vpn: usize) -> (r: Option<usize>)
        requires
            self.wf(),
        ensures
            (r is Some) <==> self.is_mapped(vpn as int),
            r is Some ==> r.unwrap() == self.ppn_at(vpn as int),
    {
        match self.locate(vpn) {
            Some(i) => {
                proof {
                    lemma_find_area_at(self.areas@, vpn as int, i as int);
                }
                let a = &self.areas[i];
                Some(a.start_ppn + (vpn - a.start_vpn))
            },
            None => None,
        }
    }

    /// Whether user mode may access the byte at `va` with every permission in
    /// `required`.
    pub fn accessible(&self, va: usize, required: u8) -> (r: bool)
        requires
            self.wf(),
        ensures
            r == self.spec_accessible(va as int, required),
    {
        let vpn = va / PAGE_SIZE;
        match self.locate(vpn) {
            Some(i) => {
                proof {
                    lemma_find_area_at(self.areas@, vpn as int, i as int);
                }
                let p = self.areas[i].perm;
                (p & PERM_U) != 0 && (p & required) == required
            },
            None => false,
        }
    }

    /// Appends the area `[start_vpn, end_vpn)` backed by frames
    /// `start_ppn ..`, leaving every other page untouched.
    fn push_area_raw(&mut self, start_vpn: usize, end_vpn: usize, perm: u8, start_ppn: usize)
        requires
            old(self).wf(),
            start_vpn < end_vpn,
            end_vpn <= TRAMPOLINE_VPN + 1,
            start_ppn + (end_vpn - start_vpn) <= PPN_LIMIT,
            !old(self).range_overlaps(start_vpn as int, end_vpn as int),
        ensures
            final(self).wf(),
            final(self).satp == old(self).satp,
            final(self).areas@ == old(self).areas@.push(
                (MapArea { start_vpn, end_vpn, perm, start_ppn }),
            ),
            forall|vpn: int|
                start_vpn <= vpn < end_vpn ==> final(self).is_mapped(vpn) && final(self).perm_at(
                    vpn,
                ) == perm && final(self).ppn_at(vpn) == start_ppn + (vpn - start_vpn),
            forall|vpn: int|
                !(start_vpn <= vpn < end_vpn) ==> find_area(final(self).areas@, vpn) == find_area(
                    old(self).areas@,
                    vpn,
                ),
    {
        let a = MapArea { start_vpn, end_vpn, perm, start_ppn };
        proof {
            let olds = self.areas@;
            assert forall|i: int| 0 <= i < olds.len() implies areas_disjoint(
                #[trigger] olds[i],
                a,
            ) by {
                if !areas_disjoint(olds[i], a) {
                    let v: int = if olds[i].start_vpn >= start_vpn {
                        olds[i].start_vpn as int
                    } else {
                        start_vpn as int
                    };
                    assert(area_contains(olds[i], v));
                    lemma_find_area_exists(olds, v);
                    assert(old(self).is_mapped(v));
                    assert(start_vpn <= v < end_vpn);
                    assert(old(self).range_overlaps(start_vpn as int, end_vpn as int));
                }
            }
        }
        self.areas.push(a);
        proof {
            let olds = old(self).areas@;
            let news = self.areas@;
            assert(news.last() == a);
            assert(news.drop_last() =~= olds);
            assert forall|i: int, j: int| 0 <= i < j < news.len() implies areas_disjoint(
                #[trigger] news[i],
                #[trigger] news[j],
            ) by {
                if j < news.len() - 1 {
                    assert(areas_disjoint(olds[i], olds[j]));
                } else {
                    assert(news[i] == olds[i]);
                }
            }
            assert forall|vpn: int| start_vpn <= vpn < end_vpn implies self.is_mapped(vpn)
                && self.perm_at(vpn) == perm && self.ppn_at(vpn) == start_ppn + (vpn
                - start_vpn) by {
                assert(area_contains(a, vpn));
                assert(find_area(news, vpn) == Some(a));
            }
            assert forall|vpn: int| !(start_vpn <= vpn < end_vpn) implies find_area(news, vpn)
                == find_area(olds, vpn) by {
                assert(!area_contains(a, vpn));
            }
        }
    }

    /// Maps the page range `[start_vpn, end_vpn)` with permission `perm`,
    /// backing it with a fresh run of frames from `alloc`.
    pub fn push_area(
        &mut self,
        start_vpn: usize,
        end_vpn: usize,
        perm: u8,
        alloc: &mut FrameAllocator,
    )
        requires
            old(self).wf(),
            old(alloc).wf(),
            start_vpn < end_vpn,
            end_vpn <= TRAMPOLINE_VPN + 1,
            end_vpn - start_vpn <= old(alloc).free,
            !old(self).range_overlaps(start_vpn as int, end_vpn as int),
        ensures
            final(self).wf(),
            final(alloc).wf(),
            final(self).satp == old(self).satp,
            final(alloc).next_ppn == old(alloc).next_ppn + (end_vpn - start_vpn),
            final(alloc).free == old(alloc).free - (end_vpn - start_vpn),
            final(self).areas@ == old(self).areas@.push(
                (MapArea { start_vpn, end_vpn, perm, start_ppn: old(alloc).next_ppn }),
            ),
            forall|vpn: int|
                start_vpn <= vpn < end_vpn ==> final(self).is_mapped(vpn) && final(self).perm_at(
                    vpn,
                ) == perm && final(self).ppn_at(vpn) == old(alloc).next_ppn + (vpn - start_vpn),
            forall|vpn: int|
                !(start_vpn <= vpn < end_vpn) ==> find_area(final(self).areas@, vpn) == find_area(
                    old(self).areas@,
                    vpn,
                ),
    {
        let pages = end_vpn - start_vpn;
        let base = alloc.alloc_frames(pages);
        self.push_area_raw(start_vpn, end_vpn, perm, base);
    }

    /// Maps the shared trampoline page at the top of the address space,
    /// read-execute and kernel-only, backed by the fixed trampoline frame
    /// rather than by a granted one.
    pub fn map_trampoline(&mut self)
        requires
            old(self).wf(),
            !old(self).range_overlaps(TRAMPOLINE_VPN as int, TRAMPOLINE_VPN as int + 1),
        ensures
            final(self).wf(),
            final(self).satp == old(self).satp,
            final(self).areas@ == old(self).areas@.push(
                (MapArea {
                    start_vpn: TRAMPOLINE_VPN,
                    end_vpn: (TRAMPOLINE_VPN + 1) as usize,
                    perm: PERM_R | PERM_X,
                    start_ppn: TRAMPOLINE_PPN,
                }),
            ),
            final(self).is_mapped(TRAMPOLINE_VPN as int),
            final(self).perm_at(TRAMPOLINE_VPN as int) == PERM_R | PERM_X,
            forall|vpn: int|
                vpn != TRAMPOLINE_VPN ==> find_area(final(self).areas@, vpn) == find_area(
                    old(self).areas@,
                    vpn,
                ),
    {
        self.push_area_raw(TRAMPOLINE_VPN, TRAMPOLINE_VPN + 1, PERM_R | PERM_X, TRAMPOLINE_PPN);
    }

    /// Whether any page of the byte range `[start_va, end_va)`, widened to
    /// page granularity, is already mapped.
    pub fn is_overlapped(&self, start_va: usize, end_va: usize) -> (r: bool)
        requires
            self.wf(),
            start_va <= end_va,
            end_va <= usize::MAX - PAGE_SIZE + 1,
        ensures
            r == self.range_overlaps(
                start_va as int / PAGE_SIZE as int,
                (end_va + PAGE_SIZE - 1) as int / PAGE_SIZE as int,
            ),
    {
        let svpn = start_va / PAGE_SIZE;
        let evpn = (end_va + (PAGE_SIZE - 1)) / PAGE_SIZE;
        if svpn >= evpn {
            return false;
        }
        let n = self.areas.len();
        for i in 0..n
            invariant
                n == self.areas@.len(),
                svpn == start_va as int / PAGE_SIZE as int,
                evpn == (end_va + PAGE_SIZE - 1) as int / PAGE_SIZE as int,
                svpn < evpn,
                self.wf(),
                forall|k: int|
                    0 <= k < i ==> ((#[trigger] self.areas@[k]).start_vpn >= evpn
                        || self.areas@[k].end_vpn <= svpn),
        {
            let a = &self.areas[i];
            if a.start_vpn < evpn && svpn < a.end_vpn {
                proof {
                    let v: int = if svpn >= a.start_vpn {
                        svpn as int
                    } else {
                        a.start_vpn as int
                    };
                    assert(area_wf(self.areas@[i as int]));
                    assert(area_contains(self.areas@[i as int], v));
                    lemma_find_area_exists(self.areas@, v);
                    assert(svpn <= v < evpn && self.is_mapped(v));
                }
                return true;
            }
        }
        proof {
            if self.range_overlaps(svpn as int, evpn as int) {
                let v = choose|v: int| svpn <= v < evpn && self.is_mapped(v);
                lemma_find_area_exists(self.areas@, v);
                let k = choose|k: int|
                    0 <= k < self.areas@.len() && area_contains(#[trigger] self.areas@[k], v);
                assert(self.areas@[k].start_vpn < evpn && svpn < self.areas@[k].end_vpn);
            }
        }
        false
    }

    /// Maps the byte range `[start_va, end_va)`, widened to page granularity,
    /// with permission `perm`, backing it with fresh frames from `alloc`. An
    /// empty page range maps nothing.
    pub fn insert_framed_area(
        &mut self,
        start_va: usize,
        end_va: usize,
        perm: u8,
        alloc: &mut FrameAllocator,
    )
        requires
            old(self).wf(),
            old(alloc).wf(),
            start_va <= end_va,
            end_va <= usize::MAX - PAGE_SIZE + 1,
            !old(self).range_overlaps(
                start_va as int / PAGE_SIZE as int,
                (end_va + PAGE_SIZE - 1) as int / PAGE_SIZE as int,
            ),
            (end_va + PAGE_SIZE - 1) as int / PAGE_SIZE as int - start_va as int / PAGE_SIZE as int
                <= old(alloc).free,
        ensures
            final(self).wf(),
            final(alloc).wf(),
            final(self).satp == old(self).satp,
            ({
                let svpn = start_va as int / PAGE_SIZE as int;
                let evpn = (end_va + PAGE_SIZE - 1) as int / PAGE_SIZE as int;
                &&& final(alloc).next_ppn == old(alloc).next_ppn + (evpn - svpn)
                &&& final(alloc).free == old(alloc).free - (evpn - svpn)
                &&& forall|vpn: int|
                    svpn <= vpn < evpn ==> final(self).is_mapped(vpn) && final(self).perm_at(vpn)
                        == perm
                &&& forall|vpn: int|
                    !(svpn <= vpn < evpn) ==> find_area(final(self).areas@, vpn) == find_area(
                        old(self).areas@,
                        vpn,
                    )
            }),
    {
        let svpn = start_va / PAGE_SIZE;
        let evpn = (end_va + (PAGE_SIZE - 1)) / PAGE_SIZE;
        proof {
            lemma_div_is_ordered(start_va as int, (end_va + PAGE_SIZE - 1) as int, PAGE_SIZE as int);
            lemma_div_is_ordered(
                (end_va + PAGE_SIZE - 1) as int,
                usize::MAX as int,
                PAGE_SIZE as int,
            );
        }
        if svpn < evpn {
            self.push_area(svpn, evpn, perm, alloc);
        }
    }

    /// Unmaps the byte range `[start_va, end_va)`, widened to page
    /// granularity, provided that range coincides exactly with one previously
    /// inserted area; returns whether it did. The retired frames are not
    /// reissued.
    pub fn remove_framed_area(&mut self, start_va: usize, end_va: usize) -> (r: bool)
        requires
            old(self).wf(),
            start_va <= end_va,
            end_va <= usize::MAX - PAGE_SIZE + 1,
        ensures
            final(self).wf(),
            final(self).satp == old(self).satp,
            r == old(self).has_exact_area(
                start_va as int / PAGE_SIZE as int,
                (end_va + PAGE_SIZE - 1) as int / PAGE_SIZE as int,
            ),
            !r ==> *final(self) == *old(self),
            r ==> ({
                let svpn = start_va as int / PAGE_SIZE as int;
                let evpn = (end_va + PAGE_SIZE - 1) as int / PAGE_SIZE as int;
                &&& forall|vpn: int| svpn <= vpn < evpn ==> !final(self).is_mapped(vpn)
                &&& forall|vpn: int|
                    !(svpn <= vpn < evpn) ==> find_area(final(self).areas@, vpn) == find_area(
                        old(self).areas@,
                        vpn,
                    )
            }),
    {
        let svpn = start_va / PAGE_SIZE;
        let evpn = (end_va + (PAGE_SIZE - 1)) / PAGE_SIZE;
        let n = self.areas.len();
        for i in 0..n
            invariant
                n == self.areas@.len(),
                *self == *old(self),
                old(self).wf(),
                svpn == start_va as int / PAGE_SIZE as int,
                evpn == (end_va + PAGE_SIZE - 1) as int / PAGE_SIZE as int,
                forall|k: int|
                    0 <= k < i ==> !((#[trigger] self.areas@[k]).start_vpn == svpn
                        && self.areas@[k].end_vpn == evpn),
        {
            let hit = {
                let a = &self.areas[i];
                a.start_vpn == svpn && a.end_vpn == evpn
            };
            if hit {
                proof {
                    assert(old(self).has_exact_area(svpn as int, evpn as int));
                }
                let removed = self.areas.remove(i);
                proof {
                    let olds = old(self).areas@;
                    let news = self.areas@;
                    olds.remove_ensures(i as int);
                    assert(news =~= olds.remove(i as int));
                    assert forall|k: int| 0 <= k < news.len() implies #[trigger] news[k] == (
                    if k < i { olds[k] } else { olds[k + 1] }) by {}
                    assert forall|p: int, q: int| 0 <= p < q < news.len() implies areas_disjoint(
                        #[trigger] news[p],
                        #[trigger] news[q],
                    ) by {
                        let p0: int = if p < i { p } else { p + 1 };
                        let q0: int = if q < i { q } else { q + 1 };
                        assert(areas_disjoint(olds[p0], olds[q0]));
                    }
                    assert forall|k: int| 0 <= k < news.len() implies area_wf(
                        #[trigger] news[k],
                    ) by {
                        let k0: int = if k < i { k } else { k + 1 };
                        assert(area_wf(olds[k0]));
                    }
                    assert forall|vpn: int| svpn <= vpn < evpn implies !self.is_mapped(vpn) by {
                        lemma_find_area_exists(news, vpn);
                        if self.is_mapped(vpn) {
                            let k = choose|k: int|
                                0 <= k < news.len() && area_contains(#[trigger] news[k], vpn);
                            let k0: int = if k < i { k } else { k + 1 };
                            assert(area_contains(olds[k0], vpn));
                            assert(area_contains(olds[i as int], vpn));
                            assert(areas_disjoint(olds[k0], olds[i as int]));
                        }
                    }
                    assert forall|vpn: int| !(svpn <= vpn < evpn) implies find_area(news, vpn)
                        == find_area(olds, vpn) by {
                        assert(!area_contains(olds[i as int], vpn));
                        lemma_find_area_exists(olds, vpn);
                        lemma_find_area_exists(news, vpn);
                        if find_area(olds, vpn) is Some {
                            let k0 = choose|k0: int|
                                0 <= k0 < olds.len() && #[trigger] olds[k0] == find_area(
                                    olds,
                                    vpn,
                                ).unwrap() && area_contains(olds[k0], vpn);
                            assert(k0 != i);
                            let k: int = if k0 < i { k0 } else { k0 - 1 };
                            assert(news[k] == olds[k0]);
                            assert(area_contains(news[k], vpn));
                            lemma_find_area_at(news, vpn, k);
                            lemma_find_area_at(olds, vpn, k0);
                        } else {
                            if find_area(news, vpn) is Some {
                                let k = choose|k: int|
                                    0 <= k < news.len() && area_contains(#[trigger] news[k], vpn);
                                let k0: int = if k < i { k } else { k + 1 };
                                assert(area_contains(olds[k0], vpn));
                            }
                        }
                    }
                }
                return true;
            }
        }
        false
    }
}

} // verus!
