//! Address spaces: map areas and memory sets.
//!
//! A map area is one contiguous range of virtual pages, mapped either
//! identically (physical page number equals virtual) or backed by freshly
//! allocated frames that the area owns. A memory set owns a page table and
//! a list of areas, and builds the kernel space and per-application spaces.
use vstd::prelude::*;
use vstd::assert_seqs_equal;

use crate::address::{SimpleRange, VirtualAddress, VirtualPageNum};
use crate::config::{PAGE_SIZE, PPN_LIMIT, VA_LIMIT, VPN_LIMIT};
use crate::frame_allocator::{frame_alloc, FrameTracker, StackFrameAllocator};
use crate::page_table::{
    spec_pte_bits, spec_pte_flags, spec_pte_valid, PTEFlags, PageTable, PagingError,
};

verus! {

/// Access rights of a mapped area: the R, W, X, U page-table flag bits,
/// each a distinct power of two, with the valid bit left clear.
#[derive(Copy, Clone, PartialEq, Eq, Structural, Debug)]
pub struct MapPermission {
    pub bits: u8,
}

impl MapPermission {
    /// Permission bits occupy bits 1 through 4 only.
    pub open spec fn wf(self) -> bool {
        self.bits % 2 == 0 && self.bits < 32
    }

    pub fn new(r: bool, w: bool, x: bool, u: bool) -> (p: Self)
        ensures
            p.bits == (if r { 2int } else { 0int }) + (if w { 4int } else { 0int }) + (if x {
                8int
            } else {
                0int
            }) + (if u { 16int } else { 0int }),
            p.wf(),
    {
        let mut bits: u8 = 0;
        if r {
            bits = bits + 2;
        }
        if w {
            bits = bits + 4;
        }
        if x {
            bits = bits + 8;
        }
        if u {
            bits = bits + 16;
        }
        MapPermission { bits }
    }
}

/// How an area's pages find their physical frames.
#[derive(Copy, Clone, PartialEq, Eq, Structural, Debug)]
pub enum MapType {
    /// Physical page number equals virtual page number.
    Identical,
    /// Each page is backed by a freshly allocated frame owned by the area.
    Framed,
}

/// Table nodes that mapping the page range `[s, e)` can allocate at
/// most: one level-2 node per 2 MiB group it touches and one level-1 node
/// per 1 GiB group, with slack for the partially covered groups at the
/// ends.
#[verifier::opaque]
pub open spec fn spec_area_node_budget(s: u64, e: u64) -> int {
    (e - s) / 512 + (e - s) / 0x40000 + 4
}

/// Dividing two consecutive integers moves the quotient by at most one,
/// and nested division by 512 twice is division by 0x40000.
proof fn lemma_group_step(x: int)
    requires
        x >= 1,
    ensures
        x / 512 - (x - 1) / 512 == 0 || x / 512 - (x - 1) / 512 == 1,
        x / 0x40000 - (x - 1) / 0x40000 == 0 || x / 0x40000 - (x - 1) / 0x40000 == 1,
        x / 512 == (x - 1) / 512 ==> x / 0x40000 == (x - 1) / 0x40000,
        (x / 512) / 512 == x / 0x40000,
        ((x - 1) / 512) / 512 == (x - 1) / 0x40000,
{
    assert(x / 512 - (x - 1) / 512 == 0 || x / 512 - (x - 1) / 512 == 1) by (nonlinear_arith)
        requires x >= 1
    ;
    assert(x / 0x40000 - (x - 1) / 0x40000 == 0 || x / 0x40000 - (x - 1) / 0x40000 == 1)
        by (nonlinear_arith)
        requires x >= 1
    ;
    assert((x / 512) / 512 == x / 0x40000) by (nonlinear_arith)
        requires x >= 0
    ;
    assert(((x - 1) / 512) / 512 == (x - 1) / 0x40000) by (nonlinear_arith)
        requires x >= 1
    ;
}

/// Quotient differences over a subrange stay within the range's own
/// quotient plus one.
proof fn lemma_group_span(s: int, c: int, e: int)
    requires
        0 <= s <= c < e,
    ensures
        c / 512 - s / 512 <= (e - s) / 512 + 1,
        c / 0x40000 - s / 0x40000 <= (e - s) / 0x40000 + 1,
{
    assert(c / 512 - s / 512 <= (c - s) / 512 + 1) by (nonlinear_arith)
        requires 0 <= s <= c
    ;
    assert((c - s) / 512 <= (e - s) / 512) by (nonlinear_arith)
        requires 0 <= c - s <= e - s
    ;
    assert(c / 0x40000 - s / 0x40000 <= (c - s) / 0x40000 + 1) by (nonlinear_arith)
        requires 0 <= s <= c
    ;
    assert((c - s) / 0x40000 <= (e - s) / 0x40000) by (nonlinear_arith)
        requires 0 <= c - s <= e - s
    ;
}

/// One contiguous virtual segment of an address space.
pub struct MapArea {
    vpn_range: SimpleRange,
    data_frames: Vec<(u64, FrameTracker)>,
    map_type: MapType,
    map_perm: MapPermission,
}

impl MapArea {
    /// First page number of the range.
    pub closed spec fn spec_start(&self) -> u64 {
        self.vpn_range.spec_start()
    }

    /// One past the last page number of the range.
    pub closed spec fn spec_end(&self) -> u64 {
        self.vpn_range.spec_end()
    }

    pub closed spec fn spec_type(&self) -> MapType {
        self.map_type
    }

    pub closed spec fn spec_perm(&self) -> MapPermission {
        self.map_perm
    }

    /// The owned frames: pairs of virtual page number and tracker.
    pub closed spec fn spec_frames(&self) -> Seq<(u64, FrameTracker)> {
        self.data_frames@
    }

    pub open spec fn wf(&self) -> bool {
        &&& self.spec_start() <= self.spec_end() <= VPN_LIMIT
        &&& self.spec_perm().wf()
        &&& forall|k: int|
            0 <= k < self.spec_frames().len() ==> (#[trigger] self.spec_frames()[k]).1.wf()
                && self.spec_start() <= self.spec_frames()[k].0 < self.spec_end()
                && self.spec_frames()[k].1.spec_ppn().0 < PPN_LIMIT
    }

    /// Every owned frame is live in allocator `a`.
    pub open spec fn frames_live(&self, a: &StackFrameAllocator) -> bool {
        forall|k: int|
            0 <= k < self.spec_frames().len() ==> a.is_live(
                (#[trigger] self.spec_frames()[k]).1.spec_ppn().0,
            )
    }

    /// An area covering `[start_va, end_va)`, rounded outward to pages,
    /// owning no frames yet.
    pub fn new(start_va: VirtualAddress, end_va: VirtualAddress, map_type: MapType, map_perm: MapPermission) -> (r: Self)
        requires
            start_va.0 <= end_va.0,
            end_va.wf(),
            map_perm.wf(),
        ensures
            r.spec_start() == crate::address::spec_page_floor(start_va.0),
            r.spec_end() == crate::address::spec_page_ceil(end_va.0),
            r.spec_type() == map_type,
            r.spec_perm() == map_perm,
            r.spec_frames().len() == 0,
            r.wf(),
    {
        let start_vpn = start_va.floor();
        let end_vpn = end_va.ceil();
        proof {
            assert(start_va.0 as int / (PAGE_SIZE as int) <= (end_va.0 + PAGE_SIZE - 1) as int / (
            PAGE_SIZE as int)) by (nonlinear_arith)
                requires start_va.0 <= end_va.0
            ;
        }
        MapArea {
            vpn_range: SimpleRange::new(start_vpn, end_vpn),
            data_frames: Vec::new(),
            map_type,
            map_perm,
        }
    }

    /// Maps the single page `vpn` of this area: identical pages map to
    /// themselves, framed pages get a fresh zeroed frame the area keeps.
    pub fn map_one(&mut self, pt: &mut PageTable, a: &mut StackFrameAllocator, vpn: VirtualPageNum) -> (r: Result<
        (),
        PagingError,
    >)
        requires
            old(self).wf(),
            old(pt).wf(),
            old(pt).rooted(),
            old(a).wf(),
            old(pt).frames_live(old(a)),
            old(self).frames_live(old(a)),
            old(self).spec_start() <= vpn.0 < old(self).spec_end(),
        ensures
            final(self).wf(),
            final(pt).wf(),
            final(pt).rooted(),
            final(pt).spec_root() == old(pt).spec_root(),
            final(a).wf(),
            final(a).spec_end() == old(a).spec_end(),
            final(pt).frames_live(final(a)),
            final(self).frames_live(final(a)),
            forall|q: u64| old(a).is_live(q) ==> final(a).is_live(q),
            final(a).avail() >= old(a).avail() - 3,
            final(self).spec_start() == old(self).spec_start(),
            final(self).spec_end() == old(self).spec_end(),
            final(self).spec_type() == old(self).spec_type(),
            final(self).spec_perm() == old(self).spec_perm(),
            forall|w: u64|
                w < VPN_LIMIT && w != vpn.0 ==> final(pt).spec_mapped(w) == old(pt).spec_mapped(w),
            forall|p: u64|
                !old(pt).has_node(p) && old(a).is_live(p) ==> !final(pt).has_node(p),
            forall|w: u64| old(pt).l1_ready_at(w) ==> final(pt).l1_ready_at(w),
            forall|w: u64| old(pt).l2_ready_at(w) ==> final(pt).l2_ready_at(w),
            r is Ok ==> final(pt).l2_ready_at(vpn.0),
            r is Ok ==> final(a).avail() >= old(a).avail() - old(pt).spec_map_need(vpn.0) - (
            if old(self).spec_type() == MapType::Framed {
                1int
            } else {
                0int
            }),
            !old(pt).is_mapped(vpn.0) && old(a).avail() >= old(pt).spec_map_need(vpn.0) + (
            if old(self).spec_type() == MapType::Framed {
                1int
            } else {
                0int
            }) ==> r is Ok,
            r == Err::<(), PagingError>(PagingError::AlreadyMapped) ==> old(pt).is_mapped(vpn.0),
            r == Err::<(), PagingError>(PagingError::FrameExhausted) ==> old(a).avail() < 3
                && final(a).avail() == 0,
            r != Err::<(), PagingError>(PagingError::NotMapped),
            r is Err ==> final(self).spec_frames() == old(self).spec_frames() && final(pt).spec_mapped(vpn.0) == old(pt).spec_mapped(vpn.0),
            r is Ok ==> {
                &&& !old(pt).is_mapped(vpn.0)
                &&& (final(pt).spec_mapped(vpn.0) matches Some(b) && spec_pte_valid(b)
                    && spec_pte_flags(b) == old(self).spec_perm().bits + 1)
                &&& (old(self).spec_type() == MapType::Identical ==> final(pt).spec_mapped(vpn.0)
                    == Some(spec_pte_bits(vpn.0, (old(self).spec_perm().bits + 1) as u8) as u64)
                    && final(self).spec_frames() == old(self).spec_frames())
                &&& (old(self).spec_type() == MapType::Framed ==> {
                    let fr = final(self).spec_frames().last();
                    &&& final(self).spec_frames().len() == old(self).spec_frames().len() + 1
                    &&& final(self).spec_frames().take(old(self).spec_frames().len() as int)
                        == old(self).spec_frames()
                    &&& fr.0 == vpn.0
                    &&& (forall|i: int| 0 <= i < PAGE_SIZE ==> fr.1.spec_data()[i] == 0u8)
                    &&& final(pt).spec_mapped(vpn.0) == Some(
                        spec_pte_bits(fr.1.spec_ppn().0, (old(self).spec_perm().bits + 1) as u8)
                            as u64,
                    )
                    &&& !final(pt).has_node(fr.1.spec_ppn().0)
                    &&& (forall|k: int|
                        0 <= k < old(self).spec_frames().len() ==> fr.1.spec_ppn() != (
                        #[trigger] old(self).spec_frames()[k]).1.spec_ppn())
                })
            },
            !old(pt).is_mapped(vpn.0) && old(a).avail() >= 3 ==> r is Ok,
    {
        let flags = PTEFlags::new(self.map_perm.bits);
        match self.map_type {
            MapType::Identical => {
                let r = pt.map(a, vpn, crate::address::PhysicPageNum(vpn.0), flags);
                proof {
                    assert(flags.spec_with_valid().bits == self.map_perm.bits + 1);
                    if r is Ok {
                        crate::page_table::lemma_pte_encode(
                            vpn.0,
                            (self.map_perm.bits + 1) as u8,
                        );
                    }
                }
                r
            },
            MapType::Framed => {
                let tracker = match frame_alloc(a) {
                    None => {
                        return Err(PagingError::FrameExhausted);
                    },
                    Some(t) => t,
                };
                let ppn = tracker.ppn();
                let r = pt.map(a, vpn, ppn, flags);
                match r {
                    Ok(()) => {
                        proof {
                            assert(flags.spec_with_valid().bits == self.map_perm.bits + 1);
                            crate::page_table::lemma_pte_encode(
                                ppn.0,
                                (self.map_perm.bits + 1) as u8,
                            );
                        }
                        self.data_frames.push((vpn.0, tracker));
                        proof {
                            assert(self.data_frames@.take(old(self).spec_frames().len() as int)
                                == old(self).spec_frames()) by {
                                assert_seqs_equal!(self.data_frames@.take(
                                    old(self).spec_frames().len() as int)
                                    == old(self).spec_frames());
                            }
                        }
                        Ok(())
                    },
                    Err(e) => {
                        // The fresh frame is dropped: a failed mapping is a
                        // fatal kernel bug and the frame is abandoned.
                        Err(e)
                    },
                }
            },
        }
    }

    /// Maps every page of the range in ascending order.
    pub fn map(&mut self, pt: &mut PageTable, a: &mut StackFrameAllocator) -> (r: Result<
        (),
        PagingError,
    >)
        requires
            old(self).wf(),
            old(self).spec_frames().len() == 0,
            old(pt).wf(),
            old(pt).rooted(),
            old(a).wf(),
            old(pt).frames_live(old(a)),
        ensures
            final(self).wf(),
            final(pt).wf(),
            final(pt).rooted(),
            final(pt).spec_root() == old(pt).spec_root(),
            final(a).wf(),
            final(a).spec_end() == old(a).spec_end(),
            final(pt).frames_live(final(a)),
            final(self).frames_live(final(a)),
            forall|q: u64| old(a).is_live(q) ==> final(a).is_live(q),
            final(a).avail() >= old(a).avail() - 3 * (old(self).spec_end() - old(self).spec_start()),
            final(self).spec_start() == old(self).spec_start(),
            final(self).spec_end() == old(self).spec_end(),
            final(self).spec_type() == old(self).spec_type(),
            final(self).spec_perm() == old(self).spec_perm(),
            forall|w: u64|
                w < VPN_LIMIT && !(old(self).spec_start() <= w < old(self).spec_end()) ==> final(pt).spec_mapped(w) == old(pt).spec_mapped(w),
            r == Err::<(), PagingError>(PagingError::AlreadyMapped) ==> exists|v: u64|
                old(self).spec_start() <= v < old(self).spec_end() && old(pt).is_mapped(v),
            r == Err::<(), PagingError>(PagingError::FrameExhausted) ==> old(a).avail() < 3 * (old(self).spec_end() - old(self).spec_start()) && final(a).avail() == 0,
            r != Err::<(), PagingError>(PagingError::NotMapped),
            r is Ok ==> {
                &&& (forall|v: u64|
                    old(self).spec_start() <= v < old(self).spec_end() ==> !old(pt).is_mapped(v)
                        && (#[trigger] final(pt).spec_mapped(v) matches Some(b) && spec_pte_valid(
                        b,
                    ) && spec_pte_flags(b) == old(self).spec_perm().bits + 1))
                &&& (old(self).spec_type() == MapType::Identical ==> forall|v: u64|
                    old(self).spec_start() <= v < old(self).spec_end()
                        ==> #[trigger] final(pt).spec_mapped(v) == Some(
                        spec_pte_bits(v, (old(self).spec_perm().bits + 1) as u8) as u64,
                    ))
                &&& (old(self).spec_type() == MapType::Framed ==> {
                    &&& final(self).spec_frames().len() == old(self).spec_end() - old(self).spec_start()
                    &&& (forall|k: int|
                        0 <= k < final(self).spec_frames().len() ==> (#[trigger] final(self).spec_frames()[k]).0 == old(self).spec_start() + k && final(pt).spec_mapped((old(self).spec_start() + k) as u64) == Some(
                            spec_pte_bits(
                                final(self).spec_frames()[k].1.spec_ppn().0,
                                (old(self).spec_perm().bits + 1) as u8,
                            ) as u64,
                        ) && (forall|i: int|
                            0 <= i < PAGE_SIZE ==> final(self).spec_frames()[k].1.spec_data()[i]
                                == 0u8))
                    &&& (forall|k1: int, k2: int|
                        0 <= k1 < k2 < final(self).spec_frames().len() ==> (#[trigger] final(self).spec_frames()[k1]).1.spec_ppn() != (#[trigger] final(self).spec_frames()[k2]).1.spec_ppn())
                    &&& (forall|k: int|
                        0 <= k < final(self).spec_frames().len() ==> !final(pt).has_node(
                            (#[trigger] final(self).spec_frames()[k]).1.spec_ppn().0,
                        ))
                })
            },
            (forall|v: u64|
                old(self).spec_start() <= v < old(self).spec_end() ==> !old(pt).is_mapped(v))
                && old(a).avail() >= 3 * (old(self).spec_end() - old(self).spec_start())
                ==> r is Ok,
            (forall|v: u64|
                old(self).spec_start() <= v < old(self).spec_end() ==> !old(pt).is_mapped(v))
                && old(a).avail() >= (if old(self).spec_type() == MapType::Framed {
                old(self).spec_end() - old(self).spec_start()
            } else {
                0int
            }) + spec_area_node_budget(old(self).spec_start(), old(self).spec_end()) ==> r is Ok,
            r is Ok ==> final(a).avail() >= old(a).avail() - (
            if old(self).spec_type() == MapType::Framed {
                old(self).spec_end() - old(self).spec_start()
            } else {
                0int
            }) - spec_area_node_budget(old(self).spec_start(), old(self).spec_end()),
    {
        proof {
            reveal(spec_area_node_budget);
        }
        let ghost fcost: int = if old(self).spec_type() == MapType::Framed {
            1int
        } else {
            0int
        };
        let ghost budget_ok = (forall|v: u64|
            old(self).spec_start() <= v < old(self).spec_end() ==> !old(pt).is_mapped(v)) && old(
            a,
        ).avail() >= fcost * (old(self).spec_end() - old(self).spec_start())
            + spec_area_node_budget(old(self).spec_start(), old(self).spec_end());
        let start = self.vpn_range.get_start();
        let end = self.vpn_range.get_end();
        let mut cur: u64 = start.0;
        while cur < end.0
            invariant
                start.0 == old(self).spec_start(),
                end.0 == old(self).spec_end(),
                start.0 <= cur <= end.0,
                self.wf(),
                pt.wf(),
                pt.rooted(),
                pt.spec_root() == old(pt).spec_root(),
                a.wf(),
                a.spec_end() == old(a).spec_end(),
                pt.frames_live(a),
                self.frames_live(a),
                forall|q: u64| old(a).is_live(q) ==> a.is_live(q),
                self.spec_start() == old(self).spec_start(),
                self.spec_end() == old(self).spec_end(),
                self.spec_type() == old(self).spec_type(),
                self.spec_perm() == old(self).spec_perm(),
                a.avail() >= old(a).avail() - 3 * (cur - start.0),
                fcost == (if old(self).spec_type() == MapType::Framed {
                    1int
                } else {
                    0int
                }),
                budget_ok == ((forall|v: u64|
                    old(self).spec_start() <= v < old(self).spec_end() ==> !old(pt).is_mapped(
                        v,
                    )) && old(a).avail() >= fcost * (old(self).spec_end() - old(self).spec_start())
                    + spec_area_node_budget(old(self).spec_start(), old(self).spec_end())),
                cur > start.0 ==> pt.l2_ready_at((cur - 1) as u64),
                a.avail() >= old(a).avail() - fcost * (cur - start.0) - (if cur == start.0 {
                    0int
                } else {
                    (cur - 1) / 512 - start.0 / 512 + (cur - 1) / 0x40000 - start.0 / 0x40000 + 2
                }),
                forall|w: u64|
                    w < VPN_LIMIT && !(start.0 <= w < cur) ==> pt.spec_mapped(w) == old(pt).spec_mapped(w),
                forall|v: u64|
                    start.0 <= v < cur ==> !old(pt).is_mapped(v) && (#[trigger] pt.spec_mapped(v)
                        matches Some(b) && spec_pte_valid(b) && spec_pte_flags(b) == old(self).spec_perm().bits + 1),
                old(self).spec_type() == MapType::Identical ==> forall|v: u64|
                    start.0 <= v < cur ==> #[trigger] pt.spec_mapped(v) == Some(
                        spec_pte_bits(v, (old(self).spec_perm().bits + 1) as u8) as u64,
                    ),
                old(self).spec_type() == MapType::Identical ==> self.spec_frames() == old(self).spec_frames(),
                old(self).spec_type() == MapType::Framed ==> {
                    &&& self.spec_frames().len() == cur - start.0
                    &&& (forall|k: int|
                        0 <= k < self.spec_frames().len() ==> (#[trigger] self.spec_frames()[
                        k]).0 == start.0 + k && pt.spec_mapped((start.0 + k) as u64) == Some(
                            spec_pte_bits(
                                self.spec_frames()[k].1.spec_ppn().0,
                                (old(self).spec_perm().bits + 1) as u8,
                            ) as u64,
                        ) && (forall|i: int|
                            0 <= i < PAGE_SIZE ==> self.spec_frames()[k].1.spec_data()[i] == 0u8))
                    &&& (forall|k1: int, k2: int|
                        0 <= k1 < k2 < self.spec_frames().len() ==> (#[trigger] self.spec_frames()[k1]).1.spec_ppn() != (#[trigger] self.spec_frames()[k2]).1.spec_ppn())
                    &&& (forall|k: int|
                        0 <= k < self.spec_frames().len() ==> !pt.has_node(
                            (#[trigger] self.spec_frames()[k]).1.spec_ppn().0,
                        ))
                },
            decreases end.0 - cur,
        {
            let ghost pt_before = *pt;
            let ghost a_before = *a;
            let ghost frames_before = self.spec_frames();
            proof {
                // Bound this page's node need by whether its 2 MiB and
                // 1 GiB groups were already entered.
                if cur > start.0 {
                    lemma_group_step(cur as int);
                    if cur / 512 == (cur - 1) / 512 {
                        assert(crate::address::vpn_index0(cur) == crate::address::vpn_index0(
                            (cur - 1) as u64,
                        ));
                        assert(crate::address::vpn_index1(cur) == crate::address::vpn_index1(
                            (cur - 1) as u64,
                        ));
                        pt_before.lemma_ready_same_indices(cur, (cur - 1) as u64);
                        assert(pt_before.spec_map_need(cur) == 0);
                    } else if cur / 0x40000 == (cur - 1) / 0x40000 {
                        pt_before.lemma_l2_implies_l1((cur - 1) as u64);
                        assert(crate::address::vpn_index0(cur) == crate::address::vpn_index0(
                            (cur - 1) as u64,
                        ));
                        pt_before.lemma_ready_same_indices(cur, (cur - 1) as u64);
                        assert(pt_before.spec_map_need(cur) <= 1);
                    }
                }
                if budget_ok {
                    // The pool still covers this page: one data frame at
                    // most, plus the nodes of any group entered here.
                    reveal(spec_area_node_budget);
                    let st = start.0 as int;
                    let c = cur as int;
                    let e = end.0 as int;
                    lemma_group_span(st, c, e);
                    if c > st {
                        lemma_group_step(c);
                    }
                    assert(a.avail() >= fcost + pt_before.spec_map_need(cur));
                }
            }
            let r = self.map_one(pt, a, VirtualPageNum(cur));
            match r {
                Ok(()) => {},
                Err(e) => {
                    proof {
                        if e == PagingError::AlreadyMapped {
                            assert(pt_before.is_mapped(cur));
                            assert(old(pt).is_mapped(cur) || start.0 <= cur < cur);
                            assert(old(pt).is_mapped(cur));
                        }
                        assert(!budget_ok);
                    }
                    return Err(e);
                },
            }
            proof {
                // Charge the page against the budget: a data frame plus
                // the groups entered.
                if cur > start.0 {
                    lemma_group_step(cur as int);
                }
                assert(a.avail() >= old(a).avail() - fcost * (cur + 1 - start.0) - ((cur) / 512
                    - start.0 / 512 + (cur) / 0x40000 - start.0 / 0x40000 + 2));
            }
            proof {
                assert(forall|v: u64|
                    start.0 <= v < cur ==> pt.spec_mapped(v) == pt_before.spec_mapped(v));
                if old(self).spec_type() == MapType::Framed {
                    let fb = frames_before;
                    assert forall|k: int| 0 <= k < fb.len() implies self.spec_frames()[k] == fb[k]
                        by {
                        assert(self.spec_frames().take(fb.len() as int)[k] == self.spec_frames()[
                        k]);
                    }
                    let fr = self.spec_frames().last();
                    assert(fr == self.spec_frames()[self.spec_frames().len() - 1]);
                    assert(fr.0 == cur);
                    assert forall|k1: int, k2: int|
                        0 <= k1 < k2 < self.spec_frames().len() implies (#[trigger] self.spec_frames()[k1]).1.spec_ppn() != (#[trigger] self.spec_frames()[k2]).1.spec_ppn() by {
                        if k2 < fb.len() {
                            assert(self.spec_frames()[k1] == fb[k1]);
                            assert(self.spec_frames()[k2] == fb[k2]);
                        } else {
                            assert(self.spec_frames()[k1] == fb[k1]);
                            assert(self.spec_frames()[k2] == fr);
                        }
                    }
                    assert forall|k: int|
                        0 <= k < self.spec_frames().len() implies !pt.has_node(
                        (#[trigger] self.spec_frames()[k]).1.spec_ppn().0) by {
                        if k < fb.len() {
                            assert(self.spec_frames()[k] == fb[k]);
                            assert(a_before.is_live(fb[k].1.spec_ppn().0));
                            assert(!pt_before.has_node(fb[k].1.spec_ppn().0));
                        }
                    }
                    assert forall|k: int|
                        0 <= k < self.spec_frames().len() implies (#[trigger] self.spec_frames()[
                        k]).0 == start.0 + k && pt.spec_mapped((start.0 + k) as u64) == Some(
                            spec_pte_bits(
                                self.spec_frames()[k].1.spec_ppn().0,
                                (old(self).spec_perm().bits + 1) as u8,
                            ) as u64,
                        ) && (forall|i: int|
                            0 <= i < PAGE_SIZE ==> self.spec_frames()[k].1.spec_data()[i] == 0u8)
                        by {
                        if k < fb.len() {
                            assert(self.spec_frames()[k] == fb[k]);
                            assert(fb[k].0 == start.0 + k);
                            let v = (start.0 + k) as u64;
                            assert(start.0 <= v < cur);
                            assert(pt.spec_mapped(v) == pt_before.spec_mapped(v));
                        } else {
                            assert(k == self.spec_frames().len() - 1);
                            assert(start.0 + k == cur);
                        }
                    }
                }
            }
            cur = cur + 1;
        }
        proof {
            reveal(spec_area_node_budget);
            if start.0 < end.0 {
                lemma_group_span(start.0 as int, (end.0 - 1) as int, end.0 as int);
            }
        }
        Ok(())
    }

    /// Copies `data` into the first frames of a framed area, page by page;
    /// trailing bytes of the last touched page keep their zero fill.
    pub fn copy_data(&mut self, data: &[u8])
        requires
            old(self).wf(),
            old(self).spec_type() == MapType::Framed,
            old(self).spec_frames().len() == old(self).spec_end() - old(self).spec_start(),
            forall|k: int|
                0 <= k < old(self).spec_frames().len() ==> (#[trigger] old(self).spec_frames()[
                k]).0 == old(self).spec_start() + k,
            data@.len() <= (old(self).spec_end() - old(self).spec_start()) * PAGE_SIZE,
            data@.len() + PAGE_SIZE <= usize::MAX,
        ensures
            final(self).wf(),
            final(self).spec_start() == old(self).spec_start(),
            final(self).spec_end() == old(self).spec_end(),
            final(self).spec_type() == old(self).spec_type(),
            final(self).spec_perm() == old(self).spec_perm(),
            final(self).spec_frames().len() == old(self).spec_frames().len(),
            forall|k: int|
                0 <= k < final(self).spec_frames().len() ==> (#[trigger] final(self).spec_frames()[
                k]).0 == old(self).spec_frames()[k].0 && final(self).spec_frames()[k].1.spec_ppn()
                    == old(self).spec_frames()[k].1.spec_ppn(),
            forall|k: int, i: int|
                0 <= k < final(self).spec_frames().len() && 0 <= i < PAGE_SIZE ==> (#[trigger] final(self).spec_frames()[k].1.spec_data()[i]) == (if k * PAGE_SIZE + i < data@.len() {
                    data@[k * PAGE_SIZE + i]
                } else {
                    old(self).spec_frames()[k].1.spec_data()[i]
                }),
    {
        let len = data.len();
        let mut start: usize = 0;
        let mut k: usize = 0;
        while start < len
            invariant
                len == data@.len(),
                old(self).spec_frames().len() == old(self).spec_end() - old(self).spec_start(),
                len <= (old(self).spec_end() - old(self).spec_start()) * PAGE_SIZE,
                len + PAGE_SIZE <= usize::MAX,
                start == k * PAGE_SIZE,
                start <= len + PAGE_SIZE,
                self.wf(),
                self.vpn_range == old(self).vpn_range,
                self.spec_start() == old(self).spec_start(),
                self.spec_end() == old(self).spec_end(),
                self.spec_type() == old(self).spec_type(),
                self.spec_perm() == old(self).spec_perm(),
                self.spec_frames().len() == old(self).spec_frames().len(),
                forall|j: int|
                    0 <= j < self.spec_frames().len() ==> (#[trigger] self.spec_frames()[j]).0
                        == old(self).spec_frames()[j].0 && self.spec_frames()[j].1.spec_ppn()
                        == old(self).spec_frames()[j].1.spec_ppn(),
                forall|j: int, i: int|
                    0 <= j < k && 0 <= i < PAGE_SIZE && j < self.spec_frames().len()
                        ==> (#[trigger] self.spec_frames()[j].1.spec_data()[i]) == (if j * PAGE_SIZE
                        + i < len {
                        data@[j * PAGE_SIZE + i]
                    } else {
                        old(self).spec_frames()[j].1.spec_data()[i]
                    }),
                forall|j: int, i: int|
                    k <= j < self.spec_frames().len() && 0 <= i < PAGE_SIZE
                        ==> (#[trigger] self.spec_frames()[j].1.spec_data()[i]) == old(self).spec_frames()[j].1.spec_data()[i],
            decreases len + 4096 - start,
        {
            proof {
                let pages = old(self).spec_end() - old(self).spec_start();
                assert(k < pages) by (nonlinear_arith)
                    requires
                        start == k * 4096,
                        start < len,
                        len <= pages * 4096,
                ;
                assert(k < self.spec_frames().len());
            }
            let chunk_end = if len - start < 4096 {
                len
            } else {
                start + 4096
            };
            let src = &data[start..chunk_end];
            let ghost frames_pre = self.spec_frames();
            let pair = &mut self.data_frames[k];
            pair.1.fill_prefix(src);
            proof {
                assert(self.data_frames@ == frames_pre.update(k as int, self.data_frames@[
                k as int]));
                assert(self.data_frames@[k as int].0 == frames_pre[k as int].0);
                assert forall|j: int, i: int|
                    0 <= j < k + 1 && 0 <= i < PAGE_SIZE && j < self.spec_frames().len()
                        implies (#[trigger] self.spec_frames()[j].1.spec_data()[i]) == (if j
                    * PAGE_SIZE + i < len {
                    data@[j * PAGE_SIZE + i]
                } else {
                    old(self).spec_frames()[j].1.spec_data()[i]
                }) by {
                    if j == k {
                        assert(src@ == data@.subrange(start as int, chunk_end as int));
                        if i < src@.len() {
                            assert(self.spec_frames()[j].1.spec_data()[i] == src@[i]);
                            assert(src@[i] == data@[start + i]);
                        } else {
                            assert(self.spec_frames()[j].1.spec_data()[i] == frames_pre[
                            j].1.spec_data()[i]);
                        }
                    }
                }
            }
            start = start + 4096;
            k = k + 1;
        }
    }
}

impl MapArea {
    /// Whether the area still tracks a frame for page `w`.
    pub open spec fn tracks(&self, w: u64) -> bool {
        exists|k: int| 0 <= k < self.spec_frames().len() && (#[trigger] self.spec_frames()[k]).0
            == w
    }

    /// Unmaps the single page `vpn`: clears its translation and, for a
    /// framed area, returns the backing frame to the allocator.
    pub fn unmap_one(&mut self, pt: &mut PageTable, a: &mut StackFrameAllocator, vpn: VirtualPageNum) -> (r: Result<
        (),
        PagingError,
    >)
        requires
            old(self).wf(),
            old(pt).wf(),
            old(a).wf(),
            old(pt).frames_live(old(a)),
            old(self).frames_live(old(a)),
            old(self).spec_start() <= vpn.0 < old(self).spec_end(),
            forall|k1: int, k2: int|
                0 <= k1 < k2 < old(self).spec_frames().len() ==> (#[trigger] old(self).spec_frames()[k1]).0 != (#[trigger] old(self).spec_frames()[k2]).0
                    && (#[trigger] old(self).spec_frames()[k1]).1.spec_ppn() != old(self).spec_frames()[k2].1.spec_ppn(),
            forall|k: int|
                0 <= k < old(self).spec_frames().len() ==> !old(pt).has_node(
                    (#[trigger] old(self).spec_frames()[k]).1.spec_ppn().0,
                ),
        ensures
            final(self).wf(),
            final(pt).wf(),
            final(pt).spec_root() == old(pt).spec_root(),
            final(a).wf(),
            final(a).spec_end() == old(a).spec_end(),
            final(pt).frames_live(final(a)),
            final(self).frames_live(final(a)),
            final(self).spec_start() == old(self).spec_start(),
            final(self).spec_end() == old(self).spec_end(),
            final(self).spec_type() == old(self).spec_type(),
            final(self).spec_perm() == old(self).spec_perm(),
            forall|w: u64|
                w < VPN_LIMIT && w != vpn.0 ==> final(pt).spec_mapped(w) == old(pt).spec_mapped(w),
            r == Err::<(), PagingError>(PagingError::NotMapped) <==> !old(pt).is_mapped(vpn.0),
            r is Err ==> r == Err::<(), PagingError>(PagingError::NotMapped) && final(self).spec_frames() == old(self).spec_frames() && final(a).eq_state(old(a)) && final(pt).spec_mapped(vpn.0) == old(pt).spec_mapped(vpn.0),
            r is Ok ==> {
                &&& final(pt).spec_mapped(vpn.0) is None
                &&& (old(self).spec_type() == MapType::Framed ==> !final(self).tracks(vpn.0))
                &&& (forall|w: u64| w != vpn.0 ==> final(self).tracks(w) == old(self).tracks(w))
                &&& (old(self).spec_type() == MapType::Framed && old(self).tracks(vpn.0)
                    ==> final(a).avail() == old(a).avail() + 1 && (forall|k: int|
                    0 <= k < old(self).spec_frames().len() && (#[trigger] old(self).spec_frames()[
                    k]).0 == vpn.0 ==> !final(a).is_live(old(self).spec_frames()[
                    k].1.spec_ppn().0)))
                &&& ((old(self).spec_type() == MapType::Identical || !old(self).tracks(vpn.0))
                    ==> final(a).eq_state(old(a)))
            },
    {
        let rr = pt.unmap(vpn);
        match rr {
            Err(e) => {
                proof {
                    assert(e == PagingError::NotMapped);
                }
                return Err(e);
            },
            Ok(()) => {},
        }
        match self.map_type {
            MapType::Framed => {
                match self.find_frame(vpn.0) {
                    None => {
                        proof {
                            assert(!self.tracks(vpn.0)) by {
                                if self.tracks(vpn.0) {
                                    let k = choose|k: int|
                                        0 <= k < self.spec_frames().len() && self.spec_frames()[
                                        k].0 == vpn.0;
                                }
                            }
                        }
                        Ok(())
                    },
                    Some(i) => {
                        let ghost frames_pre = self.spec_frames();
                        let pair = self.data_frames.remove(i);
                        let tracker = pair.1;
                        proof {
                            assert(frames_pre[i as int].1 == tracker);
                            assert(a.is_live(tracker.spec_ppn().0));
                        }
                        let rd = a.dealloc(tracker.ppn());
                        proof {
                            match rd {
                                Err(crate::frame_allocator::FrameDeallocError::NotAllocated) => {
                                    assert(false);
                                },
                                Err(crate::frame_allocator::FrameDeallocError::DoubleFree) => {
                                    assert(false);
                                },
                                Ok(()) => {},
                            }
                            assert forall|w: u64| w != vpn.0 implies self.tracks(w) == old(self).tracks(w) by {
                                if self.tracks(w) {
                                    let k = choose|k: int|
                                        0 <= k < self.spec_frames().len() && self.spec_frames()[
                                        k].0 == w;
                                    if k < i {
                                        assert(frames_pre[k].0 == w);
                                    } else {
                                        assert(frames_pre[k + 1].0 == w);
                                    }
                                    assert(old(self).tracks(w));
                                }
                                if old(self).tracks(w) {
                                    let k = choose|k: int|
                                        0 <= k < frames_pre.len() && frames_pre[k].0 == w;
                                    if k < i {
                                        assert(self.spec_frames()[k].0 == w);
                                    } else {
                                        assert(k != i);
                                        assert(self.spec_frames()[k - 1].0 == w);
                                    }
                                    assert(self.tracks(w));
                                }
                            }
                            assert(!self.tracks(vpn.0)) by {
                                if self.tracks(vpn.0) {
                                    let k = choose|k: int|
                                        0 <= k < self.spec_frames().len() && self.spec_frames()[
                                        k].0 == vpn.0;
                                    if k < i {
                                        assert(frames_pre[k].0 == vpn.0);
                                        assert(frames_pre[k].0 != frames_pre[i as int].0);
                                    } else {
                                        assert(frames_pre[k + 1].0 == vpn.0);
                                        assert(frames_pre[k + 1].0 != frames_pre[i as int].0);
                                    }
                                }
                            }
                            assert(self.frames_live(a)) by {
                                assert forall|k: int|
                                    0 <= k < self.spec_frames().len() implies a.is_live(
                                    (#[trigger] self.spec_frames()[k]).1.spec_ppn().0) by {
                                    if k < i {
                                        assert(self.spec_frames()[k] == frames_pre[k]);
                                        assert(frames_pre[k].1.spec_ppn() != frames_pre[
                                        i as int].1.spec_ppn());
                                    } else {
                                        assert(self.spec_frames()[k] == frames_pre[k + 1]);
                                        assert(frames_pre[k + 1].1.spec_ppn() != frames_pre[
                                        i as int].1.spec_ppn());
                                    }
                                }
                            }
                            assert(pt.frames_live(a)) by {
                                assert forall|pn: u64| pt.has_node(pn) implies a.is_live(pn) by {
                                    assert(pn != tracker.spec_ppn().0);
                                }
                            }
                        }
                        Ok(())
                    },
                }
            },
            MapType::Identical => Ok(()),
        }
    }

    /// Index of the frame tracked for page `w`, if any.
    fn find_frame(&self, w: u64) -> (r: Option<usize>)
        ensures
            match r {
                Some(i) => i < self.spec_frames().len() && self.spec_frames()[i as int].0 == w,
                None => forall|k: int|
                    0 <= k < self.spec_frames().len() ==> (#[trigger] self.spec_frames()[k]).0
                        != w,
            },
    {
        let n = self.data_frames.len();
        let mut i: usize = 0;
        while i < n
            invariant
                n == self.spec_frames().len(),
                i <= n,
                forall|k: int| 0 <= k < i ==> (#[trigger] self.spec_frames()[k]).0 != w,
            decreases n - i,
        {
            if self.data_frames[i].0 == w {
                return Some(i);
            }
            i = i + 1;
        }
        None
    }
}

/// One full address space: a page table plus the ordered list of mapped
/// areas it carries.
pub struct MemorySet {
    page_table: PageTable,
    areas: Vec<MapArea>,
}

impl MemorySet {
    /// The translation the owned page table defines for `vpn`.
    pub closed spec fn spec_mapped(&self, vpn: u64) -> Option<u64> {
        self.page_table.spec_mapped(vpn)
    }

    pub open spec fn is_mapped(&self, vpn: u64) -> bool {
        self.spec_mapped(vpn) is Some
    }

    /// The hardware token of the owned page table.
    pub closed spec fn spec_token(&self) -> u64 {
        (0x8000_0000_0000_0000u64 + self.page_table.spec_root()) as u64
    }

    pub closed spec fn spec_areas(&self) -> Seq<MapArea> {
        self.areas@
    }

    /// Structural well-formedness: the table is intact and rooted, every
    /// area is well formed.
    pub closed spec fn wf(&self) -> bool {
        &&& self.page_table.wf()
        &&& self.page_table.rooted()
        &&& forall|k: int| 0 <= k < self.areas@.len() ==> (#[trigger] self.areas@[k]).wf()
    }

    /// Every frame this space holds — table nodes and area frames — is
    /// live in allocator `a`.
    pub closed spec fn frames_live(&self, a: &StackFrameAllocator) -> bool {
        &&& self.page_table.frames_live(a)
        &&& forall|k: int| 0 <= k < self.areas@.len() ==> (#[trigger] self.areas@[k]).frames_live(a)
    }

    /// An empty address space with a fresh root table; `None` exactly when
    /// the allocator is exhausted.
    pub fn new_bare(a: &mut StackFrameAllocator) -> (r: Option<MemorySet>)
        requires
            old(a).wf(),
        ensures
            final(a).wf(),
            final(a).spec_end() == old(a).spec_end(),
            r is None <==> old(a).avail() == 0,
            r is None ==> final(a).eq_state(old(a)),
            r matches Some(ms) ==> {
                &&& ms.wf()
                &&& ms.frames_live(final(a))
                &&& ms.spec_areas().len() == 0
                &&& (forall|vpn: u64| ms.spec_mapped(vpn) is None)
                &&& (forall|q: u64| old(a).is_live(q) ==> final(a).is_live(q))
                &&& final(a).avail() == old(a).avail() - 1
            },
    {
        match PageTable::new(a) {
            None => None,
            Some(pt) => Some(MemorySet { page_table: pt, areas: Vec::new() }),
        }
    }

    /// The token that activates this space's page table.
    pub fn token(&self) -> (r: u64)
        requires
            self.wf(),
        ensures
            r == self.spec_token(),
    {
        self.page_table.token()
    }

    /// Walks the owned page table; the leaf entry for `vpn` if the walk
    /// completes.
    pub fn translate(&self, vpn: VirtualPageNum) -> (r: Option<crate::page_table::PageTableEntry>)
        requires
            self.wf(),
        ensures
            match r {
                Some(pte) => if spec_pte_valid(pte.bits) {
                    self.spec_mapped(vpn.0) == Some(pte.bits)
                } else {
                    self.spec_mapped(vpn.0) is None
                },
                None => self.spec_mapped(vpn.0) is None,
            },
    {
        self.page_table.translate(vpn)
    }
}

impl MemorySet {
    /// Maps a whole area into this space, optionally copying initial data
    /// into its fresh frames, then records the area.
    pub fn push(&mut self, a: &mut StackFrameAllocator, area: MapArea, data: Option<&[u8]>) -> (r: Result<
        (),
        PagingError,
    >)
        requires
            old(self).wf(),
            old(a).wf(),
            old(self).frames_live(old(a)),
            area.wf(),
            area.spec_frames().len() == 0,
            data is Some ==> area.spec_type() == MapType::Framed && data->Some_0@.len() <= (
            area.spec_end() - area.spec_start()) * PAGE_SIZE && data->Some_0@.len() + PAGE_SIZE
                <= usize::MAX,
        ensures
            final(self).wf(),
            final(a).wf(),
            final(self).frames_live(final(a)),
            final(a).spec_end() == old(a).spec_end(),
            final(self).spec_token() == old(self).spec_token(),
            forall|q: u64| old(a).is_live(q) ==> final(a).is_live(q),
            final(a).avail() >= old(a).avail() - 3 * (area.spec_end() - area.spec_start()),
            forall|w: u64|
                w < VPN_LIMIT && !(area.spec_start() <= w < area.spec_end()) ==> final(self).spec_mapped(w) == old(self).spec_mapped(w),
            r == Err::<(), PagingError>(PagingError::AlreadyMapped) ==> exists|v: u64|
                area.spec_start() <= v < area.spec_end() && old(self).is_mapped(v),
            r == Err::<(), PagingError>(PagingError::FrameExhausted) ==> old(a).avail() < 3 * (
            area.spec_end() - area.spec_start()) && final(a).avail() == 0,
            r != Err::<(), PagingError>(PagingError::NotMapped),
            r is Ok ==> {
                &&& (forall|v: u64|
                    area.spec_start() <= v < area.spec_end() ==> !old(self).is_mapped(v)
                        && (#[trigger] final(self).spec_mapped(v) matches Some(b)
                        && spec_pte_valid(b) && spec_pte_flags(b) == area.spec_perm().bits + 1))
                &&& (area.spec_type() == MapType::Identical ==> forall|v: u64|
                    area.spec_start() <= v < area.spec_end() ==> #[trigger] final(self).spec_mapped(v) == Some(
                        spec_pte_bits(v, (area.spec_perm().bits + 1) as u8) as u64,
                    ))
                &&& final(self).spec_areas().len() == old(self).spec_areas().len() + 1
                &&& final(self).spec_areas().take(old(self).spec_areas().len() as int) == old(self).spec_areas()
                &&& ({
                    let ar = final(self).spec_areas().last();
                    &&& ar.spec_start() == area.spec_start()
                    &&& ar.spec_end() == area.spec_end()
                    &&& ar.spec_type() == area.spec_type()
                    &&& ar.spec_perm() == area.spec_perm()
                    &&& (area.spec_type() == MapType::Framed && data is Some ==> {
                        let d = data->Some_0@;
                        &&& ar.spec_frames().len() == area.spec_end() - area.spec_start()
                        &&& (forall|k: int, i: int|
                            0 <= k < ar.spec_frames().len() && 0 <= i < PAGE_SIZE
                                ==> (#[trigger] ar.spec_frames()[k].1.spec_data()[i]) == (if k
                                * PAGE_SIZE + i < d.len() {
                                d[k * PAGE_SIZE + i]
                            } else {
                                0u8
                            }))
                    })
                })
            },
            (forall|v: u64| area.spec_start() <= v < area.spec_end() ==> !old(self).is_mapped(v))
                && old(a).avail() >= 3 * (area.spec_end() - area.spec_start()) ==> r is Ok,
            (forall|v: u64| area.spec_start() <= v < area.spec_end() ==> !old(self).is_mapped(v))
                && old(a).avail() >= (if area.spec_type() == MapType::Framed {
                area.spec_end() - area.spec_start()
            } else {
                0int
            }) + spec_area_node_budget(area.spec_start(), area.spec_end()) ==> r is Ok,
            r is Ok ==> final(a).avail() >= old(a).avail() - (
            if area.spec_type() == MapType::Framed {
                area.spec_end() - area.spec_start()
            } else {
                0int
            }) - spec_area_node_budget(area.spec_start(), area.spec_end()),
    {
        proof {
            assert(forall|v: u64|
                old(self).is_mapped(v) == #[trigger] old(self).page_table.is_mapped(v));
        }
        let mut map_area = area;
        let rr = map_area.map(&mut self.page_table, a);
        match rr {
            Err(e) => {
                proof {
                    if e == PagingError::AlreadyMapped {
                        let v = choose|v: u64|
                            area.spec_start() <= v < area.spec_end() && old(self).page_table.is_mapped(v);
                        assert(old(self).is_mapped(v));
                        assert(exists|v: u64|
                            area.spec_start() <= v < area.spec_end() && old(self).is_mapped(v));
                    }
                }
                return Err(e);
            },
            Ok(()) => {},
        }
        match data {
            Some(d) => {
                map_area.copy_data(d);
            },
            None => {},
        }
        self.areas.push(map_area);
        Ok(())
    }

    /// Convenience wrapper: map `[start_va, end_va)` as a framed area with
    /// the given permissions and no initial data.
    pub fn insert_framed_area(&mut self, a: &mut StackFrameAllocator, start_va: VirtualAddress, end_va: VirtualAddress, permission: MapPermission) -> (r: Result<
        (),
        PagingError,
    >)
        requires
            old(self).wf(),
            old(a).wf(),
            old(self).frames_live(old(a)),
            start_va.0 <= end_va.0,
            end_va.wf(),
            permission.wf(),
        ensures
            final(self).wf(),
            final(a).wf(),
            final(self).frames_live(final(a)),
            final(a).spec_end() == old(a).spec_end(),
            final(self).spec_token() == old(self).spec_token(),
            forall|q: u64| old(a).is_live(q) ==> final(a).is_live(q),
            forall|w: u64|
                w < VPN_LIMIT && !(crate::address::spec_page_floor(start_va.0) <= w
                    < crate::address::spec_page_ceil(end_va.0)) ==> final(self).spec_mapped(w)
                    == old(self).spec_mapped(w),
            r is Ok ==> forall|v: u64|
                crate::address::spec_page_floor(start_va.0) <= v < crate::address::spec_page_ceil(
                    end_va.0,
                ) ==> !old(self).is_mapped(v) && (#[trigger] final(self).spec_mapped(v) matches
                    Some(b) && spec_pte_valid(b) && spec_pte_flags(b) == permission.bits + 1),
            r != Err::<(), PagingError>(PagingError::NotMapped),
            r == Err::<(), PagingError>(PagingError::FrameExhausted) ==> old(a).avail() < 3 * (
            crate::address::spec_page_ceil(end_va.0) - crate::address::spec_page_floor(
                start_va.0,
            )),
            (forall|v: u64|
                crate::address::spec_page_floor(start_va.0) <= v < crate::address::spec_page_ceil(
                    end_va.0,
                ) ==> !old(self).is_mapped(v)) && old(a).avail() >= 3 * (
            crate::address::spec_page_ceil(end_va.0) - crate::address::spec_page_floor(start_va.0))
                ==> r is Ok,
    {
        let area = MapArea::new(start_va, end_va, MapType::Framed, permission);
        self.push(a, area, None)
    }

    /// Maps the trampoline page: the top virtual page, read-execute,
    /// backed by the given physical code page in every address space.
    pub fn map_trampoline(&mut self, a: &mut StackFrameAllocator, trampoline_ppn: crate::address::PhysicPageNum) -> (r: Result<
        (),
        PagingError,
    >)
        requires
            old(self).wf(),
            old(a).wf(),
            old(self).frames_live(old(a)),
            trampoline_ppn.0 < PPN_LIMIT,
        ensures
            final(self).wf(),
            final(a).wf(),
            final(self).frames_live(final(a)),
            final(a).spec_end() == old(a).spec_end(),
            final(self).spec_token() == old(self).spec_token(),
            forall|q: u64| old(a).is_live(q) ==> final(a).is_live(q),
            final(a).avail() >= old(a).avail() - 2,
            final(self).spec_areas() == old(self).spec_areas(),
            forall|w: u64|
                w < VPN_LIMIT && w != VPN_LIMIT - 1 ==> final(self).spec_mapped(w) == old(self).spec_mapped(w),
            r == Err::<(), PagingError>(PagingError::AlreadyMapped) <==> old(self).is_mapped(
                (VPN_LIMIT - 1) as u64,
            ),
            r == Err::<(), PagingError>(PagingError::FrameExhausted) ==> old(a).avail() < 2
                && final(a).avail() == 0,
            r != Err::<(), PagingError>(PagingError::NotMapped),
            r is Err ==> forall|w: u64| final(self).spec_mapped(w) == old(self).spec_mapped(w),
            r is Ok ==> final(self).spec_mapped((VPN_LIMIT - 1) as u64) == Some(
                spec_pte_bits(trampoline_ppn.0, 11u8) as u64,
            ),
            !old(self).is_mapped((VPN_LIMIT - 1) as u64) && old(a).avail() >= 2 ==> r is Ok,
    {
        let tramp_va = VirtualAddress::from(crate::config::TRAMPOLINE);
        let tramp_vpn = tramp_va.floor();
        proof {
            assert(tramp_vpn.0 == VPN_LIMIT - 1);
        }
        let flags = PTEFlags::new(2 + 8);
        let r = self.page_table.map(a, tramp_vpn, trampoline_ppn, flags);
        proof {
            assert(flags.spec_with_valid().bits == 11u8);
        }
        r
    }
}

/// Page-aligned bounds of the kernel image's sections and of the
/// trampoline code page, as the linker laid them out.
pub struct KernelLayout {
    pub stext: u64,
    pub etext: u64,
    pub srodata: u64,
    pub erodata: u64,
    pub sdata: u64,
    pub edata: u64,
    pub sbss_with_stack: u64,
    pub ebss: u64,
    pub ekernel: u64,
    pub strampoline: u64,
}

impl KernelLayout {
    /// Section bounds are page-aligned, ascending, and inside physical
    /// memory.
    pub open spec fn wf(&self) -> bool {
        &&& self.stext % PAGE_SIZE == 0
        &&& self.etext % PAGE_SIZE == 0
        &&& self.srodata % PAGE_SIZE == 0
        &&& self.erodata % PAGE_SIZE == 0
        &&& self.sdata % PAGE_SIZE == 0
        &&& self.edata % PAGE_SIZE == 0
        &&& self.sbss_with_stack % PAGE_SIZE == 0
        &&& self.ebss % PAGE_SIZE == 0
        &&& self.ekernel % PAGE_SIZE == 0
        &&& self.strampoline % PAGE_SIZE == 0
        &&& self.stext <= self.etext <= self.srodata <= self.erodata <= self.sdata <= self.edata
            <= self.sbss_with_stack <= self.ebss <= self.ekernel <= crate::config::MEMORY_END
        &&& self.strampoline < crate::config::MEMORY_END
    }
}

/// Frames `new_kernel` needs at most: the root node, two trampoline
/// nodes, and each identity area's node budget — a handful, far below
/// the boot pool, since identity areas allocate no data frames.
pub open spec fn spec_kernel_budget(layout: KernelLayout) -> int {
    3 + spec_area_node_budget(
        crate::address::spec_page_floor(layout.stext) as u64,
        crate::address::spec_page_floor(layout.etext) as u64,
    ) + spec_area_node_budget(
        crate::address::spec_page_floor(layout.srodata) as u64,
        crate::address::spec_page_floor(layout.erodata) as u64,
    ) + spec_area_node_budget(
        crate::address::spec_page_floor(layout.sdata) as u64,
        crate::address::spec_page_floor(layout.edata) as u64,
    ) + spec_area_node_budget(
        crate::address::spec_page_floor(layout.sbss_with_stack) as u64,
        crate::address::spec_page_floor(layout.ebss) as u64,
    ) + spec_area_node_budget(
        crate::address::spec_page_floor(layout.ekernel) as u64,
        crate::address::spec_page_floor(crate::config::MEMORY_END) as u64,
    )
}

impl MemorySet {
    /// Builds the kernel's address space: the trampoline at the top page,
    /// then one identity-mapped area per kernel section (text R+X, rodata
    /// R, data and bss R+W) and one more covering the rest of physical
    /// memory (R+W).
    pub fn new_kernel(a: &mut StackFrameAllocator, layout: &KernelLayout) -> (r: Result<
        MemorySet,
        PagingError,
    >)
        requires
            old(a).wf(),
            layout.wf(),
        ensures
            final(a).wf(),
            final(a).spec_end() == old(a).spec_end(),
            forall|q: u64| old(a).is_live(q) ==> final(a).is_live(q),
            r is Err ==> r == Err::<MemorySet, PagingError>(PagingError::FrameExhausted)
                && final(a).avail() == 0,
            final(a).avail() > 0 ==> r is Ok,
            old(a).avail() >= spec_kernel_budget(*layout) ==> r is Ok,
            r matches Ok(ms) ==> {
                let t0 = crate::address::spec_page_floor(layout.stext);
                let t1 = crate::address::spec_page_floor(layout.etext);
                let r0 = crate::address::spec_page_floor(layout.srodata);
                let r1 = crate::address::spec_page_floor(layout.erodata);
                let d0 = crate::address::spec_page_floor(layout.sdata);
                let d1 = crate::address::spec_page_floor(layout.edata);
                let b0 = crate::address::spec_page_floor(layout.sbss_with_stack);
                let b1 = crate::address::spec_page_floor(layout.ebss);
                let k0 = crate::address::spec_page_floor(layout.ekernel);
                let k1 = crate::address::spec_page_floor(crate::config::MEMORY_END);
                &&& ms.wf()
                &&& ms.frames_live(final(a))
                &&& ms.spec_mapped((VPN_LIMIT - 1) as u64) == Some(
                    spec_pte_bits(crate::address::spec_page_floor(layout.strampoline) as u64, 11u8)
                        as u64,
                )
                &&& (forall|v: u64|
                    t0 <= v < t1 ==> #[trigger] ms.spec_mapped(v) == Some(
                        spec_pte_bits(v, 11u8) as u64,
                    ))
                &&& (forall|v: u64|
                    r0 <= v < r1 ==> #[trigger] ms.spec_mapped(v) == Some(
                        spec_pte_bits(v, 3u8) as u64,
                    ))
                &&& (forall|v: u64|
                    d0 <= v < d1 ==> #[trigger] ms.spec_mapped(v) == Some(
                        spec_pte_bits(v, 7u8) as u64,
                    ))
                &&& (forall|v: u64|
                    b0 <= v < b1 ==> #[trigger] ms.spec_mapped(v) == Some(
                        spec_pte_bits(v, 7u8) as u64,
                    ))
                &&& (forall|v: u64|
                    k0 <= v < k1 ==> #[trigger] ms.spec_mapped(v) == Some(
                        spec_pte_bits(v, 7u8) as u64,
                    ))
                &&& (forall|v: u64| v < t0 ==> #[trigger] ms.spec_mapped(v) is None)
                &&& (forall|v: u64| t1 <= v < r0 ==> #[trigger] ms.spec_mapped(v) is None)
                &&& (forall|v: u64| r1 <= v < d0 ==> #[trigger] ms.spec_mapped(v) is None)
                &&& (forall|v: u64| d1 <= v < b0 ==> #[trigger] ms.spec_mapped(v) is None)
                &&& (forall|v: u64| b1 <= v < k0 ==> #[trigger] ms.spec_mapped(v) is None)
                &&& (forall|v: u64|
                    k1 <= v < VPN_LIMIT - 1 ==> #[trigger] ms.spec_mapped(v) is None)
            },
    {
        proof {
            crate::address::lemma_floor_monotone(layout.stext, layout.etext);
            crate::address::lemma_floor_monotone(layout.etext, layout.srodata);
            crate::address::lemma_floor_monotone(layout.srodata, layout.erodata);
            crate::address::lemma_floor_monotone(layout.erodata, layout.sdata);
            crate::address::lemma_floor_monotone(layout.sdata, layout.edata);
            crate::address::lemma_floor_monotone(layout.edata, layout.sbss_with_stack);
            crate::address::lemma_floor_monotone(layout.sbss_with_stack, layout.ebss);
            crate::address::lemma_floor_monotone(layout.ebss, layout.ekernel);
            crate::address::lemma_floor_monotone(layout.ekernel, crate::config::MEMORY_END);
            crate::address::lemma_aligned_ceil(layout.etext);
            crate::address::lemma_aligned_ceil(layout.erodata);
            crate::address::lemma_aligned_ceil(layout.edata);
            crate::address::lemma_aligned_ceil(layout.ebss);
            crate::address::lemma_aligned_ceil(crate::config::MEMORY_END);
            assert(crate::address::spec_page_floor(crate::config::MEMORY_END) < VPN_LIMIT - 1);
            reveal(spec_area_node_budget);
        }
        let ghost well = old(a).avail() >= spec_kernel_budget(*layout);
        let mut ms = match MemorySet::new_bare(a) {
            None => {
                proof {
                    if well {
                        reveal(spec_area_node_budget);
                        assert(false);
                    }
                }
                return Err(PagingError::FrameExhausted);
            },
            Some(m) => m,
        };
        let tramp_ppn = crate::address::PhysicAddress(layout.strampoline).floor();
        match ms.map_trampoline(a, tramp_ppn) {
            Ok(()) => {},
            Err(e) => {
                proof {
                    assert(e == PagingError::FrameExhausted);
                    if well {
                        reveal(spec_area_node_budget);
                        assert(false);
                    }
                }
                return Err(e);
            },
        }
        let perm_rx = MapPermission::new(true, false, true, false);
        let perm_r = MapPermission::new(true, false, false, false);
        let perm_rw = MapPermission::new(true, true, false, false);
        proof {
            assert(perm_rx.bits == 10 && perm_r.bits == 2 && perm_rw.bits == 6);
        }
        let area = MapArea::new(
            VirtualAddress(layout.stext),
            VirtualAddress(layout.etext),
            MapType::Identical,
            perm_rx,
        );
        match ms.push(a, area, None) {
            Ok(()) => {},
            Err(e) => {
                proof {
                    assert(e == PagingError::FrameExhausted);
                    if well {
                        reveal(spec_area_node_budget);
                        assert(false);
                    }
                }
                return Err(e);
            },
        }
        let area = MapArea::new(
            VirtualAddress(layout.srodata),
            VirtualAddress(layout.erodata),
            MapType::Identical,
            perm_r,
        );
        match ms.push(a, area, None) {
            Ok(()) => {},
            Err(e) => {
                proof {
                    assert(e == PagingError::FrameExhausted);
                    if well {
                        reveal(spec_area_node_budget);
                        assert(false);
                    }
                }
                return Err(e);
            },
        }
        let area = MapArea::new(
            VirtualAddress(layout.sdata),
            VirtualAddress(layout.edata),
            MapType::Identical,
            perm_rw,
        );
        match ms.push(a, area, None) {
            Ok(()) => {},
            Err(e) => {
                proof {
                    assert(e == PagingError::FrameExhausted);
                    if well {
                        reveal(spec_area_node_budget);
                        assert(false);
                    }
                }
                return Err(e);
            },
        }
        let area = MapArea::new(
            VirtualAddress(layout.sbss_with_stack),
            VirtualAddress(layout.ebss),
            MapType::Identical,
            perm_rw,
        );
        match ms.push(a, area, None) {
            Ok(()) => {},
            Err(e) => {
                proof {
                    assert(e == PagingError::FrameExhausted);
                    if well {
                        reveal(spec_area_node_budget);
                        assert(false);
                    }
                }
                return Err(e);
            },
        }
        let area = MapArea::new(
            VirtualAddress(layout.ekernel),
            VirtualAddress(crate::config::MEMORY_END),
            MapType::Identical,
            perm_rw,
        );
        match ms.push(a, area, None) {
            Ok(()) => {},
            Err(e) => {
                proof {
                    assert(e == PagingError::FrameExhausted);
                    if well {
                        reveal(spec_area_node_budget);
                        assert(false);
                    }
                }
                return Err(e);
            },
        }
        Ok(ms)
    }
}

/// Page-table permission byte a loadable segment asks for: the user bit
/// plus R, W, X as the header's flag bits (PF_X = 1, PF_W = 2, PF_R = 4)
/// request.
pub open spec fn spec_seg_perm_bits(flags: u64) -> u8 {
    (16 + ((flags / 4) % 2) * 2 + ((flags / 2) % 2) * 4 + (flags % 2) * 8) as u8
}

/// First page of a segment.
pub open spec fn spec_seg_first(seg: crate::elf::Segment) -> int {
    crate::address::spec_page_floor(seg.vaddr)
}

/// One past the last page of a segment.
pub open spec fn spec_seg_end(seg: crate::elf::Segment) -> int {
    crate::address::spec_page_ceil_int(seg.vaddr + seg.mem_size)
}

/// The highest one-past-the-end page over a list of segments.
pub open spec fn spec_max_seg_end(segs: Seq<crate::elf::Segment>) -> int
    decreases segs.len(),
{
    if segs.len() == 0 {
        0
    } else {
        let m = spec_max_seg_end(segs.drop_last());
        let e = spec_seg_end(segs.last());
        if e > m {
            e
        } else {
            m
        }
    }
}

/// A loadable segment the loader accepts: the file bytes fit inside the
/// declared memory size and inside the image, and the segment lies inside
/// the virtual address space.
pub open spec fn spec_seg_loadable_ok(data: Seq<u8>, seg: crate::elf::Segment) -> bool {
    &&& seg.file_size <= seg.mem_size
    &&& seg.offset <= data.len()
    &&& seg.file_size <= data.len() - seg.offset
    &&& seg.mem_size <= VA_LIMIT - 1
    &&& seg.vaddr <= VA_LIMIT - 1 - seg.mem_size
}

/// Every loadable segment passes the loader's checks.
pub open spec fn spec_segs_ok(data: Seq<u8>, segs: Seq<crate::elf::Segment>) -> bool {
    forall|j: int| 0 <= j < segs.len() ==> spec_seg_loadable_ok(data, #[trigger] segs[j])
}

/// No two loadable segments share a page.
pub open spec fn spec_segs_disjoint(segs: Seq<crate::elf::Segment>) -> bool {
    forall|j: int, k: int|
        0 <= j < k < segs.len() ==> spec_seg_end(#[trigger] segs[j]) <= spec_seg_first(
            #[trigger] segs[k],
        ) || spec_seg_end(segs[k]) <= spec_seg_first(segs[j])
}

/// Total page count of a list of segments.
pub open spec fn spec_segs_pages(segs: Seq<crate::elf::Segment>) -> int
    decreases segs.len(),
{
    if segs.len() == 0 {
        0
    } else {
        spec_segs_pages(segs.drop_last()) + (spec_seg_end(segs.last()) - spec_seg_first(
            segs.last(),
        ))
    }
}

/// An accepted segment spans at least zero pages.
proof fn lemma_seg_nonneg(data: Seq<u8>, seg: crate::elf::Segment)
    requires
        spec_seg_loadable_ok(data, seg),
    ensures
        spec_seg_first(seg) <= spec_seg_end(seg),
{
    let v = seg.vaddr as int;
    let m = seg.mem_size as int;
    assert(v / 4096 <= (v + m + 4095) / 4096) by (nonlinear_arith)
        requires v >= 0, m >= 0
    ;
}

/// A prefix of accepted segments never exceeds the total page count, even
/// with the next segment's pages added.
proof fn lemma_segs_pages_bound(data: Seq<u8>, segs: Seq<crate::elf::Segment>, i: int)
    requires
        spec_segs_ok(data, segs),
        0 <= i < segs.len(),
    ensures
        spec_segs_pages(segs.take(i)) + (spec_seg_end(segs[i]) - spec_seg_first(segs[i]))
            <= spec_segs_pages(segs),
        spec_segs_pages(segs.take(i)) >= 0,
    decreases segs.len(),
{
    assert forall|j: int| 0 <= j < segs.take(i).len() implies spec_seg_loadable_ok(
        data,
        #[trigger] segs.take(i)[j],
    ) by {
        assert(segs.take(i)[j] == segs[j]);
    }
    if i == segs.len() - 1 {
        assert(segs.take(i) == segs.drop_last());
        lemma_segs_pages_nonneg(data, segs.take(i));
    } else {
        let shorter = segs.drop_last();
        assert forall|j: int| 0 <= j < shorter.len() implies spec_seg_loadable_ok(
            data,
            #[trigger] shorter[j],
        ) by {
            assert(shorter[j] == segs[j]);
        }
        assert(shorter.take(i) == segs.take(i));
        lemma_segs_pages_bound(data, shorter, i);
        lemma_seg_nonneg(data, segs.last());
        assert(shorter[i] == segs[i]);
    }
}

/// Every segment's end page is at most the maximum over the list.
proof fn lemma_max_seg_end_bound(segs: Seq<crate::elf::Segment>, i: int)
    requires
        0 <= i < segs.len(),
    ensures
        spec_seg_end(segs[i]) <= spec_max_seg_end(segs),
    decreases segs.len(),
{
    if i == segs.len() - 1 {
        assert(segs.last() == segs[i]);
    } else {
        let shorter = segs.drop_last();
        assert(shorter[i] == segs[i]);
        lemma_max_seg_end_bound(shorter, i);
    }
}

/// Accepted segments have a nonnegative total page count.
proof fn lemma_segs_pages_nonneg(data: Seq<u8>, segs: Seq<crate::elf::Segment>)
    requires
        spec_segs_ok(data, segs),
    ensures
        spec_segs_pages(segs) >= 0,
    decreases segs.len(),
{
    if segs.len() > 0 {
        let shorter = segs.drop_last();
        assert forall|j: int| 0 <= j < shorter.len() implies spec_seg_loadable_ok(
            data,
            #[trigger] shorter[j],
        ) by {
            assert(shorter[j] == segs[j]);
        }
        lemma_segs_pages_nonneg(data, shorter);
        lemma_seg_nonneg(data, segs.last());
    }
}

impl MemorySet {
    /// Builds an application's address space from an ELF image: the
    /// trampoline at the top page, one framed area per loadable segment
    /// carrying the segment's file bytes, a guard page above the highest
    /// segment, a two-page user stack above the guard, and the
    /// trap-context page directly below the trampoline. Returns the space,
    /// the user stack top and the image's entry point.
    #[verifier::rlimit(100)]
    pub fn from_elf(a: &mut StackFrameAllocator, elf_data: &[u8], trampoline_ppn: crate::address::PhysicPageNum) -> (r: Result<
        (MemorySet, u64, u64),
        crate::elf::ElfError,
    >)
        requires
            old(a).wf(),
            trampoline_ppn.0 < PPN_LIMIT,
            elf_data@.len() + PAGE_SIZE <= usize::MAX,
        ensures
            final(a).wf(),
            final(a).spec_end() == old(a).spec_end(),
            forall|q: u64| old(a).is_live(q) ==> final(a).is_live(q),
            r == Err::<(MemorySet, u64, u64), crate::elf::ElfError>(
                crate::elf::ElfError::InvalidMagic,
            ) <==> !crate::elf::spec_elf_magic_ok(elf_data@),
            r matches Ok(ok) ==> {
                let ms = ok.0;
                let ustack_top = ok.1;
                let entry = ok.2;
                let segs = crate::elf::spec_load_segs(
                    elf_data@,
                    crate::elf::spec_elf_phnum(elf_data@),
                );
                let g = spec_max_seg_end(segs);
                &&& ms.wf()
                &&& ms.frames_live(final(a))
                &&& entry == crate::elf::spec_elf_entry(elf_data@)
                &&& ustack_top == (g + 3) * PAGE_SIZE
                &&& ms.spec_mapped((VPN_LIMIT - 1) as u64) == Some(
                    spec_pte_bits(trampoline_ppn.0, 11u8) as u64,
                )
                &&& (forall|j: int, v: u64|
                    #![trigger ms.spec_mapped(v), spec_seg_first(segs[j])]
                    0 <= j < segs.len() && spec_seg_first(segs[j]) <= v < spec_seg_end(segs[j])
                        ==> (ms.spec_mapped(v) matches Some(b) && spec_pte_valid(b)
                        && spec_pte_flags(b) == spec_seg_perm_bits(segs[j].flags) + 1))
                &&& ms.spec_mapped(g as u64) is None
                &&& (forall|v: u64|
                    g + 1 <= v < g + 3 ==> ((#[trigger] ms.spec_mapped(v)) matches Some(b)
                        && spec_pte_valid(b) && spec_pte_flags(b) == 23u8))
                &&& ((#[trigger] ms.spec_mapped((VPN_LIMIT - 2) as u64)) matches Some(b)
                    && spec_pte_valid(b) && spec_pte_flags(b) == 7u8)
                &&& ms.spec_areas().len() == segs.len() + 2
                &&& (forall|j: int|
                    0 <= j < segs.len() ==> {
                        let ar = #[trigger] ms.spec_areas()[j];
                        &&& ar.spec_frames().len() == spec_seg_end(segs[j]) - spec_seg_first(
                            segs[j],
                        )
                        &&& (forall|k: int, b: int|
                            0 <= k < ar.spec_frames().len() && 0 <= b < PAGE_SIZE
                                ==> (#[trigger] ar.spec_frames()[k].1.spec_data()[b]) == (if k
                                * PAGE_SIZE + b < segs[j].file_size {
                                elf_data@[segs[j].offset + k * PAGE_SIZE + b]
                            } else {
                                0u8
                            }))
                    })
            },
            r == Err::<(MemorySet, u64, u64), crate::elf::ElfError>(
                crate::elf::ElfError::FrameExhausted,
            ) ==> final(a).avail() == 0,
            ({
                let segs = crate::elf::spec_load_segs(
                    elf_data@,
                    crate::elf::spec_elf_phnum(elf_data@),
                );
                &&& crate::elf::spec_elf_magic_ok(elf_data@)
                &&& crate::elf::spec_elf_header_ok(elf_data@)
                &&& spec_segs_ok(elf_data@, segs)
                &&& spec_segs_disjoint(segs)
                &&& spec_max_seg_end(segs) + 3 <= VPN_LIMIT - 2
                &&& old(a).avail() >= 3 * spec_segs_pages(segs) + 12
            }) ==> r is Ok,
    {
        let ghost gsegs = crate::elf::spec_load_segs(elf_data@, crate::elf::spec_elf_phnum(elf_data@));
        let ghost good = crate::elf::spec_elf_magic_ok(elf_data@)
            && crate::elf::spec_elf_header_ok(elf_data@) && spec_segs_ok(elf_data@, gsegs)
            && spec_segs_disjoint(gsegs) && spec_max_seg_end(gsegs) + 3 <= VPN_LIMIT - 2 && old(a).avail() >= 3 * spec_segs_pages(gsegs) + 12;
        let info = match crate::elf::parse_elf(elf_data) {
            Err(e) => {
                return Err(e);
            },
            Ok(info) => info,
        };
        let mut ms = match MemorySet::new_bare(a) {
            None => {
                proof {
                    if good {
                        lemma_segs_pages_nonneg(elf_data@, gsegs);
                        assert(false);
                    }
                }
                return Err(crate::elf::ElfError::FrameExhausted);
            },
            Some(m) => m,
        };
        match ms.map_trampoline(a, trampoline_ppn) {
            Ok(()) => {},
            Err(e) => {
                proof {
                    assert(e == PagingError::FrameExhausted);
                    if good {
                        lemma_segs_pages_nonneg(elf_data@, gsegs);
                        assert(false);
                    }
                }
                return Err(crate::elf::ElfError::FrameExhausted);
            },
        }
        let ghost segs = crate::elf::spec_load_segs(elf_data@, crate::elf::spec_elf_phnum(elf_data@));
        let n = info.segs.len();
        let mut max_end: u64 = 0;
        let mut i: usize = 0;
        while i < n
            invariant
                elf_data@.len() + PAGE_SIZE <= usize::MAX,
                crate::elf::spec_elf_magic_ok(elf_data@),
                info.segs@ == segs,
                n == segs.len(),
                i <= n,
                ms.wf(),
                a.wf(),
                ms.frames_live(a),
                a.spec_end() == old(a).spec_end(),
                forall|q: u64| old(a).is_live(q) ==> a.is_live(q),
                ms.spec_mapped((VPN_LIMIT - 1) as u64) == Some(
                    spec_pte_bits(trampoline_ppn.0, 11u8) as u64,
                ),
                max_end == spec_max_seg_end(segs.take(i as int)),
                0 <= max_end <= VPN_LIMIT,
                forall|j: int| 0 <= j < i ==> spec_seg_end(segs[j]) <= max_end,
                forall|j: int, v: u64|
                    #![trigger ms.spec_mapped(v), spec_seg_first(segs[j])]
                    0 <= j < i && spec_seg_first(segs[j]) <= v < spec_seg_end(segs[j])
                        ==> (ms.spec_mapped(v) matches Some(b) && spec_pte_valid(b)
                        && spec_pte_flags(b) == spec_seg_perm_bits(segs[j].flags) + 1),
                forall|w: u64|
                    w < VPN_LIMIT && (#[trigger] ms.spec_mapped(w)) is Some ==> w == VPN_LIMIT - 1
                        || exists|j: int|
                        0 <= j < i && #[trigger] spec_seg_first(segs[j]) <= w < spec_seg_end(
                            segs[j],
                        ),
                ms.spec_areas().len() == i,
                forall|j: int|
                    0 <= j < i ==> {
                        let ar = #[trigger] ms.spec_areas()[j];
                        &&& ar.spec_frames().len() == spec_seg_end(segs[j]) - spec_seg_first(
                            segs[j],
                        )
                        &&& (forall|k: int, b: int|
                            0 <= k < ar.spec_frames().len() && 0 <= b < PAGE_SIZE
                                ==> (#[trigger] ar.spec_frames()[k].1.spec_data()[b]) == (if k
                                * PAGE_SIZE + b < segs[j].file_size {
                                elf_data@[segs[j].offset + k * PAGE_SIZE + b]
                            } else {
                                0u8
                            }))
                    },
                good ==> a.avail() >= old(a).avail() - 3 - 3 * spec_segs_pages(
                    segs.take(i as int),
                ),
                good == (crate::elf::spec_elf_magic_ok(elf_data@)
                    && crate::elf::spec_elf_header_ok(elf_data@) && spec_segs_ok(elf_data@, gsegs)
                    && spec_segs_disjoint(gsegs) && spec_max_seg_end(gsegs) + 3 <= VPN_LIMIT - 2
                    && old(a).avail() >= 3 * spec_segs_pages(gsegs) + 12),
                gsegs == segs,
                gsegs == crate::elf::spec_load_segs(
                    elf_data@,
                    crate::elf::spec_elf_phnum(elf_data@),
                ),
            decreases n - i,
        {
            let seg = info.segs[i];
            proof {
                if good {
                    assert(spec_seg_loadable_ok(elf_data@, segs[i as int]));
                }
            }
            if seg.file_size > seg.mem_size {
                return Err(crate::elf::ElfError::BadSegment);
            }
            if seg.offset > elf_data.len() as u64 || seg.file_size > elf_data.len() as u64
                - seg.offset {
                return Err(crate::elf::ElfError::BadSegment);
            }
            if seg.mem_size > VA_LIMIT - 1 || seg.vaddr > VA_LIMIT - 1 - seg.mem_size {
                return Err(crate::elf::ElfError::BadSegment);
            }
            let start_va = VirtualAddress(seg.vaddr);
            let end_va = VirtualAddress(seg.vaddr + seg.mem_size);
            let perm = MapPermission::new(
                (seg.flags / 4) % 2 == 1,
                (seg.flags / 2) % 2 == 1,
                seg.flags % 2 == 1,
                true,
            );
            proof {
                assert(perm.bits == spec_seg_perm_bits(seg.flags));
            }
            let area = MapArea::new(start_va, end_va, MapType::Framed, perm);
            let ce = end_va.ceil();
            proof {
                assert(area.spec_end() == spec_seg_end(seg));
                assert(area.spec_start() == spec_seg_first(seg));
                crate::address::lemma_floor_monotone(0, seg.vaddr);
                assert(area.spec_start() <= area.spec_end());
            }
            let off = seg.offset as usize;
            let off_end = (seg.offset + seg.file_size) as usize;
            let src = &elf_data[off..off_end];
            proof {
                assert(src@ == elf_data@.subrange(off as int, off_end as int));
                assert(src@.len() == seg.file_size);
                assert(seg.file_size <= seg.mem_size);
                assert(seg.mem_size <= (area.spec_end() - area.spec_start()) * PAGE_SIZE)
                    by (nonlinear_arith)
                    requires
                        area.spec_start() == (seg.vaddr as int) / 4096,
                        area.spec_end() == (seg.vaddr + seg.mem_size + 4095) / 4096,
                        PAGE_SIZE == 4096,
                ;
            }
            let ghost ms_before = ms;
            let ghost avail_before = a.avail();
            proof {
                if good {
                    // The segment's pages are untouched and the pool still
                    // covers them, so this push cannot fail.
                    lemma_segs_pages_bound(elf_data@, segs, i as int);
                    assert forall|v: u64|
                        area.spec_start() <= v < area.spec_end() implies !ms_before.is_mapped(
                        v) by {
                        if ms_before.spec_mapped(v) is Some {
                            assert(spec_seg_end(segs[i as int]) <= spec_max_seg_end(gsegs)) by {
                                lemma_max_seg_end_bound(segs, i as int);
                            }
                            if v != VPN_LIMIT - 1 {
                                let j = choose|j: int|
                                    0 <= j < i && #[trigger] spec_seg_first(segs[j]) <= v
                                        < spec_seg_end(segs[j]);
                                assert(spec_seg_end(segs[j]) <= spec_seg_first(segs[i as int])
                                    || spec_seg_end(segs[i as int]) <= spec_seg_first(segs[j]));
                            }
                        }
                    }
                }
            }
            let rr = ms.push(a, area, Some(src));
            match rr {
                Ok(()) => {},
                Err(PagingError::AlreadyMapped) => {
                    // Overlapping loadable segments: a malformed image.
                    proof {
                        if good {
                            assert(false);
                        }
                    }
                    return Err(crate::elf::ElfError::BadSegment);
                },
                Err(e) => {
                    proof {
                        assert(e == PagingError::FrameExhausted);
                        if good {
                            assert(false);
                        }
                    }
                    return Err(crate::elf::ElfError::FrameExhausted);
                },
            }
            if ce.0 > max_end {
                max_end = ce.0;
            }
            proof {
                assert(segs.take(i + 1).drop_last() == segs.take(i as int));
                assert(segs.take(i + 1).last() == segs[i as int]);
                assert(max_end == spec_max_seg_end(segs.take(i + 1)));
                if good {
                    assert(spec_segs_pages(segs.take(i + 1)) == spec_segs_pages(
                        segs.take(i as int),
                    ) + (spec_seg_end(segs[i as int]) - spec_seg_first(segs[i as int])));
                    assert(a.avail() >= avail_before - 3 * (area.spec_end()
                        - area.spec_start()));
                }
                // The new area records the segment's file bytes, zero tail.
                assert(ms.spec_areas().len() == i + 1);
                assert forall|j: int| 0 <= j < i + 1 implies {
                    let ar = #[trigger] ms.spec_areas()[j];
                    &&& ar.spec_frames().len() == spec_seg_end(segs[j]) - spec_seg_first(segs[j])
                    &&& (forall|k: int, b: int|
                        0 <= k < ar.spec_frames().len() && 0 <= b < PAGE_SIZE
                            ==> (#[trigger] ar.spec_frames()[k].1.spec_data()[b]) == (if k
                            * PAGE_SIZE + b < segs[j].file_size {
                            elf_data@[segs[j].offset + k * PAGE_SIZE + b]
                        } else {
                            0u8
                        }))
                } by {
                    if j < i {
                        assert(ms.spec_areas().take(ms_before.spec_areas().len() as int)[j]
                            == ms.spec_areas()[j]);
                        assert(ms.spec_areas()[j] == ms_before.spec_areas()[j]);
                    } else {
                        let ar = ms.spec_areas().last();
                        assert(ms.spec_areas()[j] == ar);
                        assert forall|k: int, b: int|
                            0 <= k < ar.spec_frames().len() && 0 <= b < PAGE_SIZE
                            implies (#[trigger] ar.spec_frames()[k].1.spec_data()[b]) == (if k
                            * PAGE_SIZE + b < segs[j].file_size {
                            elf_data@[segs[j].offset + k * PAGE_SIZE + b]
                        } else {
                            0u8
                        }) by {
                            if k * PAGE_SIZE + b < seg.file_size {
                                assert(src@[k * PAGE_SIZE + b] == elf_data@[off + k * PAGE_SIZE
                                    + b]);
                            }
                        }
                    }
                }
                // The trampoline page survived: the pushed range cannot have
                // included it, since it was already mapped.
                assert(!(area.spec_start() <= VPN_LIMIT - 1 < area.spec_end()));
                assert forall|w: u64|
                    w < VPN_LIMIT && (#[trigger] ms.spec_mapped(w)) is Some implies w == VPN_LIMIT
                    - 1 || exists|j: int|
                    0 <= j < i + 1 && #[trigger] spec_seg_first(segs[j]) <= w < spec_seg_end(
                        segs[j],
                    ) by {
                    if !(area.spec_start() <= w < area.spec_end()) {
                        assert(ms.spec_mapped(w) == ms_before.spec_mapped(w));
                        if w != VPN_LIMIT - 1 {
                            let j = choose|j: int|
                                0 <= j < i && #[trigger] spec_seg_first(segs[j]) <= w
                                    < spec_seg_end(segs[j]);
                            assert(0 <= j < i + 1 && spec_seg_first(segs[j]) <= w < spec_seg_end(
                                segs[j],
                            ));
                        }
                    } else {
                        assert(spec_seg_first(segs[i as int]) <= w < spec_seg_end(segs[i as int]));
                    }
                }
            }
            i = i + 1;
        }
        // One guard page, then a two-page user stack, then the trap-context
        // page just below the trampoline: all must fit below the trampoline.
        proof {
            assert(segs.take(n as int) == segs);
        }
        if max_end + 3 > VPN_LIMIT - 2 {
            proof {
                if good {
                    assert(false);
                }
            }
            return Err(crate::elf::ElfError::BadSegment);
        }
        let stack_bottom_vpn = max_end + 1;
        let stack_bottom = stack_bottom_vpn * PAGE_SIZE;
        let stack_top = stack_bottom + crate::config::USER_STACK_SIZE;
        let stack_area = MapArea::new(
            VirtualAddress(stack_bottom),
            VirtualAddress(stack_top),
            MapType::Framed,
            MapPermission::new(true, true, false, true),
        );
        proof {
            assert(stack_area.spec_start() == max_end + 1 && stack_area.spec_end() == max_end + 3)
                by (nonlinear_arith)
                requires
                    stack_bottom == (max_end + 1) * 4096,
                    stack_top == stack_bottom + 8192,
                    max_end + 3 <= 0x7fffffe,
                    stack_area.spec_start() == (stack_bottom as int) / 4096,
                    stack_area.spec_end() == (stack_top + 4095) as int / 4096,
            ;
        }
        let ghost ms_segs = ms;
        proof {
            assert forall|v: u64|
                stack_area.spec_start() <= v < stack_area.spec_end() implies !ms_segs.is_mapped(
                v) by {
                if ms_segs.spec_mapped(v) is Some {
                    if v != VPN_LIMIT - 1 {
                        let j = choose|j: int|
                            0 <= j < n && #[trigger] spec_seg_first(segs[j]) <= v < spec_seg_end(
                                segs[j],
                            );
                    }
                }
            }
        }
        match ms.push(a, stack_area, None) {
            Ok(()) => {},
            Err(e) => {
                proof {
                    assert(e == PagingError::FrameExhausted);
                    if good {
                        assert(false);
                    }
                }
                return Err(crate::elf::ElfError::FrameExhausted);
            },
        }
        let trap_area = MapArea::new(
            VirtualAddress::from(crate::config::TRAP_CONTEXT),
            VirtualAddress::from(crate::config::TRAMPOLINE),
            MapType::Framed,
            MapPermission::new(true, true, false, false),
        );
        proof {
            assert(trap_area.spec_start() == VPN_LIMIT - 2 && trap_area.spec_end() == VPN_LIMIT
                - 1);
        }
        let ghost ms_stack = ms;
        proof {
            assert(!ms_stack.is_mapped((VPN_LIMIT - 2) as u64)) by {
                if ms_segs.spec_mapped((VPN_LIMIT - 2) as u64) is Some {
                    let j = choose|j: int|
                        0 <= j < n && #[trigger] spec_seg_first(segs[j]) <= VPN_LIMIT - 2
                            < spec_seg_end(segs[j]);
                }
            }
        }
        match ms.push(a, trap_area, None) {
            Ok(()) => {},
            Err(e) => {
                proof {
                    assert(e == PagingError::FrameExhausted);
                    if good {
                        assert(false);
                    }
                }
                return Err(crate::elf::ElfError::FrameExhausted);
            },
        }
        proof {
            assert(ms.spec_mapped(max_end as u64) is None) by {
                assert(ms_segs.spec_mapped(max_end as u64) is None);
            }
            // The two trailing pushes append areas only: every segment's
            // recorded area and its bytes stay as the loop left them.
            assert(ms.spec_areas().len() == n + 2);
            assert forall|j: int| 0 <= j < n implies #[trigger] ms.spec_areas()[j]
                == ms_segs.spec_areas()[j] by {
                assert(ms_stack.spec_areas().take(ms_segs.spec_areas().len() as int)[j]
                    == ms_stack.spec_areas()[j]);
                assert(ms.spec_areas().take(ms_stack.spec_areas().len() as int)[j]
                    == ms.spec_areas()[j]);
            }
        }
        Ok((ms, stack_top, info.entry))
    }
}

impl MapArea {
    /// How many frames the area owns.
    pub fn frame_count(&self) -> (r: usize)
        ensures
            r == self.spec_frames().len(),
    {
        self.data_frames.len()
    }

    /// The page number a tracked frame backs.
    pub fn frame_vpn(&self, k: usize) -> (r: u64)
        requires
            k < self.spec_frames().len(),
        ensures
            r == self.spec_frames()[k as int].0,
    {
        self.data_frames[k].0
    }

    /// One byte of a tracked frame's page.
    pub fn read_frame_byte(&self, k: usize, i: usize) -> (r: u8)
        requires
            self.wf(),
            k < self.spec_frames().len(),
            i < PAGE_SIZE,
        ensures
            r == self.spec_frames()[k as int].1.spec_data()[i as int],
    {
        self.data_frames[k].1.read_byte(i)
    }
}

impl MemorySet {
    /// How many areas the space records.
    pub fn area_count(&self) -> (r: usize)
        ensures
            r == self.spec_areas().len(),
    {
        self.areas.len()
    }
}

/// Boots the memory subsystem: hands the frame allocator every frame
/// between the end of the kernel image and the end of memory, then builds
/// the kernel's address space. Activating the returned space's token is
/// the caller's privileged step.
pub fn init(a: &mut StackFrameAllocator, kernel_end: crate::address::PhysicAddress, layout: &KernelLayout) -> (r: Result<
    MemorySet,
    PagingError,
>)
    requires
        old(a).spec_recycled().len() == 0,
        kernel_end.wf(),
        crate::address::spec_page_ceil(kernel_end.0) <= crate::address::spec_page_floor(
            crate::config::MEMORY_END,
        ),
        layout.wf(),
    ensures
        final(a).wf(),
        final(a).spec_end() == crate::address::spec_page_floor(crate::config::MEMORY_END),
        r is Err ==> r == Err::<MemorySet, PagingError>(PagingError::FrameExhausted) && final(a).avail() == 0,
        final(a).avail() > 0 ==> r is Ok,
        crate::address::spec_page_floor(crate::config::MEMORY_END) - crate::address::spec_page_ceil(
            kernel_end.0,
        ) >= spec_kernel_budget(*layout) ==> r is Ok,
        r matches Ok(ms) ==> ms.wf() && ms.frames_live(final(a)) && ms.spec_mapped(
            (VPN_LIMIT - 1) as u64,
        ) == Some(
            spec_pte_bits(
                crate::address::spec_page_floor(layout.strampoline) as u64,
                11u8,
            ) as u64,
        ),
{
    crate::frame_allocator::init_frame_allocator(a, kernel_end);
    MemorySet::new_kernel(a, layout)
}

impl MapArea {
    /// Unmaps every page of the range in ascending order, then returns
    /// every owned frame to the allocator.
    pub fn unmap(&mut self, pt: &mut PageTable, a: &mut StackFrameAllocator) -> (r: Result<
        (),
        PagingError,
    >)
        requires
            old(self).wf(),
            old(pt).wf(),
            old(a).wf(),
            old(pt).frames_live(old(a)),
            old(self).frames_live(old(a)),
            forall|k1: int, k2: int|
                0 <= k1 < k2 < old(self).spec_frames().len() ==> (#[trigger] old(self).spec_frames()[k1]).1.spec_ppn() != (#[trigger] old(self).spec_frames()[
                k2]).1.spec_ppn(),
            forall|k: int|
                0 <= k < old(self).spec_frames().len() ==> !old(pt).has_node(
                    (#[trigger] old(self).spec_frames()[k]).1.spec_ppn().0,
                ),
        ensures
            final(self).wf(),
            final(pt).wf(),
            final(pt).spec_root() == old(pt).spec_root(),
            forall|p: u64| final(pt).has_node(p) == old(pt).has_node(p),
            final(a).wf(),
            final(a).spec_end() == old(a).spec_end(),
            final(pt).frames_live(final(a)),
            final(self).frames_live(final(a)),
            final(self).spec_start() == old(self).spec_start(),
            final(self).spec_end() == old(self).spec_end(),
            final(self).spec_type() == old(self).spec_type(),
            forall|w: u64|
                w < VPN_LIMIT && !(old(self).spec_start() <= w < old(self).spec_end()) ==> final(pt).spec_mapped(w) == old(pt).spec_mapped(w),
            r is Err ==> r == Err::<(), PagingError>(PagingError::NotMapped) && (exists|v: u64|
                old(self).spec_start() <= v < old(self).spec_end() && !old(pt).is_mapped(v)),
            (forall|v: u64|
                old(self).spec_start() <= v < old(self).spec_end() ==> old(pt).is_mapped(v))
                ==> r is Ok,
            r is Ok ==> {
                &&& (forall|v: u64|
                    old(self).spec_start() <= v < old(self).spec_end()
                        ==> #[trigger] final(pt).spec_mapped(v) is None)
                &&& (old(self).spec_type() == MapType::Framed ==> final(self).spec_frames().len()
                    == 0 && final(a).avail() == old(a).avail() + old(self).spec_frames().len())
            },
    {
        let start = self.vpn_range.get_start();
        let end = self.vpn_range.get_end();
        let mut cur: u64 = start.0;
        while cur < end.0
            invariant
                start.0 == old(self).spec_start(),
                end.0 == old(self).spec_end(),
                start.0 <= cur <= end.0,
                end.0 <= VPN_LIMIT,
                self.wf(),
                self.vpn_range == old(self).vpn_range,
                self.map_type == old(self).spec_type(),
                self.spec_frames() == old(self).spec_frames(),
                a.wf(),
                a.eq_state(old(a)),
                a.spec_end() == old(a).spec_end(),
                pt.wf(),
                pt.spec_root() == old(pt).spec_root(),
                forall|p: u64| pt.has_node(p) == old(pt).has_node(p),
                pt.frames_live(a),
                self.frames_live(a),
                forall|k1: int, k2: int|
                    0 <= k1 < k2 < old(self).spec_frames().len() ==> (#[trigger] old(self).spec_frames()[k1]).1.spec_ppn() != (#[trigger] old(self).spec_frames()[
                    k2]).1.spec_ppn(),
                forall|k: int|
                    0 <= k < old(self).spec_frames().len() ==> !old(pt).has_node(
                        (#[trigger] old(self).spec_frames()[k]).1.spec_ppn().0,
                    ),
                forall|w: u64|
                    w < VPN_LIMIT && !(start.0 <= w < cur) ==> pt.spec_mapped(w) == old(pt).spec_mapped(w),
                forall|v: u64| start.0 <= v < cur ==> #[trigger] pt.spec_mapped(v) is None,
            decreases end.0 - cur,
        {
            let ghost pt_before = *pt;
            match pt.unmap(VirtualPageNum(cur)) {
                Ok(()) => {},
                Err(e) => {
                    proof {
                        assert(e == PagingError::NotMapped);
                        assert(!pt_before.is_mapped(cur));
                        assert(!old(pt).is_mapped(cur));
                    }
                    return Err(e);
                },
            }
            cur = cur + 1;
        }
        match self.map_type {
            MapType::Framed => {
                let ghost frames0 = self.spec_frames();
                let ghost a0 = *a;
                proof {
                    assert_seqs_equal!(frames0.take(frames0.len() as int) == frames0);
                }
                while self.data_frames.len() > 0
                    invariant
                        start.0 == old(self).spec_start(),
                        end.0 == old(self).spec_end(),
                        self.map_type == old(self).spec_type(),
                        self.vpn_range == old(self).vpn_range,
                        self.wf(),
                        a.wf(),
                        a.spec_end() == old(a).spec_end(),
                        a0.eq_state(old(a)),
                        pt.wf(),
                        pt.spec_root() == old(pt).spec_root(),
                        forall|p: u64| pt.has_node(p) == old(pt).has_node(p),
                        forall|w: u64|
                            w < VPN_LIMIT && !(start.0 <= w < end.0) ==> pt.spec_mapped(w) == old(pt).spec_mapped(w),
                        forall|v: u64|
                            start.0 <= v < end.0 ==> #[trigger] pt.spec_mapped(v) is None,
                        frames0 == old(self).spec_frames(),
                        self.spec_frames().len() <= frames0.len(),
                        self.spec_frames() == frames0.take(self.spec_frames().len() as int),
                        forall|k1: int, k2: int|
                            0 <= k1 < k2 < frames0.len() ==> (#[trigger] frames0[
                            k1]).1.spec_ppn() != (#[trigger] frames0[k2]).1.spec_ppn(),
                        forall|k: int|
                            0 <= k < frames0.len() ==> !pt.has_node(
                                (#[trigger] frames0[k]).1.spec_ppn().0,
                            ),
                        forall|k: int|
                            0 <= k < self.spec_frames().len() ==> a.is_live(
                                (#[trigger] self.spec_frames()[k]).1.spec_ppn().0,
                            ),
                        pt.frames_live(a),
                        a.avail() == a0.avail() + frames0.len() - self.spec_frames().len(),
                    decreases self.spec_frames().len(),
                {
                    match self.data_frames.pop() {
                        None => {
                            // Unreachable: the loop runs only while frames remain.
                            proof {
                                assert(false);
                            }
                        },
                        Some(pair) => {
                            let tracker = pair.1;
                            proof {
                                let m = self.spec_frames().len() as int;
                                assert(frames0.take(m + 1)[m] == frames0[m]);
                                assert(frames0[m].1 == tracker);
                                assert(a.is_live(tracker.spec_ppn().0));
                            }
                            let rd = a.dealloc(tracker.ppn());
                            proof {
                                match rd {
                                    Err(crate::frame_allocator::FrameDeallocError::NotAllocated) => {
                                        assert(false);
                                    },
                                    Err(crate::frame_allocator::FrameDeallocError::DoubleFree) => {
                                        assert(false);
                                    },
                                    Ok(()) => {},
                                }
                                let m = self.spec_frames().len() as int;
                                assert_seqs_equal!(self.spec_frames() == frames0.take(m));
                                assert forall|k: int|
                                    0 <= k < m implies a.is_live(
                                    (#[trigger] self.spec_frames()[k]).1.spec_ppn().0) by {
                                    assert(self.spec_frames()[k] == frames0[k]);
                                    assert(frames0[k].1.spec_ppn() != frames0[m].1.spec_ppn());
                                }
                                assert(pt.frames_live(a)) by {
                                    assert forall|pn: u64| pt.has_node(pn) implies a.is_live(pn)
                                        by {
                                        assert(!pt.has_node(frames0[m].1.spec_ppn().0));
                                    }
                                }
                            }
                        },
                    }
                }
                Ok(())
            },
            MapType::Identical => Ok(()),
        }
    }
}

} // verus!

