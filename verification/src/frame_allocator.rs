//! Stack-based physical frame allocator with RAII-style frame trackers.
//!
//! Frames come from a half-open range `[current, end)` of page numbers not
//! yet issued, together with a LIFO stack of recycled page numbers. A frame
//! is *live* while it has been issued and not recycled; the allocator never
//! hands out a live frame, and refuses to recycle a frame that is not live.
use vstd::prelude::*;
use vstd::assert_seqs_equal;

use crate::address::{PhysicAddress, PhysicPageNum};
use crate::config::{MEMORY_END, PAGE_SIZE, PPN_LIMIT};

verus! {

/// Why a frame could not be recycled: it was never issued, or it is
/// already on the recycled stack (a double free). Either is a fatal
/// kernel bug at the call site.
#[derive(Copy, Clone, PartialEq, Eq, Structural, Debug)]
pub enum FrameDeallocError {
    NotAllocated,
    DoubleFree,
}

pub struct StackFrameAllocator {
    current: u64,
    end: u64,
    recycled: Vec<u64>,
}

impl StackFrameAllocator {
    /// First page number never yet issued.
    pub closed spec fn spec_current(&self) -> u64 {
        self.current
    }

    /// One past the last page number this allocator may issue.
    pub closed spec fn spec_end(&self) -> u64 {
        self.end
    }

    /// The LIFO stack of recycled page numbers, oldest first.
    pub closed spec fn spec_recycled(&self) -> Seq<u64> {
        self.recycled@
    }

    pub open spec fn wf(&self) -> bool {
        &&& self.spec_current() <= self.spec_end()
        &&& self.spec_end() <= PPN_LIMIT
        &&& forall|i: int|
            0 <= i < self.spec_recycled().len() ==> self.spec_recycled()[i] < self.spec_current()
        &&& forall|i: int, j: int|
            0 <= i < j < self.spec_recycled().len() ==> self.spec_recycled()[i]
                != self.spec_recycled()[j]
    }

    /// A frame is live while it has been issued and not recycled.
    pub open spec fn is_live(&self, ppn: u64) -> bool {
        ppn < self.spec_current() && !self.spec_recycled().contains(ppn)
    }

    /// How many frames can still be allocated.
    pub open spec fn avail(&self) -> int {
        self.spec_end() - self.spec_current() + self.spec_recycled().len()
    }

    /// Same allocator state, field by field.
    pub open spec fn eq_state(&self, other: &StackFrameAllocator) -> bool {
        &&& self.spec_current() == other.spec_current()
        &&& self.spec_end() == other.spec_end()
        &&& self.spec_recycled() == other.spec_recycled()
    }

    pub fn new() -> (r: Self)
        ensures
            r.spec_current() == 0,
            r.spec_end() == 0,
            r.spec_recycled() == Seq::<u64>::empty(),
            r.wf(),
    {
        StackFrameAllocator { current: 0, end: 0, recycled: Vec::new() }
    }

    /// Hands the allocator its pool: page numbers `[l, r)`.
    pub fn init(&mut self, l: PhysicPageNum, r: PhysicPageNum)
        requires
            l.0 <= r.0,
            r.0 <= PPN_LIMIT,
            old(self).spec_recycled().len() == 0,
        ensures
            final(self).spec_current() == l.0,
            final(self).spec_end() == r.0,
            final(self).spec_recycled() == old(self).spec_recycled(),
            final(self).wf(),
    {
        self.current = l.0;
        self.end = r.0;
    }

    /// Pops the recycled stack if possible, otherwise issues the next
    /// never-issued page number; `None` exactly when the pool is empty.
    pub fn allocate(&mut self) -> (r: Option<PhysicPageNum>)
        requires
            old(self).wf(),
        ensures
            final(self).wf(),
            final(self).spec_end() == old(self).spec_end(),
            r is None <==> old(self).avail() == 0,
            r is None ==> final(self).eq_state(old(self)),
            r matches Some(p) ==> {
                &&& p.0 < PPN_LIMIT
                &&& !old(self).is_live(p.0)
                &&& final(self).is_live(p.0)
                &&& forall|q: u64| q != p.0 ==> final(self).is_live(q) == old(self).is_live(q)
                &&& final(self).avail() == old(self).avail() - 1
                &&& if old(self).spec_recycled().len() > 0 {
                    &&& p.0 == old(self).spec_recycled().last()
                    &&& final(self).spec_current() == old(self).spec_current()
                    &&& final(self).spec_recycled() == old(self).spec_recycled().drop_last()
                } else {
                    &&& p.0 == old(self).spec_current()
                    &&& final(self).spec_current() == old(self).spec_current() + 1
                    &&& final(self).spec_recycled() == old(self).spec_recycled()
                }
            },
    {
        if let Some(ppn) = self.recycled.pop() {
            proof {
                let rec = old(self).spec_recycled();
                assert(rec[rec.len() - 1] == ppn);
                assert(rec.contains(ppn));
                assert(!self.recycled@.contains(ppn)) by {
                    if self.recycled@.contains(ppn) {
                        let i = choose|i: int|
                            0 <= i < self.recycled@.len() && self.recycled@[i] == ppn;
                        assert(rec[i] == rec[rec.len() - 1]);
                    }
                }
                assert(forall|q: u64|
                    q != ppn ==> (self.recycled@.contains(q) == rec.contains(q))) by {
                    assert(forall|q: u64| #[trigger] self.recycled@.contains(q) ==> rec.contains(q))
                        by {
                        assert(forall|i: int|
                            0 <= i < self.recycled@.len() ==> rec[i] == #[trigger] self.recycled@[i]);
                    }
                    assert(forall|q: u64|
                        q != ppn && #[trigger] rec.contains(q) ==> self.recycled@.contains(q)) by {
                        assert forall|q: u64| q != ppn && #[trigger] rec.contains(q) implies self
                            .recycled@.contains(q) by {
                            let i = choose|i: int| 0 <= i < rec.len() && rec[i] == q;
                            assert(i < rec.len() - 1);
                            assert(self.recycled@[i] == q);
                        }
                    }
                }
            }
            Some(PhysicPageNum(ppn))
        } else {
            if self.current == self.end {
                None
            } else {
                let ppn = self.current;
                self.current = self.current + 1;
                Some(PhysicPageNum(ppn))
            }
        }
    }

    /// Recycles a frame; rejects one never issued or already recycled.
    pub fn dealloc(&mut self, ppn: PhysicPageNum) -> (r: Result<(), FrameDeallocError>)
        requires
            old(self).wf(),
        ensures
            final(self).wf(),
            final(self).spec_current() == old(self).spec_current(),
            final(self).spec_end() == old(self).spec_end(),
            r == Err::<(), FrameDeallocError>(FrameDeallocError::NotAllocated) <==> ppn.0 >= old(
                self,
            ).spec_current(),
            r == Err::<(), FrameDeallocError>(FrameDeallocError::DoubleFree) <==> (ppn.0 < old(
                self,
            ).spec_current() && old(self).spec_recycled().contains(ppn.0)),
            r is Err ==> final(self).eq_state(old(self)),
            r is Ok ==> {
                &&& old(self).is_live(ppn.0)
                &&& final(self).spec_recycled() == old(self).spec_recycled().push(ppn.0)
                &&& !final(self).is_live(ppn.0)
                &&& forall|q: u64| q != ppn.0 ==> final(self).is_live(q) == old(self).is_live(q)
                &&& final(self).avail() == old(self).avail() + 1
            },
    {
        if ppn.0 >= self.current {
            return Err(FrameDeallocError::NotAllocated);
        }
        let n = self.recycled.len();
        let mut i: usize = 0;
        while i < n
            invariant
                self.current == old(self).spec_current(),
                self.end == old(self).spec_end(),
                self.recycled@ == old(self).spec_recycled(),
                old(self).wf(),
                ppn.0 < self.current,
                n == self.recycled@.len(),
                i <= n,
                forall|k: int| 0 <= k < i ==> self.recycled@[k] != ppn.0,
            decreases n - i,
        {
            if self.recycled[i] == ppn.0 {
                return Err(FrameDeallocError::DoubleFree);
            }
            i = i + 1;
        }
        proof {
            assert(!self.recycled@.contains(ppn.0));
        }
        self.recycled.push(ppn.0);
        proof {
            let rec = old(self).spec_recycled();
            assert(self.recycled@ == rec.push(ppn.0));
            assert(self.recycled@.contains(ppn.0)) by {
                assert(self.recycled@[rec.len() as int] == ppn.0);
            }
            assert forall|q: u64| q != ppn.0 implies (self.recycled@.contains(q) == rec.contains(
                q,
            )) by {
                if self.recycled@.contains(q) {
                    let i = choose|i: int|
                        0 <= i < self.recycled@.len() && self.recycled@[i] == q;
                    assert(i < rec.len());
                    assert(rec[i] == q);
                    assert(rec.contains(q));
                }
                if rec.contains(q) {
                    let i = choose|i: int| 0 <= i < rec.len() && rec[i] == q;
                    assert(self.recycled@[i] == q);
                    assert(self.recycled@.contains(q));
                }
            }
        }
        Ok(())
    }
}

/// A frame that is live and not yet issued cannot be the same frame: what
/// `alloc` returns was never live at the moment of the call, so no frame
/// still owned by a tracker is ever handed out a second time.
pub proof fn lemma_no_double_issue(a: StackFrameAllocator, live_frame: u64, fresh_frame: u64)
    requires
        a.is_live(live_frame),
        !a.is_live(fresh_frame),
    ensures
        live_frame != fresh_frame,
{
}

/// Owns one allocated physical frame together with the bytes of its page;
/// the page is zero-filled when the tracker is constructed.
pub struct FrameTracker {
    ppn: PhysicPageNum,
    data: Vec<u8>,
}

impl FrameTracker {
    /// The page number of the owned frame.
    pub closed spec fn spec_ppn(&self) -> PhysicPageNum {
        self.ppn
    }

    pub fn ppn(&self) -> (r: PhysicPageNum)
        ensures
            r == self.spec_ppn(),
    {
        self.ppn
    }

    /// The 4096 bytes of the page.
    pub closed spec fn spec_data(&self) -> Seq<u8> {
        self.data@
    }

    pub open spec fn wf(&self) -> bool {
        self.spec_data().len() == PAGE_SIZE
    }

    /// Wraps a freshly allocated frame; the page starts zero-filled.
    pub fn new(ppn: PhysicPageNum) -> (r: Self)
        ensures
            r.spec_ppn() == ppn,
            r.wf(),
            forall|i: int| 0 <= i < PAGE_SIZE ==> r.spec_data()[i] == 0u8,
    {
        let mut data: Vec<u8> = Vec::new();
        let mut i: usize = 0;
        while i < 4096
            invariant
                i <= 4096,
                data@.len() == i,
                forall|k: int| 0 <= k < i ==> data@[k] == 0u8,
            decreases 4096 - i,
        {
            data.push(0u8);
            i = i + 1;
        }
        FrameTracker { ppn, data }
    }

    /// Overwrites the first `src.len()` bytes of the page, leaving the
    /// rest as they were.
    pub fn fill_prefix(&mut self, src: &[u8])
        requires
            old(self).wf(),
            src@.len() <= PAGE_SIZE,
        ensures
            final(self).wf(),
            final(self).spec_ppn() == old(self).spec_ppn(),
            final(self).spec_data() == src@ + old(self).spec_data().skip(src@.len() as int),
    {
        let n = src.len();
        let mut i: usize = 0;
        while i < n
            invariant
                old(self).wf(),
                n == src@.len(),
                n <= PAGE_SIZE,
                i <= n,
                self.ppn == old(self).spec_ppn(),
                self.data@.len() == old(self).spec_data().len(),
                forall|k: int| 0 <= k < i ==> self.data@[k] == src@[k],
                forall|k: int| i <= k < self.data@.len() ==> self.data@[k] == old(
                    self,
                ).spec_data()[k],
            decreases n - i,
        {
            self.data[i] = src[i];
            i = i + 1;
        }
        proof {
            assert_seqs_equal!(self.data@ == src@ + old(self).spec_data().skip(src@.len() as int));
        }
    }

    /// Reads one byte of the page.
    pub fn read_byte(&self, i: usize) -> (r: u8)
        requires
            self.wf(),
            i < PAGE_SIZE,
        ensures
            r == self.spec_data()[i as int],
    {
        self.data[i]
    }
}

/// Allocates a frame and wraps it in a zero-filled tracker.
pub fn frame_alloc(a: &mut StackFrameAllocator) -> (r: Option<FrameTracker>)
    requires
        old(a).wf(),
    ensures
        final(a).wf(),
        final(a).spec_end() == old(a).spec_end(),
        r is None <==> old(a).avail() == 0,
        r is None ==> final(a).eq_state(old(a)),
        r matches Some(t) ==> {
            &&& t.spec_ppn().0 < PPN_LIMIT
            &&& t.wf()
            &&& (forall|i: int| 0 <= i < PAGE_SIZE ==> t.spec_data()[i] == 0u8)
            &&& !old(a).is_live(t.spec_ppn().0)
            &&& final(a).is_live(t.spec_ppn().0)
            &&& (forall|q: u64| q != t.spec_ppn().0 ==> final(a).is_live(q) == old(a).is_live(q))
            &&& final(a).avail() == old(a).avail() - 1
        },
{
    match a.allocate() {
        Some(ppn) => Some(FrameTracker::new(ppn)),
        None => None,
    }
}

/// Returns a frame to the allocator.
pub fn frame_dealloc(a: &mut StackFrameAllocator, ppn: PhysicPageNum) -> (r: Result<
    (),
    FrameDeallocError,
>)
    requires
        old(a).wf(),
    ensures
        final(a).wf(),
        final(a).spec_current() == old(a).spec_current(),
        final(a).spec_end() == old(a).spec_end(),
        r is Err <==> !old(a).is_live(ppn.0),
        r is Err ==> final(a).eq_state(old(a)),
        r is Ok ==> {
            &&& !final(a).is_live(ppn.0)
            &&& forall|q: u64| q != ppn.0 ==> final(a).is_live(q) == old(a).is_live(q)
            &&& final(a).avail() == old(a).avail() + 1
        },
{
    let r = a.dealloc(ppn);
    proof {
        match r {
            Err(FrameDeallocError::NotAllocated) => {},
            Err(FrameDeallocError::DoubleFree) => {},
            Ok(()) => {},
        }
    }
    r
}

/// Gives the allocator the physical range from the end of the kernel
/// image (rounded up) to the end of memory (rounded down).
pub fn init_frame_allocator(a: &mut StackFrameAllocator, kernel_end: PhysicAddress)
    requires
        old(a).spec_recycled().len() == 0,
        kernel_end.wf(),
        crate::address::spec_page_ceil(kernel_end.0) <= crate::address::spec_page_floor(MEMORY_END),
    ensures
        final(a).wf(),
        final(a).spec_current() == crate::address::spec_page_ceil(kernel_end.0),
        final(a).spec_end() == crate::address::spec_page_floor(MEMORY_END),
        final(a).spec_recycled().len() == 0,
{
    let start = kernel_end.ceil();
    let end = PhysicAddress(MEMORY_END).floor();
    a.init(start, end);
}

} // verus!
