//! Typed physical and virtual addresses and page numbers for SV39.
//!
//! Construction from a raw integer masks to the width of the address kind;
//! page-number conversions are floor/ceil divisions by the page size; a
//! virtual page number decomposes into the three 9-bit indices of the
//! three-level table walk.
use vstd::prelude::*;

use crate::config::{PAGE_SIZE, PA_LIMIT, PPN_LIMIT, VA_LIMIT, VPN_LIMIT};
use vstd::std_specs::convert::FromSpec;

verus! {

/// A byte-granular physical address, at most 56 bits wide.
#[derive(Copy, Clone, PartialEq, Eq, Structural, PartialOrd, Ord, Debug)]
pub struct PhysicAddress(pub u64);

/// A byte-granular virtual address, at most 39 bits wide.
#[derive(Copy, Clone, PartialEq, Eq, Structural, PartialOrd, Ord, Debug)]
pub struct VirtualAddress(pub u64);

/// A physical page number: a physical address with the page offset removed.
#[derive(Copy, Clone, PartialEq, Eq, Structural, PartialOrd, Ord, Debug)]
pub struct PhysicPageNum(pub u64);

/// A virtual page number: a virtual address with the page offset removed.
#[derive(Copy, Clone, PartialEq, Eq, Structural, PartialOrd, Ord, Debug)]
pub struct VirtualPageNum(pub u64);

/// The page number containing byte `v`.
pub open spec fn spec_page_floor(v: u64) -> int {
    (v as int) / (PAGE_SIZE as int)
}

/// The page number of the next page boundary at or above byte `v`.
pub open spec fn spec_page_ceil(v: u64) -> int {
    (v as int + PAGE_SIZE as int - 1) / (PAGE_SIZE as int)
}

/// Index into the level-0 (root) table: bits [18, 27) of the page number.
pub open spec fn vpn_index0(vpn: u64) -> u64 {
    (vpn / 0x40000) % 512
}

/// Index into the level-1 table: bits [9, 18) of the page number.
pub open spec fn vpn_index1(vpn: u64) -> u64 {
    (vpn / 512) % 512
}

/// Index into the level-2 (leaf) table: bits [0, 9) of the page number.
pub open spec fn vpn_index2(vpn: u64) -> u64 {
    vpn % 512
}

/// Two page numbers below the virtual-page-number bound that decompose into
/// the same three indices are equal.
pub proof fn lemma_indices_injective(a: u64, b: u64)
    requires
        a < VPN_LIMIT,
        b < VPN_LIMIT,
        vpn_index0(a) == vpn_index0(b),
        vpn_index1(a) == vpn_index1(b),
        vpn_index2(a) == vpn_index2(b),
    ensures
        a == b,
{
    assert(a == (vpn_index0(a) * 0x40000 + vpn_index1(a) * 512 + vpn_index2(a))) by (nonlinear_arith)
        requires a < 0x8000000
    ;
    assert(b == (vpn_index0(b) * 0x40000 + vpn_index1(b) * 512 + vpn_index2(b))) by (nonlinear_arith)
        requires b < 0x8000000
    ;
}

impl PhysicAddress {
    /// The address lies inside the 56-bit physical address space.
    pub open spec fn wf(self) -> bool {
        self.0 < PA_LIMIT
    }

    pub fn page_offset(&self) -> (r: u64)
        ensures
            r == self.0 % PAGE_SIZE,
    {
        self.0 % PAGE_SIZE
    }

    pub fn aligned(&self) -> (r: bool)
        ensures
            r == (self.0 % PAGE_SIZE == 0),
    {
        self.page_offset() == 0
    }

    /// Page number of the page containing this address.
    pub fn floor(&self) -> (r: PhysicPageNum)
        ensures
            r.0 == spec_page_floor(self.0),
            self.wf() ==> r.wf(),
    {
        PhysicPageNum(self.0 / PAGE_SIZE)
    }

    /// Page number of the next page boundary at or above this address.
    pub fn ceil(&self) -> (r: PhysicPageNum)
        requires
            self.wf(),
        ensures
            r.0 == spec_page_ceil(self.0),
            r.0 <= PPN_LIMIT,
    {
        PhysicPageNum((self.0 + PAGE_SIZE - 1) / PAGE_SIZE)
    }
}

impl VirtualAddress {
    /// The address lies inside the 39-bit virtual address space.
    pub open spec fn wf(self) -> bool {
        self.0 < VA_LIMIT
    }

    pub fn page_offset(&self) -> (r: u64)
        ensures
            r == self.0 % PAGE_SIZE,
    {
        self.0 % PAGE_SIZE
    }

    pub fn aligned(&self) -> (r: bool)
        ensures
            r == (self.0 % PAGE_SIZE == 0),
    {
        self.page_offset() == 0
    }

    /// Page number of the page containing this address.
    pub fn floor(&self) -> (r: VirtualPageNum)
        ensures
            r.0 == spec_page_floor(self.0),
            self.wf() ==> r.wf(),
    {
        VirtualPageNum(self.0 / PAGE_SIZE)
    }

    /// Page number of the next page boundary at or above this address.
    pub fn ceil(&self) -> (r: VirtualPageNum)
        requires
            self.wf(),
        ensures
            r.0 == spec_page_ceil(self.0),
            r.wf(),
    {
        VirtualPageNum((self.0 + PAGE_SIZE - 1) / PAGE_SIZE)
    }
}

impl PhysicPageNum {
    /// The page number fits in the 44 bits of a page-table entry.
    pub open spec fn wf(self) -> bool {
        self.0 < PPN_LIMIT
    }

    /// First byte address of the page.
    pub fn address(self) -> (r: PhysicAddress)
        requires
            self.wf(),
        ensures
            r.0 == self.0 * PAGE_SIZE,
            r.wf(),
    {
        proof {
            assert(self.0 * PAGE_SIZE < PA_LIMIT) by (nonlinear_arith)
                requires self.0 < 0x100000000000
            ;
        }
        PhysicAddress(self.0 * PAGE_SIZE)
    }
}

impl VirtualPageNum {
    /// The page number is at most the one-past-the-top page bound.
    pub open spec fn wf(self) -> bool {
        self.0 <= VPN_LIMIT
    }

    /// First byte address of the page.
    pub fn address(self) -> (r: VirtualAddress)
        requires
            self.0 < VPN_LIMIT,
        ensures
            r.0 == self.0 * PAGE_SIZE,
            r.wf(),
    {
        proof {
            assert(self.0 * PAGE_SIZE < VA_LIMIT) by (nonlinear_arith)
                requires self.0 < 0x8000000
            ;
        }
        VirtualAddress(self.0 * PAGE_SIZE)
    }

    /// The three 9-bit table indices, most significant first.
    pub fn indexes(&self) -> (r: [usize; 3])
        ensures
            r[0] == vpn_index0(self.0),
            r[1] == vpn_index1(self.0),
            r[2] == vpn_index2(self.0),
    {
        [((self.0 / 0x40000) % 512) as usize, ((self.0 / 512) % 512) as usize, (self.0 % 512) as usize]
    }
}

impl From<u64> for PhysicAddress {
    /// Masks the raw value to the physical address width.
    fn from(v: u64) -> (r: Self) {
        PhysicAddress(v % PA_LIMIT)
    }
}

impl vstd::std_specs::convert::FromSpecImpl<u64> for PhysicAddress {
    open spec fn obeys_from_spec() -> bool {
        true
    }

    open spec fn from_spec(v: u64) -> Self {
        PhysicAddress((v % PA_LIMIT) as u64)
    }
}

impl From<u64> for VirtualAddress {
    /// Masks the raw value to the virtual address width.
    fn from(v: u64) -> (r: Self) {
        VirtualAddress(v % VA_LIMIT)
    }
}

impl vstd::std_specs::convert::FromSpecImpl<u64> for VirtualAddress {
    open spec fn obeys_from_spec() -> bool {
        true
    }

    open spec fn from_spec(v: u64) -> Self {
        VirtualAddress((v % VA_LIMIT) as u64)
    }
}

impl From<u64> for PhysicPageNum {
    /// Masks the raw value to the physical page-number width.
    fn from(v: u64) -> (r: Self) {
        PhysicPageNum(v % PPN_LIMIT)
    }
}

impl vstd::std_specs::convert::FromSpecImpl<u64> for PhysicPageNum {
    open spec fn obeys_from_spec() -> bool {
        true
    }

    open spec fn from_spec(v: u64) -> Self {
        PhysicPageNum((v % PPN_LIMIT) as u64)
    }
}

impl From<u64> for VirtualPageNum {
    /// Masks the raw value to the virtual page-number width.
    fn from(v: u64) -> (r: Self) {
        VirtualPageNum(v % VPN_LIMIT)
    }
}

impl vstd::std_specs::convert::FromSpecImpl<u64> for VirtualPageNum {
    open spec fn obeys_from_spec() -> bool {
        true
    }

    open spec fn from_spec(v: u64) -> Self {
        VirtualPageNum((v % VPN_LIMIT) as u64)
    }
}

/// A raw value below the width bound of its address kind survives the
/// construction mask unchanged, and masking twice equals masking once.
pub proof fn lemma_address_from_roundtrip(v: u64)
    ensures
        PhysicAddress::from_spec(v).0 == v % PA_LIMIT,
        v < PA_LIMIT ==> PhysicAddress::from_spec(v).0 == v,
        PhysicAddress::from_spec(PhysicAddress::from_spec(v).0) == PhysicAddress::from_spec(v),
        VirtualAddress::from_spec(v).0 == v % VA_LIMIT,
        v < VA_LIMIT ==> VirtualAddress::from_spec(v).0 == v,
        VirtualAddress::from_spec(VirtualAddress::from_spec(v).0) == VirtualAddress::from_spec(v),
        PhysicPageNum::from_spec(v).0 == v % PPN_LIMIT,
        v < PPN_LIMIT ==> PhysicPageNum::from_spec(v).0 == v,
        VirtualPageNum::from_spec(v).0 == v % VPN_LIMIT,
        v < VPN_LIMIT ==> VirtualPageNum::from_spec(v).0 == v,
{
}

/// On a page-aligned address, `floor` and `ceil` name the same page, and
/// turning the page number back into an address restores the value.
pub proof fn lemma_floor_ceil_aligned(a: PhysicAddress, v: VirtualAddress)
    requires
        a.wf(),
        a.0 % PAGE_SIZE == 0,
        v.wf(),
        v.0 % PAGE_SIZE == 0,
    ensures
        spec_page_ceil(a.0) == spec_page_floor(a.0),
        spec_page_floor(a.0) * (PAGE_SIZE as int) == a.0,
        spec_page_ceil(v.0) == spec_page_floor(v.0),
        spec_page_floor(v.0) * (PAGE_SIZE as int) == v.0,
{
    let pa = a.0 as int;
    let pv = v.0 as int;
    assert((pa + 4095) / 4096 == pa / 4096 && (pa / 4096) * 4096 == pa) by (nonlinear_arith)
        requires pa % 4096 == 0, pa >= 0
    ;
    assert((pv + 4095) / 4096 == pv / 4096 && (pv / 4096) * 4096 == pv) by (nonlinear_arith)
        requires pv % 4096 == 0, pv >= 0
    ;
}

/// A step of one page number at a time, for walking a page range.
pub trait StepByOne: Sized {
    /// Whether a further step stays representable.
    spec fn step_allowed(&self) -> bool;

    /// The value after one step.
    spec fn step_spec(&self) -> Self;

    fn step(&mut self)
        requires
            old(self).step_allowed(),
        ensures
            *final(self) == old(self).step_spec(),
    ;
}

impl StepByOne for VirtualPageNum {
    open spec fn step_allowed(&self) -> bool {
        self.0 < u64::MAX
    }

    open spec fn step_spec(&self) -> Self {
        VirtualPageNum((self.0 + 1) as u64)
    }

    fn step(&mut self) {
        self.0 = self.0 + 1;
    }
}

/// A half-open range of virtual page numbers.
#[derive(Copy, Clone, Debug)]
pub struct SimpleRange {
    l: VirtualPageNum,
    r: VirtualPageNum,
}

impl SimpleRange {
    pub closed spec fn spec_start(self) -> u64 {
        self.l.0
    }

    pub closed spec fn spec_end(self) -> u64 {
        self.r.0
    }

    pub fn new(start: VirtualPageNum, end: VirtualPageNum) -> (r: Self)
        requires
            start.0 <= end.0,
        ensures
            r.spec_start() == start.0,
            r.spec_end() == end.0,
    {
        SimpleRange { l: start, r: end }
    }

    pub fn get_start(&self) -> (r: VirtualPageNum)
        ensures
            r.0 == self.spec_start(),
    {
        self.l
    }

    pub fn get_end(&self) -> (r: VirtualPageNum)
        ensures
            r.0 == self.spec_end(),
    {
        self.r
    }
}

pub type VPNRange = SimpleRange;

/// Yields the page numbers of a half-open range in increasing order.
#[derive(Copy, Clone, Debug)]
pub struct SimpleRangeIterator {
    current: VirtualPageNum,
    end: VirtualPageNum,
}

impl SimpleRangeIterator {
    pub closed spec fn spec_current(self) -> u64 {
        self.current.0
    }

    pub closed spec fn spec_end(self) -> u64 {
        self.end.0
    }

    pub closed spec fn wf(self) -> bool {
        self.current.0 <= self.end.0
    }

    pub fn new(l: VirtualPageNum, r: VirtualPageNum) -> (it: Self)
        requires
            l.0 <= r.0,
        ensures
            it.spec_current() == l.0,
            it.spec_end() == r.0,
            it.wf(),
    {
        SimpleRangeIterator { current: l, end: r }
    }

    /// The next page number of the range, or `None` once exhausted.
    pub fn next(&mut self) -> (r: Option<VirtualPageNum>)
        requires
            old(self).wf(),
        ensures
            final(self).wf(),
            final(self).spec_end() == old(self).spec_end(),
            old(self).spec_current() == old(self).spec_end() ==> r is None && *final(self)
                == *old(self),
            old(self).spec_current() < old(self).spec_end() ==> r == Some(
                VirtualPageNum(old(self).spec_current()),
            ) && final(self).spec_current() == old(self).spec_current() + 1,
    {
        if self.current.0 == self.end.0 {
            None
        } else {
            let t = self.current;
            self.current.step();
            Some(t)
        }
    }
}

impl SimpleRange {
    pub fn into_iter(self) -> (it: SimpleRangeIterator)
        requires
            self.spec_start() <= self.spec_end(),
        ensures
            it.spec_current() == self.spec_start(),
            it.spec_end() == self.spec_end(),
            it.wf(),
    {
        SimpleRangeIterator::new(self.l, self.r)
    }
}

/// Page-number floor is monotone in the address.
pub proof fn lemma_floor_monotone(x: u64, y: u64)
    requires
        x <= y,
    ensures
        spec_page_floor(x) <= spec_page_floor(y),
{
    assert((x as int) / 4096 <= (y as int) / 4096) by (nonlinear_arith)
        requires x <= y
    ;
}

/// On a page-aligned address the ceiling equals the floor.
pub proof fn lemma_aligned_ceil(x: u64)
    requires
        x % PAGE_SIZE == 0,
    ensures
        spec_page_ceil(x) == spec_page_floor(x),
{
    let p = x as int;
    assert((p + 4095) / 4096 == p / 4096) by (nonlinear_arith)
        requires p % 4096 == 0, p >= 0
    ;
}

/// Page-ceiling over unbounded integers.
pub open spec fn spec_page_ceil_int(v: int) -> int {
    (v + PAGE_SIZE - 1) / (PAGE_SIZE as int)
}

} // verus!
