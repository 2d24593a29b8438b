//! Address arithmetic, the frame allocator, and the page table.
use sv39_kernel::address::{PhysicAddress, PhysicPageNum, VirtualAddress, VirtualPageNum};
use sv39_kernel::frame_allocator::{
    frame_alloc, frame_dealloc, FrameDeallocError, StackFrameAllocator,
};
use sv39_kernel::address::{SimpleRange, StepByOne};
use sv39_kernel::page_table::{PTEFlags, PageTable, PageTableEntry, PagingError};

#[test]
fn address_construction_masks_to_width() {
    let pa = PhysicAddress::from(0xffff_ffff_ffff_ffffu64);
    assert_eq!(pa.0, 0x00ff_ffff_ffff_ffff);
    let va = VirtualAddress::from(0xffff_ffff_ffff_ffffu64);
    assert_eq!(va.0, 0x7f_ffff_ffff);
    let ppn = PhysicPageNum::from(0xffff_ffff_ffff_ffffu64);
    assert_eq!(ppn.0, 0xfff_ffff_ffff);
    let vpn = VirtualPageNum::from(0xffff_ffff_ffff_ffffu64);
    assert_eq!(vpn.0, 0x7ff_ffff);
    // A value below the width bound survives the round trip unchanged.
    let pa2 = PhysicAddress::from(0x8020_1234u64);
    assert_eq!(pa2.0, 0x8020_1234);
}

#[test]
fn floor_and_ceil_agree_on_aligned_addresses() {
    let pa = PhysicAddress(0x8020_0000);
    assert!(pa.aligned());
    assert_eq!(pa.floor().0, 0x80200);
    assert_eq!(pa.ceil().0, 0x80200);
    let pa = PhysicAddress(0x8020_0001);
    assert!(!pa.aligned());
    assert_eq!(pa.floor().0, 0x80200);
    assert_eq!(pa.ceil().0, 0x80201);
    let va = VirtualAddress(0x1_2000);
    assert_eq!(va.floor().0, va.ceil().0);
    assert_eq!(va.page_offset(), 0);
}

#[test]
fn vpn_decomposes_into_three_nine_bit_indices() {
    let vpn = VirtualPageNum(0x7ff_ffff);
    assert_eq!(vpn.indexes(), [511, 511, 511]);
    let vpn = VirtualPageNum((3 << 18) | (5 << 9) | 7);
    assert_eq!(vpn.indexes(), [3, 5, 7]);
}

#[test]
fn allocator_three_allocs_then_exhaustion_then_lifo_reuse() {
    // A pool of three issuable frames: three allocations come back in
    // increasing order, a fourth fails, and a freed frame is reused first.
    let mut a = StackFrameAllocator::new();
    a.init(PhysicPageNum(0), PhysicPageNum(3));
    let p0 = a.allocate().unwrap();
    let p1 = a.allocate().unwrap();
    let p2 = a.allocate().unwrap();
    assert!(p0.0 < p1.0 && p1.0 < p2.0);
    assert!(a.allocate().is_none());
    assert!(a.dealloc(p0).is_ok());
    let p3 = a.allocate().unwrap();
    assert_eq!(p3.0, p0.0);
}

#[test]
fn allocator_rejects_double_free_and_unissued_frame() {
    let mut a = StackFrameAllocator::new();
    a.init(PhysicPageNum(10), PhysicPageNum(20));
    let p = a.allocate().unwrap();
    assert_eq!(a.dealloc(p), Ok(()));
    assert_eq!(a.dealloc(p), Err(FrameDeallocError::DoubleFree));
    assert_eq!(
        a.dealloc(PhysicPageNum(19)),
        Err(FrameDeallocError::NotAllocated)
    );
    assert_eq!(
        frame_dealloc(&mut a, PhysicPageNum(19)),
        Err(FrameDeallocError::NotAllocated)
    );
}

#[test]
fn fresh_frames_are_zero_filled_and_never_repeat_while_live() {
    let mut a = StackFrameAllocator::new();
    a.init(PhysicPageNum(0), PhysicPageNum(8));
    let t0 = frame_alloc(&mut a).unwrap();
    let t1 = frame_alloc(&mut a).unwrap();
    assert_ne!(t0.ppn().0, t1.ppn().0);
    for i in [0usize, 1, 17, 4095] {
        assert_eq!(t0.read_byte(i), 0);
        assert_eq!(t1.read_byte(i), 0);
    }
}

#[test]
fn map_then_translate_returns_entry_with_exact_ppn_and_flags() {
    let mut a = StackFrameAllocator::new();
    a.init(PhysicPageNum(0x100), PhysicPageNum(0x200));
    let mut pt = PageTable::new(&mut a).unwrap();
    let vpn = VirtualPageNum(0x12345);
    let ppn = PhysicPageNum(0x678);
    let flags = PTEFlags::new(0x02 | 0x04);
    assert_eq!(pt.map(&mut a, vpn, ppn, flags), Ok(()));
    let pte = pt.translate(vpn).unwrap();
    assert!(pte.is_valid());
    assert_eq!(pte.ppn().0, 0x678);
    assert_eq!(pte.flags().bits, 0x02 | 0x04 | 0x01);
    // A neighbouring page is untouched.
    let other = pt.translate(VirtualPageNum(0x12346));
    assert!(other.is_none() || !other.unwrap().is_valid());
}

#[test]
fn unmap_makes_translate_report_absence() {
    let mut a = StackFrameAllocator::new();
    a.init(PhysicPageNum(0x100), PhysicPageNum(0x200));
    let mut pt = PageTable::new(&mut a).unwrap();
    let vpn = VirtualPageNum(0x54321);
    assert_eq!(pt.map(&mut a, vpn, PhysicPageNum(0x9ab), PTEFlags::new(0x02)), Ok(()));
    assert!(pt.translate(vpn).unwrap().is_valid());
    assert_eq!(pt.unmap(vpn), Ok(()));
    let after = pt.translate(vpn);
    assert!(after.is_none() || !after.unwrap().is_valid());
}

#[test]
fn mapping_a_mapped_page_and_unmapping_an_unmapped_page_are_rejected() {
    let mut a = StackFrameAllocator::new();
    a.init(PhysicPageNum(0x100), PhysicPageNum(0x200));
    let mut pt = PageTable::new(&mut a).unwrap();
    let vpn = VirtualPageNum(0x100);
    assert_eq!(pt.map(&mut a, vpn, PhysicPageNum(0x11), PTEFlags::new(0x02)), Ok(()));
    assert_eq!(
        pt.map(&mut a, vpn, PhysicPageNum(0x12), PTEFlags::new(0x02)),
        Err(PagingError::AlreadyMapped)
    );
    assert_eq!(pt.unmap(VirtualPageNum(0x101)), Err(PagingError::NotMapped));
    assert_eq!(pt.unmap(vpn), Ok(()));
    assert_eq!(pt.unmap(vpn), Err(PagingError::NotMapped));
}

#[test]
fn map_fails_on_frame_exhaustion() {
    let mut a = StackFrameAllocator::new();
    a.init(PhysicPageNum(0), PhysicPageNum(1));
    let mut pt = PageTable::new(&mut a).unwrap();
    // The pool is empty now: mapping needs fresh table nodes and fails.
    assert_eq!(
        pt.map(&mut a, VirtualPageNum(5), PhysicPageNum(7), PTEFlags::new(0x02)),
        Err(PagingError::FrameExhausted)
    );
}

#[test]
fn token_packs_mode_and_root_page_number() {
    let mut a = StackFrameAllocator::new();
    a.init(PhysicPageNum(0x80), PhysicPageNum(0x90));
    let mut pt = PageTable::new(&mut a).unwrap();
    let token = pt.token();
    assert_eq!(token >> 60, 8);
    assert_eq!(token % (1 << 44), 0x80);
    pt.map(&mut a, VirtualPageNum(0x321), PhysicPageNum(0x55), PTEFlags::new(0x06)).unwrap();
    // A view rebuilt from the table's own token translates as it does.
    let view = PageTable::from_token(token, &pt);
    let pte = view.translate(VirtualPageNum(0x321)).unwrap();
    assert_eq!(pte.bits, pt.translate(VirtualPageNum(0x321)).unwrap().bits);
    assert_eq!(pte.ppn().0, 0x55);
    assert!(view.translate(VirtualPageNum(0x322)).is_none()
        || !view.translate(VirtualPageNum(0x322)).unwrap().is_valid());
    // A token naming a different root translates nothing.
    let other = PageTable::from_token(token + 1, &pt);
    let gone = other.translate(VirtualPageNum(0x321));
    assert!(gone.is_none() || !gone.unwrap().is_valid());
}

#[test]
fn vpn_range_iterates_half_open() {
    let r = SimpleRange::new(VirtualPageNum(3), VirtualPageNum(6));
    assert_eq!(r.get_start().0, 3);
    assert_eq!(r.get_end().0, 6);
    let mut it = r.into_iter();
    let mut got = Vec::new();
    while let Some(v) = it.next() {
        got.push(v.0);
    }
    assert_eq!(got, vec![3, 4, 5]);
    let mut v = VirtualPageNum(9);
    v.step();
    assert_eq!(v.0, 10);
}

#[test]
fn pte_encoding_round_trips() {
    let pte = PageTableEntry::new(PhysicPageNum(0xabc), PTEFlags::new(0x0e));
    assert_eq!(pte.ppn().0, 0xabc);
    assert_eq!(pte.flags().bits, 0x0e);
    assert!(!pte.is_valid());
    let valid = PageTableEntry::new(PhysicPageNum(0xabc), PTEFlags::new(0x0e).with_valid());
    assert!(valid.is_valid());
    assert_eq!(valid.flags().bits, 0x0f);
    assert!(!PageTableEntry::empty().is_valid());
    assert_eq!(PageTableEntry::empty().bits, 0);
}
