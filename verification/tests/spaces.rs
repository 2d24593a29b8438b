//! Memory sets: areas, the kernel space, and ELF-built user spaces.
use sv39_kernel::address::{PhysicPageNum, VirtualAddress, VirtualPageNum};
use sv39_kernel::config::{MEMORY_END, PAGE_SIZE, TRAMPOLINE, TRAP_CONTEXT, VPN_LIMIT};
use sv39_kernel::elf::{parse_elf, ElfError};
use sv39_kernel::frame_allocator::StackFrameAllocator;
use sv39_kernel::address::PhysicAddress;
use sv39_kernel::memory_set::{init, KernelLayout, MapArea, MapPermission, MapType, MemorySet};
use sv39_kernel::page_table::PageTable;

fn pool() -> StackFrameAllocator {
    let mut a = StackFrameAllocator::new();
    a.init(PhysicPageNum(0x1000), PhysicPageNum(0x2000));
    a
}

fn put_u16(v: &mut [u8], off: usize, x: u16) {
    v[off] = (x & 0xff) as u8;
    v[off + 1] = (x >> 8) as u8;
}

fn put_u32(v: &mut [u8], off: usize, x: u32) {
    for i in 0..4 {
        v[off + i] = ((x >> (8 * i)) & 0xff) as u8;
    }
}

fn put_u64(v: &mut [u8], off: usize, x: u64) {
    for i in 0..8 {
        v[off + i] = ((x >> (8 * i)) & 0xff) as u8;
    }
}

/// A well-formed image with one R+X text segment and one R+W data segment.
fn two_segment_elf() -> Vec<u8> {
    let mut v = vec![0u8; 0x2000];
    v[0] = 0x7f;
    v[1] = 0x45;
    v[2] = 0x4c;
    v[3] = 0x46;
    put_u64(&mut v, 24, 0x10000); // entry point
    put_u64(&mut v, 32, 64); // program-header table offset
    put_u16(&mut v, 54, 56); // entry size
    put_u16(&mut v, 56, 2); // entry count
    // text: R+X, two pages, one page of file bytes at 0x200
    let ph = 64;
    put_u32(&mut v, ph, 1); // loadable
    put_u32(&mut v, ph + 4, 1 | 4); // X | R
    put_u64(&mut v, ph + 8, 0x200); // file offset
    put_u64(&mut v, ph + 16, 0x10000); // vaddr
    put_u64(&mut v, ph + 32, 0x1000); // file size
    put_u64(&mut v, ph + 40, 0x2000); // mem size
    // data: R+W, one page, 0x100 file bytes at 0x1300
    let ph = 64 + 56;
    put_u32(&mut v, ph, 1);
    put_u32(&mut v, ph + 4, 2 | 4); // W | R
    put_u64(&mut v, ph + 8, 0x1300);
    put_u64(&mut v, ph + 16, 0x12000);
    put_u64(&mut v, ph + 32, 0x100);
    put_u64(&mut v, ph + 40, 0x1000);
    // Recognizable payload bytes.
    for i in 0..0x1000 {
        v[0x200 + i] = (i % 251) as u8;
    }
    for i in 0..0x100 {
        v[0x1300 + i] = 0xa5;
    }
    v
}

#[test]
fn parse_elf_reads_entry_and_loadable_segments() {
    let img = two_segment_elf();
    let info = parse_elf(&img).unwrap();
    assert_eq!(info.entry, 0x10000);
    assert_eq!(info.segs.len(), 2);
    assert_eq!(info.segs[0].vaddr, 0x10000);
    assert_eq!(info.segs[0].mem_size, 0x2000);
    assert_eq!(info.segs[0].file_size, 0x1000);
    assert_eq!(info.segs[0].flags, 5);
    assert_eq!(info.segs[1].vaddr, 0x12000);
    assert_eq!(info.segs[1].flags, 6);
}

#[test]
fn parse_elf_rejects_bad_magic_and_truncated_tables() {
    assert!(matches!(parse_elf(&[]), Err(ElfError::InvalidMagic)));
    let mut img = two_segment_elf();
    img[1] = 0x00;
    assert!(matches!(parse_elf(&img), Err(ElfError::InvalidMagic)));
    let mut img = two_segment_elf();
    put_u64(&mut img, 32, 0x3000); // table past the end of the file
    assert!(matches!(parse_elf(&img), Err(ElfError::Truncated)));
}

#[test]
fn from_elf_builds_segments_guard_stack_and_trap_context() {
    let mut a = pool();
    let img = two_segment_elf();
    let tramp = PhysicPageNum(0x777);
    let (ms, ustack_top, entry) = MemorySet::from_elf(&mut a, &img, tramp).unwrap();
    assert_eq!(entry, 0x10000);

    // Walk the table: text pages carry U|R|X|V.
    for vpn in [0x10u64, 0x11] {
        let pte = ms.translate(VirtualPageNum(vpn)).unwrap();
        assert!(pte.is_valid());
        assert_eq!(pte.flags().bits, 0x10 | 0x02 | 0x08 | 0x01);
    }
    // The data page carries U|R|W|V.
    let pte = ms.translate(VirtualPageNum(0x12)).unwrap();
    assert!(pte.is_valid());
    assert_eq!(pte.flags().bits, 0x10 | 0x02 | 0x04 | 0x01);

    // One guard page above the highest mapped page stays unmapped.
    let guard = ms.translate(VirtualPageNum(0x13));
    assert!(guard.is_none() || !guard.unwrap().is_valid());

    // The two user-stack pages sit above the guard page, R+W+U.
    for vpn in [0x14u64, 0x15] {
        let pte = ms.translate(VirtualPageNum(vpn)).unwrap();
        assert!(pte.is_valid());
        assert_eq!(pte.flags().bits, 0x10 | 0x02 | 0x04 | 0x01);
    }
    assert_eq!(ustack_top, 0x16 * PAGE_SIZE);

    // The trap-context page sits below the trampoline, kernel-only R+W.
    let trap_vpn = TRAP_CONTEXT / PAGE_SIZE % VPN_LIMIT;
    assert_eq!(trap_vpn, VPN_LIMIT - 2);
    let pte = ms.translate(VirtualPageNum(trap_vpn)).unwrap();
    assert!(pte.is_valid());
    assert_eq!(pte.flags().bits, 0x02 | 0x04 | 0x01);

    // The trampoline page is mapped R+X onto the shared code frame.
    let tramp_vpn = TRAMPOLINE / PAGE_SIZE % VPN_LIMIT;
    assert_eq!(tramp_vpn, VPN_LIMIT - 1);
    let pte = ms.translate(VirtualPageNum(tramp_vpn)).unwrap();
    assert!(pte.is_valid());
    assert_eq!(pte.ppn().0, 0x777);
    assert_eq!(pte.flags().bits, 0x02 | 0x08 | 0x01);

    // One recorded area per loadable segment, plus stack and trap context.
    assert_eq!(ms.area_count(), 4);
}

#[test]
fn from_elf_rejects_a_broken_image() {
    let mut a = pool();
    let tramp = PhysicPageNum(0x777);
    assert!(matches!(
        MemorySet::from_elf(&mut a, &[0u8; 8], tramp),
        Err(ElfError::InvalidMagic)
    ));
    // file_size > mem_size is a fatal load-time error.
    let mut img = two_segment_elf();
    put_u64(&mut img, 64 + 32, 0x3000);
    assert!(MemorySet::from_elf(&mut a, &img, tramp).is_err());
}

#[test]
fn copy_data_fills_frames_page_by_page_and_leaves_zero_tail() {
    let mut a = pool();
    let mut pt = PageTable::new(&mut a).unwrap();
    let mut area = MapArea::new(
        VirtualAddress(0x4000),
        VirtualAddress(0x6000),
        MapType::Framed,
        MapPermission::new(true, true, false, false),
    );
    area.map(&mut pt, &mut a).unwrap();
    assert_eq!(area.frame_count(), 2);
    let data: Vec<u8> = (0..0x1080).map(|i| (i % 199) as u8 + 1).collect();
    area.copy_data(&data);
    // First page holds the first 4096 bytes.
    assert_eq!(area.read_frame_byte(0, 0), 1);
    assert_eq!(area.read_frame_byte(0, 4095), (4095 % 199) as u8 + 1);
    // Second page holds the 0x80-byte tail, then zero fill.
    assert_eq!(area.read_frame_byte(1, 0), (4096 % 199) as u8 + 1);
    assert_eq!(area.read_frame_byte(1, 0x7f), (0x107f % 199) as u8 + 1);
    assert_eq!(area.read_frame_byte(1, 0x80), 0);
    assert_eq!(area.read_frame_byte(1, 4095), 0);
}

#[test]
fn unmapping_an_area_page_frees_its_frame_for_reuse() {
    let mut a = StackFrameAllocator::new();
    a.init(PhysicPageNum(0x10), PhysicPageNum(0x30));
    let mut pt = PageTable::new(&mut a).unwrap();
    let mut area = MapArea::new(
        VirtualAddress(0x4000),
        VirtualAddress(0x5000),
        MapType::Framed,
        MapPermission::new(true, false, false, false),
    );
    area.map(&mut pt, &mut a).unwrap();
    let frame_ppn = pt.translate(VirtualPageNum(4)).unwrap().ppn();
    assert_eq!(area.unmap_one(&mut pt, &mut a, VirtualPageNum(4)), Ok(()));
    let gone = pt.translate(VirtualPageNum(4));
    assert!(gone.is_none() || !gone.unwrap().is_valid());
    // The recycled frame is the next one handed out.
    assert_eq!(a.allocate().unwrap(), frame_ppn);
}

#[test]
fn new_kernel_identity_maps_sections_with_their_permissions() {
    let mut a = StackFrameAllocator::new();
    a.init(PhysicPageNum(0x80800), PhysicPageNum(0x80900));
    let layout = KernelLayout {
        stext: 0x8020_0000,
        etext: 0x8020_3000,
        srodata: 0x8020_3000,
        erodata: 0x8020_5000,
        sdata: 0x8020_5000,
        edata: 0x8020_6000,
        sbss_with_stack: 0x8020_6000,
        ebss: 0x8020_8000,
        ekernel: 0x8020_8000,
        strampoline: 0x8020_0000,
    };
    let ms = MemorySet::new_kernel(&mut a, &layout).unwrap();
    // text: identical, R+X.
    let pte = ms.translate(VirtualPageNum(0x80200)).unwrap();
    assert!(pte.is_valid());
    assert_eq!(pte.ppn().0, 0x80200);
    assert_eq!(pte.flags().bits, 0x02 | 0x08 | 0x01);
    // rodata: R only.
    let pte = ms.translate(VirtualPageNum(0x80203)).unwrap();
    assert_eq!(pte.flags().bits, 0x02 | 0x01);
    // data and bss: R+W.
    let pte = ms.translate(VirtualPageNum(0x80205)).unwrap();
    assert_eq!(pte.flags().bits, 0x02 | 0x04 | 0x01);
    let pte = ms.translate(VirtualPageNum(0x80206)).unwrap();
    assert_eq!(pte.flags().bits, 0x02 | 0x04 | 0x01);
    // The rest of physical memory is reachable R+W.
    let pte = ms.translate(VirtualPageNum(0x80208)).unwrap();
    assert_eq!(pte.ppn().0, 0x80208);
    assert_eq!(pte.flags().bits, 0x02 | 0x04 | 0x01);
    let last = MEMORY_END / PAGE_SIZE - 1;
    let pte = ms.translate(VirtualPageNum(last)).unwrap();
    assert_eq!(pte.ppn().0, last);
    // Below the kernel image nothing is mapped.
    let low = ms.translate(VirtualPageNum(0x801ff));
    assert!(low.is_none() || !low.unwrap().is_valid());
    // The trampoline is shared at the top page.
    let pte = ms.translate(VirtualPageNum(VPN_LIMIT - 1)).unwrap();
    assert_eq!(pte.ppn().0, 0x80200);
    assert_eq!(pte.flags().bits, 0x02 | 0x08 | 0x01);
    // The exported token selects SV39.
    assert_eq!(ms.token() >> 60, 8);
}

#[test]
fn insert_framed_area_maps_the_requested_range() {
    let mut a = pool();
    let mut ms = MemorySet::new_bare(&mut a).unwrap();
    let perm = MapPermission::new(true, true, false, true);
    ms.insert_framed_area(&mut a, VirtualAddress(0x7000), VirtualAddress(0x9000), perm)
        .unwrap();
    for vpn in [7u64, 8] {
        let pte = ms.translate(VirtualPageNum(vpn)).unwrap();
        assert!(pte.is_valid());
        assert_eq!(pte.flags().bits, 0x10 | 0x02 | 0x04 | 0x01);
    }
    let outside = ms.translate(VirtualPageNum(9));
    assert!(outside.is_none() || !outside.unwrap().is_valid());
}


#[test]
fn init_hands_out_free_memory_and_builds_the_kernel_space() {
    let mut a = StackFrameAllocator::new();
    let layout = KernelLayout {
        stext: 0x8020_0000,
        etext: 0x8020_2000,
        srodata: 0x8020_2000,
        erodata: 0x8020_3000,
        sdata: 0x8020_3000,
        edata: 0x8020_4000,
        sbss_with_stack: 0x8020_4000,
        ebss: 0x8020_5000,
        ekernel: 0x8020_5000,
        strampoline: 0x8020_0000,
    };
    let ms = init(&mut a, PhysicAddress(0x8020_5000), &layout).unwrap();
    // Kernel text is identity mapped; node frames came from above the image.
    let pte = ms.translate(VirtualPageNum(0x80200)).unwrap();
    assert_eq!(pte.ppn().0, 0x80200);
    let pte = ms.translate(VirtualPageNum(VPN_LIMIT - 1)).unwrap();
    assert_eq!(pte.ppn().0, 0x80200);
}

#[test]
fn unmapping_a_whole_area_clears_translations_and_frees_frames() {
    let mut a = StackFrameAllocator::new();
    a.init(PhysicPageNum(0x10), PhysicPageNum(0x40));
    let mut pt = PageTable::new(&mut a).unwrap();
    let mut area = MapArea::new(
        VirtualAddress(0x8000),
        VirtualAddress(0xa000),
        MapType::Framed,
        MapPermission::new(true, true, false, false),
    );
    area.map(&mut pt, &mut a).unwrap();
    assert_eq!(area.frame_count(), 2);
    assert_eq!(area.unmap(&mut pt, &mut a), Ok(()));
    assert_eq!(area.frame_count(), 0);
    for vpn in [8u64, 9] {
        let gone = pt.translate(VirtualPageNum(vpn));
        assert!(gone.is_none() || !gone.unwrap().is_valid());
    }
    // Unmapping again is the fatal path: the pages are no longer mapped.
    assert_eq!(
        area.unmap(&mut pt, &mut a),
        Err(sv39_kernel::page_table::PagingError::NotMapped)
    );
}
