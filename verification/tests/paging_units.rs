use blog_os::addr::{phys_to_virt, Frame, Page, PhysAddr, VirtAddr};
use blog_os::frames::{BootInfoFrameAllocator, FrameAllocError};
use blog_os::memmap::{check_memory_map, MemoryRegion, RegionKind};
use blog_os::paging::{AccessError, MapError, Mapper};
use blog_os::phys::PhysMemory;
use blog_os::pte::{FLAG_HUGE, FLAG_PRESENT, FLAG_WRITABLE};

const L4_BASE: u64 = 0x1000;

fn machine(usable_frames: u64) -> (PhysMemory, BootInfoFrameAllocator, Mapper) {
    let mut mem = PhysMemory::new();
    mem.insert_zeroed_frame(L4_BASE);
    let map = vec![
        MemoryRegion { base: 0x0, length: 0x10000, kind: RegionKind::InUse },
        MemoryRegion { base: 0x100000, length: usable_frames * 4096, kind: RegionKind::Usable },
    ];
    let alloc = BootInfoFrameAllocator::init(map);
    let mapper = Mapper::new(VirtAddr::new(0), Frame { base: PhysAddr::new(L4_BASE) });
    (mem, alloc, mapper)
}

#[test]
fn translate_of_fresh_tables_is_not_mapped() {
    let (mem, _alloc, mapper) = machine(8);
    assert!(mapper.translate_addr(&mem, VirtAddr::new(0)).is_none());
    assert!(mapper.translate_addr(&mem, VirtAddr::new(0xdead_beaf_000)).is_none());
}

#[test]
fn map_then_translate_returns_the_frame() {
    let (mut mem, mut alloc, mapper) = machine(8);
    let page = Page::containing_address(VirtAddr::new(0x4000_0000_0000));
    let frame = alloc.allocate().unwrap();
    mem.insert_zeroed_frame(frame.base.u);
    mapper
        .map(page, frame, FLAG_WRITABLE, &mut mem, &mut alloc)
        .expect("map failed");
    let p = mapper
        .translate_addr(&mem, VirtAddr::new(0x4000_0000_0000))
        .expect("page must translate");
    assert_eq!(p.u, frame.base.u);
    // offsets inside the page translate to offsets inside the frame
    let q = mapper
        .translate_addr(&mem, VirtAddr::new(0x4000_0000_0a08))
        .expect("offset must translate");
    assert_eq!(q.u, frame.base.u + 0xa08);
}

#[test]
fn translate_is_a_pure_function_of_state() {
    let (mut mem, mut alloc, mapper) = machine(8);
    let page = Page::containing_address(VirtAddr::new(0x7000_0000));
    let frame = alloc.allocate().unwrap();
    mem.insert_zeroed_frame(frame.base.u);
    mapper
        .map(page, frame, FLAG_WRITABLE, &mut mem, &mut alloc)
        .expect("map failed");
    let a = mapper.translate_addr(&mem, VirtAddr::new(0x7000_0123));
    let b = mapper.translate_addr(&mem, VirtAddr::new(0x7000_0123));
    assert_eq!(a, b);
    let c = mapper.translate_addr(&mem, VirtAddr::new(0x9000_0000));
    let d = mapper.translate_addr(&mem, VirtAddr::new(0x9000_0000));
    assert_eq!(c, d);
    assert!(c.is_none());
}

#[test]
fn s5_remap_reports_already_mapped_and_keeps_the_mapping() {
    let (mut mem, mut alloc, mapper) = machine(8);
    let page = Page::containing_address(VirtAddr::new(0xdead_beaf_000));
    let first = alloc.allocate().unwrap();
    mem.insert_zeroed_frame(first.base.u);
    mapper
        .map(page, first, FLAG_WRITABLE, &mut mem, &mut alloc)
        .expect("first map failed");
    let second = alloc.allocate().unwrap();
    mem.insert_zeroed_frame(second.base.u);
    let err = mapper
        .map(page, second, FLAG_WRITABLE, &mut mem, &mut alloc)
        .expect_err("remap must fail");
    assert_eq!(err, MapError::AlreadyMapped(first));
    // the prior mapping is unchanged
    let p = mapper
        .translate_addr(&mem, VirtAddr::new(0xdead_beaf_000))
        .expect("page must still translate");
    assert_eq!(p.u, first.base.u);
}

#[test]
fn map_under_a_huge_parent_fails() {
    let (mut mem, mut alloc, mapper) = machine(8);
    // hand-build: L4 slot 0 -> a table whose slot 0 is a 1 GiB huge entry
    let l3 = 0x2000u64;
    mem.insert_zeroed_frame(l3);
    mem.write_word(L4_BASE, 0, l3 | FLAG_PRESENT | FLAG_WRITABLE);
    mem.write_word(l3, 0, 0x4000_0000u64 | FLAG_PRESENT | FLAG_HUGE);
    let page = Page::containing_address(VirtAddr::new(0x1000));
    let frame = alloc.allocate().unwrap();
    mem.insert_zeroed_frame(frame.base.u);
    let err = mapper
        .map(page, frame, FLAG_WRITABLE, &mut mem, &mut alloc)
        .expect_err("mapping under a huge parent must fail");
    assert_eq!(err, MapError::ParentHuge);
}

#[test]
fn huge_entries_translate_with_folded_offsets() {
    let (mut mem, _alloc, mapper) = machine(8);
    let l3 = 0x2000u64;
    let l2 = 0x3000u64;
    mem.insert_zeroed_frame(l3);
    mem.insert_zeroed_frame(l2);
    mem.write_word(L4_BASE, 0, l3 | FLAG_PRESENT | FLAG_WRITABLE);
    // L3 slot 1: a 1 GiB mapping of physical 0x4000_0000
    mem.write_word(l3, 1, 0x4000_0000u64 | FLAG_PRESENT | FLAG_HUGE);
    // L3 slot 0 -> L2 table; L2 slot 2: a 2 MiB mapping of physical 0x20_0000
    mem.write_word(l3, 0, l2 | FLAG_PRESENT | FLAG_WRITABLE);
    mem.write_word(l2, 2, 0x20_0000u64 | FLAG_PRESENT | FLAG_HUGE);
    // 1 GiB: virtual 0x4000_0000 + 0x123456 hits 0x4000_0000 + 0x123456
    let p = mapper
        .translate_addr(&mem, VirtAddr::new(0x4012_3456))
        .expect("huge 1 GiB entry must translate");
    assert_eq!(p.u, 0x4012_3456);
    // 2 MiB: virtual 0x40_0000 + 0x1abc maps to 0x20_0000 + 0x1abc
    let q = mapper
        .translate_addr(&mem, VirtAddr::new(0x40_1abc))
        .expect("huge 2 MiB entry must translate");
    assert_eq!(q.u, 0x20_1abc);
}

#[test]
fn window_write_and_read_through_mapping() {
    let (mut mem, mut alloc, mapper) = machine(8);
    let page = Page::containing_address(VirtAddr::new(0x5000_0000));
    let frame = alloc.allocate().unwrap();
    mem.insert_zeroed_frame(frame.base.u);
    mapper
        .map(page, frame, FLAG_WRITABLE, &mut mem, &mut alloc)
        .expect("map failed");
    let at = VirtAddr::new(0x5000_0000 + 64 * 8);
    mapper
        .write_word_at(&mut mem, at, 0xabcd_ef01_2345_6789)
        .expect("write through mapping failed");
    let back = mapper.read_word_at(&mem, at).expect("read through mapping failed");
    assert_eq!(back, 0xabcd_ef01_2345_6789);
    // an unmapped address is refused
    assert!(mapper.read_word_at(&mem, VirtAddr::new(0x6000_0000)).is_err());
}

#[test]
fn s6_allocator_exhausts_without_duplicates() {
    let (_mem, mut alloc, _mapper) = machine(3);
    let mut got: Vec<u64> = Vec::new();
    loop {
        match alloc.allocate() {
            Ok(f) => got.push(f.base.u),
            Err(e) => {
                assert_eq!(e, FrameAllocError::Exhausted);
                break;
            }
        }
    }
    assert_eq!(got.len(), 3);
    for i in 0..got.len() {
        // inside the usable region, aligned
        assert!(0x100000 <= got[i] && got[i] + 4096 <= 0x100000 + 3 * 4096);
        assert_eq!(got[i] % 4096, 0);
        for j in 0..i {
            assert_ne!(got[i], got[j]);
        }
    }
    // once exhausted, it stays exhausted
    assert_eq!(alloc.allocate(), Err(FrameAllocError::Exhausted));
}

#[test]
fn allocator_skips_non_usable_regions() {
    let map = vec![
        MemoryRegion { base: 0x0, length: 0x1000, kind: RegionKind::Reserved },
        MemoryRegion { base: 0x1000, length: 0x2000, kind: RegionKind::Usable },
        MemoryRegion { base: 0x3000, length: 0x1000, kind: RegionKind::BootloaderReclaimable },
        MemoryRegion { base: 0x4000, length: 0x1000, kind: RegionKind::Usable },
    ];
    let mut alloc = BootInfoFrameAllocator::init(map);
    assert_eq!(alloc.allocate().unwrap().base.u, 0x1000);
    assert_eq!(alloc.allocate().unwrap().base.u, 0x2000);
    assert_eq!(alloc.allocate().unwrap().base.u, 0x4000);
    assert!(alloc.allocate().is_err());
}

#[test]
fn memory_map_checker_accepts_and_refuses() {
    let good = vec![
        MemoryRegion { base: 0x0, length: 0x1000, kind: RegionKind::InUse },
        MemoryRegion { base: 0x1000, length: 0x1000, kind: RegionKind::Usable },
    ];
    assert!(check_memory_map(&good));
    let overlapping = vec![
        MemoryRegion { base: 0x0, length: 0x2000, kind: RegionKind::InUse },
        MemoryRegion { base: 0x1000, length: 0x1000, kind: RegionKind::Usable },
    ];
    assert!(!check_memory_map(&overlapping));
    let unaligned = vec![MemoryRegion { base: 0x10, length: 0x1000, kind: RegionKind::Usable }];
    assert!(!check_memory_map(&unaligned));
    let unsorted = vec![
        MemoryRegion { base: 0x2000, length: 0x1000, kind: RegionKind::Usable },
        MemoryRegion { base: 0x0, length: 0x1000, kind: RegionKind::Usable },
    ];
    assert!(!check_memory_map(&unsorted));
}

#[test]
fn addresses_pages_and_frames() {
    assert!(VirtAddr::try_new(0x7fff_ffff_ffff).is_some());
    assert!(VirtAddr::try_new(0xffff_8000_0000_0000).is_some());
    assert!(VirtAddr::try_new(0x8000_0000_0000).is_none());
    let page = Page::containing_address(VirtAddr::new(0xdead_beaf_123));
    assert_eq!(page.start_address().u, 0xdead_beaf_000);
    let frame = Frame::containing_address(PhysAddr::new(0x1234_5678));
    assert_eq!(frame.start_address().u, 0x1234_5000);
    let w = phys_to_virt(PhysAddr::new(0x1000), VirtAddr::new(0xffff_8000_0000_0000));
    assert_eq!(w.u, 0xffff_8000_0000_1000);
}

#[test]
fn map_without_frames_reports_allocation_failure() {
    let (mut mem, mut alloc, mapper) = machine(0);
    let page = Page::containing_address(VirtAddr::new(0x7000_0000));
    let frame = Frame { base: PhysAddr::new(0x5000) };
    mem.insert_zeroed_frame(frame.base.u);
    let err = mapper
        .map(page, frame, FLAG_WRITABLE, &mut mem, &mut alloc)
        .expect_err("no frames for intermediate tables");
    assert_eq!(err, MapError::FrameAllocationFailed);
}

#[test]
fn access_errors_name_their_cause() {
    let (mut mem, mut alloc, mapper) = machine(8);
    // nothing mapped yet
    assert_eq!(
        mapper.read_word_at(&mem, VirtAddr::new(0x7000_0000)),
        Err(AccessError::PageNotMapped)
    );
    // a leaf built by hand toward a frame that exists only as an entry:
    // the window has nothing to reach there
    let _ = &mut alloc;
    let l3 = 0x2000u64;
    let l2 = 0x3000u64;
    let l1 = 0x4000u64;
    mem.insert_zeroed_frame(l3);
    mem.insert_zeroed_frame(l2);
    mem.insert_zeroed_frame(l1);
    // 0x7000_0000 splits into indexes (0, 1, 0x180, 0)
    mem.write_word(L4_BASE, 0, l3 | FLAG_PRESENT | FLAG_WRITABLE);
    mem.write_word(l3, 1, l2 | FLAG_PRESENT | FLAG_WRITABLE);
    mem.write_word(l2, 0x180, l1 | FLAG_PRESENT | FLAG_WRITABLE);
    mem.write_word(l1, 0, 0x9_0000u64 | FLAG_PRESENT | FLAG_WRITABLE);
    assert_eq!(
        mapper.read_word_at(&mem, VirtAddr::new(0x7000_0000)),
        Err(AccessError::OutOfWindow)
    );
}
