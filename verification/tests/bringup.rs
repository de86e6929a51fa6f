use blog_os::addr::{Frame, PhysAddr, VirtAddr};
use blog_os::bringup::{bring_up, BootInfo, EXAMPLE_PAGE_ADDR, EXAMPLE_PATTERN};
use blog_os::paging::Mapper;
use blog_os::bringup::trivial_assertion;
use blog_os::heap::{HEAP_SIZE, HEAP_START};
use blog_os::memmap::{MemoryRegion, RegionKind};
use blog_os::phys::PhysMemory;

const L4_BASE: u64 = 0x1000;

/// A machine as the bootloader leaves it: one zeroed level-4 table and a
/// memory map with one in-use region (holding the table) and one usable
/// region of `usable_frames` frames.
fn boot_machine(usable_frames: u64) -> (PhysMemory, BootInfo, Frame) {
    let mut mem = PhysMemory::new();
    mem.insert_zeroed_frame(L4_BASE);
    let memory_map = vec![
        MemoryRegion { base: 0x0, length: 0x10000, kind: RegionKind::InUse },
        MemoryRegion { base: 0x100000, length: usable_frames * 4096, kind: RegionKind::Usable },
    ];
    let boot_info = BootInfo {
        physical_memory_offset: VirtAddr::new(0),
        memory_map,
    };
    (mem, boot_info, Frame { base: PhysAddr::new(L4_BASE) })
}

#[test]
fn s1_mapped_page_write_read_back() {
    let (mut mem, boot_info, l4) = boot_machine(64);
    let report = bring_up(boot_info, l4, &mut mem).expect("bring-up failed");
    assert_eq!(report.example_value, EXAMPLE_PATTERN);
    assert_eq!(report.example_value, 0x_f021_f077_f065_f04e);
}

#[test]
fn s2_boxed_value_on_heap() {
    let (mut mem, boot_info, l4) = boot_machine(64);
    let report = bring_up(boot_info, l4, &mut mem).expect("bring-up failed");
    assert_eq!(report.boxed_value, 41);
    assert!(HEAP_START <= report.boxed_addr);
    assert!(report.boxed_addr + 8 <= HEAP_START + HEAP_SIZE);
}

#[test]
fn s3_growable_buffer_of_500() {
    let (mut mem, boot_info, l4) = boot_machine(64);
    let report = bring_up(boot_info, l4, &mut mem).expect("bring-up failed");
    assert_eq!(report.buffer_len, 500);
    assert_eq!(report.buffer_first, 0);
    assert_eq!(report.buffer_last, 499);
    assert!(HEAP_START <= report.buffer_addr && report.buffer_addr < HEAP_START + HEAP_SIZE);
}

#[test]
fn s4_reference_counts_through_bring_up() {
    let (mut mem, boot_info, l4) = boot_machine(64);
    let report = bring_up(boot_info, l4, &mut mem).expect("bring-up failed");
    assert_eq!(report.strong_after_clone, 2);
    assert_eq!(report.strong_after_drop, 1);
    assert!(report.storage_released);
}

#[test]
fn bring_up_fails_without_frames() {
    let (mut mem, boot_info, l4) = boot_machine(0);
    assert!(bring_up(boot_info, l4, &mut mem).is_err());
}

#[test]
fn bring_up_maps_the_example_page() {
    let (mut mem, boot_info, l4) = boot_machine(64);
    let offset = boot_info.physical_memory_offset;
    bring_up(boot_info, l4, &mut mem).expect("bring-up failed");
    let mapper = Mapper::new(offset, l4);
    let p = mapper
        .translate_addr(&mem, VirtAddr::new(EXAMPLE_PAGE_ADDR))
        .expect("example page must be mapped");
    // the frame is the first usable one: the demonstration mapping is
    // installed before anything else draws from the allocator
    assert_eq!(p.u, 0x100000);
}

#[test]
fn heap_range_is_mapped_after_bring_up() {
    let (mut mem, boot_info, l4) = boot_machine(64);
    let offset = boot_info.physical_memory_offset;
    bring_up(boot_info, l4, &mut mem).expect("bring-up failed");
    let mapper = Mapper::new(offset, l4);
    let mut v = HEAP_START;
    while v < HEAP_START + HEAP_SIZE {
        assert!(mapper.translate_addr(&mem, VirtAddr::new(v)).is_some());
        v += 4096;
    }
    assert!(mapper
        .translate_addr(&mem, VirtAddr::new(HEAP_START + HEAP_SIZE))
        .is_none());
}

#[test]
fn trivial_assertion_holds() {
    assert!(trivial_assertion());
}
