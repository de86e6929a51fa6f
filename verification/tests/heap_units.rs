use blog_os::addr::{Frame, PhysAddr, VirtAddr};
use blog_os::containers::{BoxedWord, RcBuffer, WordBuffer};
use blog_os::frames::BootInfoFrameAllocator;
use blog_os::heap::{init_heap, BumpAllocator, HeapError, HEAP_SIZE, HEAP_START};
use blog_os::memmap::{MemoryRegion, RegionKind};
use blog_os::paging::{MapError, Mapper};
use blog_os::phys::PhysMemory;

const L4_BASE: u64 = 0x1000;

fn machine(usable_frames: u64) -> (PhysMemory, BootInfoFrameAllocator, Mapper) {
    let mut mem = PhysMemory::new();
    mem.insert_zeroed_frame(L4_BASE);
    let map = vec![
        MemoryRegion { base: 0x0, length: 0x10000, kind: RegionKind::InUse },
        MemoryRegion { base: 0x100000, length: usable_frames * 4096, kind: RegionKind::Usable },
    ];
    let alloc = BootInfoFrameAllocator::init(map);
    let mapper = Mapper::new(VirtAddr::new(0), Frame { base: PhysAddr::new(L4_BASE) });
    (mem, alloc, mapper)
}

#[test]
fn init_heap_maps_every_heap_page() {
    let (mut mem, mut alloc, mapper) = machine(64);
    let h = init_heap(&mapper, &mut mem, &mut alloc).expect("heap init failed");
    let mut v = HEAP_START;
    while v < HEAP_START + HEAP_SIZE {
        assert!(mapper.translate_addr(&mem, VirtAddr::new(v)).is_some());
        v += 4096;
    }
    drop(h);
}

#[test]
fn init_heap_surfaces_exhaustion() {
    // with no usable frame at all, the very first page has no frame
    let (mut mem, mut alloc, mapper) = machine(0);
    match init_heap(&mapper, &mut mem, &mut alloc) {
        Err(HeapError::Exhausted) => {}
        _ => panic!("expected frame exhaustion"),
    }
    // with three frames the first page gets one, and the walk runs out
    // while creating intermediate tables
    let (mut mem, mut alloc, mapper) = machine(3);
    match init_heap(&mapper, &mut mem, &mut alloc) {
        Err(HeapError::Mapping(MapError::FrameAllocationFailed)) => {}
        _ => panic!("expected a wrapped mapping failure"),
    }
}

#[test]
fn bump_allocator_exact_addresses() {
    let mut h = BumpAllocator::new(0x1000, 0x2000);
    assert_eq!(h.allocate(8, 8), Some(0x1000));
    assert_eq!(h.allocate(1, 1), Some(0x1008));
    // alignment pads to the next multiple
    assert_eq!(h.allocate(16, 16), Some(0x1010));
    assert_eq!(h.allocate(0xfe8, 8), None);
    // free is a no-op: the span is not reused
    h.free(0x1000, 8, 8);
    assert_eq!(h.allocate(0x10, 8), Some(0x1020));
}

#[test]
fn bump_allocator_exhausts_at_the_end() {
    let mut h = BumpAllocator::new(0x1000, 0x1010);
    assert_eq!(h.allocate(16, 8), Some(0x1000));
    assert_eq!(h.allocate(1, 1), None);
}

#[test]
fn boxed_word_holds_its_value() {
    let mut h = BumpAllocator::new(HEAP_START, HEAP_START + HEAP_SIZE);
    let b = BoxedWord::new(&mut h, 41).expect("allocation failed");
    assert_eq!(b.get(), 41);
    assert!(HEAP_START <= b.addr() && b.addr() + 8 <= HEAP_START + HEAP_SIZE);
}

#[test]
fn word_buffer_appends_500_in_order() {
    let mut h = BumpAllocator::new(HEAP_START, HEAP_START + HEAP_SIZE);
    let mut buf = WordBuffer::new(&mut h).expect("allocation failed");
    for i in 0..500u64 {
        assert!(buf.push(&mut h, i));
    }
    assert_eq!(buf.len(), 500);
    for i in 0..500usize {
        assert_eq!(buf.get(i), i as u64);
    }
    assert!(HEAP_START <= buf.addr() && buf.addr() < HEAP_START + HEAP_SIZE);
}

#[test]
fn word_buffer_fails_when_heap_is_tiny() {
    let mut h = BumpAllocator::new(0x1000, 0x1040);
    let mut buf = WordBuffer::new(&mut h).expect("first span fits");
    for i in 0..4u64 {
        assert!(buf.push(&mut h, i));
    }
    // growing to 8 words needs 64 bytes that the range no longer has
    assert!(!buf.push(&mut h, 4));
    assert_eq!(buf.len(), 4);
}

#[test]
fn rc_buffer_counts_and_releases() {
    let mut h = BumpAllocator::new(HEAP_START, HEAP_START + HEAP_SIZE);
    let mut rc = RcBuffer::new(&mut h, vec![1, 2, 3]).expect("allocation failed");
    assert_eq!(rc.strong_count(), 1);
    assert_eq!(rc.get(0), 1);
    assert_eq!(rc.get(1), 2);
    assert_eq!(rc.get(2), 3);
    rc.clone_handle();
    assert_eq!(rc.strong_count(), 2);
    assert!(!rc.drop_handle(&mut h));
    assert_eq!(rc.strong_count(), 1);
    assert!(rc.drop_handle(&mut h));
    assert_eq!(rc.strong_count(), 0);
}
