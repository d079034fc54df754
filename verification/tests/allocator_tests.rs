use batch_os::allocator::{
    align_up, header_align, header_size, size_of_with_header, Block, BlockHeader, FreeList, SimpleAllocator,
    HEAP_SIZE,
};

const BASE: usize = 0x1000;

#[test]
fn header_size_matches_layout() {
    assert_eq!(core::mem::size_of::<BlockHeader>(), header_size());
    assert_eq!(core::mem::align_of::<BlockHeader>(), header_align());
}

#[test]
fn align_up_rounds_to_multiple() {
    assert_eq!(align_up(0, 8), 0);
    assert_eq!(align_up(1, 8), 8);
    assert_eq!(align_up(8, 8), 8);
    assert_eq!(align_up(9, 16), 16);
    assert_eq!(align_up(0x1011, 0x1000), 0x2000);
    assert_eq!(align_up(7, 1), 7);
}

#[test]
fn size_of_with_header_adds_header() {
    assert_eq!(size_of_with_header::<u64>(), header_size() + 8);
    assert_eq!(size_of_with_header::<u8>(), header_size() + 1);
    assert_eq!(size_of_with_header::<()>(), header_size());
}

#[test]
fn block_pointer_arithmetic() {
    let b = Block { addr: 0x2000, header: BlockHeader { size: 48, in_use: true } };
    assert_eq!(b.user_ptr(), 0x2010);
    assert_eq!(b.next_block(), 0x2030);
    assert_eq!(BlockHeader::from_user_ptr(0x2010), 0x2000);
}

#[test]
fn free_list_is_first_fit_from_head() {
    let mut l = FreeList::new();
    assert_eq!(l.find_and_remove(0, 1), None);
    l.push_block_node(0x100, 32);
    l.push_block_node(0x200, 64);
    l.push(0x300, &BlockHeader { size: 16, in_use: true });
    // head: 0x300 (16), then 0x200 (64), then 0x100 (32)
    assert_eq!(l.find_and_remove(20, 8), Some((0x200, 64)));
    assert_eq!(l.find_and_remove(20, 8), Some((0x100, 32)));
    assert_eq!(l.find_and_remove(20, 8), None);
    assert_eq!(l.find_and_remove(16, 8), Some((0x300, 16)));
    assert_eq!(l.find_and_remove(0, 1), None);
}

#[test]
fn free_list_skips_misaligned_blocks() {
    let mut l = FreeList::new();
    l.push_block_node(0x1f0, 64); // user data at 0x200
    l.push_block_node(0x100, 64); // user data at 0x110
    assert_eq!(l.find_and_remove(32, 0x100), Some((0x1f0, 64)));
    assert_eq!(l.find_and_remove(32, 0x100), None);
    assert_eq!(l.find_and_remove(32, 16), Some((0x100, 64)));
}

#[test]
fn bump_allocation_is_aligned_and_consecutive() {
    let mut a = SimpleAllocator::new();
    let p = a.allocate(64, 8, BASE);
    assert_eq!(p, BASE + header_size());
    let q = a.allocate(10, 8, BASE);
    assert_eq!(q, p + 64 + header_size());
    // a larger alignment rounds the user pointer up
    let r = a.allocate(1, 64, BASE);
    assert_eq!(r % 64, 0);
    assert_eq!(r, align_up(q + 10 + header_size(), 64));
}

#[test]
fn small_alignment_uses_header_alignment() {
    let mut a = SimpleAllocator::new();
    let p = a.allocate(3, 1, BASE);
    assert_eq!(p, BASE + header_size());
    let q = a.allocate(3, 1, BASE);
    assert_eq!(q, align_up(p + 3 + header_size(), header_align()));
}

#[test]
fn heap_base_is_fixed_by_first_allocation() {
    let mut a = SimpleAllocator::new();
    let p = a.allocate(8, 8, BASE);
    let q = a.allocate(8, 8, 0x9999_0000);
    assert_eq!(p, BASE + header_size());
    assert_eq!(q, p + 8 + header_size());
}

#[test]
fn freed_block_is_reused_when_large_enough() {
    let mut a = SimpleAllocator::new();
    let p = a.allocate(64, 8, BASE);
    let _q = a.allocate(8, 8, BASE);
    a.dealloc(p);
    let r = a.allocate(48, 8, BASE);
    assert_eq!(r, p);
}

#[test]
fn freed_block_needs_room_for_a_header() {
    let mut a = SimpleAllocator::new();
    let p = a.allocate(64, 8, BASE);
    let q = a.allocate(8, 8, BASE);
    a.dealloc(p);
    // 64 bytes were freed, but a request must fit with a header: 49 + 16 > 64
    let r = a.allocate(49, 8, BASE);
    assert_ne!(r, p);
    assert_eq!(r, q + 8 + header_size());
}

#[test]
fn heap_exhaustion_returns_null() {
    let mut a = SimpleAllocator::new();
    let p = a.allocate(HEAP_SIZE - header_size(), 8, BASE);
    assert_eq!(p, BASE + header_size());
    assert_eq!(a.allocate(1, 8, BASE), 0);
    assert_eq!(a.allocate(0, 8, BASE), 0);
}

#[test]
fn heap_too_small_for_request() {
    let mut a = SimpleAllocator::new();
    assert_eq!(a.allocate(HEAP_SIZE, 8, BASE), 0);
    // the heap is placed even though the request failed
    assert_eq!(a.allocate(16, 8, 0x5000), BASE + header_size());
}

#[test]
fn alloc_zeroed_clears_the_allocation() {
    let mut a = SimpleAllocator::new();
    let mut mem = vec![0xAAu8; HEAP_SIZE];
    let p = a.alloc_zeroed(&mut mem, 32, 8, BASE);
    assert_eq!(p, BASE + header_size());
    let off = p - BASE;
    assert!(mem[off..off + 32].iter().all(|&b| b == 0));
    assert_eq!(mem[off - 1], 0xAA);
    assert_eq!(mem[off + 32], 0xAA);
}

#[test]
fn realloc_within_block_keeps_pointer() {
    let mut a = SimpleAllocator::new();
    let mut mem = vec![0u8; HEAP_SIZE];
    let p = a.allocate(64, 8, BASE);
    assert_eq!(a.realloc(&mut mem, p, 64, 8, 32), p);
    assert_eq!(a.realloc(&mut mem, p, 64, 8, 64), p);
}

#[test]
fn realloc_grow_moves_and_copies() {
    let mut a = SimpleAllocator::new();
    let mut mem = vec![0u8; HEAP_SIZE];
    let p = a.allocate(4, 8, BASE);
    let off = p - BASE;
    mem[off..off + 4].copy_from_slice(&[1, 2, 3, 4]);
    let q = a.realloc(&mut mem, p, 4, 8, 100);
    assert_ne!(q, 0);
    assert_ne!(q, p);
    let qo = q - BASE;
    assert_eq!(&mem[qo..qo + 4], &[1, 2, 3, 4]);
}

#[test]
fn realloc_failure_leaves_old_block() {
    let mut a = SimpleAllocator::new();
    let mut mem = vec![7u8; HEAP_SIZE];
    let p = a.allocate(16, 8, BASE);
    let q = a.realloc(&mut mem, p, 16, 8, HEAP_SIZE);
    assert_eq!(q, 0);
    assert!(mem.iter().all(|&b| b == 7));
    // p is still allocated: freeing it and asking again returns it
    a.dealloc(p);
    assert_eq!(a.allocate(0, 8, BASE), p);
}

#[test]
fn reused_block_must_be_aligned() {
    let mut a = SimpleAllocator::new();
    let p = a.allocate(64, 8, BASE);
    assert_eq!(p, BASE + header_size());
    a.dealloc(p);
    // p is not a multiple of 64, so the freed block is passed over
    let r = a.allocate(8, 64, BASE);
    assert_ne!(r, p);
    assert_eq!(r % 64, 0);
    // an aligned request of its size class still reuses it
    let q = a.allocate(8, 8, BASE);
    assert_eq!(q, p);
}

#[test]
fn every_allocation_is_aligned() {
    let mut a = SimpleAllocator::new();
    let mut mem = vec![0u8; HEAP_SIZE];
    for (size, align) in [(1usize, 1usize), (3, 2), (5, 4), (7, 16), (9, 32), (100, 256), (1, 4096)] {
        let r = a.allocate(size, align, BASE);
        assert_ne!(r, 0);
        assert_eq!(r % align, 0);
        let z = a.alloc_zeroed(&mut mem, size, align, BASE);
        assert_eq!(z % align, 0);
    }
    let p = a.allocate(4, 8, BASE);
    let q = a.realloc(&mut mem, p, 4, 128, 200);
    assert_eq!(q % 128, 0);
}

#[test]
fn alloc_from_heap_carves_regardless_of_free_list() {
    let mut a = SimpleAllocator::new();
    let p = a.allocate(64, 8, BASE);
    a.dealloc(p);
    // the free list would serve this request, but carving does not look at it
    let b = a.alloc_from_heap(16, 8, BASE).unwrap();
    assert_eq!(b + header_size(), p + 64 + header_size());
}

#[test]
fn alloc_from_heap_refuses_what_cannot_fit() {
    let mut a = SimpleAllocator::new();
    assert_eq!(a.alloc_from_heap(usize::MAX, 8, BASE), None);
    assert_eq!(a.alloc_from_heap(HEAP_SIZE, 8, BASE), None);
    assert_eq!(a.alloc_from_heap(1, 1 << 63, BASE), None);
    // nothing was carved
    assert_eq!(a.alloc_from_heap(8, 8, BASE), Some(BASE));
}

#[test]
fn heap_init_places_once() {
    let mut a = SimpleAllocator::new();
    a.heap_init(BASE);
    a.heap_init(0x9000_0000);
    assert_eq!(a.allocate(8, 8, 0), BASE + header_size());
}

#[test]
fn realloc_block_moves_or_keeps() {
    let mut a = SimpleAllocator::new();
    let p = a.allocate(32, 8, BASE);
    assert_eq!(a.realloc_block(p, 8, 16), p);
    let q = a.realloc_block(p, 8, 64);
    assert_ne!(q, 0);
    assert_ne!(q, p);
    // p was freed and serves a request that fits in it
    assert_eq!(a.allocate(16, 8, BASE), p);
    assert_eq!(a.realloc_block(q, 8, HEAP_SIZE), 0);
}
