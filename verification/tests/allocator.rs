use kernel_core::allocator::{check_power_of_two, LinkedListAllocator, ListNode};

#[test]
fn allocates_aligned_disjoint_blocks_and_reuses_freed_one() {
    // heap of 1024 bytes
    let mut a = LinkedListAllocator::new();
    a.init(0x1000, 1024);
    // allocate 100 bytes aligned to 8: succeeds, address is 8-aligned
    let first = a.allocate(100, 8).expect("first allocation fits");
    assert_eq!(first % 8, 0);
    // allocate another 100: succeeds at a disjoint address
    let second = a.allocate(100, 8).expect("second allocation fits");
    assert_eq!(second % 8, 0);
    // the adjusted size of a 100-byte request is 104 bytes
    assert!(first + 104 <= second || second + 104 <= first);
    // free the first; allocating 100 again reuses the freed block
    a.free(first, 100, 8);
    let third = a.allocate(100, 8).expect("allocation after free fits");
    assert_eq!(third, first);
}

#[test]
fn exhaustion_reports_failure_and_free_recovers() {
    let mut a = LinkedListAllocator::new();
    a.init(0x1000, 1024);
    // a request larger than the whole heap is refused outright
    assert_eq!(a.allocate(2000, 8), None);
    // 100-byte requests are served as 104-byte blocks: exactly 9 fit in 1024
    let mut blocks = Vec::new();
    loop {
        match a.allocate(100, 8) {
            Some(addr) => blocks.push(addr),
            None => break,
        }
        assert!(blocks.len() <= 100, "allocator handed out more than the heap holds");
    }
    assert_eq!(blocks.len(), 9);
    // freeing one block makes the same request succeed again
    let released = blocks[4];
    a.free(released, 100, 8);
    assert_eq!(a.allocate(100, 8), Some(released));
}

#[test]
fn small_request_is_padded_to_a_node_footprint() {
    let mut a = LinkedListAllocator::new();
    a.init(0x2000, 256);
    let p = a.allocate(1, 1).expect("tiny allocation fits");
    // the served block is raised to node alignment
    assert_eq!(p % 8, 0);
    let q = a.allocate(1, 1).expect("second tiny allocation fits");
    // adjusted to the 16-byte node footprint: the blocks cannot overlap
    assert!(p + 16 <= q || q + 16 <= p);
}

#[test]
fn large_alignment_is_honoured() {
    let mut a = LinkedListAllocator::new();
    a.init(0x1008, 1024);
    let p = a.allocate(10, 64).expect("aligned allocation fits");
    assert_eq!(p % 64, 0);
    assert!(p >= 0x1008);
}

#[test]
fn unusable_leftover_rejects_the_region() {
    let mut a = LinkedListAllocator::new();
    a.init(0x1000, 1024);
    // serving 1016 bytes would leave an 8-byte leftover, too small to ever
    // host a free-list node again: the region is rejected, nothing else fits
    assert_eq!(a.allocate(1016, 8), None);
    // a 16-byte leftover is usable, so 1008 bytes are served
    assert_eq!(a.allocate(1008, 8), Some(0x1000));
}

#[test]
fn exact_fit_consumes_the_whole_region() {
    let mut a = LinkedListAllocator::new();
    a.init(0x1000, 1024);
    assert_eq!(a.allocate(1024, 8), Some(0x1000));
    assert_eq!(a.allocate(1, 1), None);
    a.free(0x1000, 1024, 8);
    assert_eq!(a.allocate(1024, 8), Some(0x1000));
}

/// Each entry is a live block: (address, adjusted size).
fn assert_pairwise_disjoint(live: &[(usize, usize)]) {
    for i in 0..live.len() {
        for j in (i + 1)..live.len() {
            let (a, sa) = live[i];
            let (b, sb) = live[j];
            assert!(
                a + sa <= b || b + sb <= a,
                "live blocks {:#x}+{} and {:#x}+{} overlap",
                a,
                sa,
                b,
                sb
            );
        }
    }
}

#[test]
fn interleaved_allocate_free_keeps_live_blocks_disjoint() {
    let mut a = LinkedListAllocator::new();
    a.init(0x8000, 2048);
    // (requested size, requested alignment)
    let requests = [(40usize, 8usize), (100, 16), (1, 1), (64, 64), (200, 8)];
    // live blocks as (address, adjusted size), plus the original request so
    // the block can be freed the way it was allocated
    let mut live: Vec<(usize, usize)> = Vec::new();
    let mut reqs: Vec<(usize, usize)> = Vec::new();
    for &(size, align) in &requests {
        let addr = a.allocate(size, align).expect("request fits");
        assert_eq!(addr % align, 0);
        let (adjusted, _) = LinkedListAllocator::size_align(size, align);
        live.push((addr, adjusted));
        reqs.push((size, align));
        assert_pairwise_disjoint(&live);
    }
    // free two blocks out of the middle, then allocate into the gaps
    for victim in [3, 1] {
        let (addr, _) = live.remove(victim);
        let (size, align) = reqs.remove(victim);
        a.free(addr, size, align);
        assert_pairwise_disjoint(&live);
    }
    for &(size, align) in &[(120usize, 8usize), (48, 32), (24, 8)] {
        let addr = a.allocate(size, align).expect("request fits");
        assert_eq!(addr % align, 0);
        let (adjusted, _) = LinkedListAllocator::size_align(size, align);
        live.push((addr, adjusted));
        reqs.push((size, align));
        assert_pairwise_disjoint(&live);
    }
}

#[test]
fn node_addressing() {
    let n = ListNode::new(0x4000, 64);
    assert_eq!(n.start_addr(), 0x4000);
    assert_eq!(n.end_addr(), 0x4040);
}

#[test]
fn power_of_two_check() {
    assert!(check_power_of_two(1));
    assert!(check_power_of_two(2));
    assert!(check_power_of_two(4096));
    assert!(!check_power_of_two(0));
    assert!(!check_power_of_two(3));
    assert!(!check_power_of_two(12));
}
