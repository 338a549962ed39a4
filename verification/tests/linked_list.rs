use neekos::allocator::linked_list::{LinkedListAllocator, NODE_SIZE};

const H: usize = 0x4000;

fn heap(size: usize) -> LinkedListAllocator {
    let mut allocator = LinkedListAllocator::new();
    allocator.init(H, size);
    allocator
}

#[test]
fn node_is_two_words() {
    assert_eq!(NODE_SIZE, 16);
}

#[test]
fn list_without_regions_grants_nothing() {
    let mut allocator = LinkedListAllocator::new();
    assert_eq!(allocator.allocate(1, 1), None);
    assert_eq!(allocator.allocate(0, 1), None);
}

#[test]
fn heap_too_small_for_a_node_is_lost() {
    let mut allocator = heap(15);
    assert_eq!(allocator.allocate(1, 1), None);
    let mut allocator = heap(16);
    assert_eq!(allocator.allocate(1, 1), Some(H));
}

#[test]
fn released_block_is_granted_again() {
    let mut allocator = heap(1024);
    let first = allocator.allocate(100, 8).unwrap();
    allocator.deallocate(first, 100, 8);
    assert_eq!(allocator.allocate(100, 8), Some(first));
}

#[test]
fn granted_block_is_aligned_and_inside_the_heap() {
    let mut allocator = heap(1024);
    for (size, align) in [(100, 8), (1, 64), (17, 1), (200, 128), (5, 4)] {
        let block = allocator.allocate(size, align).unwrap();
        assert_eq!(block % align, 0);
        assert!(H <= block);
        assert!(block + size <= H + 1024);
    }
}

#[test]
fn leftover_becomes_the_head() {
    let mut allocator = heap(1024);
    assert_eq!(allocator.allocate(100, 8), Some(H));
    assert_eq!(allocator.allocate(50, 1), Some(H + 100));
    assert_eq!(allocator.allocate(50, 1), Some(H + 150));
}

#[test]
fn first_region_that_fits_wins() {
    let mut allocator = heap(1024);
    let a = allocator.allocate(64, 1).unwrap();
    let b = allocator.allocate(128, 1).unwrap();
    let c = allocator.allocate(32, 1).unwrap();
    assert_eq!((a, b, c), (H, H + 64, H + 192));
    allocator.deallocate(b, 128, 1);
    allocator.deallocate(a, 64, 1);
    allocator.deallocate(c, 32, 1);
    // the list is now: c, a, b, rest
    assert_eq!(allocator.allocate(48, 1), Some(a));
    // the 16 bytes left of a are the head
    assert_eq!(allocator.allocate(16, 1), Some(a + 48));
    assert_eq!(allocator.allocate(100, 1), Some(b));
    assert_eq!(allocator.allocate(32, 1), Some(c));
}

#[test]
fn leftover_too_small_for_a_node_is_lost() {
    let mut allocator = heap(64);
    assert_eq!(allocator.allocate(49, 1), Some(H));
    assert_eq!(allocator.allocate(1, 1), None);
    let mut allocator = heap(64);
    assert_eq!(allocator.allocate(48, 1), Some(H));
    assert_eq!(allocator.allocate(16, 1), Some(H + 48));
}

#[test]
fn padding_before_the_block_is_lost() {
    let mut allocator = LinkedListAllocator::new();
    allocator.init(H + 8, 1024);
    assert_eq!(allocator.allocate(64, 64), Some(H + 64));
    assert_eq!(allocator.allocate(56, 1), Some(H + 128));
}

#[test]
fn released_span_too_small_for_a_node_is_lost() {
    let mut allocator = heap(32);
    assert_eq!(allocator.allocate(8, 8), Some(H));
    allocator.deallocate(H, 8, 8);
    assert_eq!(allocator.allocate(8, 8), Some(H + 8));
}

#[test]
fn neighbours_are_not_merged() {
    let mut allocator = heap(64);
    let a = allocator.allocate(32, 1).unwrap();
    let b = allocator.allocate(32, 1).unwrap();
    allocator.deallocate(a, 32, 1);
    allocator.deallocate(b, 32, 1);
    assert_eq!(allocator.allocate(64, 1), None);
    assert_eq!(allocator.allocate(32, 1), Some(b));
    assert_eq!(allocator.allocate(32, 1), Some(a));
}

#[test]
fn refused_request_keeps_the_list() {
    let mut allocator = heap(128);
    assert_eq!(allocator.allocate(129, 1), None);
    assert_eq!(allocator.allocate(128, 1), Some(H));
}

#[test]
fn list_request_larger_than_the_heap_is_refused() {
    let mut allocator = heap(100 * 1024);
    assert_eq!(allocator.allocate(100 * 1024 + 1, 1), None);
    assert_eq!(allocator.allocate(usize::MAX, 1), None);
    assert_eq!(allocator.allocate(usize::MAX, 4096), None);
    assert_eq!(allocator.allocate(100 * 1024, 1), Some(H));
}

#[test]
fn spans_of_the_heap_are_told_from_others() {
    let allocator = heap(1024);
    assert!(allocator.contains_span(H, 1024));
    assert!(allocator.contains_span(H, 0));
    assert!(allocator.contains_span(H + 1024, 0));
    assert!(allocator.contains_span(H + 100, 924));
    assert!(!allocator.contains_span(H + 100, 925));
    assert!(!allocator.contains_span(H - 1, 8));
    assert!(!allocator.contains_span(H + 1025, 0));
    assert!(!allocator.contains_span(H, usize::MAX));
}
