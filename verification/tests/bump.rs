use neekos::allocator::bump::BumpAllocator;

const H: usize = 0x4000;

fn heap(size: usize) -> BumpAllocator {
    let mut allocator = BumpAllocator::new();
    allocator.init(H, size);
    allocator
}

#[test]
fn new_allocator_serves_nothing() {
    let mut allocator = BumpAllocator::new();
    assert_eq!(allocator.allocations(), 0);
    assert_eq!(allocator.allocate(1, 1), None);
    assert_eq!(allocator.allocations(), 0);
}

#[test]
fn bump_allocations_follow_each_other() {
    let mut allocator = heap(1024);
    let first = allocator.allocate(100, 8).unwrap();
    assert_eq!(first, H);
    let second = allocator.allocate(50, 8).unwrap();
    assert!(second >= first + 100);
    assert_eq!(second % 8, 0);
    assert_eq!(second, H + 104);
    assert!(second + 50 <= H + 1024);
    assert_eq!(allocator.allocations(), 2);
}

#[test]
fn start_is_rounded_up_to_the_alignment() {
    let mut allocator = heap(1024);
    assert_eq!(allocator.allocate(1, 1), Some(H));
    assert_eq!(allocator.allocate(1, 1), Some(H + 1));
    assert_eq!(allocator.allocate(4, 4), Some(H + 4));
    assert_eq!(allocator.allocate(1, 64), Some(H + 64));
    assert_eq!(allocator.allocate(0, 256), Some(H + 256));
    assert_eq!(allocator.allocate(3, 1), Some(H + 256));
}

#[test]
fn release_of_all_frees_the_region() {
    let mut allocator = heap(1024);
    let a = allocator.allocate(100, 8).unwrap();
    let b = allocator.allocate(200, 16).unwrap();
    let c = allocator.allocate(300, 32).unwrap();
    allocator.deallocate(b, 200, 16);
    assert_eq!(allocator.allocations(), 2);
    allocator.deallocate(c, 300, 32);
    allocator.deallocate(a, 100, 8);
    assert_eq!(allocator.allocations(), 0);
    assert_eq!(allocator.allocate(1024, 1), Some(H));
}

#[test]
fn release_of_some_frees_nothing() {
    let mut allocator = heap(1024);
    let a = allocator.allocate(512, 8).unwrap();
    let b = allocator.allocate(512, 8).unwrap();
    allocator.deallocate(b, 512, 8);
    assert_eq!(allocator.allocate(1, 1), None);
    allocator.deallocate(a, 512, 8);
    assert_eq!(allocator.allocate(1, 1), Some(H));
}

#[test]
fn refused_request_changes_nothing() {
    let mut allocator = heap(1024);
    assert_eq!(allocator.allocate(1000, 8), Some(H));
    assert_eq!(allocator.allocate(25, 1), None);
    assert_eq!(allocator.allocations(), 1);
    assert_eq!(allocator.allocate(24, 1), Some(H + 1000));
    assert_eq!(allocator.allocate(1, 1), None);
    assert_eq!(allocator.allocate(0, 1), Some(H + 1024));
}

#[test]
fn padding_can_refuse_what_the_free_bytes_would_hold() {
    let mut allocator = BumpAllocator::new();
    allocator.init(1, 8);
    assert_eq!(allocator.allocate(8, 8), None);
    assert_eq!(allocator.allocate(8, 1), Some(1));
}

#[test]
fn bump_request_larger_than_the_heap_is_refused() {
    let mut allocator = heap(100 * 1024);
    assert_eq!(allocator.allocate(100 * 1024 + 1, 1), None);
    assert_eq!(allocator.allocate(usize::MAX, 1), None);
    assert_eq!(allocator.allocate(usize::MAX, 4096), None);
    assert_eq!(allocator.allocate(100 * 1024, 1), Some(H));
}

#[test]
fn address_space_ends_the_heap() {
    let mut allocator = BumpAllocator::new();
    allocator.init(usize::MAX - 15, 15);
    assert_eq!(allocator.allocate(1, 32), None);
    assert_eq!(allocator.allocate(16, 1), None);
    assert_eq!(allocator.allocate(15, 16), Some(usize::MAX - 15));
}

#[test]
fn init_forgets_what_was_allocated() {
    let mut allocator = heap(64);
    allocator.allocate(64, 1).unwrap();
    allocator.init(H, 64);
    assert_eq!(allocator.allocations(), 0);
    assert_eq!(allocator.allocate(64, 1), Some(H));
}
