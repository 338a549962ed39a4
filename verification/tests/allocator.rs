use neekos::allocator::{
    align_up, checked_align_up, heap_page_range, init_heap, is_power_of_two, HeapInit,
    HeapInitAction, HeapInitEvent, MappingFailure, PageFlags, HEAP_SIZE, HEAP_START, PAGE_SIZE,
};

#[test]
fn heap_constants() {
    assert_eq!(HEAP_START, 0x4444_4444_0000);
    assert_eq!(HEAP_SIZE, 102400);
    assert_eq!(PAGE_SIZE, 4096);
}

#[test]
fn align_up_gives_the_next_multiple() {
    assert_eq!(align_up(0, 8), 0);
    assert_eq!(align_up(1, 8), 8);
    assert_eq!(align_up(7, 8), 8);
    assert_eq!(align_up(8, 8), 8);
    assert_eq!(align_up(9, 8), 16);
    assert_eq!(align_up(13, 1), 13);
    assert_eq!(align_up(4097, 4096), 8192);
    assert_eq!(align_up(0x4444_4444_0001, 0x1000), 0x4444_4444_1000);
}

#[test]
fn align_up_reaches_the_last_multiple() {
    assert_eq!(align_up(usize::MAX - 7, 8), usize::MAX - 7);
    assert_eq!(align_up(usize::MAX - 8, 8), usize::MAX - 7);
    assert_eq!(align_up(usize::MAX, 1), usize::MAX);
}

#[test]
fn checked_align_up_stops_at_the_end_of_the_address_space() {
    assert_eq!(checked_align_up(9, 8), Some(16));
    assert_eq!(checked_align_up(usize::MAX - 7, 8), Some(usize::MAX - 7));
    assert_eq!(checked_align_up(usize::MAX - 6, 8), None);
    assert_eq!(checked_align_up(usize::MAX, 2), None);
    assert_eq!(checked_align_up(usize::MAX, 1), Some(usize::MAX));
}

#[test]
fn powers_of_two() {
    assert!(!is_power_of_two(0));
    assert!(is_power_of_two(1));
    assert!(is_power_of_two(2));
    assert!(!is_power_of_two(3));
    assert!(is_power_of_two(4096));
    assert!(!is_power_of_two(4097));
    assert!(is_power_of_two(1 << (usize::BITS - 1)));
    assert!(!is_power_of_two(usize::MAX));
}

#[test]
fn heap_covers_twenty_five_pages() {
    let (first, last) = heap_page_range();
    assert_eq!(first, 0x4444_4444_0000);
    assert_eq!(last, 0x4444_4445_8000);
    assert_eq!((last - first) / PAGE_SIZE + 1, 25);
    assert_ne!(last, HEAP_START + HEAP_SIZE as u64 - 1);
}

const BOTH: PageFlags = PageFlags { present: true, writable: true };

#[test]
fn bootstrap_maps_every_page_and_then_initialises() {
    let (mut state, mut action) = HeapInit::start();
    let mut mapped = Vec::new();
    let mut frame = 0x10_0000;
    loop {
        let event = match action {
            HeapInitAction::AllocateFrame => {
                frame += PAGE_SIZE;
                HeapInitEvent::Frame(Some(frame))
            }
            HeapInitAction::MapPage { page, frame: to, flags } => {
                assert_eq!(to, frame);
                assert_eq!(flags, BOTH);
                mapped.push(page);
                HeapInitEvent::Mapped(Ok(()))
            }
            HeapInitAction::InitAllocator { heap_start, heap_size } => {
                assert_eq!(heap_start, HEAP_START);
                assert_eq!(heap_size, HEAP_SIZE);
                assert_eq!(mapped.len(), 25);
                HeapInitEvent::Initialised
            }
            HeapInitAction::Return(result) => {
                assert_eq!(result, Ok(()));
                break;
            }
        };
        assert!(state.is_expecting(&event));
        (state, action) = init_heap(state, event);
    }
    assert_eq!(state, HeapInit::Ready);
    let expected: Vec<u64> = (0..25).map(|i| HEAP_START + i * PAGE_SIZE).collect();
    assert_eq!(mapped, expected);
}

#[test]
fn bootstrap_begins_with_the_first_page() {
    let (state, action) = HeapInit::start();
    assert_eq!(state, HeapInit::NeedsFrame { page: HEAP_START });
    assert_eq!(action, HeapInitAction::AllocateFrame);
}

#[test]
fn missing_frame_fails_the_bootstrap() {
    let (state, _) = HeapInit::start();
    let (state, action) = init_heap(state, HeapInitEvent::Frame(None));
    assert_eq!(state, HeapInit::Failed(MappingFailure::FrameAllocationFailed));
    assert_eq!(action, HeapInitAction::Return(Err(MappingFailure::FrameAllocationFailed)));
}

#[test]
fn missing_frame_leaves_earlier_pages_mapped() {
    let (mut state, mut action) = HeapInit::start();
    let mut mapped = 0;
    for frame in [0x1000, 0x2000, 0x3000] {
        assert_eq!(action, HeapInitAction::AllocateFrame);
        (state, action) = init_heap(state, HeapInitEvent::Frame(Some(frame)));
        assert!(matches!(action, HeapInitAction::MapPage { .. }));
        (state, action) = init_heap(state, HeapInitEvent::Mapped(Ok(())));
        mapped += 1;
    }
    assert_eq!(state, HeapInit::NeedsFrame { page: HEAP_START + 3 * PAGE_SIZE });
    let (state, action) = init_heap(state, HeapInitEvent::Frame(None));
    assert_eq!(action, HeapInitAction::Return(Err(MappingFailure::FrameAllocationFailed)));
    assert_eq!(state, HeapInit::Failed(MappingFailure::FrameAllocationFailed));
    assert_eq!(mapped, 3);
}

#[test]
fn mapping_failure_is_returned() {
    for failure in [
        MappingFailure::FrameAllocationFailed,
        MappingFailure::ParentEntryHugePage,
        MappingFailure::PageAlreadyMapped(0x7000),
    ] {
        let (state, _) = HeapInit::start();
        let (state, action) = init_heap(state, HeapInitEvent::Frame(Some(0x5000)));
        assert_eq!(
            action,
            HeapInitAction::MapPage { page: HEAP_START, frame: 0x5000, flags: BOTH }
        );
        let (state, action) = init_heap(state, HeapInitEvent::Mapped(Err(failure)));
        assert_eq!(state, HeapInit::Failed(failure));
        assert_eq!(action, HeapInitAction::Return(Err(failure)));
    }
}

#[test]
fn second_bootstrap_stops_at_the_first_page() {
    let (state, _) = HeapInit::start();
    let (state, _) = init_heap(state, HeapInitEvent::Frame(Some(0x9000)));
    let already = MappingFailure::PageAlreadyMapped(0x5000);
    let (state, action) = init_heap(state, HeapInitEvent::Mapped(Err(already)));
    assert_eq!(action, HeapInitAction::Return(Err(already)));
    assert!(!state.is_expecting(&HeapInitEvent::Frame(Some(0xa000))));
    assert!(!state.is_expecting(&HeapInitEvent::Mapped(Ok(()))));
    assert!(!state.is_expecting(&HeapInitEvent::Initialised));
}

#[test]
fn states_expect_one_kind_of_event() {
    let needs = HeapInit::NeedsFrame { page: HEAP_START };
    let mapping = HeapInit::Mapping { page: HEAP_START };
    let frame = HeapInitEvent::Frame(None);
    let done = HeapInitEvent::Mapped(Ok(()));
    assert!(needs.is_expecting(&frame));
    assert!(!needs.is_expecting(&done));
    assert!(!needs.is_expecting(&HeapInitEvent::Initialised));
    assert!(mapping.is_expecting(&done));
    assert!(!mapping.is_expecting(&frame));
    assert!(HeapInit::Initialising.is_expecting(&HeapInitEvent::Initialised));
    assert!(!HeapInit::Initialising.is_expecting(&frame));
    assert!(!HeapInit::Ready.is_expecting(&HeapInitEvent::Initialised));
}
