//! The kernel heap: where it lies, how addresses are aligned, and the steps
//! that back its pages with memory before an allocator takes it over. The
//! allocation strategies are in the modules below.
use vstd::prelude::*;
use vstd::arithmetic::div_mod::lemma_mod_breakdown;
use vstd::arithmetic::power2::is_pow2;
use x86_64::structures::paging::{Page, Size4KiB};
use x86_64::VirtAddr;

pub mod bump;
pub mod fixed_size_block;
pub mod linked_list;

verus! {

/// First address of the kernel heap.
pub const HEAP_START: u64 = 0x_4444_4444_0000;

/// Length of the kernel heap in bytes.
pub const HEAP_SIZE: usize = 100 * 1024;

/// Bytes in a page of virtual memory and in a frame of physical memory.
pub const PAGE_SIZE: u64 = 4096;

/// First address that is no address of the lower half of virtual memory.
pub const LOWER_HALF_END: u64 = 0x_8000_0000_0000;

/// `addr` is a multiple of `align`.
pub open spec fn is_aligned(addr: int, align: int) -> bool {
    addr % align == 0
}

/// The smallest multiple of `align` that is not below `addr`.
pub open spec fn next_aligned(addr: int, align: int) -> int {
    if addr % align == 0 {
        addr
    } else {
        addr + align - addr % align
    }
}

/// A power of two is at least 1.
pub proof fn lemma_power_of_two_positive(n: int)
    requires
        is_pow2(n),
    ensures
        n >= 1,
{
    reveal(is_pow2);
}

/// For a power of two `align`, the bits of `x` below it are the remainder of
/// `x` by `align`.
pub proof fn lemma_low_bits_are_remainder(x: usize, align: usize)
    requires
        is_pow2(align as int),
    ensures
        x & ((align - 1) as usize) == x % align,
    decreases align,
{
    reveal(is_pow2);
    if align == 1 {
        assert(x & 0usize == 0) by (bit_vector);
    } else {
        let half: usize = align / 2;
        let upper: usize = x / 2;
        lemma_low_bits_are_remainder(upper, half);
        let low: usize = upper & ((half - 1) as usize);
        assert(x & ((align - 1) as usize) == 2 * low + x % 2) by (bit_vector)
            requires
                align > 1,
                align % 2 == 0,
                half == align / 2,
                upper == x / 2,
                low == upper & ((half - 1) as usize),
        ;
        lemma_mod_breakdown(x as int, 2, half as int);
    }
}

/// The multiple of `align` within `align - 1` above `addr` is `next_aligned`.
pub proof fn lemma_next_aligned_unique(addr: int, align: int, r: int)
    requires
        0 <= addr,
        0 < align,
        addr <= r < addr + align,
        r % align == 0,
    ensures
        r == next_aligned(addr, align),
{
    let q = addr / align;
    let m = addr % align;
    let k = r / align;
    assert(addr == q * align + m && 0 <= m < align && r == k * align && (m == 0 ==> k == q) && (m
        > 0 ==> k == q + 1) && (q + 1) * align == q * align + align) by (nonlinear_arith)
        requires
            0 <= addr,
            0 < align,
            addr <= r < addr + align,
            r % align == 0,
            q == addr / align,
            m == addr % align,
            k == r / align,
    ;
}

/// `next_aligned` is the least multiple of `align` at or above `addr`.
pub proof fn lemma_next_aligned_is_least(addr: int, align: int)
    requires
        0 <= addr,
        0 < align,
    ensures
        addr <= next_aligned(addr, align) < addr + align,
        is_aligned(next_aligned(addr, align), align),
        forall|other: int|
            addr <= other && #[trigger] is_aligned(other, align) ==> next_aligned(addr, align)
                <= other,
{
    let r = next_aligned(addr, align);
    let q = addr / align;
    let m = addr % align;
    assert(addr == q * align + m && 0 <= m < align && (q + 1) * align == q * align + align && (q
        * align) % align == 0 && ((q + 1) * align) % align == 0) by (nonlinear_arith)
        requires
            0 <= addr,
            0 < align,
            q == addr / align,
            m == addr % align,
    ;
    assert forall|other: int| addr <= other && #[trigger] is_aligned(other, align) implies r
        <= other by {
        if other < r {
            lemma_next_aligned_unique(addr, align, other);
        }
    }
}

/// No multiple of a power of two lies in the last `align - 1` machine words.
pub proof fn lemma_aligned_leaves_room(r: usize, align: usize)
    requires
        is_pow2(align as int),
        r % align == 0,
    ensures
        r + align - 1 <= usize::MAX,
{
    let mask: usize = (align - 1) as usize;
    let joined: usize = r | mask;
    lemma_low_bits_are_remainder(r, align);
    assert(r + mask == joined) by (bit_vector)
        requires
            r & mask == 0,
            joined == r | mask,
    ;
}

/// An address aligned to a power of two is aligned to every smaller one.
pub proof fn lemma_aligned_to_smaller(addr: usize, align: usize, larger: usize)
    requires
        is_pow2(align as int),
        is_pow2(larger as int),
        align <= larger,
        is_aligned(addr as int, larger as int),
    ensures
        is_aligned(addr as int, align as int),
{
    lemma_power_of_two_positive(align as int);
    lemma_low_bits_are_remainder(align, align);
    lemma_low_bits_are_remainder(larger, larger);
    lemma_low_bits_are_remainder(addr, larger);
    lemma_low_bits_are_remainder(addr, align);
    let small_mask: usize = (align - 1) as usize;
    let large_mask: usize = (larger - 1) as usize;
    assert(addr & small_mask == 0) by (bit_vector)
        requires
            0 < align <= larger,
            small_mask == align - 1,
            large_mask == larger - 1,
            align & small_mask == 0,
            larger & large_mask == 0,
            addr & large_mask == 0,
    ;
}

/// A machine word with a single bit set is a power of two.
proof fn lemma_single_bit_is_power_of_two(n: usize)
    requires
        n > 0,
        n & ((n - 1) as usize) == 0,
    ensures
        is_pow2(n as int),
    decreases n,
{
    reveal(is_pow2);
    if n > 1 {
        let half: usize = n / 2;
        assert(n % 2 == 0 && half > 0 && half & ((half - 1) as usize) == 0) by (bit_vector)
            requires
                n > 1,
                n & ((n - 1) as usize) == 0,
                half == n / 2,
        ;
        lemma_single_bit_is_power_of_two(half);
    }
}

/// Tells whether `n` is a power of two.
pub fn is_power_of_two(n: usize) -> (answer: bool)
    ensures
        answer == is_pow2(n as int),
{
    if n == 0 {
        proof {
            reveal(is_pow2);
        }
        false
    } else {
        let below: usize = n - 1;
        let shared: usize = n & below;
        proof {
            if shared == 0 {
                lemma_single_bit_is_power_of_two(n);
            }
            if is_pow2(n as int) {
                lemma_low_bits_are_remainder(n, n);
            }
        }
        shared == 0
    }
}

/// Rounds `addr` up to the next multiple of `align`.
pub fn align_up(addr: usize, align: usize) -> (aligned: usize)
    requires
        is_pow2(align as int),
        addr + align - 1 <= usize::MAX,
    ensures
        aligned == next_aligned(addr as int, align as int),
        addr <= aligned < addr + align,
        is_aligned(aligned as int, align as int),
{
    proof {
        lemma_power_of_two_positive(align as int);
        lemma_next_aligned_is_least(addr as int, align as int);
    }
    let mask: usize = align - 1;
    let bumped: usize = addr + mask;
    let aligned: usize = bumped & !mask;
    proof {
        assert(aligned & mask == 0 && aligned <= bumped && bumped - aligned <= mask) by (bit_vector)
            requires
                aligned == bumped & !mask,
        ;
        lemma_low_bits_are_remainder(aligned, align);
        lemma_next_aligned_unique(addr as int, align as int, aligned as int);
    }
    aligned
}

/// Rounds `addr` up to the next multiple of `align`, or reports that this
/// multiple is not an address.
pub fn checked_align_up(addr: usize, align: usize) -> (aligned: Option<usize>)
    requires
        is_pow2(align as int),
    ensures
        match aligned {
            Some(a) => {
                &&& a == next_aligned(addr as int, align as int)
                &&& addr <= a < addr + align
                &&& is_aligned(a as int, align as int)
            },
            None => next_aligned(addr as int, align as int) > usize::MAX,
        },
{
    proof {
        lemma_power_of_two_positive(align as int);
    }
    let mask: usize = align - 1;
    if addr > usize::MAX - mask {
        proof {
            let r = next_aligned(addr as int, align as int);
            lemma_next_aligned_is_least(addr as int, align as int);
            if r <= usize::MAX {
                lemma_aligned_leaves_room(r as usize, align);
            }
        }
        None
    } else {
        Some(align_up(addr, align))
    }
}

/// Start of the page that holds `addr`.
pub open spec fn page_of(addr: int) -> int {
    addr - addr % (PAGE_SIZE as int)
}

/// Start of the first page of the heap.
pub open spec fn first_heap_page() -> int {
    page_of(HEAP_START as int)
}

/// Start of the last page of the heap.
pub open spec fn last_heap_page() -> int {
    page_of(HEAP_START + HEAP_SIZE - 1)
}

/// `Page::containing_address` on `VirtAddr::new(addr)`, as the start address
/// of the 4 KiB page that holds `addr`. `VirtAddr::new` panics on an address
/// that is not canonical; every address of the lower half is.
#[verifier::external_body]
fn page_containing(addr: u64) -> (start: u64)
    requires
        addr < LOWER_HALF_END,
    ensures
        start == page_of(addr as int),
{
    Page::<Size4KiB>::containing_address(VirtAddr::new(addr)).start_address().as_u64()
}

/// Starts of the first and of the last page of the heap.
pub fn heap_page_range() -> (range: (u64, u64))
    ensures
        range.0 == first_heap_page(),
        range.1 == last_heap_page(),
        range.0 == HEAP_START,
        range.1 == HEAP_START + 24 * PAGE_SIZE,
{
    let heap_start = HEAP_START;
    let heap_end = heap_start + (HEAP_SIZE as u64 - 1);
    (page_containing(heap_start), page_containing(heap_end))
}

/// Why the heap could not be given its memory.
#[derive(Debug, Clone, Copy, PartialEq, Eq, Structural)]
pub enum MappingFailure {
    /// No frame of physical memory was left.
    FrameAllocationFailed,
    /// The page is part of a huge page that is mapped already.
    ParentEntryHugePage,
    /// The page is mapped already, to the frame at this address.
    PageAlreadyMapped(u64),
}

/// What a mapped page permits.
#[derive(Debug, Clone, Copy, PartialEq, Eq, Structural)]
pub struct PageFlags {
    pub present: bool,
    pub writable: bool,
}

/// How far the heap has come on its way to being usable.
#[derive(Debug, Clone, Copy, PartialEq, Eq, Structural)]
pub enum HeapInit {
    /// The page at `page` needs a frame.
    NeedsFrame { page: u64 },
    /// The page at `page` is being mapped.
    Mapping { page: u64 },
    /// Every page is mapped and the allocator is being initialised.
    Initialising,
    /// The heap is usable.
    Ready,
    /// The heap cannot be used.
    Failed(MappingFailure),
}

/// What the machine answered to the last `HeapInitAction`.
#[derive(Debug, Clone, Copy, PartialEq, Eq)]
pub enum HeapInitEvent {
    /// The frame allocator gave the frame at this address, or had none.
    Frame(Option<u64>),
    /// The page was mapped and its entry of the translation cache flushed, or
    /// mapping failed.
    Mapped(Result<(), MappingFailure>),
    /// The allocator was initialised.
    Initialised,
}

/// What to do next for the heap.
#[derive(Debug, Clone, Copy, PartialEq, Eq)]
pub enum HeapInitAction {
    /// Ask the frame allocator for one frame.
    AllocateFrame,
    /// Map the page at `page` to the frame at `frame` with `flags`, and flush
    /// the page's entry of the translation cache.
    MapPage { page: u64, frame: u64, flags: PageFlags },
    /// Initialise the allocator with the `heap_size` bytes at `heap_start`.
    InitAllocator { heap_start: u64, heap_size: usize },
    /// Stop, with this result.
    Return(Result<(), MappingFailure>),
}

impl HeapInit {
    /// A page that is being worked on is a page of the heap.
    pub open spec fn wf(self) -> bool {
        match self {
            HeapInit::NeedsFrame { page } | HeapInit::Mapping { page } => {
                &&& first_heap_page() <= page <= last_heap_page()
                &&& page % PAGE_SIZE == 0
            },
            _ => true,
        }
    }

    /// The state is waiting for an event of the kind of `event`.
    pub open spec fn expects(self, event: HeapInitEvent) -> bool {
        match (self, event) {
            (HeapInit::NeedsFrame { .. }, HeapInitEvent::Frame(_)) => true,
            (HeapInit::Mapping { .. }, HeapInitEvent::Mapped(_)) => true,
            (HeapInit::Initialising, HeapInitEvent::Initialised) => true,
            _ => false,
        }
    }

    /// No event is waited for: the heap is usable or has failed.
    pub open spec fn is_final(self) -> bool {
        self is Ready || self is Failed
    }

    /// The state in which the work on the page behind `page` begins, with
    /// what to do first: the next page needs a frame, or, behind the last
    /// page, the allocator its memory.
    pub open spec fn after_page(page: u64) -> (HeapInit, HeapInitAction) {
        if page == last_heap_page() {
            (
                HeapInit::Initialising,
                HeapInitAction::InitAllocator { heap_start: HEAP_START, heap_size: HEAP_SIZE },
            )
        } else {
            (
                HeapInit::NeedsFrame { page: (page + PAGE_SIZE) as u64 },
                HeapInitAction::AllocateFrame,
            )
        }
    }

    /// The state that follows `self` on `event`, with what to do next. Each
    /// page gets a frame and is mapped to it, present and writable; the
    /// first failure ends the work, and what was mapped before stays mapped.
    /// Of an event that the state does not wait for, this says nothing that
    /// is meant.
    pub open spec fn next(self, event: HeapInitEvent) -> (HeapInit, HeapInitAction) {
        match (self, event) {
            (HeapInit::NeedsFrame { page }, HeapInitEvent::Frame(Some(frame))) => (
                HeapInit::Mapping { page },
                HeapInitAction::MapPage {
                    page,
                    frame,
                    flags: PageFlags { present: true, writable: true },
                },
            ),
            (HeapInit::NeedsFrame { .. }, HeapInitEvent::Frame(None)) => (
                HeapInit::Failed(MappingFailure::FrameAllocationFailed),
                HeapInitAction::Return(Err(MappingFailure::FrameAllocationFailed)),
            ),
            (HeapInit::Mapping { page }, HeapInitEvent::Mapped(Ok(_))) => Self::after_page(page),
            (HeapInit::Mapping { .. }, HeapInitEvent::Mapped(Err(failure))) => (
                HeapInit::Failed(failure),
                HeapInitAction::Return(Err(failure)),
            ),
            (HeapInit::Initialising, HeapInitEvent::Initialised) => (
                HeapInit::Ready,
                HeapInitAction::Return(Ok(())),
            ),
            _ => (self, HeapInitAction::Return(Ok(()))),
        }
    }

    /// The state in which the work begins: the first page of the heap needs
    /// a frame.
    pub fn start() -> (begin: (HeapInit, HeapInitAction))
        ensures
            begin == (
                HeapInit::NeedsFrame { page: first_heap_page() as u64 },
                HeapInitAction::AllocateFrame,
            ),
            begin.0.wf(),
    {
        let (first, _) = heap_page_range();
        (HeapInit::NeedsFrame { page: first }, HeapInitAction::AllocateFrame)
    }

    /// Tells whether the state is waiting for an event of the kind of
    /// `event`.
    pub fn is_expecting(&self, event: &HeapInitEvent) -> (answer: bool)
        ensures
            answer == self.expects(*event),
    {
        match (self, event) {
            (HeapInit::NeedsFrame { .. }, HeapInitEvent::Frame(_)) => true,
            (HeapInit::Mapping { .. }, HeapInitEvent::Mapped(_)) => true,
            (HeapInit::Initialising, HeapInitEvent::Initialised) => true,
            _ => false,
        }
    }
}

/// The state reached from `state` by the events of `events`, in order, with
/// the pages that were mapped on the way. An event that the state does not
/// wait for changes nothing.
pub open spec fn run(state: HeapInit, events: Seq<HeapInitEvent>) -> (HeapInit, Seq<u64>)
    decreases events.len(),
{
    if events.len() == 0 {
        (state, Seq::empty())
    } else {
        let (before, mapped) = run(state, events.drop_last());
        if before.expects(events.last()) {
            (
                before.next(events.last()).0,
                match (before, events.last()) {
                    (HeapInit::Mapping { page }, HeapInitEvent::Mapped(Ok(_))) => mapped.push(
                        page,
                    ),
                    _ => mapped,
                },
            )
        } else {
            (before, mapped)
        }
    }
}

/// The pages mapped so far are the first pages of the heap in ascending
/// order, and the state knows how far the work has come.
pub open spec fn in_step(state: HeapInit, mapped: Seq<u64>) -> bool {
    &&& state.wf()
    &&& forall|i: int|
        0 <= i < mapped.len() ==> #[trigger] mapped[i] == first_heap_page() + i * PAGE_SIZE
    &&& match state {
        HeapInit::NeedsFrame { page } | HeapInit::Mapping { page } => page == first_heap_page()
            + mapped.len() * PAGE_SIZE,
        HeapInit::Initialising | HeapInit::Ready => first_heap_page() + mapped.len() * PAGE_SIZE
            == last_heap_page() + PAGE_SIZE,
        HeapInit::Failed(_) => first_heap_page() + mapped.len() * PAGE_SIZE <= last_heap_page()
            + PAGE_SIZE,
    }
}

/// Whatever the machine answers, the pages of the heap are mapped in
/// ascending order, each once, and the allocator is initialised only when
/// all of them are mapped.
pub proof fn lemma_pages_are_mapped_in_order(events: Seq<HeapInitEvent>)
    ensures
        ({
            let (state, mapped) = run(
                HeapInit::NeedsFrame { page: first_heap_page() as u64 },
                events,
            );
            &&& in_step(state, mapped)
            &&& state is Initialising || state is Ready ==> mapped.len() * PAGE_SIZE == HEAP_SIZE
        }),
    decreases events.len(),
{
    if events.len() > 0 {
        lemma_pages_are_mapped_in_order(events.drop_last());
    }
}

/// The first failure ends the work: the failure is returned, and the state
/// that follows waits for nothing, so that no page is mapped after it and the
/// allocator is not initialised.
pub proof fn lemma_first_failure_ends_the_work(
    state: HeapInit,
    failure: MappingFailure,
    later: HeapInitEvent,
)
    requires
        state is Mapping,
    ensures
        state.next(HeapInitEvent::Mapped(Err(failure))) == (
            HeapInit::Failed(failure),
            HeapInitAction::Return(Err(failure)),
        ),
        !HeapInit::Failed(failure).expects(later),
        forall|events: Seq<HeapInitEvent>| #[trigger]
            run(HeapInit::Failed(failure), events) == (
                HeapInit::Failed(failure),
                Seq::<u64>::empty(),
            ),
{
    assert forall|events: Seq<HeapInitEvent>| #[trigger]
        run(HeapInit::Failed(failure), events) == (
            HeapInit::Failed(failure),
            Seq::<u64>::empty(),
        ) by {
        lemma_failed_stays_failed(failure, events);
    }
}

/// No event leads away from a failure.
pub proof fn lemma_failed_stays_failed(failure: MappingFailure, events: Seq<HeapInitEvent>)
    ensures
        run(HeapInit::Failed(failure), events) == (HeapInit::Failed(failure), Seq::<u64>::empty()),
    decreases events.len(),
{
    if events.len() > 0 {
        lemma_failed_stays_failed(failure, events.drop_last());
    }
}

/// Takes the heap one step further: given how far it has come and what the
/// machine answered to the last action, says how far it has come now and
/// what to do next.
pub fn init_heap(state: HeapInit, event: HeapInitEvent) -> (step: (HeapInit, HeapInitAction))
    requires
        state.wf(),
        state.expects(event),
    ensures
        step == state.next(event),
        step.0.wf(),
        step.1 is Return <==> step.0.is_final(),
{
    match (state, event) {
        (HeapInit::NeedsFrame { page }, HeapInitEvent::Frame(frame)) => match frame {
            Some(frame) => (
                HeapInit::Mapping { page },
                HeapInitAction::MapPage {
                    page,
                    frame,
                    flags: PageFlags { present: true, writable: true },
                },
            ),
            None => (
                HeapInit::Failed(MappingFailure::FrameAllocationFailed),
                HeapInitAction::Return(Err(MappingFailure::FrameAllocationFailed)),
            ),
        },
        (HeapInit::Mapping { page }, HeapInitEvent::Mapped(result)) => match result {
            Ok(_) => {
                let (_, last) = heap_page_range();
                if page == last {
                    (
                        HeapInit::Initialising,
                        HeapInitAction::InitAllocator {
                            heap_start: HEAP_START,
                            heap_size: HEAP_SIZE,
                        },
                    )
                } else {
                    (HeapInit::NeedsFrame { page: page + PAGE_SIZE }, HeapInitAction::AllocateFrame)
                }
            },
            Err(failure) => (HeapInit::Failed(failure), HeapInitAction::Return(Err(failure))),
        },
        _ => (HeapInit::Ready, HeapInitAction::Return(Ok(()))),
    }
}

} // verus!
