//! A bump allocator (also known as a stack allocator).
//!
//! It is simple and fast, and it can only free all memory at once.
use vstd::prelude::*;
use vstd::arithmetic::power2::is_pow2;
use crate::allocator::{
    checked_align_up, is_aligned, lemma_next_aligned_is_least, lemma_power_of_two_positive,
    next_aligned,
};

verus! {

/// What a bump allocator is, as mathematics: the region it serves, the next
/// free address, and the number of allocations not yet released.
pub struct BumpState {
    pub start: int,
    pub end: int,
    pub cursor: int,
    pub live: nat,
}

impl BumpState {
    /// The cursor lies in the region, and rests at its base while nothing is
    /// allocated.
    pub open spec fn wf(self) -> bool {
        &&& 0 <= self.start <= self.cursor <= self.end <= usize::MAX
        &&& self.live == 0 ==> self.cursor == self.start
    }

    /// Where a request of alignment `align` would begin.
    pub open spec fn alloc_start(self, align: int) -> int {
        next_aligned(self.cursor, align)
    }

    /// The request ends inside the region.
    pub open spec fn fits(self, size: int, align: int) -> bool {
        self.alloc_start(align) + size <= self.end
    }

    /// The state after a request: the cursor moves past the block when it
    /// fits, and nothing changes when it does not.
    pub open spec fn allocate(self, size: int, align: int) -> BumpState {
        if self.fits(size, align) {
            BumpState {
                cursor: self.alloc_start(align) + size,
                live: self.live + 1,
                ..self
            }
        } else {
            self
        }
    }

    /// The state after one release: the count drops, and the whole region is
    /// free again once it reaches zero.
    pub open spec fn deallocate(self) -> BumpState {
        if self.live == 1 {
            BumpState { cursor: self.start, live: 0, ..self }
        } else {
            BumpState { live: (self.live - 1) as nat, ..self }
        }
    }

    /// The state after the requests of `requests`, each a size and an
    /// alignment, in order.
    pub open spec fn allocate_all(self, requests: Seq<(int, int)>) -> BumpState
        decreases requests.len(),
    {
        if requests.len() == 0 {
            self
        } else {
            self.allocate_all(requests.drop_last()).allocate(requests.last().0, requests.last().1)
        }
    }

    /// Every request of `requests` is granted when they are made in order.
    pub open spec fn all_fit(self, requests: Seq<(int, int)>) -> bool
        decreases requests.len(),
    {
        requests.len() > 0 ==> {
            &&& self.all_fit(requests.drop_last())
            &&& self.allocate_all(requests.drop_last()).fits(requests.last().0, requests.last().1)
        }
    }

    /// The state after `count` releases.
    pub open spec fn deallocate_times(self, count: nat) -> BumpState
        decreases count,
    {
        if count == 0 {
            self
        } else {
            self.deallocate_times((count - 1) as nat).deallocate()
        }
    }
}

/// A monotonic allocator: blocks are carved off the front of the free space
/// and the space comes back only when every block has been released.
pub struct BumpAllocator {
    heap_start: usize,
    heap_end: usize,
    next: usize,
    allocations: usize,
}

impl View for BumpAllocator {
    type V = BumpState;

    closed spec fn view(&self) -> BumpState {
        BumpState {
            start: self.heap_start as int,
            end: self.heap_end as int,
            cursor: self.next as int,
            live: self.allocations as nat,
        }
    }
}

impl BumpAllocator {
    /// Creates an allocator over the empty region at address 0.
    pub fn new() -> (allocator: Self)
        ensures
            allocator@ == (BumpState { start: 0, end: 0, cursor: 0, live: 0 }),
    {
        BumpAllocator { heap_start: 0, heap_end: 0, next: 0, allocations: 0 }
    }

    /// Makes the allocator serve the `heap_size` bytes at `heap_start`, all
    /// of them free.
    pub fn init(&mut self, heap_start: usize, heap_size: usize)
        requires
            heap_start + heap_size <= usize::MAX,
        ensures
            final(self)@ == (BumpState {
                start: heap_start as int,
                end: heap_start + heap_size,
                cursor: heap_start as int,
                live: 0,
            }),
    {
        self.heap_start = heap_start;
        self.heap_end = heap_start + heap_size;
        self.next = heap_start;
        self.allocations = 0;
    }

    /// Number of allocations that have not been released.
    pub fn allocations(&self) -> (count: usize)
        ensures
            count == self@.live,
    {
        self.allocations
    }

    /// Grants `size` bytes at the first multiple of `align` at or after the
    /// cursor, or nothing when they would end outside the region.
    pub fn allocate(&mut self, size: usize, align: usize) -> (block: Option<usize>)
        requires
            old(self)@.wf(),
            old(self)@.live < usize::MAX,
            is_pow2(align as int),
        ensures
            final(self)@ == old(self)@.allocate(size as int, align as int),
            final(self)@.wf(),
            match block {
                Some(addr) => {
                    &&& old(self)@.fits(size as int, align as int)
                    &&& addr == old(self)@.alloc_start(align as int)
                    &&& is_aligned(addr as int, align as int)
                    &&& old(self)@.cursor <= addr
                    &&& old(self)@.start <= addr
                    &&& addr + size <= old(self)@.end
                },
                None => !old(self)@.fits(size as int, align as int),
            },
            size > old(self)@.end - old(self)@.start ==> block is None,
    {
        proof {
            lemma_power_of_two_positive(align as int);
            lemma_next_aligned_is_least(self.next as int, align as int);
        }
        let alloc_start = match checked_align_up(self.next, align) {
            Some(start) => start,
            None => {
                return None;
            },
        };
        let alloc_end = match alloc_start.checked_add(size) {
            Some(end) => end,
            None => {
                return None;
            },
        };
        if alloc_end > self.heap_end {
            None
        } else {
            self.next = alloc_end;
            self.allocations = self.allocations + 1;
            Some(alloc_start)
        }
    }

    /// Releases one allocation. Which one is immaterial: the space comes back
    /// when the last of them is released.
    pub fn deallocate(&mut self, ptr: usize, size: usize, align: usize)
        requires
            old(self)@.wf(),
            old(self)@.live > 0,
        ensures
            final(self)@ == old(self)@.deallocate(),
            final(self)@.wf(),
    {
        self.allocations = self.allocations - 1;
        if self.allocations == 0 {
            self.next = self.heap_start;
        }
    }
}

/// Whatever the count of allocations, a block that is granted starts at a
/// multiple of the alignment asked for and lies in the region.
pub proof fn lemma_granted_block_is_aligned_and_inside(state: BumpState, size: int, align: int)
    requires
        state.wf(),
        size >= 0,
        align > 0,
        state.fits(size, align),
    ensures
        is_aligned(state.alloc_start(align), align),
        state.start <= state.alloc_start(align),
        state.alloc_start(align) + size <= state.end,
        state.allocate(size, align).wf(),
{
    lemma_next_aligned_is_least(state.cursor, align);
}

/// A request for more bytes than the region has is refused, and nothing
/// changes.
pub proof fn lemma_oversize_request_is_refused(state: BumpState, size: int, align: int)
    requires
        state.wf(),
        align > 0,
        size > state.end - state.start,
    ensures
        !state.fits(size, align),
        state.allocate(size, align) == state,
{
    lemma_next_aligned_is_least(state.cursor, align);
}

/// A request is granted when the free bytes hold it together with the
/// padding that its alignment can ask for.
pub proof fn lemma_room_with_padding_suffices(state: BumpState, size: int, align: int)
    requires
        state.wf(),
        align > 0,
        size + align - 1 <= state.end - state.cursor,
    ensures
        state.fits(size, align),
{
    lemma_next_aligned_is_least(state.cursor, align);
}

/// A block that is granted begins where no block granted before it reaches:
/// of two blocks granted one after the other, the second begins at or
/// after the end of the first.
pub proof fn lemma_successive_blocks_do_not_overlap(
    state: BumpState,
    first: (int, int),
    second: (int, int),
)
    requires
        state.wf(),
        first.0 >= 0,
        first.1 > 0,
        second.1 > 0,
        state.fits(first.0, first.1),
        state.allocate(first.0, first.1).fits(second.0, second.1),
    ensures
        state.alloc_start(first.1) + first.0 <= state.allocate(first.0, first.1).alloc_start(
            second.1,
        ),
{
    lemma_next_aligned_is_least(state.cursor, first.1);
    lemma_next_aligned_is_least(state.allocate(first.0, first.1).cursor, second.1);
}

/// Granted requests change neither the region nor anything but the cursor
/// and the count, which rises by one for each.
pub proof fn lemma_allocate_all_counts(state: BumpState, requests: Seq<(int, int)>)
    requires
        state.all_fit(requests),
    ensures
        state.allocate_all(requests).live == state.live + requests.len(),
        state.allocate_all(requests).start == state.start,
        state.allocate_all(requests).end == state.end,
    decreases requests.len(),
{
    if requests.len() > 0 {
        lemma_allocate_all_counts(state, requests.drop_last());
    }
}

/// Releases change neither the region nor, while allocations remain, the
/// cursor; the release that brings the count to zero moves the cursor to
/// the base.
pub proof fn lemma_deallocate_times(state: BumpState, count: nat)
    requires
        count <= state.live,
    ensures
        state.deallocate_times(count).live == state.live - count,
        state.deallocate_times(count).start == state.start,
        state.deallocate_times(count).end == state.end,
        state.deallocate_times(count).cursor == if count == state.live && count > 0 {
            state.start
        } else {
            state.cursor
        },
    decreases count,
{
    if count > 0 {
        lemma_deallocate_times(state, (count - 1) as nat);
    }
}

/// After any run of granted requests, releasing every outstanding allocation,
/// in whatever order, brings the cursor back to the base of the region, and a
/// request for the whole region is then granted at the base.
pub proof fn lemma_release_all_frees_region(state: BumpState, requests: Seq<(int, int)>)
    requires
        state.wf(),
        state.all_fit(requests),
    ensures
        ({
            let full = state.allocate_all(requests);
            let emptied = full.deallocate_times(full.live);
            &&& full.live == state.live + requests.len()
            &&& emptied.live == 0
            &&& emptied.cursor == state.start
            &&& emptied.fits(state.end - state.start, 1)
            &&& emptied.alloc_start(1) == state.start
            &&& emptied.allocate(state.end - state.start, 1).cursor == state.end
        }),
{
    lemma_allocate_all_counts(state, requests);
    let full = state.allocate_all(requests);
    lemma_deallocate_times(full, full.live);
}

} // verus!
