//! A first-fit allocator over a list of free regions.
//!
//! It reuses what is released, at the price of a walk through the list for
//! each request and of free memory that breaks into ever smaller regions.
//!
//! The list is kept beside the regions, not inside them: it is a `Vec`, and
//! a `Vec` takes its memory from the allocator of the program. So this is a
//! model of the strategy, which says which addresses of a region it hands
//! out, and an allocator for a region of a program that has another
//! allocator for itself. It cannot be that other allocator: its list would
//! ask for memory while a request is being served.
use vstd::prelude::*;
use vstd::arithmetic::power2::is_pow2;
use crate::allocator::{
    checked_align_up, is_aligned, lemma_next_aligned_is_least, lemma_power_of_two_positive,
    next_aligned,
};

verus! {

/// Bytes a free region needs to be kept on the list: the room for the record
/// that describes it, a length and a link.
pub const NODE_SIZE: usize = 16;

/// A free region: `size` bytes at `start`.
pub struct FreeNode {
    pub start: int,
    pub size: int,
}

impl FreeNode {
    /// The address just past the region.
    pub open spec fn end(self) -> int {
        self.start + self.size
    }

    /// Where a block of alignment `align` would begin in this region.
    pub open spec fn alloc_start(self, align: int) -> int {
        next_aligned(self.start, align)
    }

    /// A block of `size` bytes and alignment `align` ends inside this region.
    pub open spec fn fits(self, size: int, align: int) -> bool {
        self.alloc_start(align) + size <= self.end()
    }

    /// The bytes of this region that lie behind such a block.
    pub open spec fn leftover(self, size: int, align: int) -> int {
        self.end() - (self.alloc_start(align) + size)
    }
}

/// Index of the first region of `nodes`, from `from` on, that a block of
/// `size` bytes and alignment `align` fits; `nodes.len()` if there is none.
pub open spec fn first_fit_from(nodes: Seq<FreeNode>, from: int, size: int, align: int) -> int
    decreases nodes.len() - from,
{
    if from >= nodes.len() {
        nodes.len() as int
    } else if nodes[from].fits(size, align) {
        from
    } else {
        first_fit_from(nodes, from + 1, size, align)
    }
}

/// Index of the first region of `nodes` that the block fits; `nodes.len()`
/// if there is none.
pub open spec fn first_fit(nodes: Seq<FreeNode>, size: int, align: int) -> int {
    first_fit_from(nodes, 0, size, align)
}

/// What a free-list allocator is, as mathematics: the region it serves and
/// its free regions, the head of the list first.
pub struct FreeListState {
    pub start: int,
    pub end: int,
    pub nodes: Seq<FreeNode>,
}

impl FreeListState {
    /// Every free region can hold its own record and lies in the region
    /// served.
    pub open spec fn wf(self) -> bool {
        &&& 0 <= self.start <= self.end <= usize::MAX
        &&& forall|i: int|
            0 <= i < self.nodes.len() ==> {
                &&& (#[trigger] self.nodes[i]).size >= NODE_SIZE
                &&& self.start <= self.nodes[i].start
                &&& self.nodes[i].end() <= self.end
            }
    }

    /// The span of `size` bytes at `addr` lies in the region served.
    pub open spec fn contains_span(self, addr: int, size: int) -> bool {
        self.start <= addr && addr + size <= self.end
    }

    /// Some free region has room for the block.
    pub open spec fn fits(self, size: int, align: int) -> bool {
        first_fit(self.nodes, size, align) < self.nodes.len()
    }

    /// The address granted to a request: the aligned start in the first
    /// region that fits.
    pub open spec fn allocate_result(self, size: int, align: int) -> Option<int> {
        if self.fits(size, align) {
            Some(self.nodes[first_fit(self.nodes, size, align)].alloc_start(align))
        } else {
            None
        }
    }

    /// The state after a request. The first region that fits leaves the
    /// list; what is left of it behind the block comes back as the new head
    /// if it can hold a record, and is lost otherwise. The bytes before the
    /// block are lost.
    pub open spec fn allocate(self, size: int, align: int) -> FreeListState {
        if self.fits(size, align) {
            let at = first_fit(self.nodes, size, align);
            let node = self.nodes[at];
            let rest = self.nodes.remove(at);
            let left = node.leftover(size, align);
            if left >= NODE_SIZE {
                FreeListState {
                    nodes: seq![FreeNode { start: node.alloc_start(align) + size, size: left }]
                        + rest,
                    ..self
                }
            } else {
                FreeListState { nodes: rest, ..self }
            }
        } else {
            self
        }
    }

    /// The state after the release of `size` bytes at `addr`: the span
    /// becomes the head of the list if it can hold a record, and is lost
    /// otherwise. Neighbouring free regions are not merged.
    pub open spec fn deallocate(self, addr: int, size: int) -> FreeListState {
        if size >= NODE_SIZE {
            FreeListState { nodes: seq![FreeNode { start: addr, size }] + self.nodes, ..self }
        } else {
            self
        }
    }
}

/// `first_fit_from` finds a region that fits and that no region between
/// `from` and it does, or reports that none from `from` on fits.
pub proof fn lemma_first_fit_from(nodes: Seq<FreeNode>, from: int, size: int, align: int)
    requires
        0 <= from <= nodes.len(),
    ensures
        from <= first_fit_from(nodes, from, size, align) <= nodes.len(),
        first_fit_from(nodes, from, size, align) < nodes.len() ==> nodes[first_fit_from(
            nodes,
            from,
            size,
            align,
        )].fits(size, align),
        forall|i: int|
            from <= i < first_fit_from(nodes, from, size, align) ==> !(#[trigger] nodes[i]).fits(
                size,
                align,
            ),
    decreases nodes.len() - from,
{
    if from < nodes.len() && !nodes[from].fits(size, align) {
        lemma_first_fit_from(nodes, from + 1, size, align);
    }
}

/// A block that is granted starts at a multiple of the alignment asked for
/// and lies in the region.
pub proof fn lemma_granted_block_is_aligned_and_inside(
    state: FreeListState,
    size: int,
    align: int,
)
    requires
        state.wf(),
        size >= 0,
        align > 0,
        state.fits(size, align),
    ensures
        ({
            let block = state.allocate_result(size, align)->0;
            &&& state.allocate_result(size, align) is Some
            &&& is_aligned(block, align)
            &&& state.contains_span(block, size)
        }),
{
    let at = first_fit(state.nodes, size, align);
    lemma_first_fit_from(state.nodes, 0, size, align);
    lemma_next_aligned_is_least(state.nodes[at].start, align);
}

/// A request for more bytes than the region has is refused, and nothing
/// changes.
pub proof fn lemma_oversize_request_is_refused(state: FreeListState, size: int, align: int)
    requires
        state.wf(),
        align > 0,
        size > state.end - state.start,
    ensures
        !state.fits(size, align),
        state.allocate_result(size, align) is None,
        state.allocate(size, align) == state,
{
    lemma_first_fit_from(state.nodes, 0, size, align);
    let at = first_fit(state.nodes, size, align);
    if at < state.nodes.len() {
        lemma_next_aligned_is_least(state.nodes[at].start, align);
    }
}

/// A request is granted when some free region holds it together with the
/// padding that its alignment can ask for.
pub proof fn lemma_region_with_padding_suffices(
    state: FreeListState,
    at: int,
    size: int,
    align: int,
)
    requires
        state.wf(),
        0 <= at < state.nodes.len(),
        align > 0,
        size + align - 1 <= state.nodes[at].size,
    ensures
        state.fits(size, align),
{
    lemma_next_aligned_is_least(state.nodes[at].start, align);
    assert(state.nodes[at].fits(size, align));
    lemma_first_fit_from(state.nodes, 0, size, align);
}

/// A block that is granted, released and requested again, with nothing
/// granted in between, comes back at the same address, provided it is large
/// enough to be kept on the list.
pub proof fn lemma_release_then_reuse(state: FreeListState, size: int, align: int)
    requires
        state.wf(),
        align > 0,
        size >= NODE_SIZE,
        state.fits(size, align),
    ensures
        ({
            let granted = state.allocate_result(size, align);
            let released = state.allocate(size, align).deallocate(granted->0, size);
            &&& granted is Some
            &&& released.allocate_result(size, align) == granted
        }),
{
    let at = first_fit(state.nodes, size, align);
    lemma_first_fit_from(state.nodes, 0, size, align);
    let addr = state.nodes[at].alloc_start(align);
    lemma_next_aligned_is_least(state.nodes[at].start, align);
    let released = state.allocate(size, align).deallocate(addr, size);
    assert(released.nodes[0] == FreeNode { start: addr, size });
    assert(released.nodes[0].fits(size, align));
}

/// The span of `size` bytes at `addr` shares no byte with `node`.
pub open spec fn apart_from(node: FreeNode, addr: int, size: int) -> bool {
    addr + size <= node.start || node.end() <= addr
}

/// No two regions of `nodes` share a byte.
pub open spec fn regions_apart(nodes: Seq<FreeNode>) -> bool {
    forall|i: int, j: int|
        0 <= i < j < nodes.len() ==> apart_from(
            #[trigger] nodes[i],
            (#[trigger] nodes[j]).start,
            nodes[j].size,
        )
}

/// Where no two free regions share a byte, a block that is granted shares
/// none with what stays free, and what stays free is still apart.
pub proof fn lemma_granted_block_leaves_the_list(state: FreeListState, size: int, align: int)
    requires
        state.wf(),
        regions_apart(state.nodes),
        size >= 0,
        align > 0,
        state.fits(size, align),
    ensures
        ({
            let block = state.allocate_result(size, align)->0;
            let after = state.allocate(size, align);
            &&& regions_apart(after.nodes)
            &&& forall|i: int|
                0 <= i < after.nodes.len() ==> apart_from(#[trigger] after.nodes[i], block, size)
        }),
{
    let at = first_fit(state.nodes, size, align);
    lemma_first_fit_from(state.nodes, 0, size, align);
    let node = state.nodes[at];
    lemma_next_aligned_is_least(node.start, align);
    let block = node.alloc_start(align);
    let rest = state.nodes.remove(at);
    let after = state.allocate(size, align);
    assert forall|i: int| 0 <= i < rest.len() implies apart_from(
        #[trigger] rest[i],
        node.start,
        node.size,
    ) by {
        if i < at {
            assert(apart_from(state.nodes[i], state.nodes[at].start, state.nodes[at].size));
        } else {
            assert(apart_from(state.nodes[at], state.nodes[i + 1].start, state.nodes[i + 1].size));
        }
    }
    assert forall|i: int, j: int| 0 <= i < j < rest.len() implies apart_from(
        #[trigger] rest[i],
        (#[trigger] rest[j]).start,
        rest[j].size,
    ) by {
        let before_i = if i < at { i } else { i + 1 };
        let before_j = if j < at { j } else { j + 1 };
        assert(apart_from(
            state.nodes[before_i],
            state.nodes[before_j].start,
            state.nodes[before_j].size,
        ));
    }
    if node.leftover(size, align) >= NODE_SIZE {
        assert forall|i: int, j: int| 0 <= i < j < after.nodes.len() implies apart_from(
            #[trigger] after.nodes[i],
            (#[trigger] after.nodes[j]).start,
            after.nodes[j].size,
        ) by {
            assert(after.nodes[j] == rest[j - 1]);
            if i > 0 {
                assert(after.nodes[i] == rest[i - 1]);
            }
        }
        assert forall|i: int| 0 <= i < after.nodes.len() implies apart_from(
            #[trigger] after.nodes[i],
            block,
            size,
        ) by {
            if i > 0 {
                assert(after.nodes[i] == rest[i - 1]);
            }
        }
    }
}

/// Where no two free regions share a byte, they share none after the release
/// of a span that shares none with them.
pub proof fn lemma_released_span_joins_the_list(state: FreeListState, addr: int, size: int)
    requires
        regions_apart(state.nodes),
        size >= 0,
        forall|i: int|
            0 <= i < state.nodes.len() ==> apart_from(#[trigger] state.nodes[i], addr, size),
    ensures
        regions_apart(state.deallocate(addr, size).nodes),
{
    let after = state.deallocate(addr, size);
    if size >= NODE_SIZE {
        assert forall|i: int, j: int| 0 <= i < j < after.nodes.len() implies apart_from(
            #[trigger] after.nodes[i],
            (#[trigger] after.nodes[j]).start,
            after.nodes[j].size,
        ) by {
            assert(after.nodes[j] == state.nodes[j - 1]);
            if i > 0 {
                assert(after.nodes[i] == state.nodes[i - 1]);
            }
        }
    }
}

/// A record of the free list: the `size` free bytes at `addr`.
#[derive(Clone, Copy, Debug)]
pub struct ListNode {
    pub addr: usize,
    pub size: usize,
}

impl View for ListNode {
    type V = FreeNode;

    open spec fn view(&self) -> FreeNode {
        FreeNode { start: self.addr as int, size: self.size as int }
    }
}

/// A first-fit allocator over a list of free regions of any size. A freed
/// block goes to the head of the list; neighbours are never merged. The list
/// is a `Vec`, so the allocator serves a region and not the program that
/// holds it.
pub struct LinkedListAllocator {
    heap_start: usize,
    heap_end: usize,
    /// The list, its head last.
    regions: Vec<ListNode>,
}

impl View for LinkedListAllocator {
    type V = FreeListState;

    closed spec fn view(&self) -> FreeListState {
        FreeListState {
            start: self.heap_start as int,
            end: self.heap_end as int,
            nodes: Seq::new(
                self.regions@.len(),
                |i: int| self.regions@[self.regions@.len() - 1 - i]@,
            ),
        }
    }
}

impl LinkedListAllocator {
    /// Creates an allocator with no free region, over the empty region at
    /// address 0.
    pub fn new() -> (allocator: Self)
        ensures
            allocator@ == (FreeListState { start: 0, end: 0, nodes: Seq::empty() }),
    {
        let allocator = LinkedListAllocator { heap_start: 0, heap_end: 0, regions: Vec::new() };
        assert(allocator@.nodes =~= Seq::empty());
        allocator
    }

    /// Makes the allocator serve the `heap_size` bytes at `heap_start`, as
    /// one free region if they can hold a record.
    pub fn init(&mut self, heap_start: usize, heap_size: usize)
        requires
            heap_start + heap_size <= usize::MAX,
        ensures
            final(self)@ == (FreeListState {
                start: heap_start as int,
                end: heap_start + heap_size,
                nodes: Seq::empty(),
            }).deallocate(heap_start as int, heap_size as int),
            final(self)@.wf(),
    {
        self.heap_start = heap_start;
        self.heap_end = heap_start + heap_size;
        self.regions = Vec::new();
        if heap_size >= NODE_SIZE {
            self.regions.push(ListNode { addr: heap_start, size: heap_size });
        }
        assert(self@.nodes =~= (FreeListState {
            start: heap_start as int,
            end: heap_start + heap_size,
            nodes: Seq::empty(),
        }).deallocate(heap_start as int, heap_size as int).nodes);
    }

    /// Tells whether the `size` bytes at `ptr` lie in the region served.
    pub fn contains_span(&self, ptr: usize, size: usize) -> (answer: bool)
        requires
            self@.wf(),
        ensures
            answer == self@.contains_span(ptr as int, size as int),
    {
        self.heap_start <= ptr && ptr <= self.heap_end && self.heap_end - ptr >= size
    }

    /// Grants `size` bytes at a multiple of `align` out of the first free
    /// region, from the head of the list, in which they fit; nothing when
    /// they fit in none.
    pub fn allocate(&mut self, size: usize, align: usize) -> (block: Option<usize>)
        requires
            old(self)@.wf(),
            is_pow2(align as int),
        ensures
            final(self)@ == old(self)@.allocate(size as int, align as int),
            final(self)@.wf(),
            match block {
                Some(addr) => {
                    &&& old(self)@.allocate_result(size as int, align as int) == Some(addr as int)
                    &&& is_aligned(addr as int, align as int)
                    &&& old(self)@.contains_span(addr as int, size as int)
                },
                None => old(self)@.allocate_result(size as int, align as int) is None,
            },
            size > old(self)@.end - old(self)@.start ==> block is None,
    {
        let ghost before = self@;
        let count = self.regions.len();
        let mut at = count;
        proof {
            lemma_power_of_two_positive(align as int);
        }
        while at > 0
            invariant
                at <= count,
                count == self.regions.len(),
                self@ == before,
                before == old(self)@,
                before.wf(),
                align >= 1,
                is_pow2(align as int),
                first_fit(before.nodes, size as int, align as int) == first_fit_from(
                    before.nodes,
                    count - at,
                    size as int,
                    align as int,
                ),
            decreases at,
        {
            at = at - 1;
            let node = self.regions[at];
            let ghost place = count - 1 - at;
            assert(before.nodes[place] == node@);
            proof {
                lemma_next_aligned_is_least(node.addr as int, align as int);
            }
            if let Some(alloc_start) = checked_align_up(node.addr, align) {
                if let Some(alloc_end) = alloc_start.checked_add(size) {
                    if alloc_end <= node.addr + node.size {
                        let left = node.addr + node.size - alloc_end;
                        self.regions.remove(at);
                        if left >= NODE_SIZE {
                            self.regions.push(ListNode { addr: alloc_end, size: left });
                        }
                        proof {
                            assert(before.nodes[place].fits(size as int, align as int));
                            assert(first_fit(before.nodes, size as int, align as int) == place);
                            assert(before.nodes[place].leftover(size as int, align as int)
                                == left);
                            assert(self@.nodes =~= before.allocate(
                                size as int,
                                align as int,
                            ).nodes);
                        }
                        return Some(alloc_start);
                    }
                }
            }
            assert(!before.nodes[place].fits(size as int, align as int));
        }
        proof {
            lemma_first_fit_from(before.nodes, 0, size as int, align as int);
        }
        None
    }

    /// Takes back the `size` bytes at `ptr` as the new head of the list, or
    /// lets them go if they cannot hold a record.
    pub fn deallocate(&mut self, ptr: usize, size: usize, align: usize)
        requires
            old(self)@.wf(),
            old(self)@.contains_span(ptr as int, size as int),
        ensures
            final(self)@ == old(self)@.deallocate(ptr as int, size as int),
            final(self)@.wf(),
    {
        let ghost before = self@;
        if size >= NODE_SIZE {
            self.regions.push(ListNode { addr: ptr, size });
            assert(self@.nodes =~= before.deallocate(ptr as int, size as int).nodes);
        }
    }
}

} // verus!
