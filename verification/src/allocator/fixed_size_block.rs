//! A fixed-size-block allocator.
//!
//! It is fast, because a request is served by the first free block of its
//! size class and no list is walked, and it wastes what a request leaves
//! unused of its block. What the classes cannot serve comes from a
//! first-fit heap of the crate `linked_list_allocator`.
//!
//! The lists of free blocks are kept beside the blocks, not inside them:
//! they are `Vec`s, and a `Vec` takes its memory from the allocator of the
//! program. So this is a model of the strategy, which says which addresses
//! it hands out, and an allocator for a region of a program that has
//! another allocator for itself. It cannot be that other allocator: its
//! lists would ask for memory while a request is being served.
use vstd::prelude::*;
use vstd::arithmetic::power2::is_pow2;
use crate::allocator::{is_aligned, is_power_of_two, lemma_aligned_to_smaller};
use linked_list_allocator::Heap;
use std::alloc::Layout;
use std::mem::MaybeUninit;

verus! {

/// `linked_list_allocator::Heap`, a first-fit allocator that keeps its list
/// of free blocks inside the memory that it manages. Nothing of what it
/// holds is visible here.
#[verifier::external_type_specification]
#[verifier::external_body]
pub struct ExHeap(Heap);

/// What `Heap::bottom` returns, as an address: the lowest address of the
/// memory that the heap manages.
pub uninterp spec fn heap_bottom(heap: Heap) -> int;

/// What `Heap::top` returns, as an address: the address just past the memory
/// that the heap manages.
pub uninterp spec fn heap_top(heap: Heap) -> int;

/// What `Heap::allocate_first_fit` returns on this heap for the layout of
/// `size` bytes at a multiple of `align`, as an address: the block that the
/// heap grants, if it grants one.
pub uninterp spec fn heap_first_fit(heap: Heap, size: int, align: int) -> Option<int>;

/// `Heap::empty`: a heap that manages no memory, whose `bottom` and `top`
/// are the null address.
#[verifier::external_body]
fn empty_heap() -> (heap: Heap)
    ensures
        heap_bottom(heap) == 0,
        heap_top(heap) == 0,
{
    Heap::empty()
}

/// `Heap::bottom`, as an address.
#[verifier::external_body]
fn bottom_of(heap: &Heap) -> (bottom: usize)
    ensures
        bottom == heap_bottom(*heap),
{
    heap.bottom().addr()
}

/// `Heap::top`, as an address.
#[verifier::external_body]
fn top_of(heap: &Heap) -> (top: usize)
    ensures
        top == heap_top(*heap),
{
    heap.top().addr()
}

/// `Heap::init_from_slice`: hands `mem` to a heap that manages no memory yet.
/// The heap then manages the bytes of `mem` from the first that is aligned
/// for its records, a word at most, up to the end of `mem`: all of `mem`
/// but fewer than 8 bytes. The call panics on a heap that manages memory
/// already, and on a slice too short for one record after alignment; 24
/// bytes are enough on every target.
#[verifier::external_body]
fn init_heap_from_slice(heap: &mut Heap, mem: &'static mut [MaybeUninit<u8>])
    requires
        heap_bottom(*old(heap)) == 0,
        old(mem)@.len() >= 24,
    ensures
        0 < heap_bottom(*final(heap)) <= heap_top(*final(heap)) <= usize::MAX,
        old(mem)@.len() - 8 < heap_top(*final(heap)) - heap_bottom(*final(heap)) <= old(
            mem,
        )@.len(),
{
    heap.init_from_slice(mem)
}

/// `Heap::allocate_first_fit`, on the layout of `size` bytes at a multiple of
/// `align`; nothing is granted where there is no such layout, as for an
/// alignment that is no power of two. A block that is granted is not at the
/// null address, starts at a multiple of `align` and lies in the memory that
/// the heap manages, which stays the same. A heap that grants nothing is
/// left as it was.
///
/// When a free block does not start at a multiple of `align`, the heap looks
/// for one from `HEAP_MARGIN` bytes behind the block's start on, and it
/// computes with addresses that wrap around. The `requires` keeps what it
/// computes below the last address: the multiple that it finds is less than
/// `align` bytes behind the heap's top, and the end of the block less than
/// `HEAP_MARGIN` bytes further.
#[verifier::external_body]
fn allocate_first_fit(heap: &mut Heap, size: usize, align: usize) -> (block: Option<usize>)
    requires
        heap_top(*old(heap)) + align + HEAP_MARGIN <= usize::MAX,
    ensures
        heap_first_fit(*old(heap), size as int, align as int) == match block {
            Some(addr) => Some(addr as int),
            None => None,
        },
        heap_bottom(*final(heap)) == heap_bottom(*old(heap)),
        heap_top(*final(heap)) == heap_top(*old(heap)),
        block is None ==> *final(heap) == *old(heap),
        !is_pow2(align as int) ==> block is None,
        block matches Some(addr) ==> {
            &&& addr > 0
            &&& is_aligned(addr as int, align as int)
            &&& heap_bottom(*old(heap)) <= addr
            &&& addr + size <= heap_top(*old(heap))
        },
{
    match Layout::from_size_align(size, align) {
        Ok(layout) => match heap.allocate_first_fit(layout) {
            Ok(ptr) => Some(ptr.addr().get()),
            Err(_) => None,
        },
        Err(_) => None,
    }
}

/// The block sizes of the size classes.
///
/// Each is a power of two, because a block's size is also its alignment.
pub const BLOCK_SIZES: [usize; 9] = [8, 16, 32, 64, 128, 256, 512, 1024, 2048];

/// Bytes that a block needs to be kept on the free list of its class: the
/// room for the link to the next block.
pub const MIN_BLOCK_SIZE: usize = 8;

/// Bytes that the heap keeps clear behind the start of a free block before
/// it looks for an aligned address in it: the room for its record of what
/// stays free in front.
pub const HEAP_MARGIN: usize = 16;

/// The size that a block must have to serve a request: a block is aligned to
/// its own size, so it must be at least as large as the alignment asked for.
pub open spec fn required_block_size(size: int, align: int) -> int {
    if size >= align {
        size
    } else {
        align
    }
}

/// Index of the first class of `block_sizes`, from `from` on, whose blocks
/// have at least `required` bytes; `block_sizes.len()` if there is none.
pub open spec fn class_from(block_sizes: Seq<usize>, from: int, required: int) -> int
    decreases block_sizes.len() - from,
{
    if from >= block_sizes.len() {
        block_sizes.len() as int
    } else if block_sizes[from] >= required {
        from
    } else {
        class_from(block_sizes, from + 1, required)
    }
}

/// The class that serves a request of `size` bytes at a multiple of `align`:
/// the first that is large enough, which is the smallest where the sizes
/// increase. `None` when the request is too large for every class.
pub open spec fn class_of(block_sizes: Seq<usize>, size: int, align: int) -> Option<int> {
    let class = class_from(block_sizes, 0, required_block_size(size, align));
    if class < block_sizes.len() {
        Some(class)
    } else {
        None
    }
}

/// A table of size classes: powers of two that can hold a link, each larger
/// than the one before.
pub open spec fn valid_block_sizes(block_sizes: Seq<usize>) -> bool {
    &&& forall|i: int|
        0 <= i < block_sizes.len() ==> is_pow2(#[trigger] block_sizes[i] as int) && block_sizes[i]
            >= MIN_BLOCK_SIZE
    &&& forall|i: int, j: int|
        0 <= i < j < block_sizes.len() ==> #[trigger] block_sizes[i] < #[trigger] block_sizes[j]
}

/// Tells whether `block_sizes` is a valid table of size classes.
pub fn is_valid_block_sizes(block_sizes: &[usize]) -> (answer: bool)
    ensures
        answer == valid_block_sizes(block_sizes@),
{
    let mut index: usize = 0;
    while index < block_sizes.len()
        invariant
            index <= block_sizes.len(),
            valid_block_sizes(block_sizes@.take(index as int)),
        decreases block_sizes.len() - index,
    {
        let block_size = block_sizes[index];
        let increases = index == 0 || block_sizes[index - 1] < block_size;
        if !is_power_of_two(block_size) || block_size < MIN_BLOCK_SIZE || !increases {
            return false;
        }
        index = index + 1;
        proof {
            let checked = block_sizes@.take(index as int);
            assert(block_sizes@.take(index - 1) == checked.take(index - 1));
            assert forall|i: int, j: int| 0 <= i < j < checked.len() implies #[trigger] checked[i]
                < #[trigger] checked[j] by {
                if j == index - 1 && i < j - 1 {
                    assert(checked.take(index - 1)[i] < checked.take(index - 1)[j - 1]);
                }
            }
            assert forall|i: int| 0 <= i < checked.len() implies is_pow2(
                #[trigger] checked[i] as int,
            ) && checked[i] >= MIN_BLOCK_SIZE by {
                if i < index - 1 {
                    assert(checked.take(index - 1)[i] == checked[i]);
                }
            }
        }
    }
    assert(block_sizes@.take(index as int) == block_sizes@);
    true
}

/// `class_from` finds a class that is large enough and that no class between
/// `from` and it is, or reports that none from `from` on is.
pub proof fn lemma_class_from(block_sizes: Seq<usize>, from: int, required: int)
    requires
        0 <= from <= block_sizes.len(),
    ensures
        from <= class_from(block_sizes, from, required) <= block_sizes.len(),
        class_from(block_sizes, from, required) < block_sizes.len() ==> block_sizes[class_from(
            block_sizes,
            from,
            required,
        )] >= required,
        forall|i: int|
            from <= i < class_from(block_sizes, from, required) ==> #[trigger] block_sizes[i]
                < required,
    decreases block_sizes.len() - from,
{
    if from < block_sizes.len() && block_sizes[from] < required {
        lemma_class_from(block_sizes, from + 1, required);
    }
}

/// Chooses the class of `block_sizes` that serves a request of `size` bytes
/// at a multiple of `align`.
pub fn pick_class(block_sizes: &[usize], size: usize, align: usize) -> (class: Option<usize>)
    ensures
        class_of(block_sizes@, size as int, align as int) == match class {
            Some(index) => Some(index as int),
            None => None,
        },
{
    let required: usize = if size >= align {
        size
    } else {
        align
    };
    let mut index: usize = 0;
    while index < block_sizes.len()
        invariant
            index <= block_sizes.len(),
            required == required_block_size(size as int, align as int),
            class_from(block_sizes@, 0, required as int) == class_from(
                block_sizes@,
                index as int,
                required as int,
            ),
        decreases block_sizes.len() - index,
    {
        if block_sizes[index] >= required {
            return Some(index);
        }
        index = index + 1;
    }
    None
}

/// Chooses the class of `BLOCK_SIZES` that serves a request of `size` bytes
/// at a multiple of `align`.
pub fn list_index(size: usize, align: usize) -> (class: Option<usize>)
    ensures
        class_of(BLOCK_SIZES@, size as int, align as int) == match class {
            Some(index) => Some(index as int),
            None => None,
        },
{
    pick_class(&BLOCK_SIZES, size, align)
}

/// What a fixed-size-block allocator is, as mathematics: the table of its
/// size classes, for each class the free blocks of that size, the one
/// released last at the end, and the heap behind them.
pub struct SizeClassState {
    pub block_sizes: Seq<usize>,
    pub lists: Seq<Seq<usize>>,
    pub fallback: Heap,
}

impl SizeClassState {
    /// Lowest address of the region served.
    pub open spec fn bottom(self) -> int {
        heap_bottom(self.fallback)
    }

    /// Address just past the region served.
    pub open spec fn top(self) -> int {
        heap_top(self.fallback)
    }

    /// The span of `size` bytes at `addr` lies in the region served.
    pub open spec fn contains_span(self, addr: int, size: int) -> bool {
        self.bottom() <= addr && addr + size <= self.top()
    }

    /// The block of class `class` at `addr` is aligned to its size and lies
    /// in the region served.
    pub open spec fn holds_block(self, class: int, addr: int) -> bool {
        &&& is_aligned(addr, self.block_sizes[class] as int)
        &&& self.bottom() <= addr
        &&& addr + self.block_sizes[class] <= self.top()
    }

    /// The table is valid, each class has its list, and every free block is
    /// one of its class in the region served.
    pub open spec fn wf(self) -> bool {
        &&& valid_block_sizes(self.block_sizes)
        &&& self.lists.len() == self.block_sizes.len()
        &&& 0 <= self.bottom() <= self.top() <= usize::MAX
        &&& forall|class: int, at: int|
            0 <= class < self.lists.len() && 0 <= at < self.lists[class].len()
                ==> self.holds_block(class, #[trigger] self.lists[class][at] as int)
    }

    /// No class has a free block.
    pub open spec fn has_no_free_block(self) -> bool {
        forall|class: int|
            0 <= class < self.lists.len() ==> (#[trigger] self.lists[class]).len() == 0
    }

    /// The class that serves the request.
    pub open spec fn class_of(self, size: int, align: int) -> Option<int> {
        class_of(self.block_sizes, size, align)
    }

    /// A free block of the request's class is at hand.
    pub open spec fn reuses(self, size: int, align: int) -> bool {
        self.class_of(size, align) matches Some(class) && self.lists[class].len() > 0
    }

    /// What is asked of the heap when no free block is at hand: a block of
    /// the class's size, aligned to that size, where a class serves the
    /// request, and the request as it stands where none does.
    pub open spec fn fallback_request(self, size: int, align: int) -> (int, int) {
        match self.class_of(size, align) {
            Some(class) => (self.block_sizes[class] as int, self.block_sizes[class] as int),
            None => (size, align),
        }
    }

    /// The heap can look for a multiple of `align` without leaving the
    /// addresses: `align` and `HEAP_MARGIN` bytes behind its top there are
    /// addresses still.
    pub open spec fn heap_can_align(self, align: int) -> bool {
        self.top() + align + HEAP_MARGIN <= usize::MAX
    }

    /// The address granted to a request: the free block of its class that
    /// was released last; where there is none, what the heap grants, and
    /// nothing where the heap cannot be asked.
    pub open spec fn allocate_result(self, size: int, align: int) -> Option<int> {
        if self.reuses(size, align) {
            Some(self.lists[self.class_of(size, align)->0].last() as int)
        } else if self.heap_can_align(self.fallback_request(size, align).1) {
            heap_first_fit(
                self.fallback,
                self.fallback_request(size, align).0,
                self.fallback_request(size, align).1,
            )
        } else {
            None
        }
    }

    /// The lists after a request: the block that is reused leaves its list.
    pub open spec fn lists_after_allocate(self, size: int, align: int) -> Seq<Seq<usize>> {
        if self.reuses(size, align) {
            let class = self.class_of(size, align)->0;
            self.lists.update(class, self.lists[class].drop_last())
        } else {
            self.lists
        }
    }

    /// The state after a request that reuses a free block: the heap is not
    /// touched.
    pub open spec fn after_reuse(self, size: int, align: int) -> SizeClassState
        recommends
            self.reuses(size, align),
    {
        SizeClassState { lists: self.lists_after_allocate(size, align), ..self }
    }

    /// The lists after the release of the block at `addr`: the block joins
    /// the list of its class, if it has one.
    pub open spec fn lists_after_deallocate(self, addr: usize, size: int, align: int) -> Seq<
        Seq<usize>,
    > {
        match self.class_of(size, align) {
            Some(class) => self.lists.update(class, self.lists[class].push(addr)),
            None => self.lists,
        }
    }

    /// The state after the release of the block at `addr`.
    pub open spec fn deallocate(self, addr: usize, size: int, align: int) -> SizeClassState {
        SizeClassState { lists: self.lists_after_deallocate(addr, size, align), ..self }
    }

    /// The block at `addr` may be released under this request: where a class
    /// serves the request, it is a block of that class in the region served;
    /// where none does, it is not at the null address.
    pub open spec fn may_release(self, addr: int, size: int, align: int) -> bool {
        match self.class_of(size, align) {
            Some(class) => self.holds_block(class, addr),
            None => addr != 0,
        }
    }
}

/// An allocator that keeps, for each of a few block sizes, a list of free
/// blocks of that size, and asks a first-fit heap for what these lists
/// cannot give. The lists are `Vec`s, so the allocator serves a region and
/// not the program that holds it.
pub struct FixedSizeBlockAllocator {
    block_sizes: Vec<usize>,
    list_heads: Vec<Vec<usize>>,
    fallback_allocator: Heap,
}

impl View for FixedSizeBlockAllocator {
    type V = SizeClassState;

    closed spec fn view(&self) -> SizeClassState {
        SizeClassState {
            block_sizes: self.block_sizes@,
            lists: Seq::new(self.list_heads@.len(), |class: int| self.list_heads@[class]@),
            fallback: self.fallback_allocator,
        }
    }
}

impl FixedSizeBlockAllocator {
    /// Creates an allocator with the classes of `BLOCK_SIZES`, no free block
    /// and a heap that manages no memory.
    pub fn new() -> (allocator: Self)
        ensures
            allocator@.wf(),
            allocator@.block_sizes == BLOCK_SIZES@,
            allocator@.has_no_free_block(),
            allocator@.bottom() == 0,
            allocator@.top() == 0,
    {
        proof {
            lemma_canonical_block_sizes();
        }
        Self::with_valid_block_sizes(&BLOCK_SIZES)
    }

    /// Creates an allocator with the classes of `block_sizes`, no free block
    /// and a heap that manages no memory; `None` where the table is not
    /// valid.
    pub fn with_block_sizes(block_sizes: &[usize]) -> (allocator: Option<Self>)
        ensures
            allocator is Some <==> valid_block_sizes(block_sizes@),
            allocator matches Some(created) ==> {
                &&& created@.wf()
                &&& created@.block_sizes == block_sizes@
                &&& created@.has_no_free_block()
                &&& created@.bottom() == 0
                &&& created@.top() == 0
            },
    {
        if is_valid_block_sizes(block_sizes) {
            Some(Self::with_valid_block_sizes(block_sizes))
        } else {
            None
        }
    }

    /// Creates an allocator with the classes of `block_sizes`, no free block
    /// and a heap that manages no memory.
    fn with_valid_block_sizes(block_sizes: &[usize]) -> (allocator: Self)
        requires
            valid_block_sizes(block_sizes@),
        ensures
            allocator@.wf(),
            allocator@.block_sizes == block_sizes@,
            allocator@.has_no_free_block(),
            allocator@.bottom() == 0,
            allocator@.top() == 0,
    {
        let mut sizes: Vec<usize> = Vec::new();
        let mut list_heads: Vec<Vec<usize>> = Vec::new();
        let mut index: usize = 0;
        while index < block_sizes.len()
            invariant
                index <= block_sizes.len(),
                sizes@ == block_sizes@.take(index as int),
                list_heads@.len() == index,
                forall|class: int|
                    0 <= class < index ==> (#[trigger] list_heads@[class])@.len() == 0,
            decreases block_sizes.len() - index,
        {
            sizes.push(block_sizes[index]);
            list_heads.push(Vec::new());
            index = index + 1;
        }
        assert(block_sizes@.take(index as int) == block_sizes@);
        FixedSizeBlockAllocator { block_sizes: sizes, list_heads, fallback_allocator: empty_heap() }
    }

    /// Hands the memory `mem` to the heap behind the classes.
    pub fn init(&mut self, mem: &'static mut [MaybeUninit<u8>])
        requires
            old(self)@.wf(),
            old(self)@.bottom() == 0,
            old(self)@.top() == 0,
            old(mem)@.len() >= 24,
        ensures
            final(self)@.wf(),
            final(self)@.block_sizes == old(self)@.block_sizes,
            final(self)@.lists == old(self)@.lists,
            0 < final(self)@.bottom() <= final(self)@.top(),
            old(mem)@.len() - 8 < final(self)@.top() - final(self)@.bottom() <= old(mem)@.len(),
    {
        proof {
            assert forall|class: int| 0 <= class < self@.lists.len() implies (
            #[trigger] self@.lists[class]).len() == 0 by {
                if self@.lists[class].len() > 0 {
                    assert(self@.holds_block(class, self@.lists[class][0] as int));
                }
            }
        }
        init_heap_from_slice(&mut self.fallback_allocator, mem);
    }

    /// Lowest address of the region served and the address just past it; both
    /// are 0 before `init`.
    pub fn heap_bounds(&self) -> (bounds: (usize, usize))
        ensures
            bounds.0 == self@.bottom(),
            bounds.1 == self@.top(),
    {
        (bottom_of(&self.fallback_allocator), top_of(&self.fallback_allocator))
    }

    /// Tells whether the block at `ptr` may be released under the request of
    /// `size` bytes at a multiple of `align`.
    pub fn may_release(&self, ptr: usize, size: usize, align: usize) -> (answer: bool)
        requires
            self@.wf(),
        ensures
            answer == self@.may_release(ptr as int, size as int, align as int),
    {
        match pick_class(self.block_sizes.as_slice(), size, align) {
            Some(index) => {
                let block_size = self.block_sizes[index];
                let (bottom, top) = self.heap_bounds();
                proof {
                    crate::allocator::lemma_power_of_two_positive(block_size as int);
                }
                ptr % block_size == 0 && bottom <= ptr && ptr <= top && top - ptr >= block_size
            },
            None => ptr != 0,
        }
    }

    /// Asks the heap for `size` bytes at a multiple of `align`, if it can be
    /// asked.
    fn fallback_alloc(&mut self, size: usize, align: usize) -> (block: Option<usize>)
        ensures
            (if old(self)@.heap_can_align(align as int) {
                heap_first_fit(old(self)@.fallback, size as int, align as int)
            } else {
                None
            }) == match block {
                Some(addr) => Some(addr as int),
                None => None,
            },
            final(self)@.block_sizes == old(self)@.block_sizes,
            final(self)@.lists == old(self)@.lists,
            final(self)@.bottom() == old(self)@.bottom(),
            final(self)@.top() == old(self)@.top(),
            block is None ==> final(self)@ == old(self)@,
            !is_pow2(align as int) ==> block is None,
            block matches Some(addr) ==> {
                &&& addr > 0
                &&& is_aligned(addr as int, align as int)
                &&& old(self)@.bottom() <= addr
                &&& addr + size <= old(self)@.top()
            },
    {
        let top = top_of(&self.fallback_allocator);
        if align > usize::MAX - HEAP_MARGIN || top > usize::MAX - HEAP_MARGIN - align {
            return None;
        }
        let ghost before = self@;
        let block = allocate_first_fit(&mut self.fallback_allocator, size, align);
        assert(self@.lists =~= before.lists);
        block
    }

    /// Grants a block for `size` bytes at a multiple of `align`: the free
    /// block of the request's class that was released last; where that class
    /// has none, a new block of its size from the heap; where no class
    /// serves the request, what the heap grants to the request itself.
    pub fn allocate(&mut self, size: usize, align: usize) -> (block: Option<usize>)
        requires
            old(self)@.wf(),
            is_pow2(align as int),
        ensures
            final(self)@.wf(),
            final(self)@.block_sizes == old(self)@.block_sizes,
            final(self)@.lists == old(self)@.lists_after_allocate(size as int, align as int),
            final(self)@.bottom() == old(self)@.bottom(),
            final(self)@.top() == old(self)@.top(),
            old(self)@.reuses(size as int, align as int) ==> final(self)@.fallback == old(
                self,
            )@.fallback,
            old(self)@.allocate_result(size as int, align as int) == match block {
                Some(addr) => Some(addr as int),
                None => None,
            },
            block matches Some(addr) ==> {
                &&& is_aligned(addr as int, align as int)
                &&& old(self)@.bottom() <= addr
                &&& addr + size <= old(self)@.top()
                &&& final(self)@.may_release(addr as int, size as int, align as int)
            },
            block is None ==> final(self)@ == old(self)@,
            size > old(self)@.top() - old(self)@.bottom() ==> block is None,
    {
        let ghost before = self@;
        match pick_class(self.block_sizes.as_slice(), size, align) {
            Some(index) => {
                let block_size = self.block_sizes[index];
                proof {
                    lemma_class_from(
                        before.block_sizes,
                        0,
                        required_block_size(size as int, align as int),
                    );
                }
                match self.list_heads[index].pop() {
                    Some(addr) => {
                        proof {
                            assert(before.lists[index as int].last() == addr);
                            assert(before.holds_block(index as int, addr as int));
                            lemma_aligned_to_smaller(addr, align, block_size);
                            assert(self@.lists =~= before.lists_after_allocate(
                                size as int,
                                align as int,
                            ));
                        }
                        Some(addr)
                    },
                    None => {
                        assert(self@.lists =~= before.lists);
                        // only works if all block sizes are a power of 2
                        let block = self.fallback_alloc(block_size, block_size);
                        proof {
                            if let Some(addr) = block {
                                lemma_aligned_to_smaller(addr, align, block_size);
                            }
                        }
                        block
                    },
                }
            },
            None => self.fallback_alloc(size, align),
        }
    }

    /// Takes back the block at `ptr` that was granted to a request of `size`
    /// bytes at a multiple of `align`. Where a class serves such requests,
    /// the block joins the free blocks of that class and the answer is
    /// `true`. Where none does, the block belongs to the heap: nothing
    /// changes, and the answer `false` tells the caller to return it there.
    pub fn deallocate(&mut self, ptr: usize, size: usize, align: usize) -> (recycled: bool)
        requires
            old(self)@.wf(),
            old(self)@.may_release(ptr as int, size as int, align as int),
        ensures
            final(self)@ == old(self)@.deallocate(ptr, size as int, align as int),
            final(self)@.wf(),
            recycled == old(self)@.class_of(size as int, align as int) is Some,
    {
        let ghost before = self@;
        match pick_class(self.block_sizes.as_slice(), size, align) {
            Some(index) => {
                self.list_heads[index].push(ptr);
                proof {
                    assert(self@.lists =~= before.lists_after_deallocate(
                        ptr,
                        size as int,
                        align as int,
                    ));
                }
                true
            },
            None => false,
        }
    }

    /// The heap behind the classes, for what only its owner can do with it.
    pub fn fallback_allocator(&mut self) -> (heap: &mut Heap)
        ensures
            *heap == old(self)@.fallback,
            final(self)@ == (SizeClassState { fallback: *final(heap), ..old(self)@ }),
    {
        &mut self.fallback_allocator
    }
}

/// A free block that is granted again starts at a multiple of the alignment
/// asked for, lies in the region served and may be released again.
pub proof fn lemma_reused_block_is_aligned_and_inside(
    state: SizeClassState,
    size: usize,
    align: usize,
)
    requires
        state.wf(),
        is_pow2(align as int),
        state.reuses(size as int, align as int),
    ensures
        ({
            let block = state.allocate_result(size as int, align as int)->0;
            &&& state.allocate_result(size as int, align as int) is Some
            &&& is_aligned(block, align as int)
            &&& state.bottom() <= block
            &&& block + size <= state.top()
            &&& state.may_release(block, size as int, align as int)
        }),
{
    let class = state.class_of(size as int, align as int)->0;
    lemma_class_from(state.block_sizes, 0, required_block_size(size as int, align as int));
    let block = state.lists[class].last();
    assert(state.holds_block(class, state.lists[class][state.lists[class].len() - 1] as int));
    lemma_aligned_to_smaller(block, align, state.block_sizes[class]);
}

/// A request for more bytes than the region served has is granted no free
/// block, and the heap can grant it none: what the heap grants lies in the
/// region, and no span of that size does.
pub proof fn lemma_oversize_request_is_refused(state: SizeClassState, size: int, align: int)
    requires
        state.wf(),
        size > state.top() - state.bottom(),
    ensures
        !state.reuses(size, align),
        state.lists_after_allocate(size, align) == state.lists,
        forall|block: int| !#[trigger] state.contains_span(block, size),
{
    lemma_class_from(state.block_sizes, 0, required_block_size(size, align));
    if state.reuses(size, align) {
        let class = state.class_of(size, align)->0;
        assert(state.holds_block(class, state.lists[class][0] as int));
    }
}

/// Blocks of one class come back in the reverse of the order in which they
/// were released: after the release of `first` and then `second`, the next
/// request of that class is granted `second` and the one after it `first`,
/// and the free lists are then as they were.
pub proof fn lemma_reuse_in_reverse_order(
    state: SizeClassState,
    first: usize,
    second: usize,
    size: int,
    align: int,
)
    requires
        state.wf(),
        state.class_of(size, align) is Some,
    ensures
        ({
            let released = state.deallocate(first, size, align).deallocate(second, size, align);
            let once = released.after_reuse(size, align);
            let twice = once.after_reuse(size, align);
            &&& released.reuses(size, align)
            &&& released.allocate_result(size, align) == Some(second as int)
            &&& once.reuses(size, align)
            &&& once.allocate_result(size, align) == Some(first as int)
            &&& twice == state
        }),
{
    let class = state.class_of(size, align)->0;
    lemma_class_from(state.block_sizes, 0, required_block_size(size, align));
    let released = state.deallocate(first, size, align).deallocate(second, size, align);
    let once = released.after_reuse(size, align);
    let twice = once.after_reuse(size, align);
    assert(released.lists[class] == state.lists[class].push(first).push(second));
    assert(once.lists[class] =~= state.lists[class].push(first));
    assert(twice.lists[class] =~= state.lists[class]);
    assert(twice.lists =~= state.lists);
}

/// The table `BLOCK_SIZES` is valid.
pub proof fn lemma_canonical_block_sizes()
    ensures
        valid_block_sizes(BLOCK_SIZES@),
{
    reveal_with_fuel(is_pow2, 13);
}

} // verus!
