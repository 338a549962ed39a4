//! Which interrupts the kernel handles, and at which vectors.
use vstd::prelude::*;

verus! {

/// Vector of the first line of the primary interrupt controller.
pub const PIC_1_OFFSET: u8 = 32;

/// Vector of the first line of the secondary interrupt controller.
pub const PIC_2_OFFSET: u8 = PIC_1_OFFSET + 8;

/// Stack of the interrupt stack table on which double faults are handled.
pub const DOUBLE_FAULT_IST_INDEX: u16 = 0;

/// The hardware interrupts that the kernel handles.
#[derive(Debug, Clone, Copy, PartialEq, Eq, Structural)]
pub enum InterruptIndex {
    Timer,
    Keyboard,
}

impl InterruptIndex {
    /// The vector of this interrupt: the lines follow each other from
    /// `PIC_1_OFFSET` on.
    pub open spec fn vector(self) -> int {
        match self {
            InterruptIndex::Timer => PIC_1_OFFSET as int,
            InterruptIndex::Keyboard => PIC_1_OFFSET + 1,
        }
    }

    /// The vector, as the interrupt controller counts it.
    pub fn as_u8(self) -> (vector: u8)
        ensures
            vector == self.vector(),
    {
        match self {
            InterruptIndex::Timer => PIC_1_OFFSET,
            InterruptIndex::Keyboard => PIC_1_OFFSET + 1,
        }
    }

    /// The vector, as an index into the interrupt descriptor table.
    pub fn as_usize(self) -> (vector: usize)
        ensures
            vector == self.vector(),
    {
        self.as_u8() as usize
    }
}

/// Vector of the breakpoint exception.
pub const BREAKPOINT_VECTOR: u8 = 3;

/// Vector of the double fault exception.
pub const DOUBLE_FAULT_VECTOR: u8 = 8;

/// Vector of the page fault exception.
pub const PAGE_FAULT_VECTOR: u8 = 14;

/// The routines that the kernel installs for interrupts.
#[derive(Debug, Clone, Copy, PartialEq, Eq, Structural)]
pub enum Handler {
    Breakpoint,
    DoubleFault,
    PageFault,
    Timer,
    Keyboard,
}

/// An entry of the interrupt descriptor table: the routine for a vector,
/// with the stack of the interrupt stack table that it runs on, if it does
/// not run on the interrupted stack.
#[derive(Debug, Clone, Copy, PartialEq, Eq)]
pub struct IdtEntry {
    pub vector: u8,
    pub handler: Handler,
    pub stack_index: Option<u16>,
}

/// The entries of the kernel's interrupt descriptor table. The double fault
/// alone gets a stack of its own, so that it can be handled when the
/// kernel's stack has overflowed.
pub open spec fn idt_entries() -> Seq<IdtEntry> {
    seq![
        IdtEntry { vector: BREAKPOINT_VECTOR, handler: Handler::Breakpoint, stack_index: None },
        IdtEntry {
            vector: DOUBLE_FAULT_VECTOR,
            handler: Handler::DoubleFault,
            stack_index: Some(DOUBLE_FAULT_IST_INDEX),
        },
        IdtEntry {
            vector: InterruptIndex::Timer.vector() as u8,
            handler: Handler::Timer,
            stack_index: None,
        },
        IdtEntry {
            vector: InterruptIndex::Keyboard.vector() as u8,
            handler: Handler::Keyboard,
            stack_index: None,
        },
        IdtEntry { vector: PAGE_FAULT_VECTOR, handler: Handler::PageFault, stack_index: None },
    ]
}

/// Lists the entries of the interrupt descriptor table for the processor to
/// be given.
pub fn init_idt() -> (table: [IdtEntry; 5])
    ensures
        table@ == idt_entries(),
{
    let table = [
        IdtEntry { vector: BREAKPOINT_VECTOR, handler: Handler::Breakpoint, stack_index: None },
        IdtEntry {
            vector: DOUBLE_FAULT_VECTOR,
            handler: Handler::DoubleFault,
            stack_index: Some(DOUBLE_FAULT_IST_INDEX),
        },
        IdtEntry {
            vector: InterruptIndex::Timer.as_u8(),
            handler: Handler::Timer,
            stack_index: None,
        },
        IdtEntry {
            vector: InterruptIndex::Keyboard.as_u8(),
            handler: Handler::Keyboard,
            stack_index: None,
        },
        IdtEntry { vector: PAGE_FAULT_VECTOR, handler: Handler::PageFault, stack_index: None },
    ];
    assert(table@ =~= idt_entries());
    table
}

} // verus!
