//! The verified parts of a small x86-64 kernel: the strategies of its heap
//! allocator and the steps that give the heap its memory, the text screen,
//! and the tables that say which interrupt goes where.
//!
//! Of the three strategies the bump allocator keeps its books in four words
//! and can be the allocator of the program itself. The other two keep their
//! free lists in `Vec`s: they show what the strategy hands out and serve a
//! region for a program whose allocator is another, as their modules say.
//!
//! The code here does not touch the hardware. Addresses are numbers, and
//! what has to be done to the machine is handed out as a value for the
//! caller to do. Memory is written in one place only: the heap of
//! `linked_list_allocator`, which stands behind the fixed-size-block
//! allocator, keeps its books in the memory that it is given.
use vstd::prelude::*;

pub mod allocator;
pub mod interrupts;
pub mod vga_buffer;

verus! {

/// Exit codes understood by the emulator's debug-exit device.
#[derive(Debug, Clone, Copy, PartialEq, Eq, Structural)]
pub enum QemuExitCode {
    Success,
    Failed,
}

impl QemuExitCode {
    /// The number that stands for this code on the device's port.
    pub open spec fn spec_code(self) -> u32 {
        match self {
            QemuExitCode::Success => 0x10,
            QemuExitCode::Failed => 0x11,
        }
    }

    /// The number to write to the device's port.
    #[verifier::when_used_as_spec(spec_code)]
    pub fn code(self) -> (code: u32)
        ensures
            code == self.spec_code(),
    {
        match self {
            QemuExitCode::Success => 0x10,
            QemuExitCode::Failed => 0x11,
        }
    }
}

/// Something that can be run as a test.
pub trait Testable {
    /// What the test has shown once it returns. A test that says nothing
    /// of itself has shown only that it returns.
    open spec fn holds(&self) -> bool {
        true
    }

    /// Runs the test; a test that fails does not return.
    fn run(&self)
        ensures
            self.holds(),
    ;
}

/// Runs every test of `tests`, in order, and tells what to report once all
/// of them have returned: what each of them shows then holds.
pub fn test_runner(tests: &[&dyn Testable]) -> (code: QemuExitCode)
    ensures
        code == QemuExitCode::Success,
        forall|i: int| 0 <= i < tests@.len() ==> (#[trigger] tests@[i]).holds(),
{
    let mut done: usize = 0;
    while done < tests.len()
        invariant
            done <= tests.len(),
            forall|i: int| 0 <= i < done ==> (#[trigger] tests@[i]).holds(),
        decreases tests.len() - done,
    {
        tests[done].run();
        done = done + 1;
    }
    QemuExitCode::Success
}

} // verus!
