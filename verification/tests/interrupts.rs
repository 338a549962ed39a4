use neekos::interrupts::{
    init_idt, Handler, IdtEntry, InterruptIndex, DOUBLE_FAULT_IST_INDEX, PIC_1_OFFSET,
    PIC_2_OFFSET,
};
use neekos::{test_runner, QemuExitCode, Testable};
use std::cell::RefCell;

#[test]
fn controllers_follow_the_exceptions() {
    assert_eq!(PIC_1_OFFSET, 32);
    assert_eq!(PIC_2_OFFSET, 40);
}

#[test]
fn interrupt_vectors() {
    assert_eq!(InterruptIndex::Timer.as_u8(), 32);
    assert_eq!(InterruptIndex::Keyboard.as_u8(), 33);
    assert_eq!(InterruptIndex::Timer.as_usize(), 32);
    assert_eq!(InterruptIndex::Keyboard.as_usize(), 33);
}

#[test]
fn table_has_the_five_routines() {
    let table = init_idt();
    let plain = |vector, handler| IdtEntry { vector, handler, stack_index: None };
    assert_eq!(
        table,
        [
            plain(3, Handler::Breakpoint),
            IdtEntry { vector: 8, handler: Handler::DoubleFault, stack_index: Some(0) },
            plain(32, Handler::Timer),
            plain(33, Handler::Keyboard),
            plain(14, Handler::PageFault),
        ]
    );
    assert_eq!(DOUBLE_FAULT_IST_INDEX, 0);
}

#[test]
fn exit_codes() {
    assert_eq!(QemuExitCode::Success.code(), 0x10);
    assert_eq!(QemuExitCode::Failed.code(), 0x11);
}

struct Recorded<'a> {
    name: u32,
    log: &'a RefCell<Vec<u32>>,
}

impl Testable for Recorded<'_> {
    fn run(&self) {
        self.log.borrow_mut().push(self.name);
    }
}

#[test]
fn runner_runs_every_test_in_order() {
    let log = RefCell::new(Vec::new());
    let tests = [
        Recorded { name: 1, log: &log },
        Recorded { name: 2, log: &log },
        Recorded { name: 3, log: &log },
    ];
    let code = test_runner(&[&tests[0], &tests[1], &tests[2]]);
    assert_eq!(code, QemuExitCode::Success);
    assert_eq!(*log.borrow(), vec![1, 2, 3]);
}

#[test]
fn runner_without_tests_succeeds() {
    assert_eq!(test_runner(&[]), QemuExitCode::Success);
}
