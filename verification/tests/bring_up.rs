//! The bring-up sequence and the simulated interrupt dispatch.

use rust_os::interrupts::{
    dispatch, ChainedPics, HandlerKind, HandlerOutcome, InterruptIndex, PIC1_OFFSET, PIC2_OFFSET,
};
use rust_os::{init, Kernel, QemuExitCode, Stage, Testable};

const STACK_BASE: u64 = 0x0010_0000;

#[test]
fn full_bring_up_reaches_ready() {
    let mut k = Kernel::new(STACK_BASE);
    assert_eq!(k.stage, Stage::Uninitialized);
    init(&mut k);
    assert_eq!(k.stage, Stage::InterruptsEnabled);
}

#[test]
fn bring_up_loads_descriptors_and_stack() {
    let mut k = Kernel::new(STACK_BASE);
    init(&mut k);
    assert!(k.gdt.gdt_loaded && k.gdt.cs_loaded && k.gdt.tss_loaded);
    // The double-fault slot holds the top of the dedicated stack.
    assert_eq!(
        k.gdt.tss.interrupt_stack_table[rust_os::gdt::DOUBLE_FAULT_IST_INDEX as usize],
        STACK_BASE + rust_os::gdt::STACK_SIZE
    );
    for slot in 1..7 {
        assert_eq!(k.gdt.tss.interrupt_stack_table[slot], 0);
    }
}

#[test]
fn bring_up_wires_the_vector_table() {
    let mut k = Kernel::new(STACK_BASE);
    init(&mut k);
    let e3 = k.idt.entries[3].unwrap();
    assert_eq!(e3.handler, HandlerKind::Breakpoint);
    assert_eq!(e3.stack_index, None);
    let e8 = k.idt.entries[8].unwrap();
    assert_eq!(e8.handler, HandlerKind::DoubleFault);
    assert_eq!(e8.stack_index, Some(rust_os::gdt::DOUBLE_FAULT_IST_INDEX));
    let e14 = k.idt.entries[14].unwrap();
    assert_eq!(e14.handler, HandlerKind::PageFault);
    assert_eq!(k.idt.entries[32].unwrap().handler, HandlerKind::Timer);
    assert_eq!(k.idt.entries[33].unwrap().handler, HandlerKind::Keyboard);
    for v in 34..256 {
        assert!(k.idt.entries[v].is_none());
    }
}

#[test]
fn bring_up_remaps_the_controllers() {
    let mut k = Kernel::new(STACK_BASE);
    assert!(!k.pics.initialized);
    init(&mut k);
    assert!(k.pics.initialized);
    assert_eq!(k.pics.offset1, PIC1_OFFSET);
    assert_eq!(k.pics.offset2, PIC2_OFFSET);
    assert_eq!(k.pics.offset1, 32);
    assert_eq!(k.pics.offset2, 40);
}

#[test]
fn interrupt_index_vectors() {
    assert_eq!(InterruptIndex::Timer.as_u8(), 32);
    assert_eq!(InterruptIndex::Keyboard.as_u8(), 33);
}

#[test]
fn timer_dispatch_acknowledges_end_of_interrupt() {
    let mut k = Kernel::new(STACK_BASE);
    init(&mut k);
    let r = dispatch(&mut k, InterruptIndex::Timer.as_u8(), 0, 0, 0);
    assert_eq!(r, Some(HandlerOutcome::Resumed));
    assert_eq!(k.pics.last_eoi, Some(32));
    // The tick left its mark on the console.
    assert_eq!(k.writer.buffer[24][0].ascii_char, b'.');
}

#[test]
fn keyboard_dispatch_records_scancode_and_acknowledges() {
    let mut k = Kernel::new(STACK_BASE);
    init(&mut k);
    let r = dispatch(&mut k, InterruptIndex::Keyboard.as_u8(), 0x2a, 0, 0);
    assert_eq!(r, Some(HandlerOutcome::Resumed));
    assert_eq!(k.last_scancode, Some(0x2a));
    assert_eq!(k.pics.last_eoi, Some(33));
}

#[test]
fn test_breakpoint_exception() {
    // A breakpoint trap is a diagnostic: execution resumes behind it.
    let mut k = Kernel::new(STACK_BASE);
    init(&mut k);
    let r = dispatch(&mut k, 3, 0, 0, 0);
    assert_eq!(r, Some(HandlerOutcome::Resumed));
}


#[test]
fn fatal_faults_halt() {
    let mut k = Kernel::new(STACK_BASE);
    init(&mut k);
    assert_eq!(dispatch(&mut k, 8, 0, 0, 0), Some(HandlerOutcome::Halted));
    let mut k2 = Kernel::new(STACK_BASE);
    init(&mut k2);
    assert_eq!(dispatch(&mut k2, 14, 0, 0xdead_beef, 0x2), Some(HandlerOutcome::Halted));
}

#[test]
fn page_fault_reports_address_and_error_code() {
    let mut k = Kernel::new(STACK_BASE);
    init(&mut k);
    let r = dispatch(&mut k, 14, 0, 0xdead_beef, 0x7);
    assert_eq!(r, Some(HandlerOutcome::Halted));
    // The diagnostic carries the faulting address and the error bits in
    // hex; after the trailing newline the three lines sit above the
    // bottom row.
    let row_text = |row: usize| -> String {
        k.writer.buffer[row]
            .iter()
            .map(|c| c.ascii_char as char)
            .collect::<String>()
            .trim_end()
            .to_string()
    };
    assert_eq!(row_text(21), "EXCEPTION: PAGE FAULT");
    assert_eq!(row_text(22), "Accessed Address: 0x00000000deadbeef");
    assert_eq!(row_text(23), "Error Code: 0x0000000000000007");
}

#[test]
fn page_faults_at_distinct_addresses_are_distinguishable() {
    let mut k1 = Kernel::new(STACK_BASE);
    init(&mut k1);
    dispatch(&mut k1, 14, 0, 0x1000, 0x2);
    let mut k2 = Kernel::new(STACK_BASE);
    init(&mut k2);
    dispatch(&mut k2, 14, 0, 0x2000, 0x2);
    assert_ne!(k1.writer.buffer[22], k2.writer.buffer[22]);
}

#[test]
fn unwired_vector_is_unhandled() {
    let mut k = Kernel::new(STACK_BASE);
    init(&mut k);
    assert_eq!(dispatch(&mut k, 100, 0, 0, 0), None);
}

#[test]
fn end_of_interrupt_tracks_last_vector() {
    let mut pics = ChainedPics::new(32, 40);
    pics.initialized = true;
    pics.notify_end_of_interrupt(33);
    assert_eq!(pics.last_eoi, Some(33));
}

#[test]
fn qemu_exit_codes() {
    assert_eq!(QemuExitCode::Success.as_u32(), 0x10);
    assert_eq!(QemuExitCode::Failure.as_u32(), 0x11);
}

struct CountingTest;

impl Testable for CountingTest {
    fn run(&self) {
        assert_eq!(1, 1);
    }
}

#[test]
fn trivial_assertion() {
    let tests = vec![CountingTest, CountingTest, CountingTest];
    let ran = rust_os::test_runner(&tests);
    assert_eq!(ran, 3);
}
