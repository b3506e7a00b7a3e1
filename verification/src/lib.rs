//! Bring-up core of a small x86-64 kernel, modelled as verified state
//! machines over plain values.
//!
//! The crate covers the pieces of early kernel bring-up whose logic can be
//! stated and proved: segment/task-state setup, the interrupt vector table
//! and its dispatch discipline, the four-level page-table walker, the
//! boot-time physical frame allocator, the heap region mapper, and the two
//! heap allocation strategies (bump and free list).
//!
//! Hardware itself (descriptor-table registers, the interrupt controller's
//! ports, the VGA memory window, the page-table-base register) is out of a
//! verifier's reach; every hardware register or memory window is therefore
//! modelled by an explicit value owned by the kernel context, and the
//! unverified glue that copies such values to and from the real machine
//! lives outside this library.

use vstd::prelude::*;

pub mod allocator;
pub mod gdt;
pub mod interrupts;
pub mod memory;
pub mod paging;
pub mod vga_buffer;

verus! {

/// The stages of kernel bring-up, in their required order.
///
/// Each stage is a one-way precondition for the next: descriptor setup
/// must precede the vector table load (the double-fault entry names a
/// stack slot of the task-state segment), the vector table must be in
/// place before the interrupt controller is remapped, and only then may
/// interrupts be enabled.
#[derive(PartialEq, Eq, Structural, Clone, Copy, Debug)]
pub enum Stage {
    Uninitialized,
    DescriptorsLoaded,
    VectorTableLoaded,
    ControllerRemapped,
    InterruptsEnabled,
}

/// The kernel context: every global the bring-up establishes, as one
/// explicit value with a checkable initialization order.
pub struct Kernel {
    /// Where in the bring-up sequence this kernel stands.
    pub stage: Stage,
    /// Base of the memory set aside for the double-fault stack.
    pub double_fault_stack_start: u64,
    /// Descriptor-table state.
    pub gdt: gdt::GdtState,
    /// The exception/interrupt vector table.
    pub idt: interrupts::Idt,
    /// The legacy interrupt-controller pair.
    pub pics: interrupts::ChainedPics,
    /// The text console.
    pub writer: vga_buffer::Writer,
    /// The last scan code a keyboard interrupt delivered.
    pub last_scancode: Option<u8>,
}

impl Kernel {
    /// The vector table has its 256 slots, the console its 25 rows, and
    /// the double-fault stack fits the address space.
    pub open spec fn wf(self) -> bool {
        &&& self.idt.wf()
        &&& self.writer.wf()
        &&& self.double_fault_stack_start + gdt::STACK_SIZE <= u64::MAX
    }

    /// A kernel before any bring-up step, with the given memory range
    /// (of `gdt::STACK_SIZE` bytes) reserved for the double-fault stack.
    pub fn new(double_fault_stack_start: u64) -> (r: Kernel)
        requires
            double_fault_stack_start + gdt::STACK_SIZE <= u64::MAX,
        ensures
            r.wf(),
            r.stage == Stage::Uninitialized,
            r.double_fault_stack_start == double_fault_stack_start,
            r.pics == (interrupts::ChainedPics {
                offset1: interrupts::PIC1_OFFSET,
                offset2: interrupts::PIC2_OFFSET,
                initialized: false,
                last_eoi: None,
            }),
            r.last_scancode is None,
            r.idt.entries@ == Seq::new(256, |i: int| None::<interrupts::IdtEntry>),
            r.gdt.table@ == Seq::<gdt::Descriptor>::empty(),
            r.gdt.tss.interrupt_stack_table@ == Seq::new(7, |i: int| 0u64),
            !r.gdt.gdt_loaded && !r.gdt.cs_loaded && !r.gdt.tss_loaded,
            r.writer.column_position == 0,
            r.writer.color_code == (vga_buffer::ColorCode(14)),
            r.writer.view_of() == Seq::new(
                25,
                |i: int| vga_buffer::spec_blank_row(vga_buffer::ColorCode(14)),
            ),
    {
        Kernel {
            stage: Stage::Uninitialized,
            double_fault_stack_start,
            gdt: gdt::GdtState::new(),
            idt: interrupts::Idt::new(),
            pics: interrupts::ChainedPics::new(interrupts::PIC1_OFFSET, interrupts::PIC2_OFFSET),
            writer: vga_buffer::Writer::new(
                vga_buffer::ColorCode::new(vga_buffer::Color::Yellow, vga_buffer::Color::Black),
            ),
            last_scancode: None,
        }
    }
}

/// Run the full bring-up sequence: descriptor setup, vector table load,
/// controller remap, then interrupts on.
///
/// Each step requires the stage its predecessor established, so this
/// sequence is the only way from `Uninitialized` to `InterruptsEnabled`.
pub fn init(k: &mut Kernel)
    requires
        old(k).wf(),
        old(k).stage == Stage::Uninitialized,
    ensures
        final(k).wf(),
        final(k).stage == Stage::InterruptsEnabled,
        final(k).idt.entries@ == interrupts::spec_loaded_idt(),
        final(k).gdt.tss.interrupt_stack_table@ == gdt::spec_ist(
            old(k).double_fault_stack_start,
        ),
        final(k).gdt.gdt_loaded && final(k).gdt.cs_loaded && final(k).gdt.tss_loaded,
        final(k).pics == (interrupts::ChainedPics {
            offset1: interrupts::PIC1_OFFSET,
            offset2: interrupts::PIC2_OFFSET,
            initialized: true,
            last_eoi: None,
        }),
        final(k).double_fault_stack_start == old(k).double_fault_stack_start,
        final(k).writer == old(k).writer,
{
    // Load the GDT.
    gdt::init(k);

    // Load the IDT.
    interrupts::init_idt(k);

    // Remap the controllers, then enable external interrupts.
    interrupts::init_pics(k);
    interrupts::enable_interrupts(k);
}

/// Something that can be run as a test by the kernel's own test runner.
pub trait Testable {
    /// Run the test; panics on failure.
    fn run(&self);
}

/// Run every test handed in and report how many ran.
pub fn test_runner<T: Testable>(tests: &Vec<T>) -> (count: usize)
    ensures
        count == tests.len(),
{
    let mut i: usize = 0;
    while i < tests.len()
        invariant
            i <= tests@.len(),
        decreases tests@.len() - i,
    {
        tests[i].run();
        i = i + 1;
    }
    i
}

/// Exit codes reported to the host through the debug-exit device.
#[derive(PartialEq, Eq, Structural, Clone, Copy, Debug)]
pub enum QemuExitCode {
    /// All tests passed.
    Success,
    /// A test failed.
    Failure,
}

impl QemuExitCode {
    /// The value written to the debug-exit port.
    pub fn as_u32(self) -> (r: u32)
        ensures
            self == QemuExitCode::Success ==> r == 0x10,
            self == QemuExitCode::Failure ==> r == 0x11,
    {
        match self {
            QemuExitCode::Success => 0x10,
            QemuExitCode::Failure => 0x11,
        }
    }
}

} // verus!
