//! Interrupt dispatch: the 256-entry vector table, the legacy
//! dual-controller remap, and the handlers, driven here by a simulated
//! interrupt source instead of the physical controller.

use vstd::prelude::*;
use vstd::string::StringSliceAdditionalSpecFns;

use crate::gdt::DOUBLE_FAULT_IST_INDEX;
use crate::vga_buffer::{lemma_write_bytes_append, spec_hex_bytes, spec_write_bytes};
use crate::{Kernel, Stage};

verus! {

/// Vector the first controller's interrupts are remapped to.
pub const PIC1_OFFSET: u8 = 32;

/// Vector the second controller's interrupts are remapped to.
pub const PIC2_OFFSET: u8 = PIC1_OFFSET + 8;

/// Vector number of the breakpoint exception.
pub const BREAKPOINT_VECTOR: u8 = 3;

/// Vector number of the double fault exception.
pub const DOUBLE_FAULT_VECTOR: u8 = 8;

/// Vector number of the page fault exception.
pub const PAGE_FAULT_VECTOR: u8 = 14;

/// Hardware interrupt vectors after the controller remap.
#[derive(PartialEq, Eq, Structural, Clone, Copy, Debug)]
pub enum InterruptIndex {
    /// Clock tick.
    Timer,
    /// Keyboard controller.
    Keyboard,
}

impl InterruptIndex {
    /// The vector number of this interrupt.
    pub open spec fn spec_as_u8(self) -> u8 {
        match self {
            InterruptIndex::Timer => PIC1_OFFSET,
            InterruptIndex::Keyboard => (PIC1_OFFSET + 1) as u8,
        }
    }

    /// The vector number of this interrupt.
    pub fn as_u8(self) -> (r: u8)
        ensures
            r == self.spec_as_u8(),
    {
        match self {
            InterruptIndex::Timer => PIC1_OFFSET,
            InterruptIndex::Keyboard => PIC1_OFFSET + 1,
        }
    }
}

/// The handlers this kernel wires into the vector table.
#[derive(PartialEq, Eq, Structural, Clone, Copy, Debug)]
pub enum HandlerKind {
    Breakpoint,
    DoubleFault,
    PageFault,
    Timer,
    Keyboard,
}

/// One vector table entry: the handler and, if set, the
/// interrupt-stack-table slot it runs on.
#[derive(PartialEq, Eq, Structural, Clone, Copy, Debug)]
pub struct IdtEntry {
    pub handler: HandlerKind,
    pub stack_index: Option<u16>,
}

/// The 256-entry exception/interrupt vector table.
pub struct Idt {
    pub entries: Vec<Option<IdtEntry>>,
}

impl Idt {
    /// The table has exactly 256 vectors.
    pub open spec fn wf(self) -> bool {
        self.entries@.len() == 256
    }

    /// A table with every vector empty.
    pub fn new() -> (r: Idt)
        ensures
            r.wf(),
            r.entries@ == Seq::new(256, |i: int| None::<IdtEntry>),
    {
        let mut entries: Vec<Option<IdtEntry>> = Vec::new();
        let mut i: usize = 0;
        while i < 256
            invariant
                i <= 256,
                entries@.len() == i,
                forall|j: int| 0 <= j < i ==> entries@[j] is None,
            decreases 256 - i,
        {
            entries.push(None);
            i = i + 1;
        }
        proof {
            assert(entries@ =~= Seq::new(256, |i: int| None::<IdtEntry>));
        }
        Idt { entries }
    }
}

/// The vector table this kernel installs: breakpoint, double fault on
/// the dedicated stack, page fault, and the two remapped hardware
/// vectors; every other vector stays empty.
pub open spec fn spec_loaded_idt() -> Seq<Option<IdtEntry>> {
    Seq::new(
        256,
        |i: int|
            if i == BREAKPOINT_VECTOR {
                Some(IdtEntry { handler: HandlerKind::Breakpoint, stack_index: None })
            } else if i == DOUBLE_FAULT_VECTOR {
                Some(
                    IdtEntry {
                        handler: HandlerKind::DoubleFault,
                        stack_index: Some(DOUBLE_FAULT_IST_INDEX),
                    },
                )
            } else if i == PAGE_FAULT_VECTOR {
                Some(IdtEntry { handler: HandlerKind::PageFault, stack_index: None })
            } else if i == PIC1_OFFSET {
                Some(IdtEntry { handler: HandlerKind::Timer, stack_index: None })
            } else if i == PIC1_OFFSET + 1 {
                Some(IdtEntry { handler: HandlerKind::Keyboard, stack_index: None })
            } else {
                None
            },
    )
}

/// The legacy chained interrupt-controller pair, as the model sees it:
/// the vector offsets it was programmed with, whether the remap ran, and
/// the vector last acknowledged.
pub struct ChainedPics {
    pub offset1: u8,
    pub offset2: u8,
    pub initialized: bool,
    pub last_eoi: Option<u8>,
}

impl ChainedPics {
    /// A controller pair awaiting its remap.
    pub fn new(offset1: u8, offset2: u8) -> (r: ChainedPics)
        ensures
            r == (ChainedPics { offset1, offset2, initialized: false, last_eoi: None }),
    {
        ChainedPics { offset1, offset2, initialized: false, last_eoi: None }
    }

    /// Acknowledge the end of handling for `vector`, releasing the
    /// controller to deliver lower-priority interrupts again.
    pub fn notify_end_of_interrupt(&mut self, vector: u8)
        requires
            old(self).initialized,
        ensures
            *final(self) == (ChainedPics { last_eoi: Some(vector), ..*old(self) }),
    {
        self.last_eoi = Some(vector);
    }
}

/// Build the vector table and load it.
///
/// Runs only after descriptor setup: the double-fault entry names the
/// interrupt-stack slot that setup established.
pub fn init_idt(k: &mut Kernel)
    requires
        old(k).wf(),
        old(k).stage == Stage::DescriptorsLoaded,
    ensures
        final(k).wf(),
        final(k).stage == Stage::VectorTableLoaded,
        final(k).idt.entries@ == spec_loaded_idt(),
        *final(k) == (Kernel {
            stage: Stage::VectorTableLoaded,
            idt: final(k).idt,
            ..*old(k)
        }),
{
    let mut idt = Idt::new();
    idt.entries[BREAKPOINT_VECTOR as usize] = Some(
        IdtEntry { handler: HandlerKind::Breakpoint, stack_index: None },
    );
    // The double fault handler runs on its dedicated stack.
    idt.entries[DOUBLE_FAULT_VECTOR as usize] = Some(
        IdtEntry { handler: HandlerKind::DoubleFault, stack_index: Some(DOUBLE_FAULT_IST_INDEX) },
    );
    idt.entries[PAGE_FAULT_VECTOR as usize] = Some(
        IdtEntry { handler: HandlerKind::PageFault, stack_index: None },
    );
    idt.entries[InterruptIndex::Timer.as_u8() as usize] = Some(
        IdtEntry { handler: HandlerKind::Timer, stack_index: None },
    );
    idt.entries[InterruptIndex::Keyboard.as_u8() as usize] = Some(
        IdtEntry { handler: HandlerKind::Keyboard, stack_index: None },
    );
    proof {
        assert(idt.entries@ =~= spec_loaded_idt());
    }
    k.idt = idt;
    k.stage = Stage::VectorTableLoaded;
}

/// Remap and enable the chained interrupt controllers.
///
/// The controllers boot mapped over the CPU's exception vectors; before
/// any hardware interrupt may be unmasked they are reprogrammed to the
/// offsets the vector table expects.
pub fn init_pics(k: &mut Kernel)
    requires
        old(k).wf(),
        old(k).stage == Stage::VectorTableLoaded,
    ensures
        final(k).wf(),
        final(k).stage == Stage::ControllerRemapped,
        final(k).pics == (ChainedPics {
            offset1: PIC1_OFFSET,
            offset2: PIC2_OFFSET,
            initialized: true,
            last_eoi: None,
        }),
        *final(k) == (Kernel {
            stage: Stage::ControllerRemapped,
            pics: final(k).pics,
            ..*old(k)
        }),
{
    k.pics = ChainedPics {
        offset1: PIC1_OFFSET,
        offset2: PIC2_OFFSET,
        initialized: true,
        last_eoi: None,
    };
    k.stage = Stage::ControllerRemapped;
}

/// Enable interrupts globally: the final bring-up step, legal only once
/// the vector table is loaded and the controllers are remapped.
pub fn enable_interrupts(k: &mut Kernel)
    requires
        old(k).wf(),
        old(k).stage == Stage::ControllerRemapped,
    ensures
        final(k).wf(),
        final(k).stage == Stage::InterruptsEnabled,
        *final(k) == (Kernel { stage: Stage::InterruptsEnabled, ..*old(k) }),
{
    k.stage = Stage::InterruptsEnabled;
}

/// What a handler tells the dispatcher about the interrupted code.
#[derive(PartialEq, Eq, Structural, Clone, Copy, Debug)]
pub enum HandlerOutcome {
    /// Execution resumes at the interrupted instruction.
    Resumed,
    /// The fault is fatal: the processor halts.
    Halted,
}

/// Breakpoint exception: a diagnostic trap; execution resumes.
pub fn breakpoint_handler(k: &mut Kernel) -> (r: HandlerOutcome)
    requires
        old(k).wf(),
    ensures
        final(k).wf(),
        r == HandlerOutcome::Resumed,
        *final(k) == (Kernel { writer: final(k).writer, ..*old(k) }),
        (final(k).writer.view_of(), final(k).writer.column_position as int) == spec_write_bytes(
            old(k).writer.view_of(),
            old(k).writer.column_position as int,
            old(k).writer.color_code,
            "EXCEPTION: BREAKPOINT\n".spec_bytes(),
        ),
{
    k.writer.write_string("EXCEPTION: BREAKPOINT\n");
    HandlerOutcome::Resumed
}

/// Double fault: always fatal, and the one handler that runs on the
/// alternate stack established at descriptor setup.
pub fn double_fault_handler(k: &mut Kernel, _error_code: u64) -> (r: HandlerOutcome)
    requires
        old(k).wf(),
    ensures
        final(k).wf(),
        r == HandlerOutcome::Halted,
        *final(k) == (Kernel { writer: final(k).writer, ..*old(k) }),
        (final(k).writer.view_of(), final(k).writer.column_position as int) == spec_write_bytes(
            old(k).writer.view_of(),
            old(k).writer.column_position as int,
            old(k).writer.color_code,
            "EXCEPTION: DOUBLE FAULT\n".spec_bytes(),
        ),
{
    k.writer.write_string("EXCEPTION: DOUBLE FAULT\n");
    HandlerOutcome::Halted
}

/// The page-fault diagnostic: the exception name, the faulting address
/// and the access-violation bits, each value in hex on its own line.
pub open spec fn page_fault_message(accessed_address: u64, error_code: u64) -> Seq<u8> {
    "EXCEPTION: PAGE FAULT\nAccessed Address: 0x".spec_bytes() + spec_hex_bytes(accessed_address)
        + "\nError Code: 0x".spec_bytes() + spec_hex_bytes(error_code) + "\n".spec_bytes()
}

/// Page fault: reports the faulting address and the access-violation
/// bits, then halts; no recovery path exists.
///
/// Both values arrive as plain numbers: on hardware the entry glue reads
/// the faulting address out of the control register and receives the
/// error code pushed by the CPU.
pub fn page_fault_handler(k: &mut Kernel, accessed_address: u64, error_code: u64) -> (r:
    HandlerOutcome)
    requires
        old(k).wf(),
    ensures
        final(k).wf(),
        r == HandlerOutcome::Halted,
        *final(k) == (Kernel { writer: final(k).writer, ..*old(k) }),
        (final(k).writer.view_of(), final(k).writer.column_position as int) == spec_write_bytes(
            old(k).writer.view_of(),
            old(k).writer.column_position as int,
            old(k).writer.color_code,
            page_fault_message(accessed_address, error_code),
        ),
{
    let ghost b0 = old(k).writer.view_of();
    let ghost c0 = old(k).writer.column_position as int;
    let ghost cc = old(k).writer.color_code;
    k.writer.write_string("EXCEPTION: PAGE FAULT\nAccessed Address: 0x");
    k.writer.write_hex(accessed_address);
    k.writer.write_string("\nError Code: 0x");
    k.writer.write_hex(error_code);
    k.writer.write_string("\n");
    proof {
        let s1 = "EXCEPTION: PAGE FAULT\nAccessed Address: 0x".spec_bytes();
        let s2 = spec_hex_bytes(accessed_address);
        let s3 = "\nError Code: 0x".spec_bytes();
        let s4 = spec_hex_bytes(error_code);
        let s5 = "\n".spec_bytes();
        lemma_write_bytes_append(b0, c0, cc, s1, s2);
        lemma_write_bytes_append(b0, c0, cc, s1 + s2, s3);
        lemma_write_bytes_append(b0, c0, cc, s1 + s2 + s3, s4);
        lemma_write_bytes_append(b0, c0, cc, s1 + s2 + s3 + s4, s5);
    }
    HandlerOutcome::Halted
}

/// Clock tick: prints its mark, then signals end of interrupt before
/// returning, releasing the controller for lower-priority interrupts.
pub fn timer_interrupt_handler(k: &mut Kernel) -> (r: HandlerOutcome)
    requires
        old(k).wf(),
        old(k).pics.initialized,
    ensures
        final(k).wf(),
        r == HandlerOutcome::Resumed,
        final(k).pics == (ChainedPics {
            last_eoi: Some(InterruptIndex::Timer.spec_as_u8()),
            ..old(k).pics
        }),
        *final(k) == (Kernel {
            writer: final(k).writer,
            pics: final(k).pics,
            ..*old(k)
        }),
        (final(k).writer.view_of(), final(k).writer.column_position as int) == spec_write_bytes(
            old(k).writer.view_of(),
            old(k).writer.column_position as int,
            old(k).writer.color_code,
            ".".spec_bytes(),
        ),
{
    k.writer.write_string(".");
    k.pics.notify_end_of_interrupt(InterruptIndex::Timer.as_u8());
    HandlerOutcome::Resumed
}

/// Keyboard controller: takes the scan code read from the data port,
/// records it for the decoding layer, and signals end of interrupt.
///
/// Turning scan codes into keys belongs to the decoding collaborator
/// outside this core.
pub fn keyboard_interrupt_handler(k: &mut Kernel, scancode: u8) -> (r: HandlerOutcome)
    requires
        old(k).wf(),
        old(k).pics.initialized,
    ensures
        final(k).wf(),
        r == HandlerOutcome::Resumed,
        final(k).last_scancode == Some(scancode),
        final(k).pics == (ChainedPics {
            last_eoi: Some(InterruptIndex::Keyboard.spec_as_u8()),
            ..old(k).pics
        }),
        *final(k) == (Kernel {
            last_scancode: Some(scancode),
            pics: final(k).pics,
            ..*old(k)
        }),
{
    k.last_scancode = Some(scancode);
    k.pics.notify_end_of_interrupt(InterruptIndex::Keyboard.as_u8());
    HandlerOutcome::Resumed
}

/// Dispatch one numbered event through the vector table, as the hardware
/// would: an empty vector is unhandled, every installed handler runs to
/// completion and reports whether execution resumes.
///
/// The extra values are what the machine supplies alongside the vector
/// number: `data` is the byte a hardware source offers (the keyboard's
/// data port), and `accessed_address` and `error_code` are the control
/// register's faulting address and the CPU-pushed error code, which only
/// the fault vectors read.
pub fn dispatch(
    k: &mut Kernel,
    vector: u8,
    data: u8,
    accessed_address: u64,
    error_code: u64,
) -> (r: Option<HandlerOutcome>)
    requires
        old(k).wf(),
        old(k).pics.initialized,
    ensures
        final(k).wf(),
        match old(k).idt.entries@[vector as int] {
            None => r is None && *final(k) == *old(k),
            Some(entry) => {
                &&& r is Some
                &&& (entry.handler == HandlerKind::Breakpoint ==> r == Some(
                    HandlerOutcome::Resumed,
                ) && *final(k) == (Kernel { writer: final(k).writer, ..*old(k) }) && (final(k).writer.view_of(), final(k).writer.column_position as int)
                    == spec_write_bytes(
                    old(k).writer.view_of(),
                    old(k).writer.column_position as int,
                    old(k).writer.color_code,
                    "EXCEPTION: BREAKPOINT\n".spec_bytes(),
                ))
                &&& (entry.handler == HandlerKind::DoubleFault ==> r == Some(
                    HandlerOutcome::Halted,
                ) && *final(k) == (Kernel { writer: final(k).writer, ..*old(k) }) && (final(k).writer.view_of(), final(k).writer.column_position as int)
                    == spec_write_bytes(
                    old(k).writer.view_of(),
                    old(k).writer.column_position as int,
                    old(k).writer.color_code,
                    "EXCEPTION: DOUBLE FAULT\n".spec_bytes(),
                ))
                &&& (entry.handler == HandlerKind::PageFault ==> r == Some(
                    HandlerOutcome::Halted,
                ) && *final(k) == (Kernel { writer: final(k).writer, ..*old(k) }) && (final(k).writer.view_of(), final(k).writer.column_position as int)
                    == spec_write_bytes(
                    old(k).writer.view_of(),
                    old(k).writer.column_position as int,
                    old(k).writer.color_code,
                    page_fault_message(accessed_address, error_code),
                ))
                &&& (entry.handler == HandlerKind::Timer ==> r == Some(HandlerOutcome::Resumed)
                    && final(k).pics.last_eoi == Some(InterruptIndex::Timer.spec_as_u8())
                    && *final(k) == (Kernel {
                    writer: final(k).writer,
                    pics: final(k).pics,
                    ..*old(k)
                }) && (final(k).writer.view_of(), final(k).writer.column_position as int)
                    == spec_write_bytes(
                    old(k).writer.view_of(),
                    old(k).writer.column_position as int,
                    old(k).writer.color_code,
                    ".".spec_bytes(),
                ))
                &&& (entry.handler == HandlerKind::Keyboard ==> r == Some(
                    HandlerOutcome::Resumed,
                ) && final(k).pics.last_eoi == Some(InterruptIndex::Keyboard.spec_as_u8())
                    && final(k).last_scancode == Some(data))
            },
        },
{
    let entry = k.idt.entries[vector as usize];
    match entry {
        None => None,
        Some(e) => match e.handler {
            HandlerKind::Breakpoint => Some(breakpoint_handler(k)),
            HandlerKind::DoubleFault => Some(double_fault_handler(k, error_code)),
            HandlerKind::PageFault => Some(page_fault_handler(k, accessed_address, error_code)),
            HandlerKind::Timer => Some(timer_interrupt_handler(k)),
            HandlerKind::Keyboard => Some(keyboard_interrupt_handler(k, data)),
        },
    }
}

} // verus!
