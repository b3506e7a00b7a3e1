//! Segment descriptor and task-state setup: the table that gives the
//! kernel its code segment and the alternate stack reserved for the
//! double-fault handler.

use vstd::prelude::*;

use crate::{Kernel, Stage};

verus! {

/// Index in the interrupt stack table for the double fault handler.
pub const DOUBLE_FAULT_IST_INDEX: u16 = 0;

/// Size of the double-fault handler's dedicated stack.
pub const STACK_SIZE: u64 = 4096 * 5;

/// Interrupt-stack-table slots a task-state segment holds.
pub const IST_SLOTS: usize = 7;

/// The kinds of segment descriptor this kernel installs.
#[derive(PartialEq, Eq, Structural, Clone, Copy, Debug)]
pub enum Descriptor {
    KernelCodeSegment,
    TssSegment,
}

/// The task-state record; here it only carries the interrupt stack
/// table, whose first slot holds the double-fault stack's top.
pub struct TaskStateSegment {
    pub interrupt_stack_table: Vec<u64>,
}

/// A selector into the descriptor table.
#[derive(PartialEq, Eq, Structural, Clone, Copy, Debug)]
pub struct SegmentSelector {
    pub index: u16,
}

/// The descriptor table together with the registers it is loaded into:
/// the model's image of the CPU's descriptor-table state.
pub struct GdtState {
    pub table: Vec<Descriptor>,
    pub tss: TaskStateSegment,
    pub cs_sel: SegmentSelector,
    pub tss_sel: SegmentSelector,
    pub gdt_loaded: bool,
    pub cs_loaded: bool,
    pub tss_loaded: bool,
}

/// The interrupt stack table after setup: the double-fault slot holds
/// the top of the dedicated stack, every other slot is empty.
pub open spec fn spec_ist(stack_start: u64) -> Seq<u64> {
    Seq::new(
        7,
        |i: int|
            if i == DOUBLE_FAULT_IST_INDEX {
                (stack_start + STACK_SIZE) as u64
            } else {
                0u64
            },
    )
}

impl GdtState {
    /// An empty descriptor state: nothing built, nothing loaded.
    pub fn new() -> (r: GdtState)
        ensures
            r.table@ == Seq::<Descriptor>::empty(),
            r.tss.interrupt_stack_table@ == Seq::new(7, |i: int| 0u64),
            r.cs_sel.index == 0,
            r.tss_sel.index == 0,
            !r.gdt_loaded,
            !r.cs_loaded,
            !r.tss_loaded,
    {
        let mut ist: Vec<u64> = Vec::new();
        let mut i: usize = 0;
        while i < IST_SLOTS
            invariant
                i <= 7,
                ist@.len() == i,
                forall|j: int| 0 <= j < i ==> ist@[j] == 0u64,
            decreases 7 - i,
        {
            ist.push(0);
            i = i + 1;
        }
        proof {
            assert(ist@ =~= Seq::new(7, |i: int| 0u64));
        }
        GdtState {
            table: Vec::new(),
            tss: TaskStateSegment { interrupt_stack_table: ist },
            cs_sel: SegmentSelector { index: 0 },
            tss_sel: SegmentSelector { index: 0 },
            gdt_loaded: false,
            cs_loaded: false,
            tss_loaded: false,
        }
    }
}

/// Build the descriptor table and load it: a kernel code segment and a
/// task-state segment whose first interrupt-stack slot holds the top of
/// the double-fault stack; then the table, the code-segment register and
/// the task register are loaded.
///
/// This is the first bring-up step and must run before the vector table
/// is installed, whose double-fault entry names the stack slot set here.
pub fn init(k: &mut Kernel)
    requires
        old(k).wf(),
        old(k).stage == Stage::Uninitialized,
    ensures
        final(k).wf(),
        final(k).stage == Stage::DescriptorsLoaded,
        final(k).gdt.table@ == seq![Descriptor::KernelCodeSegment, Descriptor::TssSegment],
        final(k).gdt.tss.interrupt_stack_table@ == spec_ist(old(k).double_fault_stack_start),
        final(k).gdt.cs_sel == (SegmentSelector { index: 1 }),
        final(k).gdt.tss_sel == (SegmentSelector { index: 2 }),
        final(k).gdt.gdt_loaded,
        final(k).gdt.cs_loaded,
        final(k).gdt.tss_loaded,
        *final(k) == (Kernel { stage: Stage::DescriptorsLoaded, gdt: final(k).gdt, ..*old(k) }),
{
    let mut gdt = GdtState::new();

    // The double-fault stack: its top goes into the reserved slot.
    let stack_top = k.double_fault_stack_start + STACK_SIZE;
    gdt.tss.interrupt_stack_table[DOUBLE_FAULT_IST_INDEX as usize] = stack_top;

    // Build the table and remember the selectors.
    gdt.table.push(Descriptor::KernelCodeSegment);
    gdt.cs_sel = SegmentSelector { index: 1 };
    gdt.table.push(Descriptor::TssSegment);
    gdt.tss_sel = SegmentSelector { index: 2 };

    // Load the table, reload the code-segment register, load the task
    // register.
    gdt.gdt_loaded = true;
    gdt.cs_loaded = true;
    gdt.tss_loaded = true;

    proof {
        assert(gdt.tss.interrupt_stack_table@ =~= spec_ist(k.double_fault_stack_start));
        assert(gdt.table@ =~= seq![Descriptor::KernelCodeSegment, Descriptor::TssSegment]);
    }
    k.gdt = gdt;
    k.stage = Stage::DescriptorsLoaded;
}

} // verus!
