//! The segment tables: the global descriptor table with the kernel's code
//! segment and the task state segment, and in the task state segment the
//! stack that is held ready for double faults.

use vstd::prelude::*;
use crate::addr::is_canonical;

verus! {

/// The place in the interrupt stack table of the stack for double faults.
pub const DOUBLE_FAULT_IST_INDEX: u16 = 0;

/// The number of stacks that the interrupt stack table holds.
pub const IST_ENTRIES: usize = 7;

/// The descriptor of the kernel's 64-bit code segment.
pub const KERNEL_CODE_SEGMENT: u64 = 0x00af_9b00_0000_ffff;

/// The bits of the descriptor that
/// `x86_64::structures::gdt::Descriptor::kernel_code_segment` makes: a user
/// segment with the flags of a 64-bit kernel code segment (present,
/// executable, long mode, and the limit and the flags common to all
/// segments).
#[verifier::external_body]
fn kernel_code_segment() -> (bits: u64)
    ensures
        bits == KERNEL_CODE_SEGMENT,
{
    match x86_64::structures::gdt::Descriptor::kernel_code_segment() {
        x86_64::structures::gdt::Descriptor::UserSegment(bits) => bits,
        x86_64::structures::gdt::Descriptor::SystemSegment(low, _) => low,
    }
}

/// The selector that `x86_64::registers::segmentation::SegmentSelector::new`
/// makes for the table entry at `index` and the kernel's privilege level:
/// the index shifted left by three bits, with privilege level zero below.
#[verifier::external_body]
fn kernel_selector(index: u16) -> (selector: u16)
    requires
        index < 0x2000,
    ensures
        selector == index * 8,
{
    x86_64::registers::segmentation::SegmentSelector::new(index, x86_64::PrivilegeLevel::Ring0).0
}

/// One entry of the global descriptor table.
#[derive(Clone, Copy, Debug, PartialEq, Eq, Structural)]
pub enum GdtEntry {
    /// The entry at index zero, which describes nothing.
    Null,
    /// A code or data segment, as the bits of its descriptor.
    UserSegment(u64),
    /// The first of the two entries that describe the task state segment.
    TssLow,
    /// The second of the two entries that describe the task state segment.
    TssHigh,
}

/// The global descriptor table: its entries from index zero on.
pub struct GlobalDescriptorTable {
    table: Vec<GdtEntry>,
}

impl View for GlobalDescriptorTable {
    type V = Seq<GdtEntry>;

    closed spec fn view(&self) -> Seq<GdtEntry> {
        self.table@
    }
}

impl GlobalDescriptorTable {
    /// A table that holds the null entry only.
    pub fn new() -> (gdt: GlobalDescriptorTable)
        ensures
            gdt@ == seq![GdtEntry::Null],
    {
        let mut table: Vec<GdtEntry> = Vec::new();
        table.push(GdtEntry::Null);
        assert(table@ =~= seq![GdtEntry::Null]);
        GlobalDescriptorTable { table }
    }

    /// Adds a code or data segment, and gives the selector of its entry.
    pub fn append_user_segment(&mut self, bits: u64) -> (selector: u16)
        requires
            old(self)@.len() < 0x2000,
        ensures
            final(self)@ == old(self)@.push(GdtEntry::UserSegment(bits)),
            selector == old(self)@.len() * 8,
    {
        let index: usize = self.table.len();
        self.table.push(GdtEntry::UserSegment(bits));
        kernel_selector(index as u16)
    }

    /// Adds the two entries of the task state segment, and gives the
    /// selector of the first.
    pub fn append_tss_segment(&mut self) -> (selector: u16)
        requires
            old(self)@.len() < 0x1fff,
        ensures
            final(self)@ == old(self)@.push(GdtEntry::TssLow).push(GdtEntry::TssHigh),
            selector == old(self)@.len() * 8,
    {
        let index: usize = self.table.len();
        self.table.push(GdtEntry::TssLow);
        self.table.push(GdtEntry::TssHigh);
        kernel_selector(index as u16)
    }

    /// The number of entries.
    pub fn len(&self) -> (len: usize)
        ensures
            len == self@.len(),
    {
        self.table.len()
    }

    /// The entry at `index`, if there is one.
    pub fn entry(&self, index: usize) -> (entry: Option<GdtEntry>)
        ensures
            entry == if index < self@.len() {
                Some(self@[index as int])
            } else {
                None::<GdtEntry>
            },
    {
        if index < self.table.len() {
            Some(self.table[index])
        } else {
            None
        }
    }
}

/// The selectors of the segments that the kernel loads.
#[derive(Clone, Copy, Debug, PartialEq, Eq, Structural)]
pub struct Selectors {
    /// The selector of the kernel's code segment.
    pub code_selector: u16,
    /// The selector of the task state segment.
    pub tss_selector: u16,
}

/// The task state segment, as far as the kernel uses it: the table of the
/// stacks to which the processor switches for chosen interrupts. An entry
/// holds the top of its stack, or zero.
pub struct TaskStateSegment {
    /// The tops of the stacks, by their place in the table.
    pub interrupt_stack_table: [u64; 7],
}

impl View for TaskStateSegment {
    type V = Seq<u64>;

    open spec fn view(&self) -> Seq<u64> {
        self.interrupt_stack_table@
    }
}

impl TaskStateSegment {
    /// A task state segment without stacks.
    pub fn new() -> (tss: TaskStateSegment)
        ensures
            tss@ == Seq::new(7, |i: int| 0u64),
    {
        let tss = TaskStateSegment { interrupt_stack_table: [0u64; 7] };
        assert(tss@ =~= Seq::new(7, |i: int| 0u64));
        tss
    }

    /// Makes `stack_top` the top of the stack at `index`.
    pub fn set_interrupt_stack(&mut self, index: u16, stack_top: u64)
        requires
            index < 7,
        ensures
            final(self)@ == old(self)@.update(index as int, stack_top),
    {
        self.interrupt_stack_table[index as usize] = stack_top;
    }

    /// The top of the stack at `index`, or `None` if the table has no such
    /// entry.
    pub fn interrupt_stack(&self, index: u16) -> (stack_top: Option<u64>)
        ensures
            self@.len() == 7,
            stack_top == if index < 7 {
                Some(self@[index as int])
            } else {
                None::<u64>
            },
    {
        if index < 7 {
            Some(self.interrupt_stack_table[index as usize])
        } else {
            None
        }
    }
}

/// The tables that `init` builds.
pub struct DescriptorTables {
    /// The global descriptor table.
    pub gdt: GlobalDescriptorTable,
    /// The task state segment.
    pub tss: TaskStateSegment,
    /// The selectors to load.
    pub selectors: Selectors,
}

/// The interrupt stack table with the stack for double faults: its top at
/// the place for double faults, zero elsewhere.
pub open spec fn spec_interrupt_stacks(stack_start: u64, stack_size: u64) -> Seq<u64> {
    Seq::new(
        7,
        |i: int|
            if i == DOUBLE_FAULT_IST_INDEX {
                (stack_start + stack_size) as u64
            } else {
                0u64
            },
    )
}

/// The global descriptor table that the kernel loads: the null entry, the
/// kernel's code segment, and the task state segment.
pub open spec fn spec_gdt() -> Seq<GdtEntry> {
    seq![
        GdtEntry::Null,
        GdtEntry::UserSegment(KERNEL_CODE_SEGMENT),
        GdtEntry::TssLow,
        GdtEntry::TssHigh,
    ]
}

/// Builds the tables for the kernel: a task state segment whose stack for
/// double faults is the storage of `stack_size` bytes at `stack_start`, and a
/// global descriptor table with the kernel's code segment and that task state
/// segment. The stack grows downwards, so its top is the storage's end.
pub fn init(stack_start: u64, stack_size: u64) -> (tables: DescriptorTables)
    requires
        stack_start + stack_size <= u64::MAX,
        is_canonical(stack_start),
        is_canonical((stack_start + stack_size) as u64),
    ensures
        tables.tss@ == spec_interrupt_stacks(stack_start, stack_size),
        tables.gdt@ == spec_gdt(),
        tables.selectors == (Selectors { code_selector: 8, tss_selector: 16 }),
{
    let mut tss = TaskStateSegment::new();
    let stack_end: u64 = stack_start + stack_size;
    tss.set_interrupt_stack(DOUBLE_FAULT_IST_INDEX, stack_end);
    let mut gdt = GlobalDescriptorTable::new();
    let code_selector: u16 = gdt.append_user_segment(kernel_code_segment());
    let tss_selector: u16 = gdt.append_tss_segment();
    assert(tss@ =~= spec_interrupt_stacks(stack_start, stack_size));
    assert(gdt@ =~= spec_gdt());
    DescriptorTables { gdt, tss, selectors: Selectors { code_selector, tss_selector } }
}

} // verus!
