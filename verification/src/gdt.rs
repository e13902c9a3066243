//! Global descriptor table and task state segment: the kernel code segment,
//! the descriptor of the task state segment, and the stack reserved for the
//! double-fault handler.

use vstd::prelude::*;
use x86_64::structures::gdt::{Descriptor, GlobalDescriptorTable};
use x86_64::structures::tss::TaskStateSegment;

verus! {

/// Slot of the interrupt stack table that holds the double-fault stack.
pub const DOUBLE_FAULT_IST_INDEX: u16 = 0;

/// The same slot as an interrupt gate names it: slots count from 1 there.
pub const DOUBLE_FAULT_IST_INDEX_FOR_IDT: u16 = 1;

/// Size in bytes of the stack reserved for the double-fault handler.
pub const DF_STACK_SIZE: usize = 20480;

/// Raw bits of the 64-bit kernel code segment: a present, executable,
/// long-mode user segment of ring 0, flat, accessed and readable.
pub const KERNEL_CODE64: u64 = 0x00AF_9B00_0000_FFFF;

/// Offset of the last byte of a task state segment without an I/O bitmap.
pub const TSS_LIMIT: u16 = 0x67;

/// Selector of the kernel code segment in the table that `build` makes.
pub const CODE_SELECTOR: u16 = 0x08;

/// Selector of the task state segment in the table that `build` makes.
pub const TSS_SELECTOR: u16 = 0x10;

#[verifier::external_type_specification]
#[verifier::external_body]
pub struct ExGlobalDescriptorTable<const MAX: usize>(x86_64::structures::gdt::GlobalDescriptorTable<MAX>);

#[verifier::external_type_specification]
#[verifier::external_body]
pub struct ExTaskStateSegment(x86_64::structures::tss::TaskStateSegment);

/// The raw entries of a descriptor table, the null entry first.
pub uninterp spec fn gdt_entries(table: GlobalDescriptorTable) -> Seq<u64>;

/// The seven stack tops of a task state segment's interrupt stack table.
pub uninterp spec fn tss_stacks(tss: TaskStateSegment) -> Seq<u64>;

/// A descriptor as the table stores it: one raw entry for a code or data
/// segment, two for a system segment.
#[derive(Clone, Copy, Debug, PartialEq, Eq, Structural)]
pub enum SegmentDescriptor {
    User(u64),
    System(u64, u64),
}

impl SegmentDescriptor {
    /// The first raw entry, which holds the privilege level.
    pub open spec fn low(self) -> u64 {
        match self {
            SegmentDescriptor::User(bits) => bits,
            SegmentDescriptor::System(low, _) => low,
        }
    }

    /// The raw entries the descriptor occupies.
    pub open spec fn entries(self) -> Seq<u64> {
        match self {
            SegmentDescriptor::User(bits) => seq![bits],
            SegmentDescriptor::System(low, high) => seq![low, high],
        }
    }
}

/// The selector of the descriptor at `index` whose first entry is `low`: the
/// index in bits 3 and up, the descriptor's privilege level in bits 0 and 1.
pub open spec fn selector_for(index: int, low: u64) -> u16 {
    ((index as u16) << 3) | (((low >> 45) & 3) as u16)
}

/// Whether bits 48 to 63 of an address repeat bit 47.
pub open spec fn canonical(address: u64) -> bool {
    address < 0x0000_8000_0000_0000 || address >= 0xFFFF_8000_0000_0000
}

/// Whether bits 48 to 63 of an address repeat bit 47.
pub fn is_canonical(address: u64) -> (ok: bool)
    ensures
        ok == canonical(address),
{
    address < 0x0000_8000_0000_0000 || address >= 0xFFFF_8000_0000_0000
}

/// `Descriptor::kernel_code_segment`: a code segment whose raw bits are the
/// 64-bit kernel code flags.
#[verifier::external_body]
fn kernel_code_segment() -> (descriptor: SegmentDescriptor)
    ensures
        descriptor == SegmentDescriptor::User(KERNEL_CODE64),
{
    match Descriptor::kernel_code_segment() {
        Descriptor::UserSegment(bits) => SegmentDescriptor::User(bits),
        Descriptor::SystemSegment(low, high) => SegmentDescriptor::System(low, high),
    }
}

/// `GlobalDescriptorTable::new`: a table of eight slots that holds only the
/// null entry.
#[verifier::external_body]
fn gdt_new() -> (table: GlobalDescriptorTable)
    ensures
        gdt_entries(table) == seq![0u64],
{
    GlobalDescriptorTable::new()
}

/// `GlobalDescriptorTable::append`: stores the descriptor's entries after
/// those already there and returns the selector of the first of them, which
/// carries the descriptor's privilege level. The table has eight slots; the
/// call panics when the descriptor does not fit.
#[verifier::external_body]
fn gdt_append(table: &mut GlobalDescriptorTable, descriptor: SegmentDescriptor) -> (selector: u16)
    requires
        gdt_entries(*old(table)).len() + descriptor.entries().len() <= 8,
    ensures
        gdt_entries(*final(table)) == gdt_entries(*old(table)) + descriptor.entries(),
        selector == selector_for(gdt_entries(*old(table)).len() as int, descriptor.low()),
{
    let outside = match descriptor {
        SegmentDescriptor::User(bits) => Descriptor::UserSegment(bits),
        SegmentDescriptor::System(low, high) => Descriptor::SystemSegment(low, high),
    };
    table.append(outside).0
}

/// `GlobalDescriptorTable::entries` with `Entry::raw` on each: the raw
/// entries in use, the null entry first.
#[verifier::external_body]
fn gdt_raw(table: &GlobalDescriptorTable) -> (raw: Vec<u64>)
    ensures
        raw@ == gdt_entries(*table),
{
    table.entries().iter().map(|entry| entry.raw()).collect()
}

/// `TaskStateSegment::new`: every stack top of the interrupt stack table is
/// zero.
#[verifier::external_body]
fn tss_new() -> (tss: TaskStateSegment)
    ensures
        tss_stacks(tss) == Seq::new(7, |i: int| 0u64),
{
    TaskStateSegment::new()
}

/// Stores `top`, through `VirtAddr::new`, in slot `index` of the interrupt
/// stack table. `VirtAddr::new` panics on an address that is not canonical.
#[verifier::external_body]
fn tss_set_stack(tss: &mut TaskStateSegment, index: usize, top: u64)
    requires
        index < 7,
        canonical(top),
    ensures
        tss_stacks(*final(tss)) == tss_stacks(*old(tss)).update(index as int, top),
{
    tss.interrupt_stack_table[index] = x86_64::VirtAddr::new(top);
}

/// Reads slot `index` of the interrupt stack table with `VirtAddr::as_u64`.
#[verifier::external_body]
fn tss_stack(tss: &TaskStateSegment, index: usize) -> (top: u64)
    requires
        index < 7,
    ensures
        top == tss_stacks(*tss)[index as int],
{
    let table = tss.interrupt_stack_table;
    table[index].as_u64()
}

/// First raw entry of the descriptor of a task state segment at `base` whose
/// last byte is at offset `limit`: present, type 9 (available 64-bit task
/// state segment), ring 0, with bits 0 to 31 of the base.
pub open spec fn tss_descriptor_low(base: u64, limit: u16) -> u64 {
    0x0000_8900_0000_0000u64 | (limit as u64) | ((base & 0xFF_FFFF) << 16) | (((base >> 24) & 0xFF)
        << 56)
}

/// Second raw entry of that descriptor: bits 32 to 63 of the base.
pub open spec fn tss_descriptor_high(base: u64) -> u64 {
    base >> 32
}

/// The base address that two raw entries of a system descriptor hold.
pub open spec fn descriptor_base(low: u64, high: u64) -> u64 {
    ((low >> 16) & 0xFF_FFFF) | (((low >> 56) & 0xFF) << 24) | ((high & 0xFFFF_FFFF) << 32)
}

/// The limit that the first raw entry of a system descriptor holds.
pub open spec fn descriptor_limit(low: u64) -> u16 {
    (low & 0xFFFF) as u16
}

/// The type field, bits 40 to 43, of a raw entry.
pub open spec fn descriptor_type(low: u64) -> u64 {
    (low >> 40) & 0xF
}

/// Whether a raw entry has the present bit, bit 47.
pub open spec fn descriptor_present(low: u64) -> bool {
    low & 0x0000_8000_0000_0000 != 0
}

/// The descriptor of a task state segment gives back its base and limit, is
/// present, has type 9 and privilege level 0.
pub proof fn lemma_tss_descriptor_round_trip(base: u64, limit: u16)
    by (bit_vector)
    ensures
        (((0x0000_8900_0000_0000u64 | (limit as u64) | ((base & 0xFF_FFFF) << 16) | (((base >> 24)
            & 0xFF) << 56)) >> 16) & 0xFF_FFFF) | ((((0x0000_8900_0000_0000u64 | (limit as u64) | ((
        base & 0xFF_FFFF) << 16) | (((base >> 24) & 0xFF) << 56)) >> 56) & 0xFF) << 24) | (((base
            >> 32) & 0xFFFF_FFFF) << 32) == base,
        ((0x0000_8900_0000_0000u64 | (limit as u64) | ((base & 0xFF_FFFF) << 16) | (((base >> 24)
            & 0xFF) << 56)) & 0xFFFF) as u16 == limit,
        ((0x0000_8900_0000_0000u64 | (limit as u64) | ((base & 0xFF_FFFF) << 16) | (((base >> 24)
            & 0xFF) << 56)) >> 40) & 0xF == 9,
        (0x0000_8900_0000_0000u64 | (limit as u64) | ((base & 0xFF_FFFF) << 16) | (((base >> 24)
            & 0xFF) << 56)) & 0x0000_8000_0000_0000 != 0,
        ((0x0000_8900_0000_0000u64 | (limit as u64) | ((base & 0xFF_FFFF) << 16) | (((base >> 24)
            & 0xFF) << 56)) >> 45) & 3 == 0,
        (0x00AF_9B00_0000_FFFFu64 >> 45) & 3 == 0,
        ((1u16 << 3) | (0u64 as u16)) == 0x08,
        ((2u16 << 3) | (0u64 as u16)) == 0x10,
{
}

/// The descriptor of the task state segment at `base`.
pub fn tss_descriptor(base: u64) -> (descriptor: SegmentDescriptor)
    ensures
        descriptor == SegmentDescriptor::System(
            tss_descriptor_low(base, TSS_LIMIT),
            tss_descriptor_high(base),
        ),
        descriptor_base(descriptor.low(), tss_descriptor_high(base)) == base,
        descriptor_limit(descriptor.low()) == TSS_LIMIT,
        descriptor_type(descriptor.low()) == 9,
        descriptor_present(descriptor.low()),
{
    proof {
        lemma_tss_descriptor_round_trip(base, TSS_LIMIT);
    }
    let low: u64 = 0x0000_8900_0000_0000u64 | (TSS_LIMIT as u64) | ((base & 0xFF_FFFF) << 16) | (((base
        >> 24) & 0xFF) << 56);
    let high: u64 = base >> 32;
    SegmentDescriptor::System(low, high)
}

/// The top of a stack of `DF_STACK_SIZE` bytes that starts at `start`: the
/// highest address inside or just past it that is a multiple of 16.
pub open spec fn spec_stack_top(start: u64) -> u64 {
    ((start + DF_STACK_SIZE) - (start + DF_STACK_SIZE) % 16) as u64
}

/// The top of the double-fault stack that starts at `start`.
pub fn stack_top(start: u64) -> (top: u64)
    requires
        start + DF_STACK_SIZE <= u64::MAX,
    ensures
        top == spec_stack_top(start),
        top % 16 == 0,
        start + DF_STACK_SIZE - 16 < top <= start + DF_STACK_SIZE,
{
    let end: u64 = start + DF_STACK_SIZE as u64;
    end - end % 16
}

/// The two selectors that `build` hands out.
#[derive(Clone, Copy, Debug, PartialEq, Eq, Structural)]
pub struct Selectors {
    pub code: u16,
    pub tss: u16,
}

/// The task state segment whose double-fault slot holds the top of the stack
/// that starts at `stack_start`; the other slots stay zero.
pub fn build_tss(stack_start: u64) -> (tss: TaskStateSegment)
    requires
        stack_start + DF_STACK_SIZE <= u64::MAX,
        canonical(spec_stack_top(stack_start)),
    ensures
        tss_stacks(tss) == Seq::new(7, |i: int| 0u64).update(
            DOUBLE_FAULT_IST_INDEX as int,
            spec_stack_top(stack_start),
        ),
{
    let mut tss = tss_new();
    tss_set_stack(&mut tss, DOUBLE_FAULT_IST_INDEX as usize, stack_top(stack_start));
    tss
}

/// The descriptor table for a task state segment at `tss_base`: the null
/// entry, the kernel code segment, and the two entries of the task state
/// segment's descriptor, in this order; with the selectors of the two.
pub fn build(tss_base: u64) -> (built: (GlobalDescriptorTable, Selectors))
    ensures
        gdt_entries(built.0) == seq![
            0u64,
            KERNEL_CODE64,
            tss_descriptor_low(tss_base, TSS_LIMIT),
            tss_descriptor_high(tss_base),
        ],
        built.1 == (Selectors { code: CODE_SELECTOR, tss: TSS_SELECTOR }),
{
    proof {
        lemma_tss_descriptor_round_trip(tss_base, TSS_LIMIT);
    }
    let mut table = gdt_new();
    let code = gdt_append(&mut table, kernel_code_segment());
    let tss = gdt_append(&mut table, tss_descriptor(tss_base));
    assert(gdt_entries(table) =~= seq![
        0u64,
        KERNEL_CODE64,
        tss_descriptor_low(tss_base, TSS_LIMIT),
        tss_descriptor_high(tss_base),
    ]);
    (table, Selectors { code, tss })
}

/// The raw entries of a descriptor table, the null entry first.
pub fn raw_entries(table: &GlobalDescriptorTable) -> (raw: Vec<u64>)
    ensures
        raw@ == gdt_entries(*table),
{
    gdt_raw(table)
}

/// The stack that a gate with stack index `ist` makes the processor switch
/// to: none for index 0, else slot `ist - 1` of the interrupt stack table.
pub open spec fn spec_handler_stack(stacks: Seq<u64>, ist: u8) -> Option<u64> {
    if ist == 0 {
        None
    } else {
        Some(stacks[ist - 1])
    }
}

/// The stack that a gate with stack index `ist` makes the processor switch to.
pub fn handler_stack(tss: &TaskStateSegment, ist: u8) -> (top: Option<u64>)
    requires
        ist <= 7,
    ensures
        top == spec_handler_stack(tss_stacks(*tss), ist),
{
    if ist == 0 {
        None
    } else {
        Some(tss_stack(tss, (ist - 1) as usize))
    }
}

/// One privileged action of installing the descriptor table.
#[derive(Clone, Copy, Debug, PartialEq, Eq, Structural)]
pub enum InstallStep {
    /// Load the table register with the descriptor table.
    LoadTable,
    /// Reload the code-segment register with this selector.
    SetCodeSegment(u16),
    /// Load the task register with this selector.
    LoadTaskRegister(u16),
}

/// The actions that install the table, in the order they must run: the table
/// first, then the code segment, then the task register.
pub fn install(selectors: Selectors) -> (steps: [InstallStep; 3])
    ensures
        steps@ == seq![
            InstallStep::LoadTable,
            InstallStep::SetCodeSegment(selectors.code),
            InstallStep::LoadTaskRegister(selectors.tss),
        ],
{
    let steps = [
        InstallStep::LoadTable,
        InstallStep::SetCodeSegment(selectors.code),
        InstallStep::LoadTaskRegister(selectors.tss),
    ];
    assert(steps@ =~= seq![
        InstallStep::LoadTable,
        InstallStep::SetCodeSegment(selectors.code),
        InstallStep::LoadTaskRegister(selectors.tss),
    ]);
    steps
}

/// What `init` hands back: the task state segment, to be placed at the
/// agreed address; the descriptor table; the selectors of its two
/// descriptors; and the actions that install the table once both are in
/// place.
pub struct DescriptorSetup {
    pub tss: TaskStateSegment,
    pub table: GlobalDescriptorTable,
    pub selectors: Selectors,
    pub steps: [InstallStep; 3],
}

/// Prepares the descriptor tables: the task state segment with the top of
/// the double-fault stack that starts at `stack_start` in its first slot,
/// the table with the kernel code segment and the descriptor of a task
/// state segment at `tss_base`, and the actions that install them: table,
/// code segment, task register.
pub fn init(stack_start: u64, tss_base: u64) -> (setup: DescriptorSetup)
    requires
        stack_start + DF_STACK_SIZE <= u64::MAX,
        canonical(spec_stack_top(stack_start)),
    ensures
        tss_stacks(setup.tss) == Seq::new(7, |i: int| 0u64).update(
            DOUBLE_FAULT_IST_INDEX as int,
            spec_stack_top(stack_start),
        ),
        gdt_entries(setup.table) == seq![
            0u64,
            KERNEL_CODE64,
            tss_descriptor_low(tss_base, TSS_LIMIT),
            tss_descriptor_high(tss_base),
        ],
        setup.selectors == (Selectors { code: CODE_SELECTOR, tss: TSS_SELECTOR }),
        setup.steps@ == seq![
            InstallStep::LoadTable,
            InstallStep::SetCodeSegment(CODE_SELECTOR),
            InstallStep::LoadTaskRegister(TSS_SELECTOR),
        ],
{
    let tss = build_tss(stack_start);
    let (table, selectors) = build(tss_base);
    let steps = install(selectors);
    DescriptorSetup { tss, table, selectors, steps }
}

} // verus!
