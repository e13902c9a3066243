//! Interrupt descriptor table: raw gate encoding, the table of 256 gates,
//! the legacy interrupt controller's programming, and the order in which the
//! pieces are brought up.

use vstd::prelude::*;
use crate::exceptions::{DOUBLE_FAULT, GENERAL_PROTECTION, PAGE_FAULT};
use crate::gdt::DOUBLE_FAULT_IST_INDEX_FOR_IDT;

pub mod pic;

pub use self::pic::{remap_pic, send_eoi, PortWrite};

verus! {

/// Options of a present ring-0 interrupt gate that stays on the current stack.
pub const INTERRUPT_GATE: u16 = 0x8E00;

/// Number of gates in the table.
pub const IDT_LEN: usize = 256;

/// The 64-bit handler address that three offset fields stand for.
pub open spec fn join_offset(low: u16, mid: u16, high: u32) -> u64 {
    (low as u64) | ((mid as u64) << 16) | ((high as u64) << 32)
}

/// Bits 0 to 15 of a handler address.
pub open spec fn offset_low_of(handler: u64) -> u16 {
    (handler & 0xFFFF) as u16
}

/// Bits 16 to 31 of a handler address.
pub open spec fn offset_mid_of(handler: u64) -> u16 {
    ((handler >> 16) & 0xFFFF) as u16
}

/// Bits 32 to 63 of a handler address.
pub open spec fn offset_high_of(handler: u64) -> u32 {
    (handler >> 32) as u32
}

/// The options of an interrupt gate that switches to stack `ist` of the
/// interrupt stack table; 0 keeps the current stack.
pub open spec fn options_with_ist(options: u16, ist: u8) -> u16 {
    (options & !0x0007u16) | ((ist as u16) & 0x0007)
}

/// An interrupt gate with a stack index keeps the index and stays present.
pub proof fn lemma_gate_options(ist: u8)
    by (bit_vector)
    requires
        ist <= 7,
    ensures
        (((0x8E00u16 & !0x0007u16) | ((ist as u16) & 0x0007)) & 0x0007) as u8 == ist,
        ((0x8E00u16 & !0x0007u16) | ((ist as u16) & 0x0007)) & 0x8000 != 0,
        0x8E00u16 & 0x0007 == 0,
        0x8E00u16 & 0x8000 != 0,
        0u16 & 0x8000 == 0,
        ist == 0 ==> ((0x8E00u16 & !0x0007u16) | ((ist as u16) & 0x0007)) == 0x8E00,
{
}

/// Splitting an address into the three offset fields loses nothing.
pub proof fn lemma_offset_round_trip(handler: u64)
    by (bit_vector)
    ensures
        (((handler & 0xFFFF) as u16) as u64) | ((((handler >> 16) & 0xFFFF) as u16) as u64) << 16 | (((handler >> 32) as u32) as u64) << 32 == handler,
{
}

/// One 16-byte gate of the interrupt descriptor table.
#[derive(Clone, Copy, Debug, PartialEq, Eq, Structural)]
pub struct IdtEntry {
    pub offset_low: u16,
    pub selector: u16,
    pub options: u16,
    pub offset_mid: u16,
    pub offset_high: u32,
    pub reserved: u32,
}

impl IdtEntry {
    /// The handler address the entry dispatches to.
    pub open spec fn spec_handler(self) -> u64 {
        join_offset(self.offset_low, self.offset_mid, self.offset_high)
    }

    /// The interrupt-stack-table index held in the options (0 to 7).
    pub open spec fn spec_ist(self) -> u8 {
        (self.options & 0x0007) as u8
    }

    /// Whether the present bit of the options is set.
    pub open spec fn spec_present(self) -> bool {
        self.options & 0x8000 != 0
    }

    /// A gate that is not present: every field zero.
    pub fn missing() -> (entry: Self)
        ensures
            entry == (IdtEntry {
                offset_low: 0,
                selector: 0,
                options: 0,
                offset_mid: 0,
                offset_high: 0,
                reserved: 0,
            }),
            !entry.spec_present(),
    {
        proof {
            lemma_gate_options(0);
        }
        Self { offset_low: 0, selector: 0, options: 0, offset_mid: 0, offset_high: 0, reserved: 0 }
    }

    /// A present ring-0 interrupt gate for `handler`, reached through the
    /// code segment `selector`, on the current stack.
    pub fn new(handler: usize, selector: u16) -> (entry: Self)
        ensures
            entry == interrupt_gate(handler as u64, selector, 0),
            entry.spec_handler() == handler as u64,
            entry.selector == selector,
            entry.options == INTERRUPT_GATE,
            entry.reserved == 0,
            entry.spec_ist() == 0,
            entry.spec_present(),
    {
        let mut entry = Self::missing();
        entry.set_handler(handler);
        entry.selector = selector;
        entry.options = INTERRUPT_GATE;
        proof {
            lemma_gate_options(0);
        }
        entry
    }

    /// As `new`, and the entry switches to stack `ist` of the interrupt stack
    /// table (1 to 7); 0 keeps the current stack.
    pub fn new_with_ist(handler: usize, selector: u16, ist: u8) -> (entry: Self)
        requires
            ist <= 7,
        ensures
            entry == interrupt_gate(handler as u64, selector, ist),
            entry.spec_handler() == handler as u64,
            entry.selector == selector,
            entry.options == options_with_ist(INTERRUPT_GATE, ist),
            entry.reserved == 0,
            entry.spec_ist() == ist,
            entry.spec_present(),
    {
        let mut entry = Self::new(handler, selector);
        let ist_bits: u16 = (ist as u16) & 0x0007;
        entry.options = (entry.options & !0x0007u16) | ist_bits;
        proof {
            lemma_gate_options(ist);
        }
        entry
    }

    /// Stores `handler` in the three offset fields.
    pub fn set_handler(&mut self, handler: usize)
        ensures
            final(self).spec_handler() == handler as u64,
            final(self).offset_low == offset_low_of(handler as u64),
            final(self).offset_mid == offset_mid_of(handler as u64),
            final(self).offset_high == offset_high_of(handler as u64),
            final(self).selector == old(self).selector,
            final(self).options == old(self).options,
            final(self).reserved == old(self).reserved,
    {
        let address: u64 = handler as u64;
        proof {
            lemma_offset_round_trip(address);
        }
        self.offset_low = (address & 0xFFFF) as u16;
        self.offset_mid = ((address >> 16) & 0xFFFF) as u16;
        self.offset_high = (address >> 32) as u32;
    }

    /// The handler address the entry dispatches to.
    pub fn handler(&self) -> (address: u64)
        ensures
            address == self.spec_handler(),
    {
        (self.offset_low as u64) | ((self.offset_mid as u64) << 16) | ((self.offset_high as u64) << 32)
    }

    /// The interrupt-stack-table index of the entry.
    pub fn ist(&self) -> (index: u8)
        ensures
            index == self.spec_ist(),
            index <= 7,
    {
        let options = self.options;
        assert(options & 0x0007 <= 7) by (bit_vector);
        (self.options & 0x0007) as u8
    }

    /// Whether the entry may be dispatched to.
    pub fn is_present(&self) -> (present: bool)
        ensures
            present == self.spec_present(),
    {
        self.options & 0x8000 != 0
    }
}

/// The 16-bit value whose little-endian bytes are `b0`, `b1`.
pub open spec fn le_u16(b0: u8, b1: u8) -> u16 {
    (b0 as u16) | ((b1 as u16) << 8)
}

/// The 32-bit value whose little-endian bytes are `b0` to `b3`.
pub open spec fn le_u32(b0: u8, b1: u8, b2: u8, b3: u8) -> u32 {
    (b0 as u32) | ((b1 as u32) << 8) | ((b2 as u32) << 16) | ((b3 as u32) << 24)
}

/// Byte `k` (0 or 1) of a 16-bit value, least significant first.
pub open spec fn byte_of_u16(value: u16, k: int) -> u8 {
    if k == 0 {
        (value & 0xFF) as u8
    } else {
        (value >> 8) as u8
    }
}

/// Byte `k` (0 to 3) of a 32-bit value, least significant first.
pub open spec fn byte_of_u32(value: u32, k: int) -> u8 {
    if k == 0 {
        (value & 0xFF) as u8
    } else if k == 1 {
        ((value >> 8) & 0xFF) as u8
    } else if k == 2 {
        ((value >> 16) & 0xFF) as u8
    } else {
        (value >> 24) as u8
    }
}

/// Byte `k` (0 to 7) of a 64-bit value, least significant first.
pub open spec fn byte_of_u64(value: u64, k: int) -> u8 {
    if k < 4 {
        byte_of_u32((value & 0xFFFF_FFFF) as u32, k)
    } else {
        byte_of_u32((value >> 32) as u32, k - 4)
    }
}

/// Little-endian bytes and the integers they spell determine each other.
pub proof fn lemma_le_round_trip(half: u16, word: u32, quad: u64, b0: u8, b1: u8, b2: u8, b3: u8)
    by (bit_vector)
    ensures
        (((half & 0xFF) as u8) as u16) | ((((half >> 8) as u8) as u16) << 8) == half,
        (((word & 0xFF) as u8) as u32) | (((((word >> 8) & 0xFF) as u8) as u32) << 8) | (((((word
            >> 16) & 0xFF) as u8) as u32) << 16) | ((((word >> 24) as u8) as u32) << 24) == word,
        (((quad & 0xFFFF_FFFF) as u32) as u64) | ((((quad >> 32) as u32) as u64) << 32) == quad,
        ((((b0 as u16) | ((b1 as u16) << 8)) & 0xFF) as u8) == b0,
        ((((b0 as u16) | ((b1 as u16) << 8)) >> 8) as u8) == b1,
        (((b0 as u32) | ((b1 as u32) << 8) | ((b2 as u32) << 16) | ((b3 as u32) << 24)) & 0xFF) as u8
            == b0,
        ((((b0 as u32) | ((b1 as u32) << 8) | ((b2 as u32) << 16) | ((b3 as u32) << 24)) >> 8)
            & 0xFF) as u8 == b1,
        ((((b0 as u32) | ((b1 as u32) << 8) | ((b2 as u32) << 16) | ((b3 as u32) << 24)) >> 16)
            & 0xFF) as u8 == b2,
        (((b0 as u32) | ((b1 as u32) << 8) | ((b2 as u32) << 16) | ((b3 as u32) << 24)) >> 24) as u8
            == b3,
{
}

impl IdtEntry {
    /// The 16 bytes of the entry as the processor reads them: the fields in
    /// declaration order, each little-endian, with no padding.
    pub open spec fn spec_bytes(self) -> Seq<u8> {
        seq![
            byte_of_u16(self.offset_low, 0),
            byte_of_u16(self.offset_low, 1),
            byte_of_u16(self.selector, 0),
            byte_of_u16(self.selector, 1),
            byte_of_u16(self.options, 0),
            byte_of_u16(self.options, 1),
            byte_of_u16(self.offset_mid, 0),
            byte_of_u16(self.offset_mid, 1),
            byte_of_u32(self.offset_high, 0),
            byte_of_u32(self.offset_high, 1),
            byte_of_u32(self.offset_high, 2),
            byte_of_u32(self.offset_high, 3),
            byte_of_u32(self.reserved, 0),
            byte_of_u32(self.reserved, 1),
            byte_of_u32(self.reserved, 2),
            byte_of_u32(self.reserved, 3),
        ]
    }

    /// The entry that 16 bytes spell.
    pub open spec fn spec_from_bytes(b: Seq<u8>) -> IdtEntry {
        IdtEntry {
            offset_low: le_u16(b[0], b[1]),
            selector: le_u16(b[2], b[3]),
            options: le_u16(b[4], b[5]),
            offset_mid: le_u16(b[6], b[7]),
            offset_high: le_u32(b[8], b[9], b[10], b[11]),
            reserved: le_u32(b[12], b[13], b[14], b[15]),
        }
    }

    /// Encodes the entry into its 16 bytes.
    pub fn to_bytes(&self) -> (bytes: [u8; 16])
        ensures
            bytes@ == self.spec_bytes(),
    {
        let bytes = [
            (self.offset_low & 0xFF) as u8,
            (self.offset_low >> 8) as u8,
            (self.selector & 0xFF) as u8,
            (self.selector >> 8) as u8,
            (self.options & 0xFF) as u8,
            (self.options >> 8) as u8,
            (self.offset_mid & 0xFF) as u8,
            (self.offset_mid >> 8) as u8,
            (self.offset_high & 0xFF) as u8,
            ((self.offset_high >> 8) & 0xFF) as u8,
            ((self.offset_high >> 16) & 0xFF) as u8,
            (self.offset_high >> 24) as u8,
            (self.reserved & 0xFF) as u8,
            ((self.reserved >> 8) & 0xFF) as u8,
            ((self.reserved >> 16) & 0xFF) as u8,
            (self.reserved >> 24) as u8,
        ];
        assert(bytes@ =~= self.spec_bytes());
        bytes
    }

    /// Decodes a gate from its 16 bytes.
    pub fn from_bytes(bytes: &[u8; 16]) -> (entry: Self)
        ensures
            entry == Self::spec_from_bytes(bytes@),
    {
        Self {
            offset_low: (bytes[0] as u16) | ((bytes[1] as u16) << 8),
            selector: (bytes[2] as u16) | ((bytes[3] as u16) << 8),
            options: (bytes[4] as u16) | ((bytes[5] as u16) << 8),
            offset_mid: (bytes[6] as u16) | ((bytes[7] as u16) << 8),
            offset_high: (bytes[8] as u32) | ((bytes[9] as u32) << 8) | ((bytes[10] as u32) << 16)
                | ((bytes[11] as u32) << 24),
            reserved: (bytes[12] as u32) | ((bytes[13] as u32) << 8) | ((bytes[14] as u32) << 16)
                | ((bytes[15] as u32) << 24),
        }
    }
}

/// Decoding the bytes of a gate gives the entry back, field for field.
pub proof fn lemma_gate_bytes_round_trip(entry: IdtEntry)
    ensures
        entry.spec_bytes().len() == 16,
        IdtEntry::spec_from_bytes(entry.spec_bytes()) == entry,
{
    lemma_le_round_trip(entry.offset_low, entry.offset_high, 0, 0, 0, 0, 0);
    lemma_le_round_trip(entry.selector, entry.reserved, 0, 0, 0, 0, 0);
    lemma_le_round_trip(entry.options, 0, 0, 0, 0, 0, 0);
    lemma_le_round_trip(entry.offset_mid, 0, 0, 0, 0, 0, 0);
}

/// A gate built for a handler, a code selector and a stack index decodes,
/// through its 16 bytes, to the same address, selector and index, and is
/// present.
pub proof fn lemma_gate_round_trip(handler: u64, selector: u16, ist: u8)
    requires
        ist <= 7,
    ensures
        ({
            let decoded = IdtEntry::spec_from_bytes(interrupt_gate(handler, selector, ist).spec_bytes());
            &&& decoded == interrupt_gate(handler, selector, ist)
            &&& decoded.spec_handler() == handler
            &&& decoded.selector == selector
            &&& decoded.spec_ist() == ist
            &&& decoded.spec_present()
        }),
{
    lemma_gate_bytes_round_trip(interrupt_gate(handler, selector, ist));
    lemma_offset_round_trip(handler);
    lemma_gate_options(ist);
}

/// The operand of the table-load instruction: where the table starts and the
/// offset of its last byte.
#[derive(Clone, Copy, Debug, PartialEq, Eq, Structural)]
pub struct Idtr {
    pub limit: u16,
    pub base: u64,
}

impl Idtr {
    /// The 10 bytes of the operand: the limit, then the base, little-endian.
    pub open spec fn spec_bytes(self) -> Seq<u8> {
        seq![
            byte_of_u16(self.limit, 0),
            byte_of_u16(self.limit, 1),
            byte_of_u64(self.base, 0),
            byte_of_u64(self.base, 1),
            byte_of_u64(self.base, 2),
            byte_of_u64(self.base, 3),
            byte_of_u64(self.base, 4),
            byte_of_u64(self.base, 5),
            byte_of_u64(self.base, 6),
            byte_of_u64(self.base, 7),
        ]
    }

    /// The operand for a table of `len` gates that starts at `base`: the limit
    /// is the table's size in bytes minus one.
    pub fn for_table(base: u64, len: usize) -> (idtr: Self)
        requires
            0 < len <= 4096,
        ensures
            idtr.base == base,
            idtr.limit == len * 16 - 1,
    {
        Idtr { limit: (len * 16 - 1) as u16, base }
    }

    /// Encodes the operand into its 10 bytes.
    pub fn to_bytes(&self) -> (bytes: [u8; 10])
        ensures
            bytes@ == self.spec_bytes(),
    {
        let low: u32 = (self.base & 0xFFFF_FFFF) as u32;
        let high: u32 = (self.base >> 32) as u32;
        let bytes = [
            (self.limit & 0xFF) as u8,
            (self.limit >> 8) as u8,
            (low & 0xFF) as u8,
            ((low >> 8) & 0xFF) as u8,
            ((low >> 16) & 0xFF) as u8,
            (low >> 24) as u8,
            (high & 0xFF) as u8,
            ((high >> 8) & 0xFF) as u8,
            ((high >> 16) & 0xFF) as u8,
            (high >> 24) as u8,
        ];
        assert(bytes@ =~= self.spec_bytes());
        bytes
    }
}

/// Vectors that this kernel gives a handler besides the three exceptions.
#[derive(Clone, Copy, Debug, PartialEq, Eq, Structural)]
pub enum InterruptIndex {
    Breakpoint,
    Timer,
    Keyboard,
}

impl InterruptIndex {
    /// The vector number: 3 for the breakpoint, 0x20 for the timer, 0x21 for
    /// the keyboard.
    pub open spec fn spec_vector(self) -> u8 {
        match self {
            InterruptIndex::Breakpoint => 0x03,
            InterruptIndex::Timer => 0x20,
            InterruptIndex::Keyboard => 0x21,
        }
    }

    /// The vector number.
    pub fn as_u8(self) -> (vector: u8)
        ensures
            vector == self.spec_vector(),
    {
        match self {
            InterruptIndex::Breakpoint => 0x03,
            InterruptIndex::Timer => 0x20,
            InterruptIndex::Keyboard => 0x21,
        }
    }

    /// The vector number as a table index.
    pub fn as_usize(self) -> (vector: usize)
        ensures
            vector == self.spec_vector(),
    {
        match self {
            InterruptIndex::Breakpoint => 0x03,
            InterruptIndex::Timer => 0x20,
            InterruptIndex::Keyboard => 0x21,
        }
    }
}

/// The present ring-0 interrupt gate for a handler and code selector, on
/// stack `ist`.
pub open spec fn interrupt_gate(handler: u64, selector: u16, ist: u8) -> IdtEntry {
    IdtEntry {
        offset_low: offset_low_of(handler),
        selector: selector,
        options: options_with_ist(INTERRUPT_GATE, ist),
        offset_mid: offset_mid_of(handler),
        offset_high: offset_high_of(handler),
        reserved: 0,
    }
}

/// The entry that is not present.
pub open spec fn missing_gate() -> IdtEntry {
    IdtEntry { offset_low: 0, selector: 0, options: 0, offset_mid: 0, offset_high: 0, reserved: 0 }
}

/// Addresses of the six entry points that the table dispatches to.
#[derive(Clone, Copy, Debug, PartialEq, Eq, Structural)]
pub struct HandlerAddresses {
    pub breakpoint: usize,
    pub timer: usize,
    pub keyboard: usize,
    pub page_fault: usize,
    pub general_protection: usize,
    pub double_fault: usize,
}

/// The entry that the populated table holds at `vector`: the six handlers at
/// vectors 3, 0x20, 0x21, 14, 13 and 8, the last on the double-fault stack,
/// and a missing gate everywhere else.
pub open spec fn populated_gate(handlers: HandlerAddresses, selector: u16, vector: int) -> IdtEntry {
    if vector == 3 {
        interrupt_gate(handlers.breakpoint as u64, selector, 0)
    } else if vector == 0x20 {
        interrupt_gate(handlers.timer as u64, selector, 0)
    } else if vector == 0x21 {
        interrupt_gate(handlers.keyboard as u64, selector, 0)
    } else if vector == 14 {
        interrupt_gate(handlers.page_fault as u64, selector, 0)
    } else if vector == 13 {
        interrupt_gate(handlers.general_protection as u64, selector, 0)
    } else if vector == 8 {
        interrupt_gate(handlers.double_fault as u64, selector, DOUBLE_FAULT_IST_INDEX_FOR_IDT as u8)
    } else {
        missing_gate()
    }
}

/// The interrupt descriptor table: 256 gates, indexed by vector.
pub struct Idt {
    entries: [IdtEntry; 256],
}

impl View for Idt {
    type V = Seq<IdtEntry>;

    closed spec fn view(&self) -> Seq<IdtEntry> {
        self.entries@
    }
}

impl Idt {
    /// A table in which every gate is missing.
    pub fn new() -> (idt: Self)
        ensures
            idt@.len() == 256,
            forall|v: int| 0 <= v < 256 ==> idt@[v] == missing_gate(),
    {
        Idt { entries: [IdtEntry::missing(); 256] }
    }

    /// Installs `entry` at `vector`.
    pub fn set(&mut self, vector: u8, entry: IdtEntry)
        ensures
            final(self)@ == old(self)@.update(vector as int, entry),
    {
        self.entries[vector as usize] = entry;
    }

    /// The entry at `vector`.
    pub fn get(&self, vector: u8) -> (entry: IdtEntry)
        ensures
            self@.len() == 256,
            entry == self@[vector as int],
    {
        self.entries[vector as usize]
    }

    /// The table with the kernel's six handlers installed, all reached
    /// through the code segment `selector`.
    pub fn populated(handlers: &HandlerAddresses, selector: u16) -> (idt: Self)
        ensures
            idt@.len() == 256,
            forall|v: int| 0 <= v < 256 ==> idt@[v] == populated_gate(*handlers, selector, v),
    {
        let mut idt = Idt::new();
        proof {
            lemma_gate_options(0);
            lemma_gate_options(1);
        }
        idt.set(InterruptIndex::Breakpoint.as_u8(), IdtEntry::new(handlers.breakpoint, selector));
        idt.set(InterruptIndex::Timer.as_u8(), IdtEntry::new(handlers.timer, selector));
        idt.set(InterruptIndex::Keyboard.as_u8(), IdtEntry::new(handlers.keyboard, selector));
        idt.set(PAGE_FAULT, IdtEntry::new(handlers.page_fault, selector));
        idt.set(GENERAL_PROTECTION, IdtEntry::new(handlers.general_protection, selector));
        idt.set(
            DOUBLE_FAULT,
            IdtEntry::new_with_ist(handlers.double_fault, selector, DOUBLE_FAULT_IST_INDEX_FOR_IDT as u8),
        );
        idt
    }
}

/// One privileged action of bringing the interrupt subsystem up.
#[derive(Clone, Copy, Debug, PartialEq, Eq, Structural)]
pub enum InitStep {
    /// Write a byte to an I/O port.
    Out(PortWrite),
    /// Load the table register with this operand.
    LoadIdt(Idtr),
    /// Enable interrupts globally.
    EnableInterrupts,
}

/// The actions of bringing the subsystem up, in order: the controller remap,
/// the table load for a table at `idt_base`, and last the global enable.
pub open spec fn init_steps(idt_base: u64) -> Seq<InitStep> {
    pic::remap_program().map_values(|w: PortWrite| InitStep::Out(w)).push(
        InitStep::LoadIdt(Idtr { limit: 4095, base: idt_base }),
    ).push(InitStep::EnableInterrupts)
}

/// What `init` hands back: the table to place at the agreed address, and the
/// privileged actions to perform once it is there.
pub struct InterruptSetup {
    pub idt: Idt,
    pub steps: Vec<InitStep>,
}

/// Prepares the interrupt subsystem: the table with the six handlers, to be
/// placed at `idt_base`, and the actions that activate it.
pub fn init(handlers: &HandlerAddresses, selector: u16, idt_base: u64) -> (setup: InterruptSetup)
    ensures
        setup.idt@.len() == 256,
        forall|v: int| 0 <= v < 256 ==> setup.idt@[v] == populated_gate(*handlers, selector, v),
        setup.steps@ == init_steps(idt_base),
{
    let idt = Idt::populated(handlers, selector);
    let program = remap_pic();
    let mut steps: Vec<InitStep> = Vec::new();
    let mut i: usize = 0;
    while i < program.len()
        invariant
            i <= program.len(),
            steps@ == program@.take(i as int).map_values(|w: PortWrite| InitStep::Out(w)),
        decreases program.len() - i,
    {
        steps.push(InitStep::Out(program[i]));
        assert(steps@ =~= program@.take(i + 1).map_values(|w: PortWrite| InitStep::Out(w)));
        i += 1;
    }
    assert(program@.take(i as int) == program@);
    steps.push(InitStep::LoadIdt(Idtr::for_table(idt_base, IDT_LEN)));
    steps.push(InitStep::EnableInterrupts);
    InterruptSetup { idt, steps }
}

/// In the bring-up order the controllers are remapped first, the table is
/// loaded next, and interrupts are enabled by the last action and by no
/// earlier one.
pub proof fn lemma_init_order(idt_base: u64)
    ensures
        ({
            let steps = init_steps(idt_base);
            let n = pic::remap_program().len() as int;
            &&& steps.len() == n + 2
            &&& forall|i: int| 0 <= i < n ==> steps[i] == InitStep::Out(#[trigger] pic::remap_program()[i])
            &&& steps[n] == InitStep::LoadIdt(Idtr { limit: 4095, base: idt_base })
            &&& steps[n + 1] == InitStep::EnableInterrupts
            &&& forall|i: int| 0 <= i <= n ==> #[trigger] steps[i] != InitStep::EnableInterrupts
        }),
{
}

/// Whether this kernel's table is the one the processor dispatches through.
/// Loading is one-way: a loaded table is only ever replaced by another.
#[derive(Clone, Copy, Debug, PartialEq, Eq, Structural)]
pub enum TableState {
    /// Whatever the firmware left is active.
    Unloaded,
    /// The table behind this operand is active.
    Loaded(Idtr),
}

/// What bringing the subsystem up changes: the active table, the global
/// interrupt flag, and the controllers.
#[derive(Clone, Copy, Debug, PartialEq, Eq, Structural)]
pub struct InterruptState {
    pub table: TableState,
    pub enabled: bool,
    pub pics: pic::ChainedPics,
}

impl InterruptState {
    /// The state after one action.
    pub open spec fn spec_advance(self, step: InitStep) -> InterruptState {
        match step {
            InitStep::Out(write) => InterruptState { pics: self.pics.spec_write(write), ..self },
            InitStep::LoadIdt(idtr) => InterruptState { table: TableState::Loaded(idtr), ..self },
            InitStep::EnableInterrupts => InterruptState { enabled: true, ..self },
        }
    }

    /// The state after a sequence of actions, first to last.
    pub open spec fn spec_run(self, steps: Seq<InitStep>) -> InterruptState
        decreases steps.len(),
    {
        if steps.len() == 0 {
            self
        } else {
            self.spec_run(steps.drop_last()).spec_advance(steps.last())
        }
    }

    /// The state as the boot loader hands the machine over: no table of this
    /// kernel active, interrupts off, the controllers as the firmware left
    /// them.
    pub fn new() -> (state: Self)
        ensures
            state.table == TableState::Unloaded,
            !state.enabled,
    {
        InterruptState { table: TableState::Unloaded, enabled: false, pics: pic::ChainedPics::new() }
    }

    /// Applies one action.
    pub fn advance(&mut self, step: InitStep)
        ensures
            *final(self) == old(self).spec_advance(step),
    {
        match step {
            InitStep::Out(write) => {
                self.pics.write(write);
            },
            InitStep::LoadIdt(idtr) => {
                self.table = TableState::Loaded(idtr);
            },
            InitStep::EnableInterrupts => {
                self.enabled = true;
            },
        }
    }

    /// Applies a sequence of actions, first to last.
    pub fn run(&mut self, steps: &Vec<InitStep>)
        ensures
            *final(self) == old(self).spec_run(steps@),
    {
        let mut i: usize = 0;
        while i < steps.len()
            invariant
                i <= steps.len(),
                *self == old(self).spec_run(steps@.take(i as int)),
            decreases steps.len() - i,
        {
            assert(steps@.take(i + 1).drop_last() == steps@.take(i as int));
            self.advance(steps[i]);
            i += 1;
        }
        assert(steps@.take(i as int) == steps@);
    }
}

/// Running port writes as actions changes the controllers as the writes do
/// and nothing else.
pub proof fn lemma_run_writes(state: InterruptState, program: Seq<PortWrite>)
    ensures
        state.spec_run(program.map_values(|w: PortWrite| InitStep::Out(w))) == (InterruptState {
            pics: state.pics.spec_run(program),
            ..state
        }),
    decreases program.len(),
{
    let steps = program.map_values(|w: PortWrite| InitStep::Out(w));
    if program.len() > 0 {
        lemma_run_writes(state, program.drop_last());
        assert(steps.drop_last() =~= program.drop_last().map_values(|w: PortWrite| InitStep::Out(w)));
        assert(steps.last() == InitStep::Out(program.last()));
    }
}

/// Bringing the subsystem up from a state with interrupts off: at the end
/// this kernel's table of 256 entries is loaded, interrupts are on, and the
/// controllers are remapped with only the timer and the keyboard open; and
/// interrupts are still off after every action but the last.
pub proof fn lemma_init_result(before: InterruptState, idt_base: u64)
    requires
        !before.enabled,
    ensures
        ({
            let steps = init_steps(idt_base);
            let after = before.spec_run(steps);
            &&& after.table == TableState::Loaded(Idtr { limit: 4095, base: idt_base })
            &&& after.enabled
            &&& after.pics == before.pics.spec_run(pic::remap_program())
            &&& after.pics.master.offset == pic::MASTER_OFFSET
            &&& after.pics.slave.offset == pic::SLAVE_OFFSET
            &&& forall|line: u8| line < 16 ==> (after.pics.spec_masked(line) <==> line >= 2)
            &&& forall|n: int| 0 <= n < steps.len() ==> !before.spec_run(#[trigger] steps.take(n)).enabled
        }),
{
    let program = pic::remap_program();
    let writes = program.map_values(|w: PortWrite| InitStep::Out(w));
    let load = InitStep::LoadIdt(Idtr { limit: 4095, base: idt_base });
    let steps = init_steps(idt_base);
    pic::lemma_remap_result(before.pics);
    lemma_run_writes(before, program);
    assert(writes.push(load).drop_last() =~= writes);
    assert(steps.drop_last() =~= writes.push(load));
    assert forall|n: int| 0 <= n < steps.len() implies !before.spec_run(#[trigger] steps.take(n)).enabled by {
        if n <= program.len() {
            assert(steps.take(n) =~= program.take(n).map_values(|w: PortWrite| InitStep::Out(w)));
            lemma_run_writes(before, program.take(n));
        } else {
            assert(steps.take(n) =~= writes.push(load));
        }
    }
}

} // verus!
