//! The pair of legacy 8259 interrupt controllers: the port writes that program
//! them, and a register-level model of what those writes do.

use vstd::prelude::*;

verus! {

/// Command port of the master controller.
pub const MASTER_COMMAND: u16 = 0x20;

/// Data port of the master controller.
pub const MASTER_DATA: u16 = 0x21;

/// Command port of the slave controller.
pub const SLAVE_COMMAND: u16 = 0xA0;

/// Data port of the slave controller.
pub const SLAVE_DATA: u16 = 0xA1;

/// An unused port; a write to it only takes time.
pub const IO_WAIT_PORT: u16 = 0x80;

/// First vector of the master controller after remapping.
pub const MASTER_OFFSET: u8 = 0x20;

/// First vector of the slave controller after remapping.
pub const SLAVE_OFFSET: u8 = 0x28;

/// Mask of the master controller after remapping: lines 0 and 1 open.
pub const MASTER_MASK: u8 = 0xFC;

/// Mask of the slave controller after remapping: every line closed.
pub const SLAVE_MASK: u8 = 0xFF;

/// Line of the interval timer.
pub const TIMER_IRQ: u8 = 0;

/// Line of the keyboard.
pub const KEYBOARD_IRQ: u8 = 1;

/// First line that the slave controller serves.
pub const FIRST_SLAVE_IRQ: u8 = 8;

/// The end-of-interrupt command.
pub const END_OF_INTERRUPT: u8 = 0x20;

/// One byte written to one I/O port.
#[derive(Clone, Copy, Debug, PartialEq, Eq, Structural)]
pub struct PortWrite {
    pub port: u16,
    pub value: u8,
}

/// What a controller expects next on its data port.
#[derive(Clone, Copy, Debug, PartialEq, Eq, Structural)]
pub enum PicPhase {
    /// Operating: a data write sets the mask register.
    Ready,
    /// Initialising: the next data write is the vector offset.
    AwaitOffset,
    /// Initialising: the next data write is the cascade wiring.
    AwaitCascade,
    /// Initialising: the next data write is the mode word.
    AwaitMode,
}

/// The registers of one 8259 controller that programming can change.
#[derive(Clone, Copy, Debug, PartialEq, Eq, Structural)]
pub struct Pic8259 {
    pub phase: PicPhase,
    /// First vector the controller raises; the low three bits are the line.
    pub offset: u8,
    /// Interrupt mask register: a set bit closes the line.
    pub mask: u8,
    /// Cascade wiring given at initialisation.
    pub cascade: u8,
    /// Mode word given at initialisation.
    pub mode: u8,
    /// The running initialisation ends with a mode word.
    pub wants_mode: bool,
    /// The running initialisation has no cascade word.
    pub single: bool,
}

impl Pic8259 {
    /// The controller after `value` was written to its command port. A value
    /// with bit 4 starts an initialisation, which also opens every line; the
    /// other commands change none of these registers.
    pub open spec fn spec_command(self, value: u8) -> Pic8259 {
        if value & 0x10 != 0 {
            Pic8259 {
                phase: PicPhase::AwaitOffset,
                mask: 0,
                wants_mode: value & 0x01 != 0,
                single: value & 0x02 != 0,
                ..self
            }
        } else {
            self
        }
    }

    /// The controller after `value` was written to its data port.
    pub open spec fn spec_data(self, value: u8) -> Pic8259 {
        match self.phase {
            PicPhase::Ready => Pic8259 { mask: value, ..self },
            PicPhase::AwaitOffset => Pic8259 {
                offset: value & 0xF8,
                phase: if !self.single {
                    PicPhase::AwaitCascade
                } else if self.wants_mode {
                    PicPhase::AwaitMode
                } else {
                    PicPhase::Ready
                },
                ..self
            },
            PicPhase::AwaitCascade => Pic8259 {
                cascade: value,
                phase: if self.wants_mode {
                    PicPhase::AwaitMode
                } else {
                    PicPhase::Ready
                },
                ..self
            },
            PicPhase::AwaitMode => Pic8259 { mode: value, phase: PicPhase::Ready, ..self },
        }
    }

    /// An operating controller with every line open and vectors starting at
    /// `offset`.
    pub open spec fn spec_new(offset: u8) -> Pic8259 {
        Pic8259 {
            phase: PicPhase::Ready,
            offset: offset,
            mask: 0,
            cascade: 0,
            mode: 0,
            wants_mode: false,
            single: false,
        }
    }

    /// A controller as the firmware leaves it: operating, every line open,
    /// vectors starting at `offset`.
    pub fn new(offset: u8) -> (pic: Self)
        ensures
            pic == Self::spec_new(offset),
    {
        Pic8259 {
            phase: PicPhase::Ready,
            offset,
            mask: 0,
            cascade: 0,
            mode: 0,
            wants_mode: false,
            single: false,
        }
    }

    /// Applies a write to the command port.
    pub fn command(&mut self, value: u8)
        ensures
            *final(self) == old(self).spec_command(value),
    {
        if value & 0x10 != 0 {
            self.phase = PicPhase::AwaitOffset;
            self.mask = 0;
            self.wants_mode = value & 0x01 != 0;
            self.single = value & 0x02 != 0;
        }
    }

    /// Applies a write to the data port.
    pub fn data(&mut self, value: u8)
        ensures
            *final(self) == old(self).spec_data(value),
    {
        match self.phase {
            PicPhase::Ready => {
                self.mask = value;
            },
            PicPhase::AwaitOffset => {
                self.offset = value & 0xF8;
                if !self.single {
                    self.phase = PicPhase::AwaitCascade;
                } else if self.wants_mode {
                    self.phase = PicPhase::AwaitMode;
                } else {
                    self.phase = PicPhase::Ready;
                }
            },
            PicPhase::AwaitCascade => {
                self.cascade = value;
                if self.wants_mode {
                    self.phase = PicPhase::AwaitMode;
                } else {
                    self.phase = PicPhase::Ready;
                }
            },
            PicPhase::AwaitMode => {
                self.mode = value;
                self.phase = PicPhase::Ready;
            },
        }
    }
}

/// The master controller and the slave wired to its line 2.
#[derive(Clone, Copy, Debug, PartialEq, Eq, Structural)]
pub struct ChainedPics {
    pub master: Pic8259,
    pub slave: Pic8259,
}

impl ChainedPics {
    /// The pair after one port write. Writes to other ports leave it as it is.
    pub open spec fn spec_write(self, write: PortWrite) -> ChainedPics {
        if write.port == MASTER_COMMAND {
            ChainedPics { master: self.master.spec_command(write.value), ..self }
        } else if write.port == MASTER_DATA {
            ChainedPics { master: self.master.spec_data(write.value), ..self }
        } else if write.port == SLAVE_COMMAND {
            ChainedPics { slave: self.slave.spec_command(write.value), ..self }
        } else if write.port == SLAVE_DATA {
            ChainedPics { slave: self.slave.spec_data(write.value), ..self }
        } else {
            self
        }
    }

    /// The pair after a sequence of port writes, first to last.
    pub open spec fn spec_run(self, program: Seq<PortWrite>) -> ChainedPics
        decreases program.len(),
    {
        if program.len() == 0 {
            self
        } else {
            self.spec_run(program.drop_last()).spec_write(program.last())
        }
    }

    /// Whether interrupt line `line` (0 to 15) is closed by the mask registers.
    pub open spec fn spec_masked(self, line: u8) -> bool {
        if line < 8 {
            (self.master.mask >> line) & 1 == 1
        } else {
            (self.slave.mask >> ((line - 8) as u8)) & 1 == 1
        }
    }

    /// The pair as the firmware leaves it: vectors 0x08 and 0x70, every line
    /// open.
    pub fn new() -> (pics: Self)
        ensures
            pics.master == Pic8259::spec_new(0x08),
            pics.slave == Pic8259::spec_new(0x70),
    {
        ChainedPics { master: Pic8259::new(0x08), slave: Pic8259::new(0x70) }
    }

    /// Applies one port write.
    pub fn write(&mut self, write: PortWrite)
        ensures
            *final(self) == old(self).spec_write(write),
    {
        if write.port == MASTER_COMMAND {
            self.master.command(write.value);
        } else if write.port == MASTER_DATA {
            self.master.data(write.value);
        } else if write.port == SLAVE_COMMAND {
            self.slave.command(write.value);
        } else if write.port == SLAVE_DATA {
            self.slave.data(write.value);
        }
    }

    /// Applies a sequence of port writes, first to last.
    pub fn run(&mut self, program: &Vec<PortWrite>)
        ensures
            *final(self) == old(self).spec_run(program@),
    {
        let mut i: usize = 0;
        while i < program.len()
            invariant
                i <= program.len(),
                *self == old(self).spec_run(program@.take(i as int)),
            decreases program.len() - i,
        {
            assert(program@.take(i + 1).drop_last() == program@.take(i as int));
            self.write(program[i]);
            i += 1;
        }
        assert(program@.take(i as int) == program@);
    }

    /// Whether interrupt line `line` is closed by the mask registers.
    pub fn is_masked(&self, line: u8) -> (masked: bool)
        requires
            line < 16,
        ensures
            masked == self.spec_masked(line),
    {
        if line < 8 {
            (self.master.mask >> line) & 1 == 1
        } else {
            (self.slave.mask >> (line - 8)) & 1 == 1
        }
    }
}

/// Running a program extended by one write is running the program and then
/// applying the write.
pub proof fn lemma_run_push(pics: ChainedPics, program: Seq<PortWrite>, write: PortWrite)
    ensures
        pics.spec_run(program.push(write)) == pics.spec_run(program).spec_write(write),
{
    assert(program.push(write).drop_last() == program);
}

/// The write that only makes the bus wait.
pub open spec fn io_wait_write() -> PortWrite {
    PortWrite { port: IO_WAIT_PORT, value: 0 }
}

/// The writes that remap both controllers: the four initialisation words of
/// each (start; vector offset 0x20 and 0x28; cascade on line 2; 8086 mode),
/// a bus wait after each, then the two masks.
pub open spec fn remap_program() -> Seq<PortWrite> {
    seq![
        PortWrite { port: MASTER_COMMAND, value: 0x11 },
        io_wait_write(),
        PortWrite { port: SLAVE_COMMAND, value: 0x11 },
        io_wait_write(),
        PortWrite { port: MASTER_DATA, value: MASTER_OFFSET },
        io_wait_write(),
        PortWrite { port: SLAVE_DATA, value: SLAVE_OFFSET },
        io_wait_write(),
        PortWrite { port: MASTER_DATA, value: 4 },
        io_wait_write(),
        PortWrite { port: SLAVE_DATA, value: 2 },
        io_wait_write(),
        PortWrite { port: MASTER_DATA, value: 0x01 },
        io_wait_write(),
        PortWrite { port: SLAVE_DATA, value: 0x01 },
        io_wait_write(),
        PortWrite { port: MASTER_DATA, value: MASTER_MASK },
        PortWrite { port: SLAVE_DATA, value: SLAVE_MASK },
    ]
}

/// The writes that acknowledge an interrupt of line `irq`: to the slave
/// first when the line is 8 or above, and always to the master.
pub open spec fn eoi_program(irq: u8) -> Seq<PortWrite> {
    if irq >= FIRST_SLAVE_IRQ {
        seq![
            PortWrite { port: SLAVE_COMMAND, value: END_OF_INTERRUPT },
            PortWrite { port: MASTER_COMMAND, value: END_OF_INTERRUPT },
        ]
    } else {
        seq![PortWrite { port: MASTER_COMMAND, value: END_OF_INTERRUPT }]
    }
}

/// Pushes a write and the bus wait that follows it.
fn push_with_wait(program: &mut Vec<PortWrite>, port: u16, value: u8)
    ensures
        final(program)@ == old(program)@.push(PortWrite { port, value }).push(io_wait_write()),
{
    program.push(PortWrite { port, value });
    program.push(PortWrite { port: IO_WAIT_PORT, value: 0 });
}

/// The port writes that move the controllers' vectors to 0x20..0x2F and leave
/// only the timer and keyboard lines open.
pub fn remap_pic() -> (program: Vec<PortWrite>)
    ensures
        program@ == remap_program(),
{
    let mut program: Vec<PortWrite> = Vec::new();
    push_with_wait(&mut program, MASTER_COMMAND, 0x11);
    push_with_wait(&mut program, SLAVE_COMMAND, 0x11);
    push_with_wait(&mut program, MASTER_DATA, MASTER_OFFSET);
    push_with_wait(&mut program, SLAVE_DATA, SLAVE_OFFSET);
    push_with_wait(&mut program, MASTER_DATA, 4);
    push_with_wait(&mut program, SLAVE_DATA, 2);
    push_with_wait(&mut program, MASTER_DATA, 0x01);
    push_with_wait(&mut program, SLAVE_DATA, 0x01);
    program.push(PortWrite { port: MASTER_DATA, value: MASTER_MASK });
    program.push(PortWrite { port: SLAVE_DATA, value: SLAVE_MASK });
    assert(program@ =~= remap_program());
    program
}

/// The port writes that acknowledge an interrupt of line `irq` (0 to 15):
/// the slave gets the command as well if and only if the line is 8 or above.
pub fn send_eoi(irq: u8) -> (program: Vec<PortWrite>)
    ensures
        program@ == eoi_program(irq),
{
    let mut program: Vec<PortWrite> = Vec::new();
    if irq >= FIRST_SLAVE_IRQ {
        program.push(PortWrite { port: SLAVE_COMMAND, value: END_OF_INTERRUPT });
    }
    program.push(PortWrite { port: MASTER_COMMAND, value: END_OF_INTERRUPT });
    assert(program@ =~= eoi_program(irq));
    program
}

/// Facts about the bit patterns that the remap program writes.
proof fn lemma_remap_bits()
    by (bit_vector)
    ensures
        0x11u8 & 0x10 != 0,
        0x11u8 & 0x01 != 0,
        0x11u8 & 0x02 == 0,
        0x20u8 & 0xF8 == 0x20,
        0x28u8 & 0xF8 == 0x28,
        forall|line: u8| line < 8 ==> (((0xFCu8 >> line) & 1 == 1) <==> line >= 2),
        forall|line: u8| line < 8 ==> (0xFFu8 >> line) & 1 == 1,
{
}

/// Whatever state the controllers were in, after the remap program both are
/// operating, the master raises vectors from 0x20 and the slave from 0x28,
/// and of the sixteen lines exactly the timer (0) and the keyboard (1) are
/// open.
pub proof fn lemma_remap_result(before: ChainedPics)
    ensures
        ({
            let after = before.spec_run(remap_program());
            &&& after.master.phase == PicPhase::Ready
            &&& after.slave.phase == PicPhase::Ready
            &&& after.master.offset == MASTER_OFFSET
            &&& after.slave.offset == SLAVE_OFFSET
            &&& after.master.mask == MASTER_MASK
            &&& after.slave.mask == SLAVE_MASK
            &&& after.master.cascade == 4
            &&& after.slave.cascade == 2
            &&& forall|line: u8| line < 16 ==> (after.spec_masked(line) <==> line >= 2)
        }),
{
    lemma_remap_bits();
    let wait = io_wait_write();
    let write0 = PortWrite { port: MASTER_COMMAND, value: 0x11 };
    let write1 = PortWrite { port: SLAVE_COMMAND, value: 0x11 };
    let write2 = PortWrite { port: MASTER_DATA, value: MASTER_OFFSET };
    let write3 = PortWrite { port: SLAVE_DATA, value: SLAVE_OFFSET };
    let write4 = PortWrite { port: MASTER_DATA, value: 4 };
    let write5 = PortWrite { port: SLAVE_DATA, value: 2 };
    let write6 = PortWrite { port: MASTER_DATA, value: 0x01 };
    let write7 = PortWrite { port: SLAVE_DATA, value: 0x01 };
    let write8 = PortWrite { port: MASTER_DATA, value: MASTER_MASK };
    let write9 = PortWrite { port: SLAVE_DATA, value: SLAVE_MASK };
    let prefix0 = Seq::<PortWrite>::empty();
    let prefix1 = prefix0.push(write0).push(wait);
    let prefix2 = prefix1.push(write1).push(wait);
    let prefix3 = prefix2.push(write2).push(wait);
    let prefix4 = prefix3.push(write3).push(wait);
    let prefix5 = prefix4.push(write4).push(wait);
    let prefix6 = prefix5.push(write5).push(wait);
    let prefix7 = prefix6.push(write6).push(wait);
    let prefix8 = prefix7.push(write7).push(wait);
    let prefix9 = prefix8.push(write8);
    let prefix10 = prefix9.push(write9);
    assert(prefix10 =~= remap_program());
    lemma_run_push(before, prefix0, write0);
    lemma_run_push(before, prefix0.push(write0), wait);
    lemma_run_push(before, prefix1, write1);
    lemma_run_push(before, prefix1.push(write1), wait);
    lemma_run_push(before, prefix2, write2);
    lemma_run_push(before, prefix2.push(write2), wait);
    lemma_run_push(before, prefix3, write3);
    lemma_run_push(before, prefix3.push(write3), wait);
    lemma_run_push(before, prefix4, write4);
    lemma_run_push(before, prefix4.push(write4), wait);
    lemma_run_push(before, prefix5, write5);
    lemma_run_push(before, prefix5.push(write5), wait);
    lemma_run_push(before, prefix6, write6);
    lemma_run_push(before, prefix6.push(write6), wait);
    lemma_run_push(before, prefix7, write7);
    lemma_run_push(before, prefix7.push(write7), wait);
    lemma_run_push(before, prefix8, write8);
    lemma_run_push(before, prefix9, write9);
    let state1 = before.spec_run(prefix1);
    assert(state1.master.phase == PicPhase::AwaitOffset && state1.master.wants_mode && !state1.master.single);
    let state2 = before.spec_run(prefix2);
    assert(state2.slave.phase == PicPhase::AwaitOffset && state2.slave.wants_mode && !state2.slave.single);
    assert(state2.master == state1.master);
    let state3 = before.spec_run(prefix3);
    assert(state3.master.phase == PicPhase::AwaitCascade && state3.master.offset == 0x20);
    let state4 = before.spec_run(prefix4);
    assert(state4.slave.phase == PicPhase::AwaitCascade && state4.slave.offset == 0x28);
    let state5 = before.spec_run(prefix5);
    assert(state5.master.phase == PicPhase::AwaitMode && state5.master.cascade == 4);
    let state6 = before.spec_run(prefix6);
    assert(state6.slave.phase == PicPhase::AwaitMode && state6.slave.cascade == 2);
    let state7 = before.spec_run(prefix7);
    assert(state7.master.phase == PicPhase::Ready);
    let state8 = before.spec_run(prefix8);
    assert(state8.slave.phase == PicPhase::Ready && state8.master.phase == PicPhase::Ready);
    let state9 = before.spec_run(prefix9);
    assert(state9.master.mask == 0xFC);
    let after = before.spec_run(prefix10);
    assert(after.slave.mask == 0xFF && after.master.mask == 0xFC);
    assert forall|line: u8| line < 16 implies (after.spec_masked(line) <==> line >= 2) by {
        if line >= 8 {
            let l: u8 = (line - 8) as u8;
            assert(l < 8);
        }
    }
}

} // verus!
