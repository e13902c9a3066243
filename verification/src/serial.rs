//! The first serial port as a diagnostic line: how it is set up, when it
//! takes a byte, and what goes out for a piece of text.

use vstd::prelude::*;
use vstd::string::StringSliceAdditionalSpecFns;
use crate::interrupts::pic::PortWrite;

verus! {

/// Base I/O port of the first serial port.
pub const COM1: u16 = 0x3F8;

/// Offset of the data register, and of the divisor's low byte.
pub const RBR_THR_DLL: u16 = 0;

/// Offset of the interrupt-enable register, and of the divisor's high byte.
pub const IER_DLM: u16 = 1;

/// Offset of the FIFO control register.
pub const FCR_IIR: u16 = 2;

/// Offset of the line control register.
pub const LCR: u16 = 3;

/// Offset of the modem control register.
pub const MCR: u16 = 4;

/// Offset of the line status register.
pub const LSR: u16 = 5;

/// Line control: eight data bits.
pub const LCR_WORDLEN_8: u8 = 0x03;

/// Line control: the divisor latch is open.
pub const LCR_DLAB: u8 = 0x80;

/// Line status: the transmit holding register is empty.
pub const LSR_THR_EMPTY: u8 = 0x20;

/// The writes that set the port to 115200 baud, eight data bits, no parity,
/// one stop bit: interrupts off, divisor 1 through the open latch, the line
/// format, the FIFOs on and cleared, and the modem lines raised.
pub open spec fn init_program() -> Seq<PortWrite> {
    seq![
        PortWrite { port: 0x3F9, value: 0x00 },
        PortWrite { port: 0x3FB, value: 0x80 },
        PortWrite { port: 0x3F8, value: 0x01 },
        PortWrite { port: 0x3F9, value: 0x00 },
        PortWrite { port: 0x3FB, value: 0x03 },
        PortWrite { port: 0x3FA, value: 0xC7 },
        PortWrite { port: 0x3FC, value: 0x0B },
    ]
}

/// The port writes that set the port up.
pub fn init_unsafe_16550_default() -> (program: Vec<PortWrite>)
    ensures
        program@ == init_program(),
{
    let mut program: Vec<PortWrite> = Vec::new();
    program.push(PortWrite { port: COM1 + IER_DLM, value: 0x00 });
    program.push(PortWrite { port: COM1 + LCR, value: LCR_DLAB });
    program.push(PortWrite { port: COM1 + RBR_THR_DLL, value: 0x01 });
    program.push(PortWrite { port: COM1 + IER_DLM, value: 0x00 });
    program.push(PortWrite { port: COM1 + LCR, value: LCR_WORDLEN_8 });
    program.push(PortWrite { port: COM1 + FCR_IIR, value: 0xC7 });
    program.push(PortWrite { port: COM1 + MCR, value: 0x0B });
    assert(program@ =~= init_program());
    program
}

/// Whether a line status value says that the port takes a byte.
pub fn is_transmit_empty(line_status: u8) -> (ready: bool)
    ensures
        ready == (line_status & LSR_THR_EMPTY != 0),
{
    (line_status & LSR_THR_EMPTY) != 0
}

/// The write that sends `byte`, to be made once the line status says that
/// the port takes it.
pub fn write_byte_blocking(byte: u8) -> (write: PortWrite)
    ensures
        write == (PortWrite { port: COM1, value: byte }),
{
    PortWrite { port: COM1 + RBR_THR_DLL, value: byte }
}

/// What goes out for a piece of text: its bytes, with a carriage return
/// before every line feed.
pub open spec fn spec_line_bytes(bytes: Seq<u8>) -> Seq<u8>
    decreases bytes.len(),
{
    if bytes.len() == 0 {
        Seq::empty()
    } else if bytes.last() == 0x0A {
        spec_line_bytes(bytes.drop_last()).push(0x0D).push(0x0A)
    } else {
        spec_line_bytes(bytes.drop_last()).push(bytes.last())
    }
}

/// The bytes to send for `s`, in order.
pub fn write_str(s: &str) -> (out: Vec<u8>)
    ensures
        out@ == spec_line_bytes(s.spec_bytes()),
{
    let bytes = s.as_bytes();
    let mut out: Vec<u8> = Vec::new();
    let mut i: usize = 0;
    while i < bytes.len()
        invariant
            i <= bytes.len(),
            out@ == spec_line_bytes(bytes@.take(i as int)),
        decreases bytes.len() - i,
    {
        let b = bytes[i];
        proof {
            assert(bytes@.take(i + 1).drop_last() =~= bytes@.take(i as int));
            assert(bytes@.take(i + 1).last() == b);
        }
        if b == 0x0A {
            out.push(0x0D);
        }
        out.push(b);
        i += 1;
    }
    assert(bytes@.take(i as int) =~= bytes@);
    out
}

} // verus!
