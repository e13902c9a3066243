//! Exception policy: what each fault handler reports and what the kernel
//! does next. The entry points that the processor calls hand the decoded
//! values to these functions and carry out the action they return.

use vstd::prelude::*;
use crate::gdt::{spec_handler_stack, spec_stack_top, DF_STACK_SIZE};
use crate::interrupts::{populated_gate, HandlerAddresses};

verus! {

/// A high canonical address that nothing maps; reading it page-faults.
pub const UNMAPPED_PROBE: u64 = 0x4000_0000_0000;

/// Vector of the breakpoint exception.
pub const BREAKPOINT: u8 = 3;

/// Vector of the double-fault exception.
pub const DOUBLE_FAULT: u8 = 8;

/// Vector of the general-protection exception.
pub const GENERAL_PROTECTION: u8 = 13;

/// Vector of the page-fault exception.
pub const PAGE_FAULT: u8 = 14;

/// What the processor pushed when it interrupted the running code.
#[derive(Clone, Copy, Debug, PartialEq, Eq, Structural)]
pub struct InterruptFrame {
    pub instruction_pointer: u64,
    pub code_segment: u64,
    pub cpu_flags: u64,
    pub stack_pointer: u64,
    pub stack_segment: u64,
}

/// The five meaningful bits of a page-fault error code.
#[derive(Clone, Copy, Debug, PartialEq, Eq, Structural)]
pub struct PageFaultCause {
    /// Bit 0: the page was present and protection was violated.
    pub present: bool,
    /// Bit 1: the access was a write.
    pub write: bool,
    /// Bit 2: the access came from ring 3.
    pub user: bool,
    /// Bit 3: a reserved bit was set in a paging structure.
    pub reserved: bool,
    /// Bit 4: the access was an instruction fetch.
    pub instruction_fetch: bool,
}

/// The cause that a page-fault error code spells.
pub open spec fn spec_decode_page_fault(error_code: u64) -> PageFaultCause {
    PageFaultCause {
        present: error_code & 0x01 != 0,
        write: error_code & 0x02 != 0,
        user: error_code & 0x04 != 0,
        reserved: error_code & 0x08 != 0,
        instruction_fetch: error_code & 0x10 != 0,
    }
}

/// The error code, with no other bit set, that spells a cause.
pub open spec fn spec_encode_page_fault(cause: PageFaultCause) -> u64 {
    (if cause.present { 0x01u64 } else { 0 }) | (if cause.write { 0x02u64 } else { 0 }) | (if cause.user {
        0x04u64
    } else {
        0
    }) | (if cause.reserved { 0x08u64 } else { 0 }) | (if cause.instruction_fetch { 0x10u64 } else { 0 })
}

/// Decodes the error code of a page fault.
pub fn decode_page_fault(error_code: u64) -> (cause: PageFaultCause)
    ensures
        cause == spec_decode_page_fault(error_code),
{
    PageFaultCause {
        present: error_code & 0x01 != 0,
        write: error_code & 0x02 != 0,
        user: error_code & 0x04 != 0,
        reserved: error_code & 0x08 != 0,
        instruction_fetch: error_code & 0x10 != 0,
    }
}

/// Every cause is the decoding of its own error code, and decoding looks at
/// the low five bits only.
pub proof fn lemma_page_fault_code_round_trip(cause: PageFaultCause, error_code: u64)
    ensures
        spec_decode_page_fault(spec_encode_page_fault(cause)) == cause,
        spec_decode_page_fault(error_code) == spec_decode_page_fault(error_code & 0x1F),
{
    let p = cause.present;
    let w = cause.write;
    let u = cause.user;
    let r = cause.reserved;
    let f = cause.instruction_fetch;
    assert({
        let code = (if p { 0x01u64 } else { 0 }) | (if w { 0x02u64 } else { 0 }) | (if u { 0x04u64 } else { 0 })
            | (if r { 0x08u64 } else { 0 }) | (if f { 0x10u64 } else { 0 });
        &&& (code & 0x01 != 0) == p
        &&& (code & 0x02 != 0) == w
        &&& (code & 0x04 != 0) == u
        &&& (code & 0x08 != 0) == r
        &&& (code & 0x10 != 0) == f
        &&& (error_code & 0x1F) & 0x01 == error_code & 0x01
        &&& (error_code & 0x1F) & 0x02 == error_code & 0x02
        &&& (error_code & 0x1F) & 0x04 == error_code & 0x04
        &&& (error_code & 0x1F) & 0x08 == error_code & 0x08
        &&& (error_code & 0x1F) & 0x10 == error_code & 0x10
    }) by (bit_vector);
}

/// What a handler found, for the console to print.
#[derive(Clone, Copy, Debug, PartialEq, Eq, Structural)]
pub enum FaultReport {
    Breakpoint { frame: InterruptFrame },
    PageFault { address: u64, error_code: u64, cause: PageFaultCause, frame: InterruptFrame },
    GeneralProtection { error_code: u64, frame: InterruptFrame },
    DoubleFault { frame: InterruptFrame },
}

/// What the entry point does once the report is out.
#[derive(Clone, Copy, Debug, PartialEq, Eq, Structural)]
pub enum FaultAction {
    /// Return to the interrupted code.
    Resume,
    /// Stop the core for good in an idle loop.
    Halt,
    /// Read this unmapped address, which faults again inside the handler,
    /// and stop the core should the read ever return.
    Refault(u64),
}

/// The line for the serial port that goes with a report; a breakpoint has
/// none.
pub open spec fn serial_line(report: FaultReport) -> Option<Seq<char>> {
    match report {
        FaultReport::Breakpoint { .. } => None,
        FaultReport::PageFault { .. } => Some("EXCEPTION: PAGE FAULT\n"@),
        FaultReport::GeneralProtection { .. } => Some("EXCEPTION: GENERAL PROTECTION FAULT\n"@),
        FaultReport::DoubleFault { .. } => Some("EXCEPTION: DOUBLE FAULT\n"@),
    }
}

/// What a handler hands back to its entry point.
#[derive(Clone, Copy, Debug, PartialEq, Eq)]
pub struct FaultOutcome {
    pub report: FaultReport,
    pub serial: Option<&'static str>,
    pub action: FaultAction,
}

/// The switch of the diagnostic that turns a page fault into a double fault.
pub struct FaultHook {
    armed: bool,
}

impl FaultHook {
    /// Whether the next page fault will fault again inside its handler.
    pub closed spec fn spec_armed(&self) -> bool {
        self.armed
    }

    /// A hook that is not armed.
    pub fn new() -> (hook: Self)
        ensures
            !hook.spec_armed(),
    {
        FaultHook { armed: false }
    }

    /// Whether the next page fault will fault again inside its handler.
    pub fn is_armed(&self) -> (armed: bool)
        ensures
            armed == self.spec_armed(),
    {
        self.armed
    }
}

/// Arms the hook and names the address whose read starts the chain: the read
/// page-faults, and the armed handler faults once more while it runs.
pub fn trigger_double_fault_via_page_fault(hook: &mut FaultHook) -> (probe: u64)
    ensures
        final(hook).spec_armed(),
        probe == UNMAPPED_PROBE,
{
    hook.armed = true;
    UNMAPPED_PROBE
}

/// Breakpoint: report, then go on with the interrupted code.
pub fn breakpoint_handler(frame: InterruptFrame) -> (outcome: FaultOutcome)
    ensures
        outcome.report == (FaultReport::Breakpoint { frame }),
        outcome.serial is None,
        outcome.action == FaultAction::Resume,
{
    FaultOutcome { report: FaultReport::Breakpoint { frame }, serial: None, action: FaultAction::Resume }
}

/// Double fault: report and halt; there is no way back.
pub fn double_fault_handler(frame: InterruptFrame, error_code: u64) -> (outcome: FaultOutcome)
    ensures
        outcome.report == (FaultReport::DoubleFault { frame }),
        outcome.serial matches Some(line) && Some(line@) == serial_line(outcome.report),
        outcome.action == FaultAction::Halt,
{
    FaultOutcome {
        report: FaultReport::DoubleFault { frame },
        serial: Some("EXCEPTION: DOUBLE FAULT\n"),
        action: FaultAction::Halt,
    }
}

/// General-protection fault: report the error code and the frame, and halt.
pub fn gpf_handler(frame: InterruptFrame, error_code: u64) -> (outcome: FaultOutcome)
    ensures
        outcome.report == (FaultReport::GeneralProtection { error_code, frame }),
        outcome.serial matches Some(line) && Some(line@) == serial_line(outcome.report),
        outcome.action == FaultAction::Halt,
{
    FaultOutcome {
        report: FaultReport::GeneralProtection { error_code, frame },
        serial: Some("EXCEPTION: GENERAL PROTECTION FAULT\n"),
        action: FaultAction::Halt,
    }
}

/// Page fault at `address`: report the address and the decoded cause. The
/// fault is always fatal. An armed hook is disarmed and makes the handler
/// fault again at the unmapped probe address before it halts.
pub fn page_fault_handler(
    hook: &mut FaultHook,
    frame: InterruptFrame,
    error_code: u64,
    address: u64,
) -> (outcome: FaultOutcome)
    ensures
        outcome.report == (FaultReport::PageFault {
            address,
            error_code,
            cause: spec_decode_page_fault(error_code),
            frame,
        }),
        outcome.serial matches Some(line) && Some(line@) == serial_line(outcome.report),
        outcome.action == (if old(hook).spec_armed() {
            FaultAction::Refault(UNMAPPED_PROBE)
        } else {
            FaultAction::Halt
        }),
        !final(hook).spec_armed(),
{
    let cause = decode_page_fault(error_code);
    let was_armed = hook.armed;
    hook.armed = false;
    FaultOutcome {
        report: FaultReport::PageFault { address, error_code, cause, frame },
        serial: Some("EXCEPTION: PAGE FAULT\n"),
        action: if was_armed {
            FaultAction::Refault(UNMAPPED_PROBE)
        } else {
            FaultAction::Halt
        },
    }
}

/// How the processor classes an exception when a second one arrives before
/// the first is dealt with.
#[derive(Clone, Copy, Debug, PartialEq, Eq, Structural)]
pub enum FaultClass {
    Benign,
    Contributory,
    PageFault,
    DoubleFault,
}

/// What the processor does with the second of two exceptions.
#[derive(Clone, Copy, Debug, PartialEq, Eq, Structural)]
pub enum Delivery {
    /// The handler of this vector runs.
    Vector(u8),
    /// The processor gives up and resets.
    Reset,
}

/// The class of a vector: divide error, invalid task state, segment not
/// present, stack fault and general protection are contributory; the page
/// fault and the double fault each stand alone; every other is benign.
pub open spec fn spec_fault_class(vector: u8) -> FaultClass {
    if vector == 0 || vector == 10 || vector == 11 || vector == 12 || vector == 13 {
        FaultClass::Contributory
    } else if vector == PAGE_FAULT {
        FaultClass::PageFault
    } else if vector == DOUBLE_FAULT {
        FaultClass::DoubleFault
    } else {
        FaultClass::Benign
    }
}

/// What is delivered when `raised` arrives while `active` is not yet dealt
/// with: a double fault where a fault follows a page fault, or a contributory
/// one follows a contributory one; a reset where a fault follows a double
/// fault; the raised vector itself in every other case.
pub open spec fn spec_escalate(active: u8, raised: u8) -> Delivery {
    let first = spec_fault_class(active);
    let second = spec_fault_class(raised);
    let second_faults = second == FaultClass::Contributory || second == FaultClass::PageFault;
    if first == FaultClass::DoubleFault && second_faults {
        Delivery::Reset
    } else if first == FaultClass::PageFault && second_faults {
        Delivery::Vector(DOUBLE_FAULT)
    } else if first == FaultClass::Contributory && second == FaultClass::Contributory {
        Delivery::Vector(DOUBLE_FAULT)
    } else {
        Delivery::Vector(raised)
    }
}

/// The class of a vector.
pub fn fault_class(vector: u8) -> (class: FaultClass)
    ensures
        class == spec_fault_class(vector),
{
    if vector == 0 || vector == 10 || vector == 11 || vector == 12 || vector == 13 {
        FaultClass::Contributory
    } else if vector == PAGE_FAULT {
        FaultClass::PageFault
    } else if vector == DOUBLE_FAULT {
        FaultClass::DoubleFault
    } else {
        FaultClass::Benign
    }
}

/// What is delivered when `raised` arrives while `active` is not yet dealt
/// with.
pub fn escalate(active: u8, raised: u8) -> (delivery: Delivery)
    ensures
        delivery == spec_escalate(active, raised),
{
    let first = fault_class(active);
    let second = fault_class(raised);
    let second_faults = second == FaultClass::Contributory || second == FaultClass::PageFault;
    if first == FaultClass::DoubleFault && second_faults {
        Delivery::Reset
    } else if first == FaultClass::PageFault && second_faults {
        Delivery::Vector(DOUBLE_FAULT)
    } else if first == FaultClass::Contributory && second == FaultClass::Contributory {
        Delivery::Vector(DOUBLE_FAULT)
    } else {
        Delivery::Vector(raised)
    }
}

/// A page fault that arrives while a page fault is being handled is
/// delivered as a double fault, never as a reset.
pub proof fn lemma_nested_page_fault_is_double_fault()
    ensures
        spec_escalate(PAGE_FAULT, PAGE_FAULT) == Delivery::Vector(DOUBLE_FAULT),
{
}

/// The chain that the armed hook sets off ends in the double-fault handler
/// and never in a reset. The armed page-fault handler faults again at the
/// unmapped probe address and disarms the hook; a page fault that arrives
/// while a page fault is being handled is delivered as a double fault; the
/// double-fault entry of the populated table is present and switches to
/// stack 1, which a task state segment built for a stack at `stack_start`
/// holds as a 16-byte aligned top inside that stack.
pub proof fn lemma_double_fault_chain(
    handlers: HandlerAddresses,
    selector: u16,
    stack_start: u64,
    stacks: Seq<u64>,
)
    requires
        stack_start + DF_STACK_SIZE <= u64::MAX,
        stacks == Seq::new(7, |i: int| 0u64).update(0, spec_stack_top(stack_start)),
    ensures
        spec_escalate(PAGE_FAULT, PAGE_FAULT) == Delivery::Vector(DOUBLE_FAULT),
        populated_gate(handlers, selector, DOUBLE_FAULT as int).spec_present(),
        populated_gate(handlers, selector, DOUBLE_FAULT as int).spec_ist() == 1,
        populated_gate(handlers, selector, DOUBLE_FAULT as int).spec_handler()
            == handlers.double_fault as u64,
        spec_handler_stack(stacks, 1) == Some(spec_stack_top(stack_start)),
        spec_stack_top(stack_start) % 16 == 0,
        stack_start < spec_stack_top(stack_start) <= stack_start + DF_STACK_SIZE,
{
    crate::interrupts::lemma_gate_round_trip(handlers.double_fault as u64, selector, 1);
}

} // verus!
