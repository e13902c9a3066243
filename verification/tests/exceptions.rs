use kernel_core::exceptions::{
    breakpoint_handler, decode_page_fault, double_fault_handler, escalate, fault_class, gpf_handler,
    page_fault_handler, trigger_double_fault_via_page_fault, Delivery, FaultAction, FaultClass,
    FaultHook, FaultReport, InterruptFrame, PageFaultCause, UNMAPPED_PROBE,
};
use kernel_core::gdt;
use kernel_core::interrupts::{HandlerAddresses, Idt};

fn frame() -> InterruptFrame {
    InterruptFrame {
        instruction_pointer: 0x20_1000,
        code_segment: 0x08,
        cpu_flags: 0x202,
        stack_pointer: 0x7FFF_F000,
        stack_segment: 0,
    }
}

#[test]
fn page_fault_error_code_bits() {
    assert_eq!(
        decode_page_fault(0),
        PageFaultCause { present: false, write: false, user: false, reserved: false, instruction_fetch: false }
    );
    assert_eq!(
        decode_page_fault(0b00010),
        PageFaultCause { present: false, write: true, user: false, reserved: false, instruction_fetch: false }
    );
    assert_eq!(
        decode_page_fault(0b10101),
        PageFaultCause { present: true, write: false, user: true, reserved: false, instruction_fetch: true }
    );
    assert_eq!(
        decode_page_fault(0b01000),
        PageFaultCause { present: false, write: false, user: false, reserved: true, instruction_fetch: false }
    );
    assert_eq!(decode_page_fault(0xFFFF_FFE0), decode_page_fault(0));
    assert_eq!(decode_page_fault(0x1F | 0x100), decode_page_fault(0x1F));
}

#[test]
fn page_fault_is_fatal() {
    let mut hook = FaultHook::new();
    let outcome = page_fault_handler(&mut hook, frame(), 0x2, 0xDEAD_B000);
    assert_eq!(
        outcome.report,
        FaultReport::PageFault {
            address: 0xDEAD_B000,
            error_code: 0x2,
            cause: decode_page_fault(0x2),
            frame: frame(),
        }
    );
    assert_eq!(outcome.serial, Some("EXCEPTION: PAGE FAULT\n"));
    assert_eq!(outcome.action, FaultAction::Halt);
    assert!(!hook.is_armed());
}

#[test]
fn general_protection_fault_is_fatal() {
    let outcome = gpf_handler(frame(), 0x18);
    assert_eq!(outcome.report, FaultReport::GeneralProtection { error_code: 0x18, frame: frame() });
    assert_eq!(outcome.serial, Some("EXCEPTION: GENERAL PROTECTION FAULT\n"));
    assert_eq!(outcome.action, FaultAction::Halt);
}

#[test]
fn double_fault_is_fatal() {
    let outcome = double_fault_handler(frame(), 0);
    assert_eq!(outcome.report, FaultReport::DoubleFault { frame: frame() });
    assert_eq!(outcome.serial, Some("EXCEPTION: DOUBLE FAULT\n"));
    assert_eq!(outcome.action, FaultAction::Halt);
}

#[test]
fn breakpoint_resumes() {
    let outcome = breakpoint_handler(frame());
    assert_eq!(outcome.report, FaultReport::Breakpoint { frame: frame() });
    assert_eq!(outcome.serial, None);
    assert_eq!(outcome.action, FaultAction::Resume);
}

#[test]
fn armed_hook_faults_again_once() {
    let mut hook = FaultHook::new();
    assert!(!hook.is_armed());
    let probe = trigger_double_fault_via_page_fault(&mut hook);
    assert_eq!(probe, 0x4000_0000_0000);
    assert!(hook.is_armed());
    let first = page_fault_handler(&mut hook, frame(), 0, probe);
    assert_eq!(first.action, FaultAction::Refault(UNMAPPED_PROBE));
    assert!(!hook.is_armed());
    let second = page_fault_handler(&mut hook, frame(), 0, probe);
    assert_eq!(second.action, FaultAction::Halt);
}

#[test]
fn fault_classes() {
    assert_eq!(fault_class(0), FaultClass::Contributory);
    assert_eq!(fault_class(3), FaultClass::Benign);
    assert_eq!(fault_class(8), FaultClass::DoubleFault);
    assert_eq!(fault_class(10), FaultClass::Contributory);
    assert_eq!(fault_class(13), FaultClass::Contributory);
    assert_eq!(fault_class(14), FaultClass::PageFault);
    assert_eq!(fault_class(0x20), FaultClass::Benign);
}

#[test]
fn escalation_table() {
    assert_eq!(escalate(14, 14), Delivery::Vector(8));
    assert_eq!(escalate(14, 13), Delivery::Vector(8));
    assert_eq!(escalate(13, 13), Delivery::Vector(8));
    assert_eq!(escalate(13, 14), Delivery::Vector(14));
    assert_eq!(escalate(3, 14), Delivery::Vector(14));
    assert_eq!(escalate(14, 3), Delivery::Vector(3));
    assert_eq!(escalate(8, 14), Delivery::Reset);
    assert_eq!(escalate(8, 13), Delivery::Reset);
    assert_eq!(escalate(8, 0x20), Delivery::Vector(0x20));
}

#[test]
fn double_fault_hook_reports_page_fault_then_double_fault_then_halts() {
    let handlers = HandlerAddresses {
        breakpoint: 0x1000,
        timer: 0x2000,
        keyboard: 0x3000,
        page_fault: 0x4000,
        general_protection: 0x5000,
        double_fault: 0x6000,
    };
    let idt = Idt::populated(&handlers, gdt::CODE_SELECTOR);
    let stack_start = 0x80_0000u64;
    let tss = gdt::build_tss(stack_start);
    let mut hook = FaultHook::new();
    let mut reports = Vec::new();

    let probe = trigger_double_fault_via_page_fault(&mut hook);
    let first = page_fault_handler(&mut hook, frame(), 0, probe);
    reports.push(first.report);
    let again = match first.action {
        FaultAction::Refault(address) => address,
        other => panic!("the armed handler must fault again, not {:?}", other),
    };
    assert_eq!(again, probe);

    let delivered = escalate(14, 14);
    assert_eq!(delivered, Delivery::Vector(8));
    let entry = idt.get(8);
    assert!(entry.is_present());
    let stack = gdt::handler_stack(&tss, entry.ist());
    assert_eq!(stack, Some(stack_start + 20480));
    let second = double_fault_handler(frame(), 0);
    reports.push(second.report);
    assert_eq!(second.action, FaultAction::Halt);

    assert_eq!(
        reports,
        vec![
            FaultReport::PageFault {
                address: 0x4000_0000_0000,
                error_code: 0,
                cause: decode_page_fault(0),
                frame: frame(),
            },
            FaultReport::DoubleFault { frame: frame() },
        ]
    );
}
