use kernel_core::interrupts::{
    init, HandlerAddresses, Idt, IdtEntry, Idtr, InitStep, InterruptIndex, InterruptState, PortWrite,
    TableState, INTERRUPT_GATE,
};

#[test]
fn missing_entry_is_all_zero() {
    let entry = IdtEntry::missing();
    assert_eq!(entry.to_bytes(), [0u8; 16]);
    assert!(!entry.is_present());
    assert_eq!(entry.handler(), 0);
    assert_eq!(entry.ist(), 0);
}

#[test]
fn new_entry_splits_the_handler_address() {
    let entry = IdtEntry::new(0x1122_3344_5566_7788usize, 0x08);
    assert_eq!(entry.offset_low, 0x7788);
    assert_eq!(entry.offset_mid, 0x5566);
    assert_eq!(entry.offset_high, 0x1122_3344);
    assert_eq!(entry.selector, 0x08);
    assert_eq!(entry.options, 0x8E00);
    assert_eq!(entry.options, INTERRUPT_GATE);
    assert_eq!(entry.reserved, 0);
    assert_eq!(entry.handler(), 0x1122_3344_5566_7788);
    assert!(entry.is_present());
    assert_eq!(entry.ist(), 0);
}

#[test]
fn entry_bytes_follow_the_hardware_layout() {
    let entry = IdtEntry::new_with_ist(0xFFFF_8000_0012_3456usize, 0x08, 1);
    assert_eq!(
        entry.to_bytes(),
        [0x56, 0x34, 0x08, 0x00, 0x01, 0x8E, 0x12, 0x00, 0x00, 0x80, 0xFF, 0xFF, 0, 0, 0, 0]
    );
}

#[test]
fn encode_then_decode_recovers_address_selector_and_stack_index() {
    let handlers = [0usize, 1, 0xFFFF, 0x1_0000, 0xDEAD_BEEF, 0xFFFF_8000_0000_1000, usize::MAX];
    let selectors = [0u16, 0x08, 0x10, 0xFFFF];
    for &handler in handlers.iter() {
        for &selector in selectors.iter() {
            for ist in 0u8..=7 {
                let entry = IdtEntry::new_with_ist(handler, selector, ist);
                let decoded = IdtEntry::from_bytes(&entry.to_bytes());
                assert_eq!(decoded, entry);
                assert_eq!(decoded.handler(), handler as u64);
                assert_eq!(decoded.selector, selector);
                assert_eq!(decoded.ist(), ist);
                assert!(decoded.is_present());
            }
        }
    }
}

#[test]
fn stack_index_zero_gives_the_plain_interrupt_entry() {
    assert_eq!(IdtEntry::new_with_ist(0x1000, 0x08, 0), IdtEntry::new(0x1000, 0x08));
    assert_eq!(IdtEntry::new_with_ist(0x1000, 0x08, 7).options, 0x8E07);
}

#[test]
fn set_handler_keeps_the_other_fields() {
    let mut entry = IdtEntry::new_with_ist(0x1000, 0x18, 3);
    entry.set_handler(0xABCD_0000_1234);
    assert_eq!(entry.handler(), 0xABCD_0000_1234);
    assert_eq!(entry.selector, 0x18);
    assert_eq!(entry.ist(), 3);
}

#[test]
fn table_operand_has_size_minus_one_as_limit() {
    let idtr = Idtr::for_table(0xFFFF_8000_0000_2000, 256);
    assert_eq!(idtr.limit, 4095);
    assert_eq!(idtr.base, 0xFFFF_8000_0000_2000);
    assert_eq!(idtr.to_bytes(), [0xFF, 0x0F, 0x00, 0x20, 0x00, 0x00, 0x00, 0x80, 0xFF, 0xFF]);
    assert_eq!(Idtr::for_table(0, 1).limit, 15);
}

#[test]
fn interrupt_index_vectors() {
    assert_eq!(InterruptIndex::Breakpoint.as_u8(), 0x03);
    assert_eq!(InterruptIndex::Timer.as_u8(), 0x20);
    assert_eq!(InterruptIndex::Keyboard.as_u8(), 0x21);
    assert_eq!(InterruptIndex::Keyboard.as_usize(), 0x21);
}

fn sample_handlers() -> HandlerAddresses {
    HandlerAddresses {
        breakpoint: 0x1000,
        timer: 0x2000,
        keyboard: 0x3000,
        page_fault: 0x4000,
        general_protection: 0x5000,
        double_fault: 0x6000,
    }
}

#[test]
fn populated_table_has_six_handlers_and_250_missing_entries() {
    let idt = Idt::populated(&sample_handlers(), 0x08);
    let mut present = 0;
    for vector in 0u8..=255 {
        let entry = idt.get(vector);
        if entry.is_present() {
            present += 1;
            assert_eq!(entry.selector, 0x08);
        } else {
            assert_eq!(entry, IdtEntry::missing());
        }
    }
    assert_eq!(present, 6);
    assert_eq!(idt.get(3).handler(), 0x1000);
    assert_eq!(idt.get(0x20).handler(), 0x2000);
    assert_eq!(idt.get(0x21).handler(), 0x3000);
    assert_eq!(idt.get(14).handler(), 0x4000);
    assert_eq!(idt.get(13).handler(), 0x5000);
    assert_eq!(idt.get(8).handler(), 0x6000);
}

#[test]
fn only_the_double_fault_entry_switches_stacks() {
    let idt = Idt::populated(&sample_handlers(), 0x08);
    for vector in 0u8..=255 {
        let expected = if vector == 8 { 1 } else { 0 };
        assert_eq!(idt.get(vector).ist(), expected);
    }
}

#[test]
fn table_set_replaces_one_entry() {
    let mut idt = Idt::new();
    let entry = IdtEntry::new(0x7000, 0x08);
    idt.set(200, entry);
    assert_eq!(idt.get(200), entry);
    assert_eq!(idt.get(199), IdtEntry::missing());
    assert_eq!(idt.get(201), IdtEntry::missing());
}

#[test]
fn init_remaps_then_loads_then_enables() {
    let setup = init(&sample_handlers(), 0x08, 0x10_0000);
    let steps = setup.steps;
    assert_eq!(steps.len(), 20);
    for step in steps[..18].iter() {
        assert!(matches!(step, InitStep::Out(_)));
    }
    assert_eq!(steps[0], InitStep::Out(PortWrite { port: 0x20, value: 0x11 }));
    assert_eq!(steps[18], InitStep::LoadIdt(Idtr { limit: 4095, base: 0x10_0000 }));
    assert_eq!(steps[19], InitStep::EnableInterrupts);
    assert_eq!(setup.idt.get(8).ist(), 1);
}

#[test]
fn bring_up_loads_the_table_and_enables_interrupts_last() {
    let setup = init(&sample_handlers(), 0x08, 0x20_0000);
    let mut state = InterruptState::new();
    assert_eq!(state.table, TableState::Unloaded);
    for (n, step) in setup.steps.iter().enumerate() {
        assert!(!state.enabled, "interrupts are on before action {}", n);
        state.advance(*step);
    }
    assert!(state.enabled);
    assert_eq!(state.table, TableState::Loaded(Idtr { limit: 4095, base: 0x20_0000 }));
    assert_eq!(state.pics.master.offset, 0x20);
    assert_eq!(state.pics.slave.offset, 0x28);
    for line in 0u8..16 {
        assert_eq!(state.pics.is_masked(line), line >= 2);
    }
    let mut again = InterruptState::new();
    again.run(&setup.steps);
    assert_eq!(again, state);
}

#[test]
fn loading_another_table_replaces_the_first() {
    let mut state = InterruptState::new();
    state.advance(InitStep::LoadIdt(Idtr { limit: 4095, base: 0x1000 }));
    state.advance(InitStep::LoadIdt(Idtr { limit: 4095, base: 0x2000 }));
    assert_eq!(state.table, TableState::Loaded(Idtr { limit: 4095, base: 0x2000 }));
    assert!(!state.enabled);
}
