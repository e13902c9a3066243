use kernel_core::gdt::{
    build, build_tss, handler_stack, init, install, is_canonical, raw_entries, stack_top, tss_descriptor,
    InstallStep,
    SegmentDescriptor, Selectors, CODE_SELECTOR, DF_STACK_SIZE, DOUBLE_FAULT_IST_INDEX,
    DOUBLE_FAULT_IST_INDEX_FOR_IDT, KERNEL_CODE64, TSS_SELECTOR,
};
use x86_64::structures::gdt::Descriptor;
use x86_64::structures::tss::TaskStateSegment;

#[test]
fn table_holds_null_code_and_task_state_descriptors() {
    let (table, selectors) = build(0x0012_3456_789A_BCDE);
    let raw = raw_entries(&table);
    assert_eq!(raw.len(), 4);
    assert_eq!(raw[0], 0);
    assert_eq!(raw[1], 0x00AF_9B00_0000_FFFF);
    assert_eq!(raw[1], KERNEL_CODE64);
    assert_eq!(raw[2], 0x7800_899A_BCDE_0067);
    assert_eq!(raw[3], 0x0012_3456);
    assert_eq!(selectors, Selectors { code: 0x08, tss: 0x10 });
    assert_eq!(selectors.code, CODE_SELECTOR);
    assert_eq!(selectors.tss, TSS_SELECTOR);
}

#[test]
fn task_state_descriptor_fields() {
    let descriptor = tss_descriptor(0xFFFF_8000_0010_2040);
    match descriptor {
        SegmentDescriptor::System(low, high) => {
            assert_eq!(low & 0xFFFF, 0x67);
            assert_eq!((low >> 16) & 0xFF_FFFF, 0x10_2040);
            assert_eq!((low >> 40) & 0xF, 0b1001);
            assert_eq!((low >> 44) & 1, 0);
            assert_eq!((low >> 45) & 3, 0);
            assert_eq!((low >> 47) & 1, 1);
            assert_eq!((low >> 56) & 0xFF, 0x00);
            assert_eq!(high, 0xFFFF_8000);
        }
        SegmentDescriptor::User(_) => panic!("a task state segment takes two entries"),
    }
}

#[test]
fn task_state_descriptor_agrees_with_the_x86_64_crate() {
    let tss: &'static TaskStateSegment = Box::leak(Box::new(TaskStateSegment::new()));
    let shown = format!("{:p}", tss);
    let base = u64::from_str_radix(shown.trim_start_matches("0x"), 16).unwrap();
    let expected = match Descriptor::tss_segment(tss) {
        Descriptor::SystemSegment(low, high) => SegmentDescriptor::System(low, high),
        Descriptor::UserSegment(bits) => SegmentDescriptor::User(bits),
    };
    assert_eq!(tss_descriptor(base), expected);
}

#[test]
fn stack_top_is_the_aligned_end_of_the_stack() {
    assert_eq!(DF_STACK_SIZE, 4096 * 5);
    assert_eq!(stack_top(0x10_0000), 0x10_5000);
    assert_eq!(stack_top(0x10_0008), 0x10_5000);
    assert_eq!(stack_top(0x10_000F), 0x10_5000);
    assert_eq!(stack_top(0x10_0010), 0x10_5010);
    assert_eq!(stack_top(0), 20480);
}

#[test]
fn task_state_segment_has_the_double_fault_stack_in_slot_zero() {
    assert_eq!(DOUBLE_FAULT_IST_INDEX, 0);
    assert_eq!(DOUBLE_FAULT_IST_INDEX_FOR_IDT, 1);
    let tss = build_tss(0x20_0000);
    assert_eq!(handler_stack(&tss, 0), None);
    assert_eq!(handler_stack(&tss, 1), Some(0x20_5000));
    for ist in 2u8..=7 {
        assert_eq!(handler_stack(&tss, ist), Some(0));
    }
    let table = tss.interrupt_stack_table;
    assert_eq!(table[0].as_u64(), 0x20_5000);
    assert_eq!(table[0].as_u64() % 16, 0);
}

#[test]
fn install_loads_table_then_code_segment_then_task_register() {
    let steps = install(Selectors { code: 0x08, tss: 0x10 });
    assert_eq!(
        steps,
        [InstallStep::LoadTable, InstallStep::SetCodeSegment(0x08), InstallStep::LoadTaskRegister(0x10)]
    );
}

#[test]
fn canonical_addresses() {
    assert!(is_canonical(0));
    assert!(is_canonical(0x0000_7FFF_FFFF_FFFF));
    assert!(!is_canonical(0x0000_8000_0000_0000));
    assert!(!is_canonical(0xFFFF_7FFF_FFFF_FFFF));
    assert!(is_canonical(0xFFFF_8000_0000_0000));
    assert!(is_canonical(u64::MAX));
}

#[test]
fn init_prepares_segment_table_and_install_order() {
    let setup = init(0x30_0000, 0x40_0000);
    assert_eq!(handler_stack(&setup.tss, 1), Some(0x30_5000));
    let raw = raw_entries(&setup.table);
    assert_eq!(raw.len(), 4);
    assert_eq!(raw[1], KERNEL_CODE64);
    assert_eq!(raw[2], 0x0000_8940_0000_0067);
    assert_eq!(raw[3], 0);
    assert_eq!(setup.selectors, Selectors { code: 0x08, tss: 0x10 });
    assert_eq!(
        setup.steps,
        [InstallStep::LoadTable, InstallStep::SetCodeSegment(0x08), InstallStep::LoadTaskRegister(0x10)]
    );
}
