use kernel_core::interrupts::pic::{ChainedPics, Pic8259, PicPhase, PortWrite};
use kernel_core::interrupts::{remap_pic, send_eoi};

fn w(port: u16, value: u8) -> PortWrite {
    PortWrite { port, value }
}

#[test]
fn remap_program_is_the_four_word_sequence_with_waits() {
    let expected = vec![
        w(0x20, 0x11),
        w(0x80, 0),
        w(0xA0, 0x11),
        w(0x80, 0),
        w(0x21, 0x20),
        w(0x80, 0),
        w(0xA1, 0x28),
        w(0x80, 0),
        w(0x21, 4),
        w(0x80, 0),
        w(0xA1, 2),
        w(0x80, 0),
        w(0x21, 0x01),
        w(0x80, 0),
        w(0xA1, 0x01),
        w(0x80, 0),
        w(0x21, 0xFC),
        w(0xA1, 0xFF),
    ];
    assert_eq!(remap_pic(), expected);
}

#[test]
fn remap_leaves_only_timer_and_keyboard_open() {
    let mut pics = ChainedPics::new();
    pics.run(&remap_pic());
    assert_eq!(pics.master.mask, 0xFC);
    assert_eq!(pics.slave.mask, 0xFF);
    for line in 0u8..16 {
        assert_eq!(pics.is_masked(line), line >= 2);
    }
}

#[test]
fn remap_moves_vectors_off_the_exception_range() {
    let mut pics = ChainedPics::new();
    assert_eq!(pics.master.offset, 0x08);
    assert_eq!(pics.slave.offset, 0x70);
    pics.run(&remap_pic());
    assert_eq!(pics.master.offset, 0x20);
    assert_eq!(pics.slave.offset, 0x28);
    assert_eq!(pics.master.phase, PicPhase::Ready);
    assert_eq!(pics.slave.phase, PicPhase::Ready);
    assert_eq!(pics.master.cascade, 4);
    assert_eq!(pics.slave.cascade, 2);
    assert_eq!(pics.master.mode, 1);
    assert_eq!(pics.slave.mode, 1);
}

#[test]
fn remap_does_not_depend_on_the_state_before() {
    let mut pics = ChainedPics::new();
    pics.write(w(0x21, 0x55));
    pics.write(w(0xA0, 0x13));
    pics.run(&remap_pic());
    let mut fresh = ChainedPics::new();
    fresh.run(&remap_pic());
    assert_eq!(pics.master.mask, fresh.master.mask);
    assert_eq!(pics.slave.mask, fresh.slave.mask);
    assert_eq!(pics.master.offset, fresh.master.offset);
    assert_eq!(pics.slave.offset, fresh.slave.offset);
    assert_eq!(pics.slave.phase, PicPhase::Ready);
}

#[test]
fn controller_walks_through_its_initialisation_words() {
    let mut pic = Pic8259::new(0x08);
    pic.data(0xAA);
    assert_eq!(pic.mask, 0xAA);
    pic.command(0x11);
    assert_eq!(pic.phase, PicPhase::AwaitOffset);
    assert_eq!(pic.mask, 0);
    pic.data(0x23);
    assert_eq!(pic.offset, 0x20);
    assert_eq!(pic.phase, PicPhase::AwaitCascade);
    pic.data(4);
    assert_eq!(pic.phase, PicPhase::AwaitMode);
    pic.data(1);
    assert_eq!(pic.phase, PicPhase::Ready);
    pic.data(0xFC);
    assert_eq!(pic.mask, 0xFC);
}

#[test]
fn single_controller_without_mode_word_is_ready_after_the_offset() {
    let mut pic = Pic8259::new(0);
    pic.command(0x12);
    pic.data(0x40);
    assert_eq!(pic.phase, PicPhase::Ready);
    assert_eq!(pic.offset, 0x40);
}

#[test]
fn end_of_interrupt_goes_to_the_master_for_low_lines() {
    for irq in 0u8..8 {
        assert_eq!(send_eoi(irq), vec![w(0x20, 0x20)]);
    }
}

#[test]
fn end_of_interrupt_goes_to_the_slave_first_for_high_lines() {
    for irq in 8u8..16 {
        assert_eq!(send_eoi(irq), vec![w(0xA0, 0x20), w(0x20, 0x20)]);
    }
}

#[test]
fn timer_and_keyboard_lines_are_acknowledged_at_the_master_only() {
    assert_eq!(send_eoi(kernel_core::interrupts::pic::TIMER_IRQ), vec![w(0x20, 0x20)]);
    assert_eq!(send_eoi(kernel_core::interrupts::pic::KEYBOARD_IRQ), vec![w(0x20, 0x20)]);
}

#[test]
fn end_of_interrupt_changes_no_mask() {
    let mut pics = ChainedPics::new();
    pics.run(&remap_pic());
    let before = pics;
    pics.run(&send_eoi(12));
    assert_eq!(pics, before);
}
