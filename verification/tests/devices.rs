use kernel_core::interrupts::PortWrite;
use kernel_core::keyboard::{pop_scancode, push_scancode, ScancodeQueue, SCANCODE_QUEUE_CAPACITY};
use kernel_core::serial;
use kernel_core::time::{frequency_hz, init_pit, tick, uptime_ms, uptime_ticks, Clock};

#[test]
fn scancodes_come_out_in_the_order_they_went_in() {
    let mut queue = ScancodeQueue::new();
    assert_eq!(pop_scancode(&mut queue), None);
    push_scancode(&mut queue, 0x1E);
    push_scancode(&mut queue, 0x9E);
    push_scancode(&mut queue, 0x1C);
    assert_eq!(pop_scancode(&mut queue), Some(0x1E));
    assert_eq!(pop_scancode(&mut queue), Some(0x9E));
    push_scancode(&mut queue, 0x39);
    assert_eq!(pop_scancode(&mut queue), Some(0x1C));
    assert_eq!(pop_scancode(&mut queue), Some(0x39));
    assert_eq!(pop_scancode(&mut queue), None);
}

#[test]
fn full_queue_drops_new_scancodes() {
    let mut queue = ScancodeQueue::new();
    assert_eq!(SCANCODE_QUEUE_CAPACITY, 256);
    for i in 0..300u32 {
        queue.push((i % 251) as u8);
    }
    for i in 0..256u32 {
        assert_eq!(queue.pop(), Some((i % 251) as u8));
    }
    assert_eq!(queue.pop(), None);
}

#[test]
fn queue_wraps_around_its_buffer() {
    let mut queue = ScancodeQueue::new();
    for round in 0..10u32 {
        for i in 0..100u32 {
            queue.push(((round * 100 + i) % 256) as u8);
        }
        for i in 0..100u32 {
            assert_eq!(queue.pop(), Some(((round * 100 + i) % 256) as u8));
        }
    }
    assert_eq!(queue.pop(), None);
}

#[test]
fn clock_counts_ticks() {
    let mut clock = Clock::new();
    assert_eq!(frequency_hz(&clock), 18);
    assert_eq!(uptime_ticks(&clock), 0);
    tick(&mut clock);
    tick(&mut clock);
    tick(&mut clock);
    assert_eq!(uptime_ticks(&clock), 3);
    assert_eq!(uptime_ms(&clock), 166);
}

#[test]
fn clock_wraps_after_the_last_tick() {
    let mut clock = Clock { hz: 100, ticks: u64::MAX };
    tick(&mut clock);
    assert_eq!(uptime_ticks(&clock), 0);
    assert_eq!(frequency_hz(&clock), 100);
}

#[test]
fn uptime_in_milliseconds() {
    assert_eq!(uptime_ms(&Clock { hz: 100, ticks: 250 }), 2500);
    assert_eq!(uptime_ms(&Clock { hz: 1000, ticks: 1 }), 1);
    assert_eq!(uptime_ms(&Clock { hz: 3, ticks: 1 }), 333);
    assert_eq!(uptime_ms(&Clock { hz: 0, ticks: 7 }), 7000);
}

#[test]
fn timer_program_for_100_hz() {
    let mut clock = Clock::new();
    let program = init_pit(&mut clock, 100);
    assert_eq!(
        program,
        [
            PortWrite { port: 0x43, value: 0x36 },
            PortWrite { port: 0x40, value: (11931u32 & 0xFF) as u8 },
            PortWrite { port: 0x40, value: (11931u32 >> 8) as u8 },
        ]
    );
    assert_eq!(frequency_hz(&clock), 100);
}

#[test]
fn timer_divisor_is_kept_in_range() {
    let mut clock = Clock::new();
    let slow = init_pit(&mut clock, 1);
    assert_eq!(slow[1].value, 0xFF);
    assert_eq!(slow[2].value, 0xFF);
    let fast = init_pit(&mut clock, 2_000_000);
    assert_eq!(fast[1].value, 1);
    assert_eq!(fast[2].value, 0);
    assert_eq!(clock.hz, 2_000_000);
}

#[test]
fn serial_setup_program() {
    let program = serial::init_unsafe_16550_default();
    let expected = vec![
        PortWrite { port: 0x3F9, value: 0x00 },
        PortWrite { port: 0x3FB, value: 0x80 },
        PortWrite { port: 0x3F8, value: 0x01 },
        PortWrite { port: 0x3F9, value: 0x00 },
        PortWrite { port: 0x3FB, value: 0x03 },
        PortWrite { port: 0x3FA, value: 0xC7 },
        PortWrite { port: 0x3FC, value: 0x0B },
    ];
    assert_eq!(program, expected);
}

#[test]
fn serial_ready_bit() {
    assert!(serial::is_transmit_empty(0x20));
    assert!(serial::is_transmit_empty(0x60));
    assert!(!serial::is_transmit_empty(0x00));
    assert!(!serial::is_transmit_empty(0xDF));
    assert_eq!(serial::write_byte_blocking(b'A'), PortWrite { port: 0x3F8, value: b'A' });
}

#[test]
fn serial_text_gets_carriage_returns() {
    assert_eq!(serial::write_str(""), Vec::<u8>::new());
    assert_eq!(serial::write_str("abc"), b"abc".to_vec());
    assert_eq!(serial::write_str("a\nb"), b"a\r\nb".to_vec());
    assert_eq!(serial::write_str("\n\n"), b"\r\n\r\n".to_vec());
    assert_eq!(serial::write_str("EXCEPTION: PAGE FAULT\n"), b"EXCEPTION: PAGE FAULT\r\n".to_vec());
    assert_eq!(serial::write_str("a\r\n"), b"a\r\r\n".to_vec());
}
