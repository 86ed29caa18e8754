//! The devices of the platform.

use riscbox::platform::{Clint, FinishStatus, Finisher, GoldfishRtc, Plic, Uart16550};

#[test]
fn the_finisher_reports_how_a_guest_ended() {
    let mut finisher = Finisher::default();
    assert_eq!(finisher.status(), FinishStatus::Running);
    finisher.write(4, 0x5555);
    assert_eq!(finisher.status(), FinishStatus::Running);
    finisher.write(0, 0x5555);
    assert_eq!(finisher.status(), FinishStatus::Passed);
    let mut finisher = Finisher::default();
    finisher.write(0, 0x0007_3333);
    assert_eq!(finisher.status(), FinishStatus::Failed(7));
}

#[test]
fn the_timer_compares() {
    let mut clint = Clint::default();
    clint.write(0x4000, 500);
    clint.write(0x4004, 1);
    assert_eq!(clint.timecmp(), 0x1_0000_01f4);
    assert!(!clint.timer_interrupt(0x1_0000_01f3));
    assert!(clint.timer_interrupt(0x1_0000_01f4));
    assert_eq!(clint.read(0xbff8, 0x2_0000_0003), 3);
    assert_eq!(clint.read(0xbffc, 0x2_0000_0003), 2);
    clint.write(0, 1);
    assert!(clint.software_interrupt());
}

#[test]
fn a_claimed_interrupt_waits_for_its_completion() {
    let mut plic = Plic::default();
    plic.write(4 * 3, 1);
    plic.write(4 * 5, 2);
    plic.write(0x2080, 0x28);
    plic.set_irq(3, true);
    plic.set_irq(5, true);
    assert_ne!(plic.cpu_interrupts(), 0);
    assert_eq!(plic.read(0x20_1004), 5);
    assert_eq!(plic.read(0x20_1004), 3);
    assert_eq!(plic.read(0x20_1004), 0);
    assert_eq!(plic.cpu_interrupts(), 0);
    plic.write(0x20_1004, 5);
    assert_eq!(plic.read(0x20_1004), 5);
}

#[test]
fn serial_input_is_read_in_order() {
    let mut uart = Uart16550::default();
    let space = uart.receive_space();
    let taken = uart.receive(b"ab");
    assert_eq!(taken, 2.min(space));
    assert_eq!(uart.read(5) & 1, 1);
    assert_eq!(uart.read(0), b'a');
    if taken == 1 {
        assert_eq!(uart.receive(b"b"), 1);
    }
    assert_eq!(uart.read(0), b'b');
    assert_eq!(uart.read(5) & 1, 0);
    for byte in b"hello" {
        uart.write(0, *byte);
    }
    assert_eq!(uart.take_transmitted(), b"hello");
    assert!(uart.take_transmitted().is_empty());
}

#[test]
fn an_alarm_goes_off() {
    let mut rtc = GoldfishRtc::default();
    let now = 0x1_0000_0002;
    assert_eq!(rtc.read(0, now), 2);
    assert_eq!(rtc.read(4, now), 1);
    rtc.write(0x10, 1, now);
    rtc.write(0x0c, 1, now);
    rtc.write(0x08, 1000, now);
    assert!(!rtc.irq());
    assert_eq!(rtc.read(0x18, now), 1);
    assert_eq!(rtc.limit_delay_ms(500, now), 0);
    assert_eq!(rtc.limit_delay_ms(500, now - 3_000_000), 3);
    rtc.limit_delay_ms(500, 0x1_0000_03e8);
    assert!(rtc.irq());
    rtc.write(0x1c, 1, 0x1_0000_03e9);
    assert!(!rtc.irq());
}

#[test]
fn a_half_of_the_clock_is_set() {
    let mut rtc = GoldfishRtc::default();
    let now = 0x1_0000_0002;
    rtc.write(4, 9, now);
    assert_eq!((rtc.read(0, now), rtc.read(4, now)), (2, 9));
    rtc.write(0, 5, now);
    assert_eq!((rtc.read(0, now), rtc.read(4, now)), (5, 9));
}
