//! Guest time and pointer coordinates.

use riscbox::browser_abi::milliseconds_from_parts;
use riscbox::quantum::{
    median, rounded_positive_integer, scale_pointer_coordinate, ActiveQuantum, QuantumOutcome,
};

#[test]
fn reconstructs_epoch_milliseconds_without_truncation() {
    assert_eq!(
        milliseconds_from_parts(0xcc09_147b, 0x0000_0192),
        1_730_000_000_123,
    );
}

#[test]
fn pointer_coordinates_are_clamped_and_scaled_to_the_tablet_range() {
    assert_eq!(scale_pointer_coordinate(0, 1280), 0);
    assert_eq!(scale_pointer_coordinate(640, 1280), 16_384);
    assert_eq!(scale_pointer_coordinate(2000, 1280), 32_742);
    assert_eq!(scale_pointer_coordinate(1, 0), 0);
}

fn quantum(rate: u64, guest_tick_rate: u64) -> ActiveQuantum {
    ActiveQuantum {
        start_guest_ticks: 17_300_000_000_000_000,
        cycles_per_host_second: rate,
        guest_ticks_per_host_second: guest_tick_rate,
        budget_cycles: i32::MAX as u32,
        consumed_cycles: 123,
        stalled_cpu_runs: 0,
        cpu_runs: 0,
        timer_reprogramming_exits: 0,
        timer_intervals_guest_ticks: Vec::new(),
        record_timer_interval: false,
        wfi_wake_delay_guest_ticks: 0,
        terminal: None,
    }
}

#[test]
fn deadline_budget_reaches_the_first_matching_tick() {
    for rate in [1_000_000, 300_000_000, 1_123_456_789] {
        for guest_tick_rate in [8_000_000, 9_999_999, 10_000_000] {
            for deadline in [1, 2, 997, 10_001] {
                let quantum = quantum(rate, guest_tick_rate);
                let target = quantum.consumed_cycles
                    + u64::from(quantum.cycles_until_deadline(deadline));
                let offset = (u128::from(quantum.consumed_cycles)
                    * u128::from(guest_tick_rate)
                    / u128::from(rate))
                    + u128::from(deadline);
                assert!(
                    u128::from(target) * u128::from(guest_tick_rate) / u128::from(rate)
                        >= offset
                );
                assert!(
                    u128::from(target - 1) * u128::from(guest_tick_rate) / u128::from(rate)
                        < offset
                );
            }
        }
    }
}

#[test]
fn skew_slows_guest_time_without_reducing_the_cycle_budget() {
    let mut quantum = quantum(300_000_000, 8_000_000);
    quantum.start_guest_ticks = 10_000_000_000;
    quantum.budget_cycles = 3_000_000;
    quantum.consumed_cycles = 3_000_000;
    quantum.cpu_runs = 1;
    quantum.terminal = Some(QuantumOutcome::BudgetReached);
    assert_eq!(quantum.budget_cycles, 3_000_000);
    assert_eq!(quantum.guest_ticks(), 10_000_080_000);
    let (surplus, whole) = quantum.required_guest_clock_skew(1_000_009).unwrap();
    assert!((surplus as f64 / whole as f64 - 0.10).abs() < 0.000_001);
    assert_eq!(quantum.required_guest_clock_skew(1_000_010), None);
    quantum.terminal = Some(QuantumOutcome::WfiSleep);
    assert_eq!(quantum.required_guest_clock_skew(1_000_009), None);
}

#[test]
fn rounded_floats_become_integers() {
    for value in [0.0_f64, 0.25, 1.0, 2.0, 3.0, 300_000_000.0, 9.0e15, 1.0e18] {
        assert_eq!(rounded_positive_integer(value.to_bits()), value as u64);
    }
    assert_eq!(rounded_positive_integer(1.0e30_f64.to_bits()), u64::MAX);
    assert_eq!(rounded_positive_integer(f64::INFINITY.to_bits()), u64::MAX);
}

#[test]
fn medians_stand_in_the_middle() {
    assert_eq!(median(&vec![]), 0);
    assert_eq!(median(&vec![7]), 7);
    assert_eq!(median(&vec![9, 1, 5]), 5);
    assert_eq!(median(&vec![4, 2, 8, 6]), 6);
    assert_eq!(median(&vec![3, 3, 3, 100]), 3);
    assert_eq!(median(&vec![u64::MAX, u64::MAX]), u64::MAX);
}
