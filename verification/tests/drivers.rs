use aether::acpi;
use aether::drivers::apic::ioapic::{
    decode_id, decode_version, isa_to_gsi, map_redtbl, redirection_registers, IoApicWrite,
    SourceOverride, KEYBOARD_ISA,
};
use aether::drivers::apic::lapic::{configure_lvt, enable_value, eoi, id, RegisterWrite};
use aether::drivers::hpet::{
    deadline_after, deadline_reached, delay_ticks, period_fs, wait_ms, wait_ns, WaitError,
};
use aether::drivers::tsc_deadline::{arm, calibrate, lvt_entry, supports, ArmError};
use aether::interrupts::vectors::{KEYBOARD_VECTOR, TIMER_VECTOR};

#[test]
fn lapic_enable_sets_enable_bit_and_spurious_vector() {
    assert_eq!(enable_value(0), 0x1FF);
    assert_eq!(enable_value(0x1_0000), 0x1_01FF);
    assert_eq!(enable_value(0xFFFF_FFFF), 0xFFFF_FFFF);
}

#[test]
fn lapic_eoi_writes_zero_to_eoi_register() {
    assert_eq!(eoi(), RegisterWrite { offset: 0xB0, value: 0 });
}

#[test]
fn lapic_id_is_top_byte() {
    assert_eq!(id(0x0300_0000), 3);
    assert_eq!(id(0xFF12_3456), 0xFF);
    assert_eq!(id(0x00FF_FFFF), 0);
}

#[test]
fn acpi_lapic_id_is_shifted_into_destination_field() {
    assert_eq!(acpi::lapic::id(0x0100_0000), 0x0100_0000);
    assert_eq!(acpi::lapic::id(0x0000_0003), 0);
    assert_eq!(acpi::lapic::id(0xAB12_3456), 0xAB00_0000);
}

#[test]
fn lvt_entries_combine_mode_and_vector() {
    assert_eq!(configure_lvt(0x320, 0x20, 0x4_0000), RegisterWrite { offset: 0x320, value: 0x4_0020 });
    assert_eq!(lvt_entry(), RegisterWrite { offset: 0x320, value: 0x4_0000 | TIMER_VECTOR as u32 });
}

#[test]
fn ioapic_registers_decode() {
    assert_eq!(decode_id(0x0A00_0000), 0x0A);
    assert_eq!(decode_id(0xFFFF_FFFF), 0xFF);
    assert_eq!(decode_version(0x0017_0020), (0x17, 0x20));
    assert_eq!(decode_version(0xAB17_FF20), (0x17, 0x20));
}

#[test]
fn isa_lines_follow_first_override() {
    let overrides = [
        SourceOverride { isa_source: 0, global_system_interrupt: 2 },
        SourceOverride { isa_source: 1, global_system_interrupt: 9 },
        SourceOverride { isa_source: 1, global_system_interrupt: 11 },
    ];
    assert_eq!(isa_to_gsi(KEYBOARD_ISA, &overrides), 9);
    assert_eq!(isa_to_gsi(0, &overrides), 2);
    assert_eq!(isa_to_gsi(4, &overrides), 4);
    assert_eq!(isa_to_gsi(1, &[]), 1);
}

#[test]
fn redirection_entry_registers() {
    assert_eq!(redirection_registers(1), Some((0x12, 0x13)));
    assert_eq!(redirection_registers(0), Some((0x10, 0x11)));
    assert_eq!(redirection_registers(0x7FFF_FFF7), Some((0xFFFF_FFFE, 0xFFFF_FFFF)));
    assert_eq!(redirection_registers(0x7FFF_FFF8), None);
    assert_eq!(
        map_redtbl(0x12, 0x13, KEYBOARD_VECTOR as u32, 0x0300_0000),
        [IoApicWrite { reg: 0x13, value: 0x0300_0000 }, IoApicWrite { reg: 0x12, value: 0x21 }]
    );
}

#[test]
fn hpet_period_must_be_positive_and_at_most_100ms() {
    assert_eq!(period_fs(0x00989680_0000_0000), Some(0x00989680));
    assert_eq!(period_fs(0x05F5E100_0000_1234), Some(0x05F5E100));
    // A 1 us period (10^9 fs) is accepted.
    assert_eq!(period_fs(0x3B9ACA00_0000_0000), Some(1_000_000_000));
    assert_eq!(period_fs(0xFFFFFFFF_0000_0000), Some(0xFFFF_FFFF));
    assert_eq!(period_fs(0x0000_0000_FFFF_FFFF), None);
}

#[test]
fn hpet_wait_targets() {
    // 10 MHz counter: 100 ns per tick.
    let period = 100_000_000;
    assert_eq!(wait_ns(1000, period, 5), Ok(15));
    assert_eq!(wait_ns(150, period, 0), Ok(1));
    assert_eq!(wait_ms(10, period, 1_000), Ok(101_000));
    assert_eq!(wait_ns(u64::MAX / 1_000_000 + 1, period, 0), Err(WaitError::DelayOverflow));
    assert_eq!(wait_ms(u64::MAX / 1_000_000 + 1, period, 0), Err(WaitError::DelayOverflow));
    assert_eq!(wait_ns(1000, period, u64::MAX - 5), Err(WaitError::DeadlineOverflow));
    assert!(deadline_reached(15, 15));
    assert!(deadline_reached(16, 15));
    assert!(!deadline_reached(14, 15));
}

#[test]
fn tsc_deadline_support_is_cpuid_bit_24() {
    assert!(supports(1 << 24));
    assert!(supports(0xFFFF_FFFF));
    assert!(!supports(0xFEFF_FFFF));
    assert!(acpi::lvt::timer::supports_tsc_deadline(1 << 24));
}

#[test]
fn tsc_calibration_and_deadlines() {
    assert_eq!(calibrate(1_000, 31_000), Some(3_000));
    assert_eq!(calibrate(5, 4), None);
    assert_eq!(arm(1_000, 3_000, 1), Ok(4_000));
    assert_eq!(arm(0, u64::MAX, 2), Err(ArmError::DelayOverflow));
    assert_eq!(arm(u64::MAX, 1, 1), Err(ArmError::DeadlineOverflow));
    assert_eq!(acpi::lvt::timer::arm_tsc_deadline(10, 2, 3), Ok(16));
}

#[test]
fn hpet_delay_in_ticks_and_deadline() {
    // 10 ms with a 10 ns period: 10^13 fs / 10^7 fs.
    assert_eq!(delay_ticks(10_000_000, 10_000_000), Some(1_000_000));
    assert_eq!(delay_ticks(1, 3), Some(333_333));
    assert_eq!(delay_ticks(u64::MAX / 1_000_000 + 1, 1), None);
    assert_eq!(deadline_after(5, 7), Some(12));
    assert_eq!(deadline_after(u64::MAX, 1), None);
    assert_eq!(deadline_after(u64::MAX - 1, 1), Some(u64::MAX));
}
