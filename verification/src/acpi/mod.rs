//! The ACPI-era interrupt controller and timer modules; they share their
//! register logic with the drivers of the same devices.
pub mod hpet;
pub mod ioapic;
pub mod lapic;
pub mod lvt;
