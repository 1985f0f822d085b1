//! Advanced Programmable Interrupt Controllers.
pub mod ioapic;
pub mod lapic;
