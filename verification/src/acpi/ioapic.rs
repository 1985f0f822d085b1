//! I/O APIC.
pub use crate::drivers::apic::ioapic::{
    decode_id, decode_version, gsi_of, isa_to_gsi, map_redtbl, redirection_registers,
    IoApicWrite, SourceOverride, IOAPICID, IOAPICVER, IOREDTBL_BASE, KEYBOARD_ISA,
};
