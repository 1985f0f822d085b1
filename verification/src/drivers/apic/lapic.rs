//! Local APIC: enabling, end of interrupt, processor ID and local vector
//! table entries, as values of its memory-mapped registers.
use vstd::prelude::*;

use crate::interrupts::vectors::SVR_VECTOR;

verus! {

/// Offset of the Local APIC ID register.
pub const LAPIC_ID_REG: u64 = 0x20;

/// Offset of the End of Interrupt (EOI) register.
pub const LAPIC_EOI_REG: u64 = 0xB0;

/// Offset of the Spurious Interrupt Vector Register (SVR).
pub const LAPIC_SVR_REG: u64 = 0xF0;

/// Bit of the SVR that enables the Local APIC.
pub const SVR_APIC_ENABLE: u32 = 0x100;

/// A write of `value` to the 32-bit Local APIC register at `offset`.
#[derive(Clone, Copy, Debug, PartialEq, Eq)]
pub struct RegisterWrite {
    pub offset: u64,
    pub value: u32,
}

/// The SVR value that enables the Local APIC, given the SVR's current
/// value: the enable bit and the spurious vector set, other bits kept.
pub fn enable_value(svr: u32) -> (r: u32)
    ensures
        r == svr | SVR_APIC_ENABLE | (SVR_VECTOR as u32),
{
    let mut value = svr;
    value = value | SVR_APIC_ENABLE;
    value = value | SVR_VECTOR as u32;
    value
}

/// The register write that signals the end of the current interrupt:
/// zero to the EOI register.
pub fn eoi() -> (r: RegisterWrite)
    ensures
        r == (RegisterWrite { offset: LAPIC_EOI_REG, value: 0 }),
{
    RegisterWrite { offset: LAPIC_EOI_REG, value: 0 }
}

/// The processor's APIC ID, given the value of the ID register: its top byte.
pub fn id(id_register: u32) -> (r: u8)
    ensures
        r == id_register / 0x0100_0000,
{
    let r = (id_register >> 24u32) as u8;
    proof {
        assert((id_register >> 24u32) == id_register / 0x0100_0000) by (bit_vector);
    }
    r
}

/// The write that programs the local vector table register `reg` to
/// deliver `vector` with the mode bits `flags`.
pub fn configure_lvt(reg: u64, vector: u8, flags: u32) -> (r: RegisterWrite)
    ensures
        r == (RegisterWrite { offset: reg, value: flags | (vector as u32) }),
{
    RegisterWrite { offset: reg, value: flags | vector as u32 }
}

} // verus!
