//! Local APIC, as the I/O APIC's destination field expects its ID.
use vstd::prelude::*;

pub use crate::drivers::apic::lapic::{
    enable_value, eoi, RegisterWrite, LAPIC_EOI_REG, LAPIC_ID_REG, LAPIC_SVR_REG,
    SVR_APIC_ENABLE,
};

verus! {

/// The processor's APIC ID, given the value of the ID register (its bits
/// 24 to 31), shifted left by 24 bits: the form in which the I/O APIC's
/// destination field takes it.
pub fn id(id_register: u32) -> (r: u32)
    ensures
        r == (id_register / 0x0100_0000) * 0x0100_0000,
{
    proof {
        assert(((id_register >> 24u32) << 24u32) == (id_register / 0x0100_0000) * 0x0100_0000)
            by (bit_vector);
    }
    (id_register >> 24u32) << 24u32
}

} // verus!
