//! Address translation between physical addresses and the higher-half
//! direct map (HHDM), where the bootloader maps all physical memory at a
//! fixed virtual offset.
use vstd::prelude::*;

use x86_64::{PhysAddr, VirtAddr};

verus! {

/// Why an address could not be translated.
#[derive(Clone, Copy, Debug, PartialEq, Eq)]
pub enum AddressError {
    /// The translation overflows 64 bits.
    Overflow,
    /// The translation goes below address zero.
    Underflow,
    /// The resulting virtual address is not canonical.
    NonCanonical,
    /// The resulting physical address has bits set at or above bit 52.
    NotPhysical,
}

/// Physical addresses have at most 52 bits.
pub const PHYS_ADDR_LIMIT: u64 = 0x0010_0000_0000_0000;

/// A canonical virtual address: bits 48 to 63 copy bit 47.
pub open spec fn is_canonical(addr: u64) -> bool {
    addr < 0x0000_8000_0000_0000 || addr >= 0xFFFF_8000_0000_0000
}

/// A valid physical address: no bit set at or above bit 52.
pub open spec fn is_physical(addr: u64) -> bool {
    addr < PHYS_ADDR_LIMIT
}

/// Whether `VirtAddr::try_new(addr)` accepts `addr`.
///
/// Trusted: `try_new` succeeds exactly when bits 48 to 63 of `addr` are a
/// sign extension of bit 47, as the x86_64 crate documents.
#[verifier::external_body]
fn virt_addr_valid(addr: u64) -> (r: bool)
    ensures
        r == is_canonical(addr),
{
    VirtAddr::try_new(addr).is_ok()
}

/// Whether `PhysAddr::try_new(addr)` accepts `addr`.
///
/// Trusted: `try_new` succeeds exactly when no bit at or above bit 52 of
/// `addr` is set, as the x86_64 crate documents (without its
/// `memory_encryption` feature, which this crate does not enable).
#[verifier::external_body]
fn phys_addr_valid(addr: u64) -> (r: bool)
    ensures
        r == is_physical(addr),
{
    PhysAddr::try_new(addr).is_ok()
}

/// The translation of `phys` into the direct map that starts at `hhdm`.
pub open spec fn virt_of(phys: u64, hhdm: u64) -> Result<u64, AddressError> {
    if hhdm + phys > u64::MAX {
        Err(AddressError::Overflow)
    } else if !is_canonical((hhdm + phys) as u64) {
        Err(AddressError::NonCanonical)
    } else {
        Ok((hhdm + phys) as u64)
    }
}

/// The physical address that `virt` maps in the direct map that starts at `hhdm`.
pub open spec fn phys_of(virt: u64, hhdm: u64) -> Result<u64, AddressError> {
    if virt < hhdm {
        Err(AddressError::Underflow)
    } else if !is_physical((virt - hhdm) as u64) {
        Err(AddressError::NotPhysical)
    } else {
        Ok((virt - hhdm) as u64)
    }
}

/// The virtual address `delta` bytes past `virt`.
pub open spec fn offset_of(virt: u64, delta: u64) -> Result<u64, AddressError> {
    if virt + delta > u64::MAX {
        Err(AddressError::Overflow)
    } else if !is_canonical((virt + delta) as u64) {
        Err(AddressError::NonCanonical)
    } else {
        Ok((virt + delta) as u64)
    }
}

/// Translates the physical address `phys` to its virtual address in the
/// direct map that starts at `hhdm`.
///
/// An overflowing or non-canonical result stops the kernel; here it is
/// reported as an [`AddressError`] by design, for the caller to stop on.
pub fn to_virt(phys: u64, hhdm: u64) -> (r: Result<u64, AddressError>)
    ensures
        r == virt_of(phys, hhdm),
        r matches Ok(a) ==> a == hhdm + phys,
{
    match hhdm.checked_add(phys) {
        None => Err(AddressError::Overflow),
        Some(addr) => if virt_addr_valid(addr) {
            Ok(addr)
        } else {
            Err(AddressError::NonCanonical)
        },
    }
}

/// Translates the direct-map virtual address `virt` back to the physical
/// address it maps, for the direct map that starts at `hhdm`.
///
/// An address below the direct map or past the physical address space
/// stops the kernel; here it is reported as an [`AddressError`] by design.
pub fn to_phys(virt: u64, hhdm: u64) -> (r: Result<u64, AddressError>)
    ensures
        r == phys_of(virt, hhdm),
        r matches Ok(p) ==> p + hhdm == virt,
{
    match virt.checked_sub(hhdm) {
        None => Err(AddressError::Underflow),
        Some(addr) => if phys_addr_valid(addr) {
            Ok(addr)
        } else {
            Err(AddressError::NotPhysical)
        },
    }
}

/// The virtual address `delta` bytes past `virt`.
///
/// An overflowing or non-canonical result stops the kernel; here it is
/// reported as an [`AddressError`] by design.
pub fn offset(virt: u64, delta: u64) -> (r: Result<u64, AddressError>)
    ensures
        r == offset_of(virt, delta),
        r matches Ok(a) ==> a == virt + delta,
{
    if delta > u64::MAX - virt {
        return Err(AddressError::Overflow);
    }
    let addr = virt + delta;
    if virt_addr_valid(addr) {
        Ok(addr)
    } else {
        Err(AddressError::NonCanonical)
    }
}

/// Round trip: a physical address translated into the direct map and back
/// is the address again, whenever the first translation succeeds.
pub proof fn lemma_virt_phys_round_trip(phys: u64, hhdm: u64)
    requires
        is_physical(phys),
        virt_of(phys, hhdm) is Ok,
    ensures
        phys_of(virt_of(phys, hhdm)->Ok_0, hhdm) == Ok::<u64, AddressError>(phys),
{
}

/// Round trip: a direct-map address translated to its physical address and
/// back into the direct map is the address again, whenever the first
/// translation succeeds.
pub proof fn lemma_phys_virt_round_trip(virt: u64, hhdm: u64)
    requires
        is_canonical(virt),
        phys_of(virt, hhdm) is Ok,
    ensures
        virt_of(phys_of(virt, hhdm)->Ok_0, hhdm) == Ok::<u64, AddressError>(virt),
{
}

/// The translations are plain address arithmetic: a successful offset is
/// the sum of the address and the distance, so offsetting by zero keeps a
/// canonical address and offsetting twice is offsetting once by the sum; a
/// direct-map address is the physical address plus the map's start, and a
/// physical address is the direct-map address minus it. Each fails only
/// when the sum or difference leaves the 64-bit range or the address space.
pub proof fn lemma_translation_is_arithmetic(virt: u64, phys: u64, hhdm: u64, d1: u64, d2: u64)
    ensures
        offset_of(virt, d1) matches Ok(a) ==> a == virt + d1,
        is_canonical(virt) ==> offset_of(virt, 0) == Ok::<u64, AddressError>(virt),
        virt + d1 + d2 <= u64::MAX && offset_of(virt, d1) is Ok ==> offset_of(
            offset_of(virt, d1)->Ok_0,
            d2,
        ) == offset_of(virt, (d1 + d2) as u64),
        offset_of(virt, d1) is Err ==> virt + d1 > u64::MAX || !is_canonical((virt + d1) as u64),
        virt_of(phys, hhdm) matches Ok(a) ==> a == hhdm + phys,
        virt_of(phys, hhdm) is Err ==> hhdm + phys > u64::MAX || !is_canonical(
            (hhdm + phys) as u64,
        ),
        phys_of(virt, hhdm) matches Ok(p) ==> p + hhdm == virt,
        phys_of(virt, hhdm) is Err ==> virt < hhdm || !is_physical((virt - hhdm) as u64),
{
}

} // verus!
