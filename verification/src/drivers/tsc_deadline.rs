//! TSC-Deadline timer.
//!
//! Detection of the timer, its local vector table entry, the calibration
//! of the time-stamp counter against a known delay, and the deadlines that
//! arm one-shot timer interrupts.
use vstd::prelude::*;

use crate::drivers::apic::lapic::{configure_lvt, RegisterWrite};
use crate::interrupts::vectors::TIMER_VECTOR;

verus! {

/// Offset of the local vector table's timer register.
pub const LVT: u64 = 0x320;

/// Timer mode bits of the TSC-Deadline mode.
pub const TSC_DEADLINE_MODE: u32 = 0x4_0000;

/// Length in milliseconds of the calibration delay.
pub const CALIBRATION_MS: u64 = 10;

/// The IA32_TSC_DEADLINE model-specific register.
pub const IA32: u32 = 0x6E0;

/// Why a deadline cannot be armed.
#[derive(Clone, Copy, Debug, PartialEq, Eq)]
pub enum ArmError {
    /// The delay in counter ticks overflows 64 bits.
    DelayOverflow,
    /// The deadline overflows 64 bits.
    DeadlineOverflow,
}

/// Whether the processor supports the TSC-Deadline mode, given ECX of
/// CPUID leaf 1: its bit 24.
pub fn supports(ecx: u32) -> (r: bool)
    ensures
        r == ((ecx / 0x0100_0000) % 2 == 1),
{
    proof {
        assert((ecx & 0x0100_0000u32 != 0) == ((ecx / 0x0100_0000) % 2 == 1)) by (bit_vector);
    }
    (ecx & 0x0100_0000u32) != 0
}

/// The local vector table write that puts the timer in TSC-Deadline mode
/// on the timer vector.
pub fn lvt_entry() -> (r: RegisterWrite)
    ensures
        r == (RegisterWrite { offset: LVT, value: TSC_DEADLINE_MODE | (TIMER_VECTOR as u32) }),
{
    configure_lvt(LVT, TIMER_VECTOR, TSC_DEADLINE_MODE)
}

/// Time-stamp counter ticks per millisecond, from readings `start` and
/// `end` taken the calibration delay apart; `None` when the counter went
/// backwards.
pub fn calibrate(start: u64, end: u64) -> (r: Option<u64>)
    ensures
        end < start ==> r is None,
        end >= start ==> r == Some(((end - start) / (CALIBRATION_MS as int)) as u64),
{
    if end < start {
        return None;
    }
    Some((end - start) / CALIBRATION_MS)
}

/// The deadline `ms` milliseconds after the counter reading `now`.
pub open spec fn deadline(now: u64, ticks_per_ms: u64, ms: u64) -> Result<u64, ArmError> {
    if ticks_per_ms * ms > u64::MAX {
        Err(ArmError::DelayOverflow)
    } else if now + ticks_per_ms * ms > u64::MAX {
        Err(ArmError::DeadlineOverflow)
    } else {
        Ok((now + ticks_per_ms * ms) as u64)
    }
}

/// The value to write to the deadline register so that the timer fires
/// `ms` milliseconds after the counter reading `now`.
///
/// A delay or deadline that overflows 64 bits stops the kernel; here it is
/// reported as an [`ArmError`] by design, for the caller to stop on.
pub fn arm(now: u64, ticks_per_ms: u64, ms: u64) -> (r: Result<u64, ArmError>)
    ensures
        r == deadline(now, ticks_per_ms, ms),
        r matches Ok(d) ==> d == now + ticks_per_ms * ms,
{
    let delta = match ticks_per_ms.checked_mul(ms) {
        Some(d) => d,
        None => return Err(ArmError::DelayOverflow),
    };
    match now.checked_add(delta) {
        Some(d) => Ok(d),
        None => Err(ArmError::DeadlineOverflow),
    }
}

/// The armed deadline lies exactly the delay of `ms` milliseconds after the
/// counter reading: whenever arming succeeds, the deadline minus `now` is
/// `ticks_per_ms * ms`, so it is never before `now`, one more millisecond
/// moves it by `ticks_per_ms` more ticks, and a later reading moves it by as
/// much. Arming fails exactly when that sum does not fit in 64 bits.
pub proof fn lemma_deadline_is_delay_after_now(now: u64, ticks_per_ms: u64, ms: u64)
    ensures
        deadline(now, ticks_per_ms, ms) is Ok <==> now + ticks_per_ms * ms <= u64::MAX,
        deadline(now, ticks_per_ms, ms) matches Ok(d) ==> d - now == ticks_per_ms * ms && d >= now,
        ms < u64::MAX && deadline(now, ticks_per_ms, ms) is Ok && deadline(
            now,
            ticks_per_ms,
            (ms + 1) as u64,
        ) is Ok ==> deadline(now, ticks_per_ms, (ms + 1) as u64)->Ok_0 - deadline(
            now,
            ticks_per_ms,
            ms,
        )->Ok_0 == ticks_per_ms,
        now < u64::MAX && deadline(now, ticks_per_ms, ms) is Ok && deadline(
            (now + 1) as u64,
            ticks_per_ms,
            ms,
        ) is Ok ==> deadline((now + 1) as u64, ticks_per_ms, ms)->Ok_0 == deadline(
            now,
            ticks_per_ms,
            ms,
        )->Ok_0 + 1,
{
    assert(ticks_per_ms * (ms + 1) == ticks_per_ms * ms + ticks_per_ms) by (nonlinear_arith);
    assert(ticks_per_ms * ms >= 0) by (nonlinear_arith);
}

} // verus!
