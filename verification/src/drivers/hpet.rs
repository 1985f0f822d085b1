//! High Precision Event Timer (HPET).
//!
//! Validation of the counter period read at initialisation, and the
//! busy-wait deadlines, in counter ticks, of nanosecond and millisecond
//! delays.
use vstd::prelude::*;
use vstd::arithmetic::div_mod::lemma_fundamental_div_mod;

verus! {

/// Offset of the general capabilities and ID register.
pub const CAP_ID: u64 = 0x000;

/// Offset of the general configuration register.
pub const CONFIG: u64 = 0x010;

/// Offset of the main counter register.
pub const MAIN_COUNTER: u64 = 0x0F0;

/// Largest valid counter period in femtoseconds (100 ms).
pub const MAX_PERIOD_FS: u64 = 100_000_000_000_000;

/// Why a delay cannot be waited for.
#[derive(Clone, Copy, Debug, PartialEq, Eq)]
pub enum WaitError {
    /// The delay in femtoseconds overflows 64 bits.
    DelayOverflow,
    /// The counter value at which the delay ends overflows 64 bits.
    DeadlineOverflow,
}

/// The counter period in femtoseconds that the capabilities register
/// `cap` declares (its upper half), if it is a valid one: nonzero and at
/// most 100 ms.
pub fn period_fs(cap: u64) -> (r: Option<u64>)
    ensures
        (cap / 0x1_0000_0000 == 0 || cap / 0x1_0000_0000 > MAX_PERIOD_FS) ==> r is None,
        (0 < cap / 0x1_0000_0000 <= MAX_PERIOD_FS) ==> r == Some((cap / 0x1_0000_0000) as u64),
{
    let period = cap >> 32u32;
    proof {
        assert((cap >> 32u32) == cap / 0x1_0000_0000) by (bit_vector);
    }
    if period == 0 || period > MAX_PERIOD_FS {
        return None;
    }
    Some(period)
}

/// The delay of `ns` nanoseconds as the counter value to wait for, when
/// the counter reads `now` and ticks every `period_fs` femtoseconds.
pub open spec fn deadline_ns(ns: u64, period_fs: u64, now: u64) -> Result<u64, WaitError> {
    if ns * 1_000_000 > u64::MAX {
        Err(WaitError::DelayOverflow)
    } else if now + (ns * 1_000_000) / (period_fs as int) > u64::MAX {
        Err(WaitError::DeadlineOverflow)
    } else {
        Ok((now + (ns * 1_000_000) / (period_fs as int)) as u64)
    }
}

/// The number of counter ticks in `ns` nanoseconds, when the counter ticks
/// every `period_fs` femtoseconds; `None` when the delay in femtoseconds
/// overflows 64 bits.
pub fn delay_ticks(ns: u64, period_fs: u64) -> (r: Option<u64>)
    requires
        period_fs > 0,
    ensures
        ns * 1_000_000 > u64::MAX ==> r is None,
        ns * 1_000_000 <= u64::MAX ==> r == Some(((ns * 1_000_000) / (period_fs as int)) as u64),
        r matches Some(t) ==> t * period_fs <= ns * 1_000_000 < (t + 1) * period_fs,
{
    proof {
        lemma_floor_div(ns * 1_000_000, period_fs as int);
    }
    match ns.checked_mul(1_000_000) {
        Some(fs) => Some(fs / period_fs),
        None => None,
    }
}

/// The counter value `ticks` ticks after the reading `now`; `None` when it
/// overflows 64 bits.
pub fn deadline_after(now: u64, ticks: u64) -> (r: Option<u64>)
    ensures
        now + ticks > u64::MAX ==> r is None,
        now + ticks <= u64::MAX ==> r == Some((now + ticks) as u64),
{
    now.checked_add(ticks)
}

/// The counter value that ends a wait of `ns` nanoseconds started when the
/// counter read `now`.
///
/// A delay that overflows stops the kernel; here it is reported as a
/// [`WaitError`] by design, for the caller to stop on.
pub fn wait_ns(ns: u64, period_fs: u64, now: u64) -> (r: Result<u64, WaitError>)
    requires
        period_fs > 0,
    ensures
        r == deadline_ns(ns, period_fs, now),
        r matches Ok(d) ==> d >= now && (d - now) * period_fs <= ns * 1_000_000 < (d - now + 1)
            * period_fs,
{
    proof {
        lemma_wait_is_whole_ticks(ns, period_fs, now);
    }
    let ticks = match delay_ticks(ns, period_fs) {
        Some(t) => t,
        None => return Err(WaitError::DelayOverflow),
    };
    match deadline_after(now, ticks) {
        Some(target) => Ok(target),
        None => Err(WaitError::DeadlineOverflow),
    }
}

/// The counter value that ends a wait of `ms` milliseconds started when the
/// counter read `now`.
pub fn wait_ms(ms: u64, period_fs: u64, now: u64) -> (r: Result<u64, WaitError>)
    requires
        period_fs > 0,
    ensures
        ms * 1_000_000 > u64::MAX ==> r == Err::<u64, WaitError>(WaitError::DelayOverflow),
        ms * 1_000_000 <= u64::MAX ==> r == deadline_ns((ms * 1_000_000) as u64, period_fs, now),
{
    match ms.checked_mul(1_000_000) {
        Some(ns) => wait_ns(ns, period_fs, now),
        None => Err(WaitError::DelayOverflow),
    }
}

/// Whether a wait that ends at counter value `target` is over when the
/// counter reads `counter`.
pub fn deadline_reached(counter: u64, target: u64) -> (r: bool)
    ensures
        r == (counter >= target),
{
    !(counter < target)
}

/// A wait lasts the whole number of counter ticks that fit in the delay
/// with the given period: whenever the deadline can be computed, it lies
/// `k` ticks after `now`, where `k` periods take at most `ns` nanoseconds
/// and `k + 1` periods take longer. It fails exactly when the delay in
/// femtoseconds or the deadline overflows 64 bits.
pub proof fn lemma_wait_is_whole_ticks(ns: u64, period_fs: u64, now: u64)
    requires
        period_fs > 0,
    ensures
        deadline_ns(ns, period_fs, now) is Err ==> ns * 1_000_000 > u64::MAX || now + (
        ns * 1_000_000) / (period_fs as int) > u64::MAX,
        deadline_ns(ns, period_fs, now) matches Ok(d) ==> d >= now && (d - now) * period_fs
            <= ns * 1_000_000 < (d - now + 1) * period_fs,
{
    lemma_floor_div(ns * 1_000_000, period_fs as int);
}

proof fn lemma_floor_div(x: int, p: int)
    requires
        x >= 0,
        p > 0,
    ensures
        x / p >= 0,
        (x / p) * p <= x < (x / p + 1) * p,
{
    lemma_fundamental_div_mod(x, p);
    let q = x / p;
    assert(q >= 0) by (nonlinear_arith)
        requires
            x >= 0,
            p > 0,
            x == p * q + x % p,
            0 <= x % p < p,
    ;
    assert(q * p <= x < (q + 1) * p) by (nonlinear_arith)
        requires
            x == p * q + x % p,
            0 <= x % p < p,
    ;
}

} // verus!
