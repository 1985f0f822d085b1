//! High Precision Event Timer.
pub use crate::drivers::hpet::{
    deadline_after, deadline_ns, deadline_reached, delay_ticks, period_fs, wait_ms, wait_ns, WaitError, CAP_ID, CONFIG,
    MAIN_COUNTER, MAX_PERIOD_FS,
};
