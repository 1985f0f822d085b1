//! The Local APIC timer in TSC-Deadline mode.
pub use crate::drivers::tsc_deadline::{
    arm as arm_tsc_deadline, deadline, lvt_entry, supports as supports_tsc_deadline,
    calibrate, ArmError, CALIBRATION_MS, LVT, TSC_DEADLINE_MODE,
};
