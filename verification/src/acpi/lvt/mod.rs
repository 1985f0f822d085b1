//! Local vector table entries.
pub mod timer;
