//! Verified core logic of the Aether kernel.
#![allow(unused_imports)]

use vstd::prelude::*;

pub mod acpi;
pub mod config;
pub mod display;
pub mod drivers;
pub mod fs;
pub mod interrupts;
pub mod log;
pub mod memory;
pub mod vfs;

verus! {

} // verus!
