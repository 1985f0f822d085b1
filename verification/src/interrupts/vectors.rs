//! Interrupt vector numbers.
use vstd::prelude::*;

verus! {

/// Vector of spurious interrupts (SVR).
pub const SVR_VECTOR: u8 = 0xFF;

/// Vector of the APIC timer interrupt.
pub const TIMER_VECTOR: u8 = 0x20;

/// Vector of the PS/2 keyboard interrupt.
pub const KEYBOARD_VECTOR: u8 = 0x21;

/// Vector of the software interrupt raised when a command line is entered.
pub const READ_COMMAND_VECTOR: u8 = 0x30;

} // verus!
