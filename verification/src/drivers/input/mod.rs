//! Input devices.
pub mod ps2_keyboard;
