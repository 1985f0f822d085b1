//! Kernel logging: severity levels and the filter that decides which
//! messages reach the serial console.
pub mod level;
