//! Filesystems.
pub mod tarfs;
pub mod ustar;
