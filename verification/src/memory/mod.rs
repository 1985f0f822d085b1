//! Memory management: the bootloader memory map, physical frame
//! allocation and address translation through the higher-half direct map.
pub mod address;
pub mod frame_allocator;
pub mod map;
