//! Display subsystem.
//!
//! A text-mode framebuffer renderer with glyph rasterization, cursor
//! tracking and vertical scrolling.
pub mod cell;
pub mod font;
pub mod framebuffer;
pub mod greet;
