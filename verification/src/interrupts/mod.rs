//! Interrupt vectors and the decisions of the interrupt handlers.
pub mod handlers;
pub mod vectors;
