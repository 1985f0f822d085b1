//! Device drivers: the register values they program and the decisions
//! they take. The register accesses themselves are memory-mapped I/O,
//! performed by the caller.
pub mod apic;
pub mod hpet;
pub mod input;
pub mod tsc_deadline;
