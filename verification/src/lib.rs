//! Closed-loop thermal governor for a laptop's embedded controller (EC).
//!
//! The library holds the verified core of the daemon: the hysteresis
//! curve table and its lookup, the debouncing sample window, the poll-loop
//! decision logic, and the fail-safe handoff of the EC's native ("BIOS")
//! thermal control, modelled as plans of single-byte register writes.
//! The surrounding process (device file access, signal delivery, kernel
//! module loading, configuration parsing) supplies plain values to these
//! functions and carries their decisions out.

pub mod curve;
pub mod governor;
pub mod module_image;
pub mod registers;
pub mod window;
