//! Translation and shot execution for serialized quantum circuits.
//!
//! The crate turns a circuit description (a sequence of named gate
//! operations over indexed qubits and classical bits, with symbolic
//! angle parameters) into a sequence of primitive simulator gates,
//! drives shot-based execution of that sequence, and packs the raw
//! per-shot register values into a canonical byte-packed outcome
//! record. The simulator itself is an outside capability: callers
//! apply the primitive gates to a state and hand the raw register
//! words or sampled integers back to the driver.

pub mod circuit;
pub mod driver;
pub mod expr;
pub mod results;
pub mod rng;
pub mod translate;
