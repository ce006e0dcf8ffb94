//! A correctness oracle for a family of C0 toolchain implementations: the
//! test specification language, the oracle that resolves and checks expected
//! behaviors, and the decoding of sandboxed process outcomes.

pub mod spec;
pub mod executer;
pub mod checker;
pub mod parse_spec;
pub mod decimal;
pub mod launcher;
pub mod implementations;
pub mod options;
pub mod manifest;

