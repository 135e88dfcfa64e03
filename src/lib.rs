//! Arithmetization of a streaming I/O table for a STARK proof system: a
//! base-field execution trace is padded to a power-of-two height, extended
//! with a running evaluation argument over the cubic extension field, and
//! described by boundary, transition and terminal constraints.
pub mod field;
pub mod polynomial;
pub mod table;
pub mod io_table;
