//! The execution and arithmetization core of a recursive proving layer.
//!
//! `runtime` runs programs of memory accesses and Poseidon2 invocations over
//! a field-valued memory; `trace` turns the permutation events of the record
//! into the rows of the skinny permutation circuit, whose constraints are
//! defined in `air`.
pub mod field;
pub mod poseidon2;
pub mod runtime;
pub mod air;
pub mod trace;
pub mod build_opts;
