//! Groth16 proof verification over BN254 and the adapter that turns
//! decimal proof coordinates into the canonical big-endian proof layout.
pub mod endian;
pub mod arith;
pub mod curve;
pub mod adapter;
pub mod groth16;
pub mod program;
