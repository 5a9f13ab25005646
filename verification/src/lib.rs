//! Algebraic hash functions over prime fields, MiMC and Poseidon, each as a
//! native evaluation and as a circuit gadget that computes the same value, and
//! the leaf and nullifier commitments of a mixer built on them.

pub mod arith;
pub mod circuit;
pub mod crh;
pub mod error;
pub mod field;
pub mod leaf;
pub mod mimc;
pub mod packing;
pub mod poseidon;
