//! The BN254 instantiation of the commitment scheme.

pub mod arkworks_bn254;
pub mod correctness;
pub mod points;
