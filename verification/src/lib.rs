//! KZG polynomial commitments over BN254.
//!
//! The crate has two layers. `primitives` holds the scalar field, the dense
//! univariate polynomials over it with their division and their Fourier
//! transforms, and the algebra of coefficient sequences in which their
//! contracts are written. `backend` holds the points of the two groups, the
//! structured reference string, and commit, open and verify.
//!
//! Field and curve arithmetic is carried out by the arkworks crates. Each
//! call into them is a private function whose contract states what is relied
//! upon; everything else is proved. `backend::correctness` shows what follows
//! for the scheme from the laws of the groups and of the pairing.

pub mod backend;
pub mod errs;
pub mod primitives;
