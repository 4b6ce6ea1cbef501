//! Scalar field and polynomial algebra.

pub mod algebra;
pub mod canonical;
pub mod division;
pub mod evaluation;
pub mod fft;
pub mod field;
pub mod modular;
pub mod poly;
