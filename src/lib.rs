//! Exact Fibonacci numbers for very large indices: binary matrix exponentiation,
//! a parallel decomposition of the exponent, fast doubling, and a resumable
//! iterative engine with a checkpoint record.

pub mod natural;
pub mod matrix;
pub mod state;
pub mod doubling;
pub mod decompose;
pub mod iterative;
pub mod checkpoint;
