//! Freivald's probabilistic check of a claimed matrix product over the prime
//! field of order 17.
//!
//! `field` holds the field elements and their arithmetic, `sums` the finite
//! sums that the contracts are stated with, `matrix` the matrix type and its
//! product with a vector, `product` the product of two matrices and how it
//! acts on vectors, `poly` polynomials and the bound on their roots, and
//! `protocol` the check itself with its completeness and soundness.

pub mod field;
pub mod sums;
pub mod matrix;
pub mod product;
pub mod poly;
pub mod protocol;

pub use field::{Fp, FpConfigMont, GENERATOR, MODULUS};
pub use matrix::{vector_equals, Matrix, ShapeError};
pub use protocol::{probe_vector, shapes_agree, verify, verify_with};
