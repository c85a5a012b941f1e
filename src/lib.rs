//! Parameter generation for the Poseidon permutation over the scalar field of
//! BLS12-377: round constants, the MDS matrix, its sparse factorization and the
//! compressed round constants.
pub mod field;
pub mod matrix;
pub mod algebra;
pub mod linalg;
pub mod error;
pub mod mds;
pub mod round_constant;
pub mod preprocessing;
pub mod constants;
pub mod poseidon;
pub mod token;
