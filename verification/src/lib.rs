//! Dense in-memory matrices with verified structural predicates and two
//! classical decompositions: a cyclic Jacobi eigenvalue engine for symmetric
//! matrices and a Cholesky factorization of positive-definite matrices.
//!
//! The algorithms are generic over the scalar type they compute with: all
//! arithmetic is routed through the capability traits in [`numeric`], so the
//! control structure, memory safety and shape properties of every algorithm
//! are verified once for every scalar a caller supplies.

pub mod matrix;
pub mod numeric;
pub mod square;
pub mod symmetric;
pub mod definite;
