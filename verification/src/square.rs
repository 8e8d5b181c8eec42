//! The structural predicate gating the decompositions: whether a matrix has
//! as many rows as columns.

use vstd::prelude::*;

use crate::matrix::Matrix;

verus! {

/// Shape check every decomposition in this crate starts from.
pub trait Square: Sized {
    /// What the check decides.
    spec fn is_square_spec(&self) -> bool;

    fn is_square(&self) -> (r: bool)
        ensures
            r == self.is_square_spec(),
    ;
}

impl<T> Square for Matrix<T> {
    /// A matrix is square when it has as many rows as columns.
    open spec fn is_square_spec(&self) -> bool {
        self.rows_spec() == self.cols_spec()
    }

    fn is_square(&self) -> (r: bool) {
        self.rows() == self.cols()
    }
}


/// Law: the shape check has no hidden state — any two runs on the same
/// unmutated matrix return the same answer.
pub proof fn lemma_is_square_idempotent<T>(m: &Matrix<T>, r1: bool, r2: bool)
    requires
        call_ensures(<Matrix<T> as Square>::is_square, (m,), r1),
        call_ensures(<Matrix<T> as Square>::is_square, (m,), r2),
    ensures
        r1 == r2,
{
}
} // verus!
