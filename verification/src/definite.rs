//! The positive-definiteness test built on the Jacobi engine, and the
//! Cholesky factorization of positive-definite matrices.

use vstd::prelude::*;

use vstd::std_specs::cmp::PartialEqSpec;

use crate::matrix::Matrix;
use crate::numeric::{NumericOps, Widen};
use crate::square::Square;
use crate::symmetric::{Algorithm, EigenDecompositionError, Symmetric};

verus! {

broadcast use vstd::string::to_string_from_display_ensures_for_str;

/// Why a Cholesky factorization failed: the input failed the
/// positive-definiteness pre-check, or a non-positive pivot turned up during
/// the factorization despite the pre-check (a numerical breakdown).
#[derive(Debug, PartialEq, Eq, Structural)]
pub enum CholeskyDecompositionError {
    MatrixIsNotPositiveDefinite,
    AlgorithmFailed,
}

impl CholeskyDecompositionError {
    /// The human-readable description of the failure.
    pub fn message(&self) -> (r: String)
        ensures
            *self is MatrixIsNotPositiveDefinite ==> r@
                == "CHolesky Decomposition failed because matrix is not positive definite."@,
            *self is AlgorithmFailed ==> r@
                == "CHolesky Decomposition failed because selected algorithm failed."@,
    {
        match *self {
            CholeskyDecompositionError::MatrixIsNotPositiveDefinite => {
                "CHolesky Decomposition failed because matrix is not positive definite.".to_string()
            },
            CholeskyDecompositionError::AlgorithmFailed => {
                "CHolesky Decomposition failed because selected algorithm failed.".to_string()
            },
        }
    }
}

/// Whether no value in `values` compares less-or-equal to the zero of the
/// scalar model: the check [`Matrix::is_positive_definite`] runs over the
/// eigenvalues the engine returned, stopping at the first offender.
pub fn all_strictly_positive<W: Copy, O: NumericOps<W>>(ops: &O, values: &Vec<W>) -> (r: bool)
    ensures
        r <==> (forall|k: int|
            0 <= k < values@.len() ==> !ops.le_spec(#[trigger] values@[k], ops.zero_spec())),
{
    let zero: W = ops.zero();
    let n: usize = values.len();
    for k in 0..n
        invariant
            n == values@.len(),
            zero == ops.zero_spec(),
            forall|m: int| 0 <= m < k ==> !ops.le_spec(#[trigger] values@[m], ops.zero_spec()),
    {
        if ops.le(values[k], zero) {
            return false;
        }
    }
    true
}

/// The residue the Cholesky-Banachiewicz recurrence has for the entry pair
/// `(i, j)` of `m` (`i <= j`) after `k` subtraction steps: the widened
/// input entry minus, in order, the products of the first `k` entries of
/// factor rows `i` and `j`. The full residue of the pair is reached at
/// `k == i`.
pub open spec fn cholesky_residue_prefix<T, W, O: NumericOps<W> + Widen<T, W>>(
    ops: &O,
    m: &Matrix<T>,
    i: int,
    j: int,
    k: int,
) -> W
    decreases i, 0int, k,
{
    if 0 < k <= i {
        ops.minus_spec(
            cholesky_residue_prefix(ops, m, i, j, k - 1),
            ops.times_spec(
                cholesky_entry(ops, m, i, k - 1),
                cholesky_entry(ops, m, j, k - 1),
            ),
        )
    } else {
        ops.widen_spec(m.at(i, j))
    }
}

/// The value the Cholesky-Banachiewicz recurrence writes at `(row, col)` of
/// the factor, for `col <= row`: on the diagonal the square root of the
/// full pivot residue, below it the residue of the pair `(col, row)`
/// divided by the diagonal entry of its column.
pub open spec fn cholesky_entry<T, W, O: NumericOps<W> + Widen<T, W>>(
    ops: &O,
    m: &Matrix<T>,
    row: int,
    col: int,
) -> W
    decreases col, 1int, row,
{
    if 0 <= col < row {
        ops.div_spec(
            cholesky_residue_prefix(ops, m, col, row, col),
            cholesky_entry(ops, m, col, col),
        )
    } else {
        ops.sqrt_spec(cholesky_residue_prefix(ops, m, col, col, col))
    }
}

/// The full pivot residue of diagonal position `p`: what the factorization
/// takes the square root of, and checks strictly positive, at `(p, p)`.
pub open spec fn cholesky_pivot<T, W, O: NumericOps<W> + Widen<T, W>>(
    ops: &O,
    m: &Matrix<T>,
    p: int,
) -> W {
    cholesky_residue_prefix(ops, m, p, p, p)
}

impl<T: Copy + PartialEq> Matrix<T> {
    /// True only for a symmetric matrix whose eigenvalues, as computed by
    /// the Jacobi engine, are all strictly positive: a `true` answer
    /// witnesses an engine outcome, admissible for this input, none of
    /// whose eigenvalues compares less-or-equal to the scalar model's zero.
    /// A decomposition failure is deliberately swallowed: the test then
    /// answers `false`, indistinguishable from a genuinely indefinite
    /// input. For a one-by-one matrix the engine is decided, so the answer
    /// is pinned: strictly positive widened entry.
    pub fn is_positive_definite<W: Copy, O: NumericOps<W> + Widen<T, W>>(&self, ops: &O) -> (r:
        bool)
        requires
            self.wf(),
        ensures
            !self.is_square_spec() ==> r == false,
            <T as PartialEqSpec>::obeys_eq_spec() && !self.is_symmetric_spec() ==> r == false,
            r ==> exists|out: (Vec<W>, Matrix<W>)|
                {
                    &&& #[trigger] call_ensures(
                        <Matrix<T> as Symmetric<T>>::eigen_decomposition,
                        (self, Algorithm::Jacobi, ops),
                        Ok::<(Vec<W>, Matrix<W>), EigenDecompositionError>(out),
                    )
                    &&& forall|k: int|
                        0 <= k < out.0@.len() ==> !ops.le_spec(
                            #[trigger] out.0@[k],
                            ops.zero_spec(),
                        )
                },
            ({
                &&& self.rows_spec() == 1
                &&& self.is_square_spec()
                &&& <T as PartialEqSpec>::obeys_eq_spec()
                &&& self.at(0, 0).eq_spec(&self.at(0, 0))
                &&& ops.eq_spec(ops.zero_spec(), ops.zero_spec())
            }) ==> r == !ops.le_spec(ops.widen_spec(self.at(0, 0)), ops.zero_spec()),
    {
        proof {
            if self.rows_spec() == 1 && self.is_square_spec()
                && <T as PartialEqSpec>::obeys_eq_spec() && self.at(0, 0).eq_spec(
                &self.at(0, 0),
            ) {
                assert forall|i: int, j: int|
                    0 <= i < self.rows_spec() && 0 <= j <= i implies (#[trigger] self.at(
                    i,
                    j,
                )).eq_spec(&self.at(j, i)) by {
                    assert(i == 0 && j == 0);
                }
                assert(self.is_symmetric_spec());
            }
        }
        if !Matrix::is_symmetric(self) {
            return false;
        }
        match Symmetric::eigen_decomposition(self, Algorithm::Jacobi, ops) {
            Ok(out) => {
                let positive: bool = all_strictly_positive(ops, &out.0);
                proof {
                    if self.rows_spec() == 1 && self.is_square_spec()
                        && <T as PartialEqSpec>::obeys_eq_spec() && self.at(0, 0).eq_spec(
                        &self.at(0, 0),
                    ) && ops.eq_spec(ops.zero_spec(), ops.zero_spec()) {
                        assert(out.0@ == seq![ops.widen_spec(self.at(0, 0))]);
                        assert(out.0@[0] == ops.widen_spec(self.at(0, 0)));
                        assert(positive == !ops.le_spec(
                            ops.widen_spec(self.at(0, 0)),
                            ops.zero_spec(),
                        ));
                    }
                    if positive {
                        assert(call_ensures(
                            <Matrix<T> as Symmetric<T>>::eigen_decomposition,
                            (self, Algorithm::Jacobi, ops),
                            Ok::<(Vec<W>, Matrix<W>), EigenDecompositionError>(out),
                        ));
                    }
                }
                positive
            },
            Err(_) => false,
        }
    }

    /// The Cholesky-Banachiewicz recurrence on a widened working copy: row
    /// by row, each entry of the factor is the residue of the input entry
    /// after subtracting the products of the already-computed factor rows,
    /// divided by the pivot, and each pivot is the square root of its
    /// residue; a residue that is not strictly positive at the pivot fails
    /// the factorization with the breakdown error, which thus occurs
    /// exactly at the first non-positive pivot. On success every entry on
    /// or below the diagonal is pinned to [`cholesky_entry`], every pivot
    /// residue is strictly positive, and the strict upper triangle is
    /// zeroed afterwards. An input that fails the definiteness pre-check
    /// is refused before any factorization work; for a one-by-one matrix
    /// the whole chain is decided, so success holds exactly for a strictly
    /// positive widened entry. The input is never mutated.
    #[verifier::loop_isolation(false)]
    pub fn cholesky<W: Copy, O: NumericOps<W> + Widen<T, W>>(&self, ops: &O) -> (r: Result<
        Matrix<W>,
        CholeskyDecompositionError,
    >)
        requires
            self.wf(),
        ensures
            !self.is_square_spec() ==> r == Err::<Matrix<W>, CholeskyDecompositionError>(
                CholeskyDecompositionError::MatrixIsNotPositiveDefinite,
            ),
            <T as PartialEqSpec>::obeys_eq_spec() && !self.is_symmetric_spec() ==> r == Err::<
                Matrix<W>,
                CholeskyDecompositionError,
            >(CholeskyDecompositionError::MatrixIsNotPositiveDefinite),
            r is Ok ==> {
                let l = r->Ok_0;
                &&& l.wf()
                &&& l.rows_spec() == self.rows_spec()
                &&& l.cols_spec() == self.rows_spec()
                &&& forall|i: int, j: int|
                    l.valid_index(i, j) && i < j ==> l.at(i, j) == ops.zero_spec()
                &&& forall|i: int, j: int|
                    l.valid_index(i, j) && j <= i ==> l.at(i, j) == cholesky_entry(ops, self, i, j)
                &&& forall|p: int|
                    0 <= p < self.rows_spec() ==> !ops.le_spec(
                        #[trigger] cholesky_pivot(ops, self, p),
                        ops.zero_spec(),
                    )
            },
            r == Err::<Matrix<W>, CholeskyDecompositionError>(
                CholeskyDecompositionError::AlgorithmFailed,
            ) ==> exists|p: int|
                {
                    &&& 0 <= p < self.rows_spec()
                    &&& ops.le_spec(#[trigger] cholesky_pivot(ops, self, p), ops.zero_spec())
                    &&& forall|q: int|
                        0 <= q < p ==> !ops.le_spec(
                            #[trigger] cholesky_pivot(ops, self, q),
                            ops.zero_spec(),
                        )
                },
            ({
                &&& self.rows_spec() == 1
                &&& self.is_square_spec()
                &&& <T as PartialEqSpec>::obeys_eq_spec()
                &&& self.at(0, 0).eq_spec(&self.at(0, 0))
                &&& ops.eq_spec(ops.zero_spec(), ops.zero_spec())
                &&& !ops.le_spec(ops.widen_spec(self.at(0, 0)), ops.zero_spec())
            }) ==> r is Ok,
            ({
                &&& self.rows_spec() == 1
                &&& self.is_square_spec()
                &&& <T as PartialEqSpec>::obeys_eq_spec()
                &&& self.at(0, 0).eq_spec(&self.at(0, 0))
                &&& ops.eq_spec(ops.zero_spec(), ops.zero_spec())
                &&& ops.le_spec(ops.widen_spec(self.at(0, 0)), ops.zero_spec())
            }) ==> r == Err::<Matrix<W>, CholeskyDecompositionError>(
                CholeskyDecompositionError::MatrixIsNotPositiveDefinite,
            ),
    {
        if !self.is_positive_definite(ops) {
            return Err(CholeskyDecompositionError::MatrixIsNotPositiveDefinite);
        }
        let n: usize = self.rows();
        let mut l: Matrix<W> = self.copy_to(ops);
        for i in 0..n
            invariant
                l.wf(),
                l.rows_spec() == n,
                l.cols_spec() == n,
                forall|row: int, col: int|
                    l.valid_index(row, col) && col <= row && col < i ==> #[trigger] l.at(row, col)
                        == cholesky_entry(ops, self, row, col),
                forall|row: int, col: int|
                    l.valid_index(row, col) && col <= row && col >= i ==> #[trigger] l.at(row, col)
                        == ops.widen_spec(self.at(row, col)),
                forall|row: int, col: int|
                    l.valid_index(row, col) && col > row ==> #[trigger] l.at(row, col)
                        == ops.widen_spec(self.at(row, col)),
                forall|p: int|
                    0 <= p < i ==> !ops.le_spec(
                        #[trigger] cholesky_pivot(ops, self, p),
                        ops.zero_spec(),
                    ),
        {
            for j in i..n
                invariant
                    l.wf(),
                    l.rows_spec() == n,
                    l.cols_spec() == n,
                    forall|row: int, col: int|
                        l.valid_index(row, col) && col <= row && col < i ==> #[trigger] l.at(
                            row,
                            col,
                        ) == cholesky_entry(ops, self, row, col),
                    forall|row: int|
                        i <= row < j ==> #[trigger] l.at(row, i as int) == cholesky_entry(
                            ops,
                            self,
                            row,
                            i as int,
                        ),
                    forall|row: int, col: int|
                        l.valid_index(row, col) && col <= row && (col > i || (col == i && row >= j))
                            ==> #[trigger] l.at(row, col) == ops.widen_spec(self.at(row, col)),
                    forall|row: int, col: int|
                        l.valid_index(row, col) && col > row ==> #[trigger] l.at(row, col)
                            == ops.widen_spec(self.at(row, col)),
                    forall|p: int|
                        0 <= p < i ==> !ops.le_spec(
                            #[trigger] cholesky_pivot(ops, self, p),
                            ops.zero_spec(),
                        ),
                    j > i ==> !ops.le_spec(cholesky_pivot(ops, self, i as int), ops.zero_spec()),
            {
                let mut sum: W = l.get(i, j);
                for k in 0..i
                    invariant
                        l.wf(),
                        l.rows_spec() == n,
                        l.cols_spec() == n,
                        forall|row: int, col: int|
                            l.valid_index(row, col) && col <= row && col < i ==> #[trigger] l.at(
                                row,
                                col,
                            ) == cholesky_entry(ops, self, row, col),
                        sum == cholesky_residue_prefix(ops, self, i as int, j as int, k as int),
                {
                    sum = ops.minus(sum, ops.times(l.get(i, k), l.get(j, k)));
                }
                if i == j {
                    if ops.le(sum, ops.zero()) {
                        proof {
                            assert(ops.le_spec(
                                cholesky_pivot(ops, self, i as int),
                                ops.zero_spec(),
                            ));
                        }
                        return Err(CholeskyDecompositionError::AlgorithmFailed);
                    }
                    l.set(j, i, ops.sqrt(sum));
                } else {
                    l.set(j, i, ops.div(sum, l.get(i, i)));
                }
            }
        }
        let zero: W = ops.zero();
        for i in 0..n
            invariant
                l.wf(),
                l.rows_spec() == n,
                l.cols_spec() == n,
                forall|row: int, col: int|
                    l.valid_index(row, col) && col <= row ==> #[trigger] l.at(row, col)
                        == cholesky_entry(ops, self, row, col),
                forall|p: int, q: int| l.valid_index(p, q) && p < q < i ==> l.at(p, q) == zero,
        {
            for j in 0..i
                invariant
                    l.wf(),
                    l.rows_spec() == n,
                    l.cols_spec() == n,
                    forall|row: int, col: int|
                        l.valid_index(row, col) && col <= row ==> #[trigger] l.at(row, col)
                            == cholesky_entry(ops, self, row, col),
                    forall|p: int, q: int| l.valid_index(p, q) && p < q < i ==> l.at(p, q) == zero,
                    forall|p: int| 0 <= p < j ==> l.at(p, i as int) == zero,
            {
                l.set(j, i, zero);
            }
        }
        Ok(l)
    }
}


/// Law: the factorization has no hidden state. Two runs on the same
/// unmutated matrix with the same capability agree wherever the contracts
/// pin them: factors of two successful runs are equal entry by entry, and
/// a successful run rules out the breakdown error in the other.
pub proof fn lemma_cholesky_deterministic<
    T: Copy + PartialEq,
    W: Copy,
    O: NumericOps<W> + Widen<T, W>,
>(
    m: &Matrix<T>,
    ops: &O,
    r1: Result<Matrix<W>, CholeskyDecompositionError>,
    r2: Result<Matrix<W>, CholeskyDecompositionError>,
)
    requires
        call_ensures(Matrix::<T>::cholesky, (m, ops), r1),
        call_ensures(Matrix::<T>::cholesky, (m, ops), r2),
    ensures
        r1 is Ok && r2 is Ok ==> {
            let l1 = r1->Ok_0;
            let l2 = r2->Ok_0;
            &&& l1.same_shape(&l2)
            &&& forall|i: int, j: int| l1.valid_index(i, j) ==> l1.at(i, j) == l2.at(i, j)
        },
        r1 is Ok ==> r2 != Err::<Matrix<W>, CholeskyDecompositionError>(
            CholeskyDecompositionError::AlgorithmFailed,
        ),
{
}

/// The definiteness test and the factorization built on it, for the
/// matrices that can carry them.
pub trait PositiveDefinite<T: Copy + PartialEq, W: Copy, O: NumericOps<W> + Widen<T, W>>: Sized {
    /// The structural invariant the receiver must satisfy.
    spec fn pd_wf(&self) -> bool;

    /// Whether the receiver is square.
    spec fn pd_square(&self) -> bool;

    /// Whether the receiver is symmetric, over the element equality
    /// relation.
    spec fn pd_symmetric(&self) -> bool;

    /// The order of the receiver: its row count.
    spec fn pd_order(&self) -> int;

    /// True only for a symmetric matrix whose eigenvalues, as computed by
    /// the Jacobi engine, are all strictly positive; see
    /// [`Matrix::is_positive_definite`], whose contract also ties a `true`
    /// answer to an admissible engine outcome.
    fn is_positive_definite(&self, ops: &O) -> (r: bool)
        requires
            self.pd_wf(),
        ensures
            !self.pd_square() ==> r == false,
            <T as PartialEqSpec>::obeys_eq_spec() && !self.pd_symmetric() ==> r == false,
    ;

    /// The Cholesky factor: a lower-triangular matrix of the same order in
    /// the working scalar type, with every strict upper entry exactly the
    /// zero of the scalar model; see [`Matrix::cholesky`], whose contract
    /// also pins every factor entry to the recurrence and characterizes
    /// the breakdown error by its non-positive pivot.
    fn cholesky(&self, ops: &O) -> (r: Result<Matrix<W>, CholeskyDecompositionError>)
        requires
            self.pd_wf(),
        ensures
            !self.pd_square() ==> r == Err::<Matrix<W>, CholeskyDecompositionError>(
                CholeskyDecompositionError::MatrixIsNotPositiveDefinite,
            ),
            <T as PartialEqSpec>::obeys_eq_spec() && !self.pd_symmetric() ==> r == Err::<
                Matrix<W>,
                CholeskyDecompositionError,
            >(CholeskyDecompositionError::MatrixIsNotPositiveDefinite),
            r is Ok ==> {
                let l = r->Ok_0;
                &&& l.wf()
                &&& l.rows_spec() == self.pd_order()
                &&& l.cols_spec() == self.pd_order()
                &&& forall|i: int, j: int|
                    l.valid_index(i, j) && i < j ==> l.at(i, j) == ops.zero_spec()
            },
    ;
}

impl<T: Copy + PartialEq, W: Copy, O: NumericOps<W> + Widen<T, W>> PositiveDefinite<
    T,
    W,
    O,
> for Matrix<T> {
    open spec fn pd_wf(&self) -> bool {
        self.wf()
    }

    open spec fn pd_square(&self) -> bool {
        self.is_square_spec()
    }

    open spec fn pd_symmetric(&self) -> bool {
        self.is_symmetric_spec()
    }

    open spec fn pd_order(&self) -> int {
        self.rows_spec()
    }

    fn is_positive_definite(&self, ops: &O) -> (r: bool) {
        Matrix::is_positive_definite(self, ops)
    }

    fn cholesky(&self, ops: &O) -> (r: Result<Matrix<W>, CholeskyDecompositionError>) {
        Matrix::cholesky(self, ops)
    }
}

} // verus!
