//! The dense matrix container: a rectangular block of elements addressed by
//! zero-based `(row, column)` pairs, together with the staged builder that is
//! the only public way to construct one.

use vstd::prelude::*;

use crate::numeric::Widen;

verus! {

broadcast use vstd::std_specs::vec::axiom_spec_len;

/// Why a [`MatrixBuilder`] refused to produce a matrix.
#[derive(Debug, PartialEq, Eq, Structural)]
pub enum MatrixDefinitionError {
    NoDataProvided,
    UndefinedRows,
    UndefinedCols,
    DataLengthDoesNotMatchRowsTimesCols,
}

/// Why an in-place column operation on a matrix was refused.
#[derive(Debug, PartialEq, Eq, Structural)]
pub enum MatrixAccessError {
    ColumnOutOfBounds,
}

/// A dense `rows x cols` matrix stored in row-major order.
///
/// Invariant ([`Matrix::wf`]): both dimensions are positive and the backing
/// vector holds exactly `rows * cols` elements.
#[derive(Debug, Clone, PartialEq)]
pub struct Matrix<T> {
    rows: usize,
    cols: usize,
    data: Vec<T>,
}

/// The row-major position of entry `(i, j)` stays inside the data block.
pub proof fn lemma_flat_index_bound(i: int, j: int, rows: int, cols: int)
    requires
        0 <= i < rows,
        0 <= j < cols,
    ensures
        0 <= i * cols + j < rows * cols,
{
    assert(0 <= i * cols + j < rows * cols) by (nonlinear_arith)
        requires
            0 <= i < rows,
            0 <= j < cols,
    ;
}

/// Row-major addressing is injective: two distinct index pairs never share a
/// position in the data block.
pub proof fn lemma_flat_index_injective(i1: int, j1: int, i2: int, j2: int, cols: int)
    requires
        0 <= i1,
        0 <= i2,
        0 <= j1 < cols,
        0 <= j2 < cols,
        i1 * cols + j1 == i2 * cols + j2,
    ensures
        i1 == i2 && j1 == j2,
{
    assert(i1 == i2 && j1 == j2) by (nonlinear_arith)
        requires
            0 <= i1,
            0 <= i2,
            0 <= j1 < cols,
            0 <= j2 < cols,
            i1 * cols + j1 == i2 * cols + j2,
    ;
}

impl<T> Matrix<T> {
    /// Number of rows, as a mathematical integer.
    pub closed spec fn rows_spec(&self) -> int {
        self.rows as int
    }

    /// Number of columns, as a mathematical integer.
    pub closed spec fn cols_spec(&self) -> int {
        self.cols as int
    }

    /// The backing row-major element sequence.
    pub closed spec fn flat(&self) -> Seq<T> {
        self.data@
    }

    /// Structural invariant of every matrix this module hands out.
    pub open spec fn wf(&self) -> bool {
        &&& self.rows_spec() > 0
        &&& self.cols_spec() > 0
        &&& self.flat().len() == self.rows_spec() * self.cols_spec()
    }

    /// Whether `(i, j)` addresses an entry of this matrix.
    pub open spec fn valid_index(&self, i: int, j: int) -> bool {
        0 <= i < self.rows_spec() && 0 <= j < self.cols_spec()
    }

    /// The entry in row `i`, column `j`.
    pub open spec fn at(&self, i: int, j: int) -> T {
        self.flat()[i * self.cols_spec() + j]
    }

    /// The element count of a matrix fits the machine word.
    pub proof fn lemma_flat_fits(&self)
        ensures
            self.flat().len() <= usize::MAX,
    {
        vstd::std_specs::vec::axiom_spec_len(&self.data);
    }

    /// Two matrices have the same shape.
    pub open spec fn same_shape(&self, other: &Matrix<T>) -> bool {
        self.rows_spec() == other.rows_spec() && self.cols_spec() == other.cols_spec()
    }

    pub fn rows(&self) -> (r: usize)
        ensures
            r == self.rows_spec(),
    {
        self.rows
    }

    pub fn cols(&self) -> (r: usize)
        ensures
            r == self.cols_spec(),
    {
        self.cols
    }

    /// Assemble a matrix from its parts; internal constructor used by the
    /// algorithms that produce fresh matrices.
    pub(crate) fn from_raw(rows: usize, cols: usize, data: Vec<T>) -> (r: Matrix<T>)
        requires
            rows > 0,
            cols > 0,
            data@.len() == rows * cols,
        ensures
            r.wf(),
            r.rows_spec() == rows,
            r.cols_spec() == cols,
            r.flat() == data@,
    {
        Matrix { rows, cols, data }
    }
}

impl<T: Copy> Matrix<T> {
    /// Read the entry in row `i`, column `j`.
    pub fn get(&self, i: usize, j: usize) -> (r: T)
        requires
            self.wf(),
            self.valid_index(i as int, j as int),
        ensures
            r == self.at(i as int, j as int),
    {
        proof {
            vstd::std_specs::vec::axiom_spec_len(&self.data);
            lemma_flat_index_bound(i as int, j as int, self.rows_spec(), self.cols_spec());
        }
        self.data[i * self.cols + j]
    }

    /// Overwrite the entry in row `i`, column `j`; every other entry is kept.
    pub fn set(&mut self, i: usize, j: usize, value: T)
        requires
            old(self).wf(),
            old(self).valid_index(i as int, j as int),
        ensures
            final(self).wf(),
            final(self).same_shape(old(self)),
            final(self).flat() == old(self).flat().update(i * old(self).cols_spec() + j, value),
            final(self).at(i as int, j as int) == value,
            forall|p: int, q: int|
                final(self).valid_index(p, q) && (p != i || q != j) ==> final(self).at(p, q)
                    == old(self).at(p, q),
    {
        proof {
            vstd::std_specs::vec::axiom_spec_len(&self.data);
            lemma_flat_index_bound(i as int, j as int, self.rows_spec(), self.cols_spec());
        }
        self.data[i * self.cols + j] = value;
        proof {
            assert forall|p: int, q: int|
                self.valid_index(p, q) && (p != i || q != j) implies self.at(p, q) == old(self).at(
                p,
                q,
            ) by {
                lemma_flat_index_bound(p, q, self.rows_spec(), self.cols_spec());
                if p * self.cols_spec() + q == i * self.cols_spec() + j {
                    lemma_flat_index_injective(p, q, i as int, j as int, self.cols_spec());
                }
            }
        }
    }

    /// Exchange columns `i` and `j` in place.
    ///
    /// Succeeds exactly when both column indices are in range; on failure the
    /// matrix is left untouched.
    pub fn swap_cols(&mut self, i: usize, j: usize) -> (r: Result<(), MatrixAccessError>)
        requires
            old(self).wf(),
        ensures
            final(self).wf(),
            final(self).same_shape(old(self)),
            r is Ok <==> (i < old(self).cols_spec() && j < old(self).cols_spec()),
            r is Err ==> *final(self) == *old(self),
            r is Ok ==> forall|p: int, q: int|
                final(self).valid_index(p, q) ==> final(self).at(p, q) == old(self).at(
                    p,
                    if q == i {
                        j as int
                    } else if q == j {
                        i as int
                    } else {
                        q
                    },
                ),
    {
        if i >= self.cols || j >= self.cols {
            return Err(MatrixAccessError::ColumnOutOfBounds);
        }
        let n: usize = self.rows;
        for p in 0..n
            invariant
                self.wf(),
                self.same_shape(old(self)),
                n == self.rows_spec(),
                i < self.cols_spec(),
                j < self.cols_spec(),
                forall|p2: int, q: int|
                    self.valid_index(p2, q) && p2 >= p ==> self.at(p2, q) == old(self).at(p2, q),
                forall|p2: int, q: int|
                    self.valid_index(p2, q) && p2 < p ==> self.at(p2, q) == old(self).at(
                        p2,
                        if q == i {
                            j as int
                        } else if q == j {
                            i as int
                        } else {
                            q
                        },
                    ),
        {
            let t: T = self.get(p, i);
            let u: T = self.get(p, j);
            self.set(p, i, u);
            self.set(p, j, t);
        }
        Ok(())
    }
}


/// The per-row view sequences of a vector of rows.
pub open spec fn row_views<T>(mat: Seq<Vec<T>>) -> Seq<Seq<T>> {
    mat.map_values(|row: Vec<T>| row@)
}

/// Row-major flattening of a sequence of rows.
pub open spec fn flatten_rows<T>(rows: Seq<Seq<T>>) -> Seq<T>
    decreases rows.len(),
{
    if rows.len() == 0 {
        Seq::empty()
    } else {
        flatten_rows(rows.drop_last()) + rows.last()
    }
}

/// `v` is a result the conversion `T::from(x)` can return.
pub open spec fn is_from_u8<T: From<u8>>(x: u8, v: T) -> bool {
    call_ensures(<T as From<u8>>::from, (x,), v)
}

/// Staged builder for [`Matrix`]: shape and data are collected first and
/// validated as a whole by [`MatrixBuilder::build`].
pub struct MatrixBuilder<T> {
    rows: usize,
    cols: usize,
    data: Vec<T>,
}

impl<T> MatrixBuilder<T> {
    /// Row count this builder will request.
    pub closed spec fn rows_spec(&self) -> int {
        self.rows as int
    }

    /// Column count this builder will request.
    pub closed spec fn cols_spec(&self) -> int {
        self.cols as int
    }

    /// Element data this builder will hand to the matrix, row-major.
    pub closed spec fn data_spec(&self) -> Seq<T> {
        self.data@
    }

    /// A build succeeds exactly when data was provided, both dimensions are
    /// positive, and the data length matches the shape.
    pub open spec fn buildable(self) -> bool {
        &&& self.data_spec().len() > 0
        &&& self.rows_spec() > 0
        &&& self.cols_spec() > 0
        &&& self.data_spec().len() == self.rows_spec() * self.cols_spec()
    }

    /// The error a failing build reports, in the order the checks run.
    pub open spec fn build_error(self) -> MatrixDefinitionError {
        if self.data_spec().len() == 0 {
            MatrixDefinitionError::NoDataProvided
        } else if self.rows_spec() == 0 {
            MatrixDefinitionError::UndefinedRows
        } else if self.cols_spec() == 0 {
            MatrixDefinitionError::UndefinedCols
        } else {
            MatrixDefinitionError::DataLengthDoesNotMatchRowsTimesCols
        }
    }

    pub fn new() -> (r: MatrixBuilder<T>)
        ensures
            r.rows_spec() == 0,
            r.cols_spec() == 0,
            r.data_spec() == Seq::<T>::empty(),
    {
        MatrixBuilder { rows: 0, cols: 0, data: Vec::new() }
    }

    /// Request `rows` rows.
    pub fn rows(self, rows: usize) -> (r: Self)
        ensures
            r.rows_spec() == rows,
            r.cols_spec() == self.cols_spec(),
            r.data_spec() == self.data_spec(),
    {
        MatrixBuilder { rows, cols: self.cols, data: self.data }
    }

    /// Request `cols` columns.
    pub fn cols(self, cols: usize) -> (r: Self)
        ensures
            r.rows_spec() == self.rows_spec(),
            r.cols_spec() == cols,
            r.data_spec() == self.data_spec(),
    {
        MatrixBuilder { rows: self.rows, cols, data: self.data }
    }

    /// Provide the element data, row-major.
    pub fn data(self, data: Vec<T>) -> (r: Self)
        ensures
            r.rows_spec() == self.rows_spec(),
            r.cols_spec() == self.cols_spec(),
            r.data_spec() == data@,
    {
        MatrixBuilder { rows: self.rows, cols: self.cols, data }
    }

    /// Shape and row-major data in one step.
    pub fn from_vec(self, rows: usize, cols: usize, data: Vec<T>) -> (r: Self)
        ensures
            r.rows_spec() == rows,
            r.cols_spec() == cols,
            r.data_spec() == data@,
    {
        MatrixBuilder { rows, cols, data }
    }

    /// Validate the collected shape and data and produce the matrix; the
    /// collected data moves into the matrix unchanged.
    pub fn build(self) -> (r: Result<Matrix<T>, MatrixDefinitionError>)
        ensures
            r is Ok <==> self.buildable(),
            r is Err ==> r == Err::<Matrix<T>, MatrixDefinitionError>(self.build_error()),
            r is Ok ==> {
                let m = r->Ok_0;
                &&& m.wf()
                &&& m.rows_spec() == self.rows_spec()
                &&& m.cols_spec() == self.cols_spec()
                &&& m.flat() == self.data_spec()
            },
    {
        if self.data.len() == 0 {
            return Err(MatrixDefinitionError::NoDataProvided);
        }
        if self.rows == 0 {
            return Err(MatrixDefinitionError::UndefinedRows);
        }
        if self.cols == 0 {
            return Err(MatrixDefinitionError::UndefinedCols);
        }
        let fits: bool = match self.rows.checked_mul(self.cols) {
            Some(product) => product == self.data.len(),
            None => false,
        };
        if fits {
            Ok(Matrix { rows: self.rows, cols: self.cols, data: self.data })
        } else {
            proof {
                vstd::std_specs::vec::axiom_spec_len(&self.data);
            }
            Err(MatrixDefinitionError::DataLengthDoesNotMatchRowsTimesCols)
        }
    }
}

impl<T: Copy> MatrixBuilder<T> {
    /// Take the shape and data from a vector of rows: the row count is the
    /// outer length, the column count the length of the first row, and the
    /// data is every row laid end to end (so ragged rows are caught by the
    /// length check in [`MatrixBuilder::build`]).
    pub fn from_mat(self, mat: Vec<Vec<T>>) -> (r: Self)
        ensures
            r.rows_spec() == mat@.len(),
            r.cols_spec() == (if mat@.len() == 0 {
                0int
            } else {
                mat@[0]@.len() as int
            }),
            r.data_spec() == flatten_rows(row_views(mat@)),
    {
        let rows: usize = mat.len();
        let cols: usize = if rows == 0 {
            0
        } else {
            mat[0].len()
        };
        let mut data: Vec<T> = Vec::new();
        for ri in 0..rows
            invariant
                rows == mat@.len(),
                data@ == flatten_rows(row_views(mat@).take(ri as int)),
        {
            let row: &Vec<T> = &mat[ri];
            let len: usize = row.len();
            for k in 0..len
                invariant
                    rows == mat@.len(),
                    ri < rows,
                    len == row@.len(),
                    row == &mat@[ri as int],
                    data@ == flatten_rows(row_views(mat@).take(ri as int)) + row@.take(k as int),

            {
                data.push(row[k]);
            }
            proof {
                let views = row_views(mat@);
                assert(views.take(ri + 1).drop_last() =~= views.take(ri as int));
                assert(views.take(ri + 1).last() == mat@[ri as int]@);
                assert(row@.take(len as int) =~= mat@[ri as int]@);
            }
        }
        proof {
            assert(row_views(mat@).take(rows as int) =~= row_views(mat@));
        }
        MatrixBuilder { rows, cols, data }
    }
}

impl<T: Copy + From<u8>> MatrixBuilder<T> {
    /// Shape `rows x cols` with every entry the scalar conversion of zero.
    pub fn zeros(self, rows: usize, cols: usize) -> (r: Self)
        requires
            rows * cols <= usize::MAX,
        ensures
            r.rows_spec() == rows,
            r.cols_spec() == cols,
            r.data_spec().len() == rows * cols,
            forall|k: int|
                0 <= k < rows * cols ==> is_from_u8(0u8, #[trigger] r.data_spec()[k]),
            forall|k1: int, k2: int|
                0 <= k1 < rows * cols && 0 <= k2 < rows * cols ==> r.data_spec()[k1]
                    == r.data_spec()[k2],
    {
        let zero: T = T::from(0u8);
        let total: usize = rows * cols;
        let mut data: Vec<T> = Vec::new();
        for k in 0..total
            invariant
                data@.len() == k,
                forall|m: int| 0 <= m < k ==> data@[m] == zero,
        {
            data.push(zero);
        }
        MatrixBuilder { rows, cols, data }
    }

    /// Shape `n x n` with the scalar conversion of one on the diagonal and of
    /// zero everywhere else.
    pub fn identity(self, n: usize) -> (r: Self)
        requires
            n * n <= usize::MAX,
        ensures
            r.rows_spec() == n,
            r.cols_spec() == n,
            r.data_spec().len() == n * n,
            forall|i: int, j: int|
                0 <= i < n && 0 <= j < n ==> is_from_u8(
                    if i == j {
                        1u8
                    } else {
                        0u8
                    },
                    #[trigger] r.data_spec()[i * n + j],
                ),
            forall|i1: int, i2: int|
                0 <= i1 < n && 0 <= i2 < n ==> #[trigger] r.data_spec()[i1 * n + i1]
                    == #[trigger] r.data_spec()[i2 * n + i2],
            forall|i1: int, j1: int, i2: int, j2: int|
                0 <= i1 < n && 0 <= j1 < n && 0 <= i2 < n && 0 <= j2 < n && i1 != j1 && i2 != j2
                    ==> #[trigger] r.data_spec()[i1 * n + j1] == #[trigger] r.data_spec()[i2 * n
                    + j2],
    {
        let zero: T = T::from(0u8);
        let one: T = T::from(1u8);
        let mut data: Vec<T> = Vec::new();
        proof {
            assert(0 * n == 0) by (nonlinear_arith);
        }
        for i in 0..n
            invariant
                n * n <= usize::MAX,
                data@.len() == i * n,
                forall|p: int, q: int|
                    0 <= p < n && 0 <= q < n && p * n + q < data@.len()
                        ==> #[trigger] data@[p * n + q] == (if p == q {
                        one
                    } else {
                        zero
                    }),
        {
            proof {
                lemma_row_block_bound(i as int, n as int, n as int);
            }
            for j in 0..n
                invariant
                    n * n <= usize::MAX,
                    i < n,
                    data@.len() == i * n + j,
                    forall|p: int, q: int|
                        0 <= p < n && 0 <= q < n && p * n + q < data@.len()
                            ==> #[trigger] data@[p * n + q] == (if p == q {
                            one
                        } else {
                            zero
                        }),
            {
                let value: T = if i == j {
                    one
                } else {
                    zero
                };
                data.push(value);
                proof {
                    assert forall|p: int, q: int|
                        0 <= p < n && 0 <= q < n && p * n + q < data@.len()
                            implies #[trigger] data@[p * n + q] == (if p == q {
                        one
                    } else {
                        zero
                    }) by {
                        lemma_flat_index_bound(p, q, n as int, n as int);
                        if p * n + q == i * n + j {
                            lemma_flat_index_injective(p, q, i as int, j as int, n as int);
                        }
                    }
                }
            }
            proof {
                assert((i + 1) * n == i * n + n) by (nonlinear_arith);
            }
        }
        proof {
            assert forall|i1: int, j1: int|
                0 <= i1 < n && 0 <= j1 < n implies 0 <= #[trigger] (i1 * n + j1) < data@.len() by {
                lemma_flat_index_bound(i1, j1, n as int, n as int);
            }
        }
        MatrixBuilder { rows: n, cols: n, data }
    }
}

/// Row `i` of a `rows x cols` matrix ends inside the data block.
proof fn lemma_row_block_bound(i: int, rows: int, cols: int)
    requires
        0 <= i < rows,
        0 <= cols,
    ensures
        i * cols + cols <= rows * cols,
{
    assert(i * cols + cols <= rows * cols) by (nonlinear_arith)
        requires
            0 <= i < rows,
            0 <= cols,
    ;
}


impl<T: Copy> Matrix<T> {
    /// Value-copy of this matrix with every element widened into the working
    /// scalar type of the given capability; the original is only read.
    pub fn copy_to<W: Copy, O: Widen<T, W>>(&self, ops: &O) -> (r: Matrix<W>)
        requires
            self.wf(),
        ensures
            r.wf(),
            r.rows_spec() == self.rows_spec(),
            r.cols_spec() == self.cols_spec(),
            forall|i: int, j: int|
                r.valid_index(i, j) ==> r.at(i, j) == ops.widen_spec(self.at(i, j)),
    {
        let rows: usize = self.rows();
        let cols: usize = self.cols();
        let mut data: Vec<W> = Vec::new();
        proof {
            assert(0 * cols == 0) by (nonlinear_arith);
        }
        for i in 0..rows
            invariant
                self.wf(),
                rows == self.rows_spec(),
                cols == self.cols_spec(),
                data@.len() == i * cols,
                forall|p: int, q: int|
                    0 <= p < rows && 0 <= q < cols && p * cols + q < data@.len()
                        ==> #[trigger] data@[p * cols + q] == ops.widen_spec(self.at(p, q)),
        {
            proof {
                lemma_row_block_bound(i as int, rows as int, cols as int);
            }
            for j in 0..cols
                invariant
                    self.wf(),
                    rows == self.rows_spec(),
                    cols == self.cols_spec(),
                    i < rows,
                    data@.len() == i * cols + j,
                    forall|p: int, q: int|
                        0 <= p < rows && 0 <= q < cols && p * cols + q < data@.len()
                            ==> #[trigger] data@[p * cols + q] == ops.widen_spec(self.at(p, q)),
            {
                let w: W = ops.widen(self.get(i, j));
                data.push(w);
                proof {
                    assert forall|p: int, q: int|
                        0 <= p < rows && 0 <= q < cols && p * cols + q < data@.len()
                            implies #[trigger] data@[p * cols + q] == ops.widen_spec(
                        self.at(p, q),
                    ) by {
                        lemma_flat_index_bound(p, q, rows as int, cols as int);
                        if p * cols + q == i * cols + j {
                            lemma_flat_index_injective(p, q, i as int, j as int, cols as int);
                        }
                    }
                }
            }
            proof {
                assert((i + 1) * cols == i * cols + cols) by (nonlinear_arith);
            }
        }
        let r = Matrix::from_raw(rows, cols, data);
        proof {
            assert forall|i: int, j: int| r.valid_index(i, j) implies r.at(i, j)
                == ops.widen_spec(self.at(i, j)) by {
                lemma_flat_index_bound(i, j, rows as int, cols as int);
            }
        }
        r
    }
}


/// Law: building is deterministic — two builds from builders collecting the
/// same shape and data agree: they succeed or fail together, fail with the
/// same error, and on success produce matrices of the same shape and
/// content.
pub proof fn lemma_build_deterministic<T>(
    b1: MatrixBuilder<T>,
    b2: MatrixBuilder<T>,
    r1: Result<Matrix<T>, MatrixDefinitionError>,
    r2: Result<Matrix<T>, MatrixDefinitionError>,
)
    requires
        b1.rows_spec() == b2.rows_spec(),
        b1.cols_spec() == b2.cols_spec(),
        b1.data_spec() == b2.data_spec(),
        call_ensures(MatrixBuilder::<T>::build, (b1,), r1),
        call_ensures(MatrixBuilder::<T>::build, (b2,), r2),
    ensures
        r1 is Ok <==> r2 is Ok,
        r1 is Err ==> r1 == r2,
        r1 is Ok ==> {
            let m1 = r1->Ok_0;
            let m2 = r2->Ok_0;
            &&& m1.rows_spec() == m2.rows_spec()
            &&& m1.cols_spec() == m2.cols_spec()
            &&& m1.flat() == m2.flat()
        },
{
}
} // verus!
