//! The symmetry predicate and the cyclic Jacobi eigenvalue engine: for a
//! symmetric input it produces the eigenvalues in non-increasing order
//! together with the matrix whose columns are the paired eigenvectors.

use vstd::prelude::*;

use vstd::std_specs::cmp::PartialEqSpec;

use crate::matrix::{lemma_flat_index_bound, Matrix};
use crate::numeric::{ge_total, ge_transitive, sorted_descending, NumericOps, Widen};
use crate::square::Square;

verus! {

broadcast use vstd::string::to_string_from_display_ensures_for_str;

/// Opaque failure of an eigen decomposition: a non-symmetric input, a run
/// that did not converge within the sweep budget, or a failure while sorting
/// the eigenpairs; the engine does not distinguish them to the caller.
#[derive(Debug)]
pub struct EigenDecompositionError;

impl EigenDecompositionError {
    /// The human-readable description of the failure.
    pub fn message(&self) -> (r: String)
        ensures
            r@ == "An error occurred while computing eigen values"@,
    {
        "An error occurred while computing eigen values".to_string()
    }
}

/// The eigen decomposition algorithms a caller can select between; the
/// cyclic Jacobi rotation method is the one this crate implements.
pub enum Algorithm {
    Jacobi,
}

/// The hard sweep budget of the Jacobi engine: its only non-convergence
/// guard.
pub const MAX_SWEEPS: usize = 50;

impl<T: Copy + PartialEq> Matrix<T> {
    /// What [`Matrix::is_symmetric`] decides, phrased over the element
    /// equality relation: the matrix is square and every entry on or below
    /// the diagonal equals its mirror image.
    pub open spec fn is_symmetric_spec(&self) -> bool {
        &&& self.is_square_spec()
        &&& forall|i: int, j: int|
            0 <= i < self.rows_spec() && 0 <= j <= i ==> (#[trigger] self.at(i, j)).eq_spec(
                &self.at(j, i),
            )
    }

    /// Whether this matrix equals its own transpose, comparing every entry
    /// on or below the diagonal against its mirror image and stopping at the
    /// first mismatch. A non-square matrix is never symmetric.
    pub fn is_symmetric(&self) -> (r: bool)
        requires
            self.wf(),
        ensures
            !self.is_square_spec() ==> r == false,
            <T as PartialEqSpec>::obeys_eq_spec() ==> r == self.is_symmetric_spec(),
    {
        if !self.is_square() {
            return false;
        }
        let n: usize = self.rows();
        for i in 0..n
            invariant
                self.wf(),
                n == self.rows_spec(),
                n == self.cols_spec(),
                <T as PartialEqSpec>::obeys_eq_spec() ==> forall|p: int, q: int|
                    0 <= p < i && 0 <= q <= p ==> (#[trigger] self.at(p, q)).eq_spec(
                        &self.at(q, p),
                    ),
        {
            for j in 0..(i + 1)
                invariant
                    self.wf(),
                    n == self.rows_spec(),
                    n == self.cols_spec(),
                    i < n,
                    j <= i + 1,
                    <T as PartialEqSpec>::obeys_eq_spec() ==> forall|p: int, q: int|
                        0 <= p < i && 0 <= q <= p ==> (#[trigger] self.at(p, q)).eq_spec(
                            &self.at(q, p),
                        ),
                    <T as PartialEqSpec>::obeys_eq_spec() ==> forall|q: int|
                        0 <= q < j ==> (#[trigger] self.at(i as int, q)).eq_spec(
                            &self.at(q, i as int),
                        ),
            {
                let left: T = self.get(i, j);
                let right: T = self.get(j, i);
                if left != right {
                    return false;
                }
            }
        }
        true
    }
}

/// Apply one side of a Jacobi plane rotation to the two entries `(i, j)` and
/// `(k, l)` of `a`: with `g` and `h` the values read there *before* either
/// write, the entries become `g - s * (h + g * tau)` and
/// `h + s * (g - h * tau)` — both computed from the original pair, never
/// from a partially updated value. Every other entry is kept.
pub fn rot<W: Copy, O: NumericOps<W>>(
    a: &mut Matrix<W>,
    ops: &O,
    s: W,
    tau: W,
    i: usize,
    j: usize,
    k: usize,
    l: usize,
)
    requires
        old(a).wf(),
        old(a).valid_index(i as int, j as int),
        old(a).valid_index(k as int, l as int),
    ensures
        final(a).wf(),
        final(a).same_shape(old(a)),
        ({
            let g = old(a).at(i as int, j as int);
            let h = old(a).at(k as int, l as int);
            let gnew = ops.minus_spec(g, ops.times_spec(s, ops.plus_spec(h, ops.times_spec(g, tau))));
            let hnew = ops.plus_spec(h, ops.times_spec(s, ops.minus_spec(g, ops.times_spec(h, tau))));
            &&& final(a).at(k as int, l as int) == hnew
            &&& (i != k || j != l) ==> final(a).at(i as int, j as int) == gnew
            &&& forall|p: int, q: int|
                final(a).valid_index(p, q) && (p != i || q != j) && (p != k || q != l)
                    ==> final(a).at(p, q) == old(a).at(p, q)
        }),
{
    let g: W = a.get(i, j);
    let h: W = a.get(k, l);
    let gnew: W = ops.minus(g, ops.times(s, ops.plus(h, ops.times(g, tau))));
    let hnew: W = ops.plus(h, ops.times(s, ops.minus(g, ops.times(h, tau))));
    a.set(i, j, gnew);
    a.set(k, l, hnew);
}

/// The `n x n` identity in the scalar model of `ops`: its one on the
/// diagonal, its zero everywhere else. Seed of the eigenvector accumulator.
fn identity_matrix<W: Copy, O: NumericOps<W>>(ops: &O, n: usize) -> (r: Matrix<W>)
    requires
        n > 0,
        n * n <= usize::MAX,
    ensures
        r.wf(),
        r.rows_spec() == n,
        r.cols_spec() == n,
        forall|i: int, j: int|
            r.valid_index(i, j) ==> r.at(i, j) == (if i == j {
                ops.one_spec()
            } else {
                ops.zero_spec()
            }),
{
    let zero: W = ops.zero();
    let one: W = ops.one();
    let mut m: Matrix<W> = Matrix::from_raw(n, n, fill_vec(zero, n * n));
    proof {
        assert forall|p: int, q: int| m.valid_index(p, q) implies m.at(p, q) == zero by {
            lemma_flat_index_bound(p, q, n as int, n as int);
        }
    }
    for i in 0..n
        invariant
            m.wf(),
            n == m.rows_spec(),
            n == m.cols_spec(),
            forall|p: int, q: int|
                m.valid_index(p, q) && p != q ==> m.at(p, q) == zero,
            forall|p: int| 0 <= p < i ==> m.at(p, p) == one,
    {
        m.set(i, i, one);
    }
    m
}

/// A vector of `len` copies of `value`.
fn fill_vec<W: Copy>(value: W, len: usize) -> (r: Vec<W>)
    ensures
        r@.len() == len,
        forall|k: int| 0 <= k < len ==> r@[k] == value,
{
    let mut data: Vec<W> = Vec::new();
    for k in 0..len
        invariant
            data@.len() == k,
            forall|m: int| 0 <= m < k ==> data@[m] == value,
    {
        data.push(value);
    }
    data
}


/// `p` maps `0..n` onto itself without repetition.
pub open spec fn is_permutation(p: Seq<int>, n: int) -> bool {
    &&& p.len() == n
    &&& forall|k: int| 0 <= k < n ==> 0 <= #[trigger] p[k] < n
    &&& forall|k1: int, k2: int| 0 <= k1 < k2 < n ==> p[k1] != p[k2]
}

/// Exchanging two images of a permutation yields a permutation.
proof fn lemma_permutation_swap(p: Seq<int>, n: int, a: int, b: int)
    requires
        is_permutation(p, n),
        0 <= a < n,
        0 <= b < n,
    ensures
        is_permutation(p.update(a, p[b]).update(b, p[a]), n),
{
    let q = p.update(a, p[b]).update(b, p[a]);
    assert forall|k1: int, k2: int| 0 <= k1 < k2 < n implies q[k1] != q[k2] by {
        assert(q[k1] == p[if k1 == a { b } else if k1 == b { a } else { k1 }]);
        assert(q[k2] == p[if k2 == a { b } else if k2 == b { a } else { k2 }]);
    }
}



/// The index the rightmost-maximum scan settles on: continuing from
/// position `k` with current winner `jm`, any later value comparing
/// greater-or-equal to the winner takes over.
pub open spec fn scan_spec<W, O: NumericOps<W>>(ops: &O, vals: Seq<W>, k: int, jm: int) -> int
    decreases vals.len() - k,
{
    if k < vals.len() {
        if ops.ge_spec(vals[k], vals[jm]) {
            scan_spec(ops, vals, k + 1, k)
        } else {
            scan_spec(ops, vals, k + 1, jm)
        }
    } else {
        jm
    }
}

/// One selection step of the eigenpair sorter at position `j`: the
/// rightmost maximum of positions `j..` is swapped into `j`, in the value
/// sequence and in the permutation tracking where each slot's content came
/// from.
pub open spec fn eigen_sort_step<W, O: NumericOps<W>>(
    ops: &O,
    vals: Seq<W>,
    perm: Seq<int>,
    j: int,
) -> (Seq<W>, Seq<int>) {
    let jm = scan_spec(ops, vals, j, j);
    if jm != j {
        (
            vals.update(jm, vals[j]).update(j, vals[jm]),
            perm.update(j, perm[jm]).update(jm, perm[j]),
        )
    } else {
        (vals, perm)
    }
}

/// The value sequence and slot permutation after the first `steps`
/// selection steps of the eigenpair sorter on `vals0`: the exact run of
/// the sort, last-wins tie-break included.
pub open spec fn eigen_sort_state<W, O: NumericOps<W>>(
    ops: &O,
    vals0: Seq<W>,
    steps: int,
) -> (Seq<W>, Seq<int>)
    decreases steps,
{
    if steps <= 0 {
        (vals0, Seq::new(vals0.len(), |i: int| i))
    } else {
        let prev = eigen_sort_state(ops, vals0, steps - 1);
        eigen_sort_step(ops, prev.0, prev.1, steps - 1)
    }
}

/// The index the eigenpair sorter swaps into position `from`: scanning
/// rightwards from `from`, any value comparing greater-or-equal to the
/// running maximum takes over, so among tied maxima the *rightmost* one
/// wins — no value right of the winner compares greater-or-equal to it.
/// When the capability orders its scalars totally and transitively, the
/// winner is a maximum of the scanned range.
pub fn scan_rightmost_max<W: Copy, O: NumericOps<W>>(ops: &O, values: &Vec<W>, from: usize) -> (r:
    usize)
    requires
        from < values@.len(),
    ensures
        from <= r < values@.len(),
        forall|m: int|
            r < m < values@.len() ==> !ops.ge_spec(#[trigger] values@[m], values@[r as int]),
        ge_total(ops) && ge_transitive(ops) ==> forall|m: int|
            from <= m < values@.len() ==> ops.ge_spec(values@[r as int], #[trigger] values@[m]),
        r == scan_spec(ops, values@, from as int, from as int),
{
    let n: usize = values.len();
    let mut j_max: usize = from;
    let mut eigen_max: W = values[from];
    for k in from..n
        invariant
            n == values@.len(),
            from <= j_max < n,
            eigen_max == values@[j_max as int],
            scan_spec(ops, values@, k as int, j_max as int) == scan_spec(
                ops,
                values@,
                from as int,
                from as int,
            ),
            forall|m: int| j_max < m < k ==> !ops.ge_spec(#[trigger] values@[m], eigen_max),
            ge_total(ops) && ge_transitive(ops) ==> forall|m: int|
                from <= m < k ==> ops.ge_spec(eigen_max, #[trigger] values@[m]),
    {
        if ops.ge(values[k], eigen_max) {
            j_max = k;
            eigen_max = values[k];
        }
    }
    j_max
}

/// Selection-style descending sort of the eigenvalues with the eigenvector
/// columns carried along: for each position the scan picks the *rightmost*
/// remaining maximum (any later value comparing greater-or-equal wins the
/// scan) and swaps it in, swapping the same pair of matrix columns.
///
/// Whatever path the sort takes, the values end up as a permutation of what
/// they were; on success the matrix columns are moved by that same
/// permutation, so each value stays paired with its column. A non-square
/// matrix is refused untouched, and a matrix with at least as many columns
/// as there are values cannot fail. When the capability orders its scalars
/// totally and transitively, a successful sort leaves the values in
/// non-increasing order.
///
/// On success the run is pinned exactly: the resulting values and the
/// permutation pairing them with their columns equal [`eigen_sort_state`],
/// the step-by-step model of the selection, so the last-wins tie-break is
/// fixed by the contract for every position.
#[verifier::loop_isolation(false)]
pub fn eigen_sort<W: Copy, O: NumericOps<W>>(
    ops: &O,
    eigen_values: &mut Vec<W>,
    eigen_matrix: &mut Matrix<W>,
) -> (r: Result<(), EigenDecompositionError>)
    requires
        old(eigen_values)@.len() >= 1,
        old(eigen_matrix).wf(),
    ensures
        final(eigen_matrix).wf(),
        final(eigen_matrix).same_shape(old(eigen_matrix)),
        final(eigen_values)@.len() == old(eigen_values)@.len(),
        !old(eigen_matrix).is_square_spec() ==> r is Err && *final(eigen_values) == *old(
            eigen_values,
        ) && *final(eigen_matrix) == *old(eigen_matrix),
        old(eigen_matrix).is_square_spec() && old(eigen_values)@.len() <= old(
            eigen_matrix,
        ).cols_spec() ==> r is Ok,
        ge_total(ops) && ge_transitive(ops) && r is Ok ==> sorted_descending(
            ops,
            final(eigen_values)@,
        ),
        r is Ok ==> final(eigen_values)@ == eigen_sort_state(
            ops,
            old(eigen_values)@,
            old(eigen_values)@.len() - 1,
        ).0,
        old(eigen_values)@.len() == 1 ==> final(eigen_values)@ == old(eigen_values)@ && (
        forall|i: int, k: int|
            final(eigen_matrix).valid_index(i, k) ==> final(eigen_matrix).at(i, k) == old(
                eigen_matrix,
            ).at(i, k)),
        exists|p: Seq<int>|
            {
                &&& #[trigger] is_permutation(p, old(eigen_values)@.len() as int)
                &&& forall|k: int|
                    0 <= k < old(eigen_values)@.len() ==> final(eigen_values)@[k] == old(
                        eigen_values,
                    )@[p[k]]
            },
        r is Ok ==> exists|p: Seq<int>|
            {
                &&& #[trigger] is_permutation(p, old(eigen_values)@.len() as int)
                &&& p == eigen_sort_state(
                    ops,
                    old(eigen_values)@,
                    old(eigen_values)@.len() - 1,
                ).1
                &&& forall|k: int|
                    0 <= k < old(eigen_values)@.len() ==> final(eigen_values)@[k] == old(
                        eigen_values,
                    )@[p[k]]
                &&& forall|i: int, k: int|
                    final(eigen_matrix).valid_index(i, k) && k < old(eigen_values)@.len()
                        ==> final(eigen_matrix).at(i, k) == old(eigen_matrix).at(i, p[k])
                &&& forall|i: int, k: int|
                    final(eigen_matrix).valid_index(i, k) && k >= old(eigen_values)@.len()
                        ==> final(eigen_matrix).at(i, k) == old(eigen_matrix).at(i, k)
                &&& old(eigen_values)@.len() > 1 ==> forall|m: int|
                    p[0] < m < old(eigen_values)@.len() ==> !ops.ge_spec(
                        #[trigger] old(eigen_values)@[m],
                        old(eigen_values)@[p[0]],
                    )
                &&& old(eigen_values)@.len() > 1 && ge_total(ops) && ge_transitive(ops)
                    ==> forall|m: int|
                    0 <= m < old(eigen_values)@.len() ==> ops.ge_spec(
                        old(eigen_values)@[p[0]],
                        #[trigger] old(eigen_values)@[m],
                    )
            },
{
    let ghost vals0: Seq<W> = eigen_values@;
    let ghost mat0: Matrix<W> = *eigen_matrix;
    if !eigen_matrix.is_square() {
        proof {
            let idp = Seq::new(vals0.len(), |i: int| i);
            assert(is_permutation(idp, vals0.len() as int));
        }
        return Err(EigenDecompositionError);
    }
    let n: usize = eigen_values.len();
    let ghost mut perm: Seq<int> = Seq::new(n as nat, |i: int| i);
    proof {
        assert(eigen_sort_state(ops, vals0, 0).0 == vals0);
        assert(eigen_sort_state(ops, vals0, 0).1 =~= perm);
    }
    for j in 0..(n - 1)
        invariant
            vals0 == old(eigen_values)@,
            eigen_values@ == eigen_sort_state(ops, vals0, j as int).0,
            perm == eigen_sort_state(ops, vals0, j as int).1,
            mat0 == *old(eigen_matrix),
            n == vals0.len(),
            n >= 1,
            eigen_values@.len() == n,
            eigen_matrix.wf(),
            eigen_matrix.same_shape(&mat0),
            mat0.wf(),
            mat0.is_square_spec(),
            is_permutation(perm, n as int),
            forall|k: int| 0 <= k < n ==> eigen_values@[k] == vals0[perm[k]],
            forall|i: int, k: int|
                eigen_matrix.valid_index(i, k) && k < n ==> eigen_matrix.at(i, k) == mat0.at(
                    i,
                    perm[k],
                ),
            forall|i: int, k: int|
                eigen_matrix.valid_index(i, k) && k >= n ==> eigen_matrix.at(i, k) == mat0.at(
                    i,
                    k,
                ),
            ge_total(ops) && ge_transitive(ops) ==> forall|p: int, q: int|
                0 <= p <= q < j ==> ops.ge_spec(
                    #[trigger] eigen_values@[p],
                    #[trigger] eigen_values@[q],
                ),
            ge_total(ops) && ge_transitive(ops) ==> forall|p: int, q: int|
                0 <= p < j && j <= q < n ==> ops.ge_spec(
                    #[trigger] eigen_values@[p],
                    #[trigger] eigen_values@[q],
                ),
            j == 0 ==> eigen_values@ == vals0 && perm == Seq::new(n as nat, |i: int| i),
            j > 0 ==> forall|m: int|
                perm[0] < m < n ==> !ops.ge_spec(#[trigger] vals0[m], vals0[perm[0]]),
            j > 0 && ge_total(ops) && ge_transitive(ops) ==> forall|m: int|
                0 <= m < n ==> ops.ge_spec(vals0[perm[0]], #[trigger] vals0[m]),
    {
        let j_max: usize = scan_rightmost_max(ops, eigen_values, j);
        let eigen_max: W = eigen_values[j_max];
        let ghost prev_vals: Seq<W> = eigen_values@;
        let ghost prev_perm: Seq<int> = perm;
        proof {
            assert(eigen_sort_state(ops, vals0, j + 1) == eigen_sort_step(
                ops,
                prev_vals,
                prev_perm,
                j as int,
            ));
        }
        if j_max != j {
            let moved: W = eigen_values[j];
            eigen_values[j_max] = moved;
            eigen_values[j] = eigen_max;
            proof {
                lemma_permutation_swap(perm, n as int, j as int, j_max as int);
            }
            let ghost perm_next: Seq<int> = perm.update(j as int, perm[j_max as int]).update(
                j_max as int,
                perm[j as int],
            );
            if eigen_matrix.swap_cols(j, j_max).is_err() {
                proof {
                    perm = perm_next;
                    assert(is_permutation(perm, n as int));
                    assert(forall|k: int| 0 <= k < n ==> eigen_values@[k] == vals0[perm[k]]);
                }
                return Err(EigenDecompositionError);
            }
            proof {
                perm = perm_next;
                assert(eigen_values@ =~= prev_vals.update(j_max as int, prev_vals[j as int]).update(
                    j as int,
                    prev_vals[j_max as int],
                ));
                assert(perm =~= prev_perm.update(j as int, prev_perm[j_max as int]).update(
                    j_max as int,
                    prev_perm[j as int],
                ));
            }
        }
    }
    Ok(())
}

/// A pluggable eigen decomposition strategy over element type `T`, working
/// scalar type `W` and scalar capability `O`: from a well-formed symmetric
/// input it produces one eigenvalue per row paired with a square eigenvector
/// matrix of the same order, and it refuses a non-symmetric input.
pub trait EigenDecomposition<T: Copy + PartialEq, W: Copy, O: NumericOps<W> + Widen<T, W>>: Sized {
    fn decompose(&self, m: &Matrix<T>, ops: &O) -> (r: Result<
        (Vec<W>, Matrix<W>),
        EigenDecompositionError,
    >)
        requires
            m.wf(),
        ensures
            r is Ok ==> (r->Ok_0).0@.len() == m.rows_spec(),
            r is Ok ==> (r->Ok_0).1.wf() && (r->Ok_0).1.rows_spec() == m.rows_spec() && (
            r->Ok_0).1.cols_spec() == m.rows_spec(),
            !m.is_square_spec() ==> r is Err,
            <T as PartialEqSpec>::obeys_eq_spec() && !m.is_symmetric_spec() ==> r is Err,
            ge_total(ops) && ge_transitive(ops) && r is Ok ==> sorted_descending(
                ops,
                (r->Ok_0).0@,
            ),
            ({
                &&& m.rows_spec() == 1
                &&& m.is_square_spec()
                &&& <T as PartialEqSpec>::obeys_eq_spec()
                &&& m.at(0, 0).eq_spec(&m.at(0, 0))
                &&& ops.eq_spec(ops.zero_spec(), ops.zero_spec())
            }) ==> {
                &&& r is Ok
                &&& (r->Ok_0).0@ == seq![ops.widen_spec(m.at(0, 0))]
                &&& (r->Ok_0).1.at(0, 0) == ops.one_spec()
            },
    ;
}

/// The cyclic Jacobi rotation method with thresholding: the eigen
/// decomposition strategy this crate implements.
pub struct JacobiDecomposition;

impl<T: Copy + PartialEq, W: Copy, O: NumericOps<W> + Widen<T, W>> EigenDecomposition<
    T,
    W,
    O,
> for JacobiDecomposition {
    /// One sweep visits every off-diagonal pair `p < q`. While the sum of
    /// off-diagonal magnitudes is nonzero, each sufficiently large pair is
    /// eliminated by a plane rotation whose tangent is solved in the
    /// numerically stable form, and the rotation is applied to the coupled
    /// entries of the working copy and to every row of the eigenvector
    /// accumulator. The first three sweeps skip pairs below a threshold of
    /// `0.2 * sum / n^2`; later sweeps process every pair, and from the
    /// fifth sweep on a pair negligible against both paired diagonal
    /// entries is simply zeroed. A run that has not converged after the
    /// sweep budget [`MAX_SWEEPS`] fails.
    #[verifier::loop_isolation(false)]
    fn decompose(&self, m: &Matrix<T>, ops: &O) -> Result<
        (Vec<W>, Matrix<W>),
        EigenDecompositionError,
    > {
        if !m.is_symmetric() {
            return Err(EigenDecompositionError);
        }
        let n: usize = m.rows();
        proof {
            m.lemma_flat_fits();
        }
        let eps: W = ops.eps();
        let hundred: W = ops.from_count(100);
        let fifth: W = ops.div(ops.one(), ops.from_count(5));
        let half: W = ops.div(ops.one(), ops.from_count(2));
        let mut a: Matrix<W> = m.copy_to(ops);
        let mut v: Matrix<W> = identity_matrix(ops, n);
        let mut d: Vec<W> = Vec::new();
        let mut b: Vec<W> = Vec::new();
        let mut z: Vec<W> = Vec::new();
        for ip in 0..n
            invariant
                d@.len() == ip,
                b@.len() == ip,
                z@.len() == ip,
                forall|p: int| 0 <= p < ip ==> d@[p] == a.at(p, p),
        {
            let diag: W = a.get(ip, ip);
            b.push(diag);
            d.push(diag);
            z.push(ops.zero());
        }
        proof {
            if n == 1 {
                assert(a.valid_index(0, 0));
                assert(d@[0] == a.at(0, 0));
                assert(d@ =~= seq![ops.widen_spec(m.at(0, 0))]);
            }
        }
        for i in 1..MAX_SWEEPS
            invariant
                a.wf(),
                a.rows_spec() == n,
                a.cols_spec() == n,
                v.wf(),
                v.rows_spec() == n,
                v.cols_spec() == n,
                d@.len() == n,
                b@.len() == n,
                z@.len() == n,
                n == 1 && ops.eq_spec(ops.zero_spec(), ops.zero_spec()) ==> d@ == seq![
                    ops.widen_spec(m.at(0, 0)),
                ] && v.at(0, 0) == ops.one_spec(),
                i > 1 ==> !(n == 1 && ops.eq_spec(ops.zero_spec(), ops.zero_spec())),
        {
            let mut sm: W = ops.zero();
            for ip in 0..(n - 1)
                invariant
                    a.wf(),
                    a.rows_spec() == n,
                    a.cols_spec() == n,
                    n == 1 ==> sm == ops.zero_spec(),
            {
                for iq in (ip + 1)..n
                    invariant
                        a.wf(),
                        a.rows_spec() == n,
                        a.cols_spec() == n,
                        n == 1 ==> sm == ops.zero_spec(),
                {
                    sm = ops.plus(sm, ops.abs(a.get(ip, iq)));
                }
            }
            if ops.eq(sm, ops.zero()) {
                match eigen_sort(ops, &mut d, &mut v) {
                    Ok(()) => {
                        return Ok((d, v));
                    },
                    Err(_) => {
                        return Err(EigenDecompositionError);
                    },
                }
            }
            let tresh: W = if i < 4 {
                ops.div(ops.times(sm, fifth), ops.from_count(n * n))
            } else {
                ops.zero()
            };
            for ip in 0..(n - 1)
                invariant
                    a.wf(),
                    a.rows_spec() == n,
                    a.cols_spec() == n,
                    v.wf(),
                    v.rows_spec() == n,
                    v.cols_spec() == n,
                    d@.len() == n,
                    b@.len() == n,
                    z@.len() == n,
            {
                for iq in (ip + 1)..n
                    invariant
                        a.wf(),
                        a.rows_spec() == n,
                        a.cols_spec() == n,
                        v.wf(),
                        v.rows_spec() == n,
                        v.cols_spec() == n,
                        d@.len() == n,
                        b@.len() == n,
                        z@.len() == n,
                {
                    let g: W = ops.times(ops.abs(a.get(ip, iq)), hundred);
                    if i > 4 && ops.le(g, ops.times(eps, ops.abs(d[ip]))) && ops.le(
                        g,
                        ops.times(eps, ops.abs(d[iq])),
                    ) {
                        a.set(ip, iq, ops.zero());
                    } else {
                        let apq: W = a.get(ip, iq);
                        if ops.gt(ops.abs(apq), tresh) {
                            let h: W = ops.minus(d[iq], d[ip]);
                            let t: W = if ops.le(g, ops.times(eps, ops.abs(h))) {
                                ops.div(apq, h)
                            } else {
                                let theta: W = ops.div(ops.times(h, half), apq);
                                let denominator: W = ops.plus(
                                    ops.abs(theta),
                                    ops.sqrt(ops.plus(ops.times(theta, theta), ops.one())),
                                );
                                if ops.lt(theta, ops.zero()) {
                                    ops.div(ops.neg(ops.one()), denominator)
                                } else {
                                    ops.div(ops.one(), denominator)
                                }
                            };
                            let c: W = ops.div(
                                ops.one(),
                                ops.sqrt(ops.plus(ops.times(t, t), ops.one())),
                            );
                            let s: W = ops.times(t, c);
                            let tau: W = ops.div(s, ops.plus(c, ops.one()));
                            let h2: W = ops.times(t, apq);
                            let zp: W = z[ip];
                            z[ip] = ops.minus(zp, h2);
                            let zq: W = z[iq];
                            z[iq] = ops.plus(zq, h2);
                            let dp: W = d[ip];
                            d[ip] = ops.minus(dp, h2);
                            let dq: W = d[iq];
                            d[iq] = ops.plus(dq, h2);
                            a.set(ip, iq, ops.zero());
                            for jj in 0..ip
                                invariant
                                    a.wf(),
                                    a.rows_spec() == n,
                                    a.cols_spec() == n,
                            {
                                rot(&mut a, ops, s, tau, jj, ip, jj, iq);
                            }
                            for jj in (ip + 1)..iq
                                invariant
                                    a.wf(),
                                    a.rows_spec() == n,
                                    a.cols_spec() == n,
                            {
                                rot(&mut a, ops, s, tau, ip, jj, jj, iq);
                            }
                            for jj in (iq + 1)..n
                                invariant
                                    a.wf(),
                                    a.rows_spec() == n,
                                    a.cols_spec() == n,
                            {
                                rot(&mut a, ops, s, tau, ip, jj, iq, jj);
                            }
                            for jj in 0..n
                                invariant
                                    v.wf(),
                                    v.rows_spec() == n,
                                    v.cols_spec() == n,
                            {
                                rot(&mut v, ops, s, tau, jj, ip, jj, iq);
                            }
                        }
                    }
                }
            }
            for ip in 0..n
                invariant
                    d@.len() == n,
                    b@.len() == n,
                    z@.len() == n,
            {
                let folded: W = ops.plus(b[ip], z[ip]);
                b[ip] = folded;
                d[ip] = folded;
                z[ip] = ops.zero();
            }
        }
        Err(EigenDecompositionError)
    }
}

/// The symmetry predicate together with entry to the eigen decomposition
/// engines, for the matrices that can carry them.
pub trait Symmetric<T: Copy + PartialEq>: Sized {
    /// The structural invariant the receiver must satisfy.
    spec fn sym_wf(&self) -> bool;

    /// Whether the receiver is square.
    spec fn sym_square(&self) -> bool;

    /// What the symmetry check decides, over the element equality relation.
    spec fn symmetric_spec(&self) -> bool;

    /// The order of the receiver: its row count.
    spec fn sym_order(&self) -> int;

    /// The element of the receiver at row `i`, column `j`.
    spec fn sym_at(&self, i: int, j: int) -> T;

    fn is_symmetric(&self) -> (r: bool)
        requires
            self.sym_wf(),
        ensures
            !self.sym_square() ==> r == false,
            <T as PartialEqSpec>::obeys_eq_spec() ==> r == self.symmetric_spec(),
    ;

    fn eigen_decomposition<W: Copy, O: NumericOps<W> + Widen<T, W>>(
        &self,
        algorithm: Algorithm,
        ops: &O,
    ) -> (r: Result<(Vec<W>, Matrix<W>), EigenDecompositionError>)
        requires
            self.sym_wf(),
        ensures
            r is Ok ==> (r->Ok_0).0@.len() == self.sym_order(),
            r is Ok ==> (r->Ok_0).1.wf() && (r->Ok_0).1.rows_spec() == self.sym_order() && (
            r->Ok_0).1.cols_spec() == self.sym_order(),
            !self.sym_square() ==> r is Err,
            <T as PartialEqSpec>::obeys_eq_spec() && !self.symmetric_spec() ==> r is Err,
            ge_total(ops) && ge_transitive(ops) && r is Ok ==> sorted_descending(
                ops,
                (r->Ok_0).0@,
            ),
            ({
                &&& self.sym_order() == 1
                &&& self.sym_square()
                &&& <T as PartialEqSpec>::obeys_eq_spec()
                &&& self.sym_at(0, 0).eq_spec(&self.sym_at(0, 0))
                &&& ops.eq_spec(ops.zero_spec(), ops.zero_spec())
            }) ==> {
                &&& r is Ok
                &&& (r->Ok_0).0@ == seq![ops.widen_spec(self.sym_at(0, 0))]
                &&& (r->Ok_0).1.at(0, 0) == ops.one_spec()
            },
    ;
}

impl<T: Copy + PartialEq> Symmetric<T> for Matrix<T> {
    open spec fn sym_wf(&self) -> bool {
        self.wf()
    }

    open spec fn sym_square(&self) -> bool {
        self.is_square_spec()
    }

    open spec fn symmetric_spec(&self) -> bool {
        self.is_symmetric_spec()
    }

    open spec fn sym_order(&self) -> int {
        self.rows_spec()
    }

    open spec fn sym_at(&self, i: int, j: int) -> T {
        self.at(i, j)
    }

    fn is_symmetric(&self) -> (r: bool) {
        Matrix::is_symmetric(self)
    }

    /// Dispatch on the selected algorithm; the Jacobi strategy is the one
    /// implemented.
    fn eigen_decomposition<W: Copy, O: NumericOps<W> + Widen<T, W>>(
        &self,
        algorithm: Algorithm,
        ops: &O,
    ) -> (r: Result<(Vec<W>, Matrix<W>), EigenDecompositionError>) {
        match algorithm {
            Algorithm::Jacobi => JacobiDecomposition.decompose(self, ops),
        }
    }
}


/// Law: a one-by-one matrix is trivially symmetric, as soon as element
/// equality relates its single entry to itself (the equality specification
/// of a generic element type does not give reflexivity for free).
pub proof fn lemma_one_by_one_symmetric<T: Copy + PartialEq>(m: &Matrix<T>)
    requires
        m.wf(),
        m.rows_spec() == 1,
        m.cols_spec() == 1,
        m.at(0, 0).eq_spec(&m.at(0, 0)),
    ensures
        m.is_symmetric_spec(),
{
}

/// Law: the symmetry check has no hidden state. When element equality obeys
/// its specification, any two runs on the same unmutated matrix return the
/// same answer.
pub proof fn lemma_is_symmetric_idempotent<T: Copy + PartialEq>(m: &Matrix<T>, r1: bool, r2: bool)
    requires
        <T as PartialEqSpec>::obeys_eq_spec(),
        call_ensures(Matrix::<T>::is_symmetric, (m,), r1),
        call_ensures(Matrix::<T>::is_symmetric, (m,), r2),
    ensures
        r1 == r2,
{
}
} // verus!
