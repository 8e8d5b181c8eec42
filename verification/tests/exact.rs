use matrix_decomp::definite::{CholeskyDecompositionError, PositiveDefinite};
use matrix_decomp::matrix::{MatrixAccessError, MatrixBuilder};
use matrix_decomp::numeric::{IntegerOps, NumericOps};
use matrix_decomp::symmetric::{eigen_sort, rot, scan_rightmost_max, Algorithm, Symmetric};

#[test]
fn test_integer_ops_scalars() {
    assert_eq!(IntegerOps.zero(), 0);
    assert_eq!(IntegerOps.one(), 1);
    assert_eq!(IntegerOps.eps(), 0);
    assert_eq!(IntegerOps.from_count(100), 100);
    assert_eq!(IntegerOps.plus(3, 4), 7);
    assert_eq!(IntegerOps.minus(3, 4), -1);
    assert_eq!(IntegerOps.times(3, 4), 12);
    assert_eq!(IntegerOps.div(7, 2), 3);
    assert_eq!(IntegerOps.div(-7, 2), -3);
    assert_eq!(IntegerOps.div(7, 0), 0);
    assert_eq!(IntegerOps.neg(5), -5);
    assert_eq!(IntegerOps.abs(-5), 5);
    assert_eq!(IntegerOps.sqrt(0), 0);
    assert_eq!(IntegerOps.sqrt(1), 1);
    assert_eq!(IntegerOps.sqrt(2), 1);
    assert_eq!(IntegerOps.sqrt(9), 3);
    assert_eq!(IntegerOps.sqrt(10), 3);
    assert_eq!(IntegerOps.sqrt(i64::MAX), 3037000499);
    assert_eq!(IntegerOps.plus(i64::MAX, 1), i64::MAX);
    assert_eq!(IntegerOps.minus(i64::MIN, 1), i64::MIN);
    assert_eq!(IntegerOps.times(i64::MAX, 2), i64::MAX);
    assert_eq!(IntegerOps.times(i64::MAX, -2), i64::MIN);
    assert!(IntegerOps.lt(1, 2));
    assert!(IntegerOps.le(2, 2));
    assert!(IntegerOps.gt(3, 2));
    assert!(IntegerOps.ge(3, 3));
    assert!(IntegerOps.eq(4, 4));
}

#[test]
fn test_jacobi_diagonal_exact() {
    // A diagonal matrix is already converged: the engine only has to sort
    // the eigenpairs, so the exact integer capability reproduces the run.
    let m = MatrixBuilder::new()
        .from_mat(vec![
            vec![3i64, 0i64, 0i64],
            vec![0i64, 7i64, 0i64],
            vec![0i64, 0i64, 5i64],
        ])
        .build()
        .unwrap();
    let (d, p) = m.eigen_decomposition(Algorithm::Jacobi, &IntegerOps).unwrap();
    assert_eq!(d, vec![7i64, 5i64, 3i64]);
    assert_eq!(
        p,
        MatrixBuilder::new()
            .from_mat(vec![
                vec![0i64, 0i64, 1i64],
                vec![1i64, 0i64, 0i64],
                vec![0i64, 1i64, 0i64],
            ])
            .build()
            .unwrap()
    );
}

#[test]
fn test_eigen_sort_last_wins_tie_break() {
    // Among equal maxima the scan keeps updating, so the rightmost one is
    // swapped in: the first output column is the column that belonged to
    // the *last* of the tied values.
    let mut values = vec![2i64, 5i64, 5i64];
    let mut vectors = MatrixBuilder::<i64>::new().identity(3).build().unwrap();
    assert!(eigen_sort(&IntegerOps, &mut values, &mut vectors).is_ok());
    assert_eq!(values, vec![5i64, 5i64, 2i64]);
    assert_eq!(
        vectors,
        MatrixBuilder::new()
            .from_mat(vec![
                vec![0i64, 0i64, 1i64],
                vec![0i64, 1i64, 0i64],
                vec![1i64, 0i64, 0i64],
            ])
            .build()
            .unwrap()
    );
}

#[test]
fn test_eigen_sort_rejects_non_square() {
    let mut values = vec![2i64, 1i64];
    let mut vectors = MatrixBuilder::new()
        .from_mat(vec![vec![1i64, 0i64, 0i64], vec![0i64, 1i64, 0i64]])
        .build()
        .unwrap();
    assert!(eigen_sort(&IntegerOps, &mut values, &mut vectors).is_err());
    assert_eq!(values, vec![2i64, 1i64]);
}

#[test]
fn test_cholesky_exact_diagonal() {
    let m = MatrixBuilder::new()
        .from_mat(vec![vec![4i64, 0i64], vec![0i64, 9i64]])
        .build()
        .unwrap();
    let l = m.cholesky(&IntegerOps).unwrap();
    assert_eq!(
        l,
        MatrixBuilder::new()
            .from_mat(vec![vec![2i64, 0i64], vec![0i64, 3i64]])
            .build()
            .unwrap()
    );
}

#[test]
fn test_cholesky_breakdown_after_precheck() {
    // In the exact integer model the definiteness pre-check accepts this
    // matrix, but the factorization meets a non-positive pivot: the
    // breakdown error the pre-check cannot rule out.
    let m = MatrixBuilder::new()
        .from_mat(vec![vec![9i64, 7i64], vec![7i64, 3i64]])
        .build()
        .unwrap();
    assert!(m.is_positive_definite(&IntegerOps));
    assert_eq!(m.cholesky(&IntegerOps), Err(CholeskyDecompositionError::AlgorithmFailed));
}

#[test]
fn test_eigen_decomposition_rejects_non_symmetric() {
    let m = MatrixBuilder::new()
        .from_mat(vec![vec![1i64, 2i64], vec![3i64, 4i64]])
        .build()
        .unwrap();
    assert!(m.eigen_decomposition(Algorithm::Jacobi, &IntegerOps).is_err());
    let wide = MatrixBuilder::new()
        .from_mat(vec![vec![1i64, 2i64, 3i64], vec![2i64, 4i64, 5i64]])
        .build()
        .unwrap();
    assert!(wide.eigen_decomposition(Algorithm::Jacobi, &IntegerOps).is_err());
}

#[test]
fn test_swap_cols() {
    let mut m = MatrixBuilder::new()
        .from_mat(vec![vec![1i64, 2i64], vec![3i64, 4i64]])
        .build()
        .unwrap();
    assert!(m.swap_cols(0, 1).is_ok());
    assert_eq!(
        m,
        MatrixBuilder::new()
            .from_mat(vec![vec![2i64, 1i64], vec![4i64, 3i64]])
            .build()
            .unwrap()
    );
    assert_eq!(m.swap_cols(0, 5), Err(MatrixAccessError::ColumnOutOfBounds));
}

#[test]
fn test_rot_updates_both_entries_from_originals() {
    // rot reads both coupled entries before writing either: with s = 2 and
    // tau = 1 on the corners of [[2,3],[4,5]], the new corner values are
    // 2 - 2*(5 + 2*1) = -12 and 5 + 2*(2 - 5*1) = -1.
    let mut a = MatrixBuilder::new()
        .from_mat(vec![vec![2i64, 3i64], vec![4i64, 5i64]])
        .build()
        .unwrap();
    rot(&mut a, &IntegerOps, 2, 1, 0, 0, 1, 1);
    assert_eq!(
        a,
        MatrixBuilder::new()
            .from_mat(vec![vec![-12i64, 3i64], vec![4i64, -1i64]])
            .build()
            .unwrap()
    );
}

#[test]
fn test_error_messages() {
    assert_eq!(
        CholeskyDecompositionError::MatrixIsNotPositiveDefinite.message(),
        "CHolesky Decomposition failed because matrix is not positive definite."
    );
    assert_eq!(
        CholeskyDecompositionError::AlgorithmFailed.message(),
        "CHolesky Decomposition failed because selected algorithm failed."
    );
    assert_eq!(
        matrix_decomp::symmetric::EigenDecompositionError.message(),
        "An error occurred while computing eigen values"
    );
}

#[test]
fn test_scan_rightmost_max() {
    assert_eq!(scan_rightmost_max(&IntegerOps, &vec![2i64, 5i64, 5i64], 0), 2);
    assert_eq!(scan_rightmost_max(&IntegerOps, &vec![9i64, 5i64, 5i64], 0), 0);
    assert_eq!(scan_rightmost_max(&IntegerOps, &vec![9i64, 5i64, 5i64], 1), 2);
    assert_eq!(scan_rightmost_max(&IntegerOps, &vec![4i64, 4i64, 4i64], 0), 2);
}

#[test]
fn test_jacobi_one_by_one_exact() {
    // A single-entry matrix is already diagonal: the engine returns its
    // widened entry and the one-by-one identity accumulator.
    let m = MatrixBuilder::new().from_mat(vec![vec![5i64]]).build().unwrap();
    let (d, p) = m.eigen_decomposition(Algorithm::Jacobi, &IntegerOps).unwrap();
    assert_eq!(d, vec![5i64]);
    assert_eq!(p, MatrixBuilder::new().from_mat(vec![vec![1i64]]).build().unwrap());
}
