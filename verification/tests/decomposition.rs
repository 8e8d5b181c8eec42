use matrix_decomp::definite::{CholeskyDecompositionError, PositiveDefinite};
use matrix_decomp::matrix::MatrixBuilder;
use matrix_decomp::square::Square;
use matrix_decomp::numeric::{NumericOps, Widen};
use matrix_decomp::symmetric::{Algorithm, Symmetric};

/// Double-precision scalar capability: the machine floating point the
/// decompositions classically run in.
struct DoubleOps;

impl NumericOps<f64> for DoubleOps {
    fn zero_spec(&self) -> f64 {
        0f64
    }
    fn one_spec(&self) -> f64 {
        1f64
    }
    fn eps_spec(&self) -> f64 {
        f64::EPSILON
    }
    fn from_count_spec(&self, n: usize) -> f64 {
        n as f64
    }
    fn plus_spec(&self, a: f64, b: f64) -> f64 {
        a + b
    }
    fn minus_spec(&self, a: f64, b: f64) -> f64 {
        a - b
    }
    fn times_spec(&self, a: f64, b: f64) -> f64 {
        a * b
    }
    fn div_spec(&self, a: f64, b: f64) -> f64 {
        a / b
    }
    fn neg_spec(&self, a: f64) -> f64 {
        -a
    }
    fn abs_spec(&self, a: f64) -> f64 {
        a.abs()
    }
    fn sqrt_spec(&self, a: f64) -> f64 {
        a.sqrt()
    }
    fn lt_spec(&self, a: f64, b: f64) -> bool {
        a < b
    }
    fn le_spec(&self, a: f64, b: f64) -> bool {
        a <= b
    }
    fn gt_spec(&self, a: f64, b: f64) -> bool {
        a > b
    }
    fn ge_spec(&self, a: f64, b: f64) -> bool {
        a >= b
    }
    fn eq_spec(&self, a: f64, b: f64) -> bool {
        a == b
    }
    fn zero(&self) -> f64 {
        0f64
    }
    fn one(&self) -> f64 {
        1f64
    }
    fn eps(&self) -> f64 {
        f64::EPSILON
    }
    fn from_count(&self, n: usize) -> f64 {
        n as f64
    }
    fn plus(&self, a: f64, b: f64) -> f64 {
        a + b
    }
    fn minus(&self, a: f64, b: f64) -> f64 {
        a - b
    }
    fn times(&self, a: f64, b: f64) -> f64 {
        a * b
    }
    fn div(&self, a: f64, b: f64) -> f64 {
        a / b
    }
    fn neg(&self, a: f64) -> f64 {
        -a
    }
    fn abs(&self, a: f64) -> f64 {
        a.abs()
    }
    fn sqrt(&self, a: f64) -> f64 {
        a.sqrt()
    }
    fn lt(&self, a: f64, b: f64) -> bool {
        a < b
    }
    fn le(&self, a: f64, b: f64) -> bool {
        a <= b
    }
    fn gt(&self, a: f64, b: f64) -> bool {
        a > b
    }
    fn ge(&self, a: f64, b: f64) -> bool {
        a >= b
    }
    fn eq(&self, a: f64, b: f64) -> bool {
        a == b
    }
}

impl Widen<f64, f64> for DoubleOps {
    fn widen_spec(&self, x: f64) -> f64 {
        x
    }
    fn widen(&self, x: f64) -> f64 {
        x
    }
}

impl Widen<f32, f64> for DoubleOps {
    fn widen_spec(&self, x: f32) -> f64 {
        x as f64
    }
    fn widen(&self, x: f32) -> f64 {
        x as f64
    }
}

impl Widen<i32, f64> for DoubleOps {
    fn widen_spec(&self, x: i32) -> f64 {
        x as f64
    }
    fn widen(&self, x: i32) -> f64 {
        x as f64
    }
}

impl Widen<i64, f64> for DoubleOps {
    fn widen_spec(&self, x: i64) -> f64 {
        x as f64
    }
    fn widen(&self, x: i64) -> f64 {
        x as f64
    }
}

#[test]
fn test_jacobi() {
    // (1, 1, 1)-axis 45 deg rotation matrix
    let m = MatrixBuilder::new()
        .from_mat(vec![
            vec![1f32, 4f32, 5f32],
            vec![4f32, 2f32, 6f32],
            vec![5f32, 6f32, 3f32],
        ])
        .build()
        .unwrap();
    let (d, p) = match m.eigen_decomposition(Algorithm::Jacobi, &DoubleOps) {
        Ok(result) => result,
        Err(_) => panic!("Jacobi Algorithm went wrong"),
    };
    assert_eq!(d, vec![12.175971065046905, -2.507287967093641, -3.6686830979532656]);
    assert_eq!(
        p,
        MatrixBuilder::new()
            .from_mat(vec![
                vec![0.49659978454619136, 0.8095854617397509, -0.31298567719355896],
                vec![0.5773502691896256, -0.5773502691896253, -0.5773502691896264],
                vec![0.6481167492476514, -0.10600965430705542, 0.7541264035547062],
            ])
            .build()
            .unwrap()
    );

    let m = MatrixBuilder::new()
        .from_mat(vec![
            vec![1f64, 4f64, 5f64],
            vec![4f64, 2f64, 6f64],
            vec![5f64, 6f64, 3f64],
        ])
        .build()
        .unwrap();
    let (d, p) = match m.eigen_decomposition(Algorithm::Jacobi, &DoubleOps) {
        Ok(result) => result,
        Err(_) => panic!("Jacobi Algorithm went wrong"),
    };
    assert_eq!(d, vec![12.175971065046905, -2.507287967093641, -3.6686830979532656]);
    assert_eq!(
        p,
        MatrixBuilder::new()
            .from_mat(vec![
                vec![0.49659978454619136, 0.8095854617397509, -0.31298567719355896],
                vec![0.5773502691896256, -0.5773502691896253, -0.5773502691896264],
                vec![0.6481167492476514, -0.10600965430705542, 0.7541264035547062],
            ])
            .build()
            .unwrap()
    );

    let m = MatrixBuilder::new()
        .from_mat(vec![
            vec![1i32, 4i32, 5i32],
            vec![4i32, 2i32, 6i32],
            vec![5i32, 6i32, 3i32],
        ])
        .build()
        .unwrap();
    let (d, p) = match m.eigen_decomposition(Algorithm::Jacobi, &DoubleOps) {
        Ok(result) => result,
        Err(_) => panic!("Jacobi Algorithm went wrong"),
    };
    assert_eq!(d, vec![12.175971065046905, -2.507287967093641, -3.6686830979532656]);
    assert_eq!(
        p,
        MatrixBuilder::new()
            .from_mat(vec![
                vec![0.49659978454619136, 0.8095854617397509, -0.31298567719355896],
                vec![0.5773502691896256, -0.5773502691896253, -0.5773502691896264],
                vec![0.6481167492476514, -0.10600965430705542, 0.7541264035547062],
            ])
            .build()
            .unwrap()
    );

    let m = MatrixBuilder::new()
        .from_mat(vec![
            vec![1i64, 4i64, 5i64],
            vec![4i64, 2i64, 6i64],
            vec![5i64, 6i64, 3i64],
        ])
        .build()
        .unwrap();
    let (d, p) = match m.eigen_decomposition(Algorithm::Jacobi, &DoubleOps) {
        Ok(result) => result,
        Err(_) => panic!("Jacobi Algorithm went wrong"),
    };
    assert_eq!(d, vec![12.175971065046905, -2.507287967093641, -3.6686830979532656]);
    assert_eq!(
        p,
        MatrixBuilder::new()
            .from_mat(vec![
                vec![0.49659978454619136, 0.8095854617397509, -0.31298567719355896],
                vec![0.5773502691896256, -0.5773502691896253, -0.5773502691896264],
                vec![0.6481167492476514, -0.10600965430705542, 0.7541264035547062],
            ])
            .build()
            .unwrap()
    );

    let m = MatrixBuilder::new()
        .from_mat(vec![
            vec![1f32, 4f32, 5f32, 7f32],
            vec![4f32, 2f32, 6f32, 8f32],
            vec![5f32, 6f32, 3f32, 9f32],
            vec![7f32, 8f32, 9f32, 10f32],
        ])
        .build()
        .unwrap();
    let (d, p) = match m.eigen_decomposition(Algorithm::Jacobi, &DoubleOps) {
        Ok(result) => result,
        Err(_) => panic!("Jacobi Algorithm went wrong"),
    };
    assert_eq!(
        d,
        vec![25.058622745690624, -2.495082466558941, -2.8944982219584907, -3.669042057173195]
    );
    assert_eq!(
        p,
        MatrixBuilder::new()
            .from_mat(vec![
                vec![0.3666086337260453, 0.7376057579081058, -0.4675015271226198,
                    -0.3209021310561052],
                vec![0.42281150217481533, -0.63684003110579, -0.271973514038792,
                    -0.5845473599899699],
                vec![0.4751461302778105, -0.1846796992232606, -0.4301817263823432,
                    0.7450323790705575],
                vec![0.6790174505770971, 0.12753795269170323, 0.7227837934584009,
                    0.01590472724922168],
            ])
            .build()
            .unwrap()
    );
}

#[test]
fn test_is_positive_definite() {
    let data = vec![vec![0, 1], vec![1, 3]];
    let matrix = MatrixBuilder::new().from_mat(data).build().unwrap();
    assert!(!matrix.is_positive_definite(&DoubleOps));
    let data = vec![vec![4, 1], vec![1, 3]];
    let matrix = MatrixBuilder::new().from_mat(data).build().unwrap();
    assert!(matrix.is_positive_definite(&DoubleOps));

    let data = vec![vec![4, 1, 2], vec![1, 5, 3], vec![2, 3, 6]];
    let matrix = MatrixBuilder::new().from_mat(data).build().unwrap();
    assert!(matrix.is_positive_definite(&DoubleOps));
    let data = vec![vec![-4, 1, 2], vec![1, 5, 3], vec![2, 3, 6]];
    let matrix = MatrixBuilder::new().from_mat(data).build().unwrap();
    assert!(!matrix.is_positive_definite(&DoubleOps));
    let data = vec![vec![4, 1, 2, 0], vec![1, 5, 3, 0], vec![2, 3, 6, 0]];
    let matrix = MatrixBuilder::new().from_mat(data).build().unwrap();
    assert!(!matrix.is_positive_definite(&DoubleOps));
    let data = vec![vec![4, 1, 2], vec![1, 5, 3], vec![2, 3, 6], vec![0, 0, 0]];
    let matrix = MatrixBuilder::new().from_mat(data).build().unwrap();
    assert!(!matrix.is_positive_definite(&DoubleOps));
    let data = vec![
        vec![4i64, 1i64 / 3i64, 2i64 / 3i64],
        vec![1i64 / 3i64, 5i64, 3i64],
        vec![2i64 / 3i64, 3i64, 6i64],
        vec![0i64, 0i64, 0i64],
    ];

    let matrix = MatrixBuilder::new().from_mat(data).build().unwrap();
    assert!(!matrix.is_positive_definite(&DoubleOps));
    let data = vec![
        vec![4f64, 1f64 / 11f64, 2f64 / 11f64],
        vec![1f64 / 11f64, 5f64, 3f64],
        vec![2f64 / 11f64, 3f64, 6f64],
    ];
    let matrix = MatrixBuilder::new().from_mat(data).build().unwrap();
    assert!(matrix.is_positive_definite(&DoubleOps));
}

#[test]
fn test_cholesky() {
    let data = vec![vec![0, 1], vec![1, 3]];
    let matrix = MatrixBuilder::new().from_mat(data).build().unwrap();
    println!("{:?}", matrix.cholesky(&DoubleOps));
    assert_eq!(
        matrix.cholesky(&DoubleOps),
        Err(CholeskyDecompositionError::MatrixIsNotPositiveDefinite)
    );
    let a = MatrixBuilder::new()
        .from_mat(vec![
            vec![1i32, 2i32, 4i32, 7i32],
            vec![2i32, 13i32, 23i32, 38i32],
            vec![4i32, 23i32, 77i32, 122i32],
            vec![7i32, 38i32, 122i32, 294i32],
        ])
        .build()
        .unwrap();
    let l = MatrixBuilder::new()
        .from_mat(vec![
            vec![1f64, 0f64, 0f64, 0f64],
            vec![2f64, 3f64, 0f64, 0f64],
            vec![4f64, 5f64, 6f64, 0f64],
            vec![7f64, 8f64, 9f64, 10f64],
        ])
        .build()
        .unwrap();
    assert_eq!(l, a.cholesky(&DoubleOps).unwrap());
    let a = MatrixBuilder::new()
        .from_mat(vec![
            vec![1i64, 2i64, 4i64, 7i64],
            vec![2i64, 13i64, 23i64, 38i64],
            vec![4i64, 23i64, 77i64, 122i64],
            vec![7i64, 38i64, 122i64, 294i64],
        ])
        .build()
        .unwrap();
    let l = MatrixBuilder::new()
        .from_mat(vec![
            vec![1f64, 0f64, 0f64, 0f64],
            vec![2f64, 3f64, 0f64, 0f64],
            vec![4f64, 5f64, 6f64, 0f64],
            vec![7f64, 8f64, 9f64, 10f64],
        ])
        .build()
        .unwrap();
    assert_eq!(l, a.cholesky(&DoubleOps).unwrap());
    let a = MatrixBuilder::new()
        .from_mat(vec![
            vec![1.9383451f32, 0.76780201f32, 1.4940289f32, 0.75654844f32],
            vec![0.76780201f32, 0.80231093f32, 1.04554899f32, 0.33242197f32],
            vec![1.4940289f32, 1.04554899f32, 1.80385488f32, 0.83237389f32],
            vec![0.75654844f32, 0.33242197f32, 0.83237389f32, 0.80474618f32],
        ])
        .build()
        .unwrap();
    let l = MatrixBuilder::new()
        .from_mat(vec![
            vec![1.3922446173907894f64, 0.0f64, 0.0f64, 0.0f64],
            vec![0.551484983640818f64, 0.7058153132528383f64, 0.0f64, 0.0f64],
            vec![1.0731080639375399f64, 0.6428679620108512f64, 0.48889128612067473f64, 0.0f64],
            vec![0.5434019674761598f64, 0.04639164479390491f64, 0.44881385275390756f64,
                0.5530591230447315f64],
        ])
        .build()
        .unwrap();
    assert_eq!(l, a.cholesky(&DoubleOps).unwrap());
    let a = MatrixBuilder::new()
        .from_mat(vec![
            vec![1.9383451f64, 0.76780201f64, 1.4940289f64, 0.75654844f64],
            vec![0.76780201f64, 0.80231093f64, 1.04554899f64, 0.33242197f64],
            vec![1.4940289f64, 1.04554899f64, 1.80385488f64, 0.83237389f64],
            vec![0.75654844f64, 0.33242197f64, 0.83237389f64, 0.80474618f64],
        ])
        .build()
        .unwrap();
    let l = MatrixBuilder::new()
        .from_mat(vec![
            vec![1.3922446264934910f64, 0.0f64, 0.0f64, 0.0f64],
            vec![0.5514849871848938f64, 0.705815300846955f64, 0.0f64, 0.0f64],
            vec![1.0731080383214429f64, 0.6428679240784554f64, 0.4888914504068998f64, 0.0f64],
            vec![0.5434019464707462f64, 0.04639167566223414f64, 0.44881368408590505f64,
                0.5530593042145585f64],
        ])
        .build()
        .unwrap();
    assert_eq!(l, a.cholesky(&DoubleOps).unwrap());
}

#[test]
fn test_symmetric_but_not_definite_is_refused() {
    // Symmetric with one eigenvalue below zero: the factorization is
    // refused by the pre-check.
    let m = MatrixBuilder::new()
        .from_mat(vec![vec![0, 1], vec![1, 3]])
        .build()
        .unwrap();
    assert!(m.is_symmetric());
    assert!(!m.is_positive_definite(&DoubleOps));
    assert_eq!(
        m.cholesky(&DoubleOps),
        Err(CholeskyDecompositionError::MatrixIsNotPositiveDefinite)
    );
}

#[test]
fn test_one_by_one_boundary() {
    // A 1x1 matrix is trivially symmetric; it is positive definite exactly
    // when its single entry is, and its Cholesky factor is the square root.
    let m = MatrixBuilder::new().from_mat(vec![vec![4f64]]).build().unwrap();
    assert!(m.is_symmetric());
    assert!(m.is_positive_definite(&DoubleOps));
    let (d, p) = m.eigen_decomposition(Algorithm::Jacobi, &DoubleOps).unwrap();
    assert_eq!(d, vec![4f64]);
    assert_eq!(p, MatrixBuilder::new().from_mat(vec![vec![1f64]]).build().unwrap());
    assert_eq!(
        m.cholesky(&DoubleOps),
        Ok(MatrixBuilder::new().from_mat(vec![vec![2f64]]).build().unwrap())
    );

    let zero = MatrixBuilder::new().from_mat(vec![vec![0f64]]).build().unwrap();
    assert!(zero.is_symmetric());
    assert!(!zero.is_positive_definite(&DoubleOps));
    assert_eq!(
        zero.cholesky(&DoubleOps),
        Err(CholeskyDecompositionError::MatrixIsNotPositiveDefinite)
    );

    let negative = MatrixBuilder::new().from_mat(vec![vec![-9f64]]).build().unwrap();
    assert!(negative.is_symmetric());
    assert!(!negative.is_positive_definite(&DoubleOps));
    assert_eq!(
        negative.cholesky(&DoubleOps),
        Err(CholeskyDecompositionError::MatrixIsNotPositiveDefinite)
    );
}

#[test]
fn test_repeated_calls_agree() {
    // No hidden state anywhere: running any predicate or decomposition
    // twice on the same unmutated input yields identical results.
    let m = MatrixBuilder::new()
        .from_mat(vec![
            vec![1f64, 4f64, 5f64],
            vec![4f64, 2f64, 6f64],
            vec![5f64, 6f64, 3f64],
        ])
        .build()
        .unwrap();
    assert_eq!(m.is_square(), m.is_square());
    assert_eq!(m.is_symmetric(), m.is_symmetric());
    assert_eq!(
        m.is_positive_definite(&DoubleOps),
        m.is_positive_definite(&DoubleOps)
    );
    assert_eq!(
        m.eigen_decomposition(Algorithm::Jacobi, &DoubleOps).unwrap(),
        m.eigen_decomposition(Algorithm::Jacobi, &DoubleOps).unwrap()
    );

    let pd = MatrixBuilder::new()
        .from_mat(vec![
            vec![1f64, 2f64, 4f64, 7f64],
            vec![2f64, 13f64, 23f64, 38f64],
            vec![4f64, 23f64, 77f64, 122f64],
            vec![7f64, 38f64, 122f64, 294f64],
        ])
        .build()
        .unwrap();
    assert_eq!(pd.cholesky(&DoubleOps), pd.cholesky(&DoubleOps));
}
