use arithma_core::matrix::{
    factorial_bounded, next_permutation, permutation_sign_is_negative, MatrixError,
    MAX_DETERMINANT_ORDER, MAX_DIMENSION,
};

#[test]
fn factorials_up_to_the_determinant_cap() {
    let expected = [1, 1, 2, 6, 24, 120, 720];
    for (n, f) in expected.iter().enumerate() {
        assert_eq!(factorial_bounded(n), *f);
    }
    assert_eq!(MAX_DETERMINANT_ORDER, 6);
    assert_eq!(MAX_DIMENSION, 4096);
}

#[test]
fn parity_counts_inversions() {
    assert!(!permutation_sign_is_negative(&[]));
    assert!(!permutation_sign_is_negative(&[0, 1, 2]));
    assert!(permutation_sign_is_negative(&[1, 0, 2]));
    assert!(!permutation_sign_is_negative(&[1, 2, 0]));
    assert!(permutation_sign_is_negative(&[2, 1, 0]));
    assert!(permutation_sign_is_negative(&[5, 4, 3, 2, 1, 0]));
    assert!(!permutation_sign_is_negative(&[3, 2, 1, 0]));
}

#[test]
fn next_permutation_walks_lexicographic_order() {
    let mut p = vec![0, 1, 2];
    let mut seen = vec![p.clone()];
    while next_permutation(&mut p) {
        seen.push(p.clone());
    }
    assert_eq!(
        seen,
        vec![
            vec![0, 1, 2],
            vec![0, 2, 1],
            vec![1, 0, 2],
            vec![1, 2, 0],
            vec![2, 0, 1],
            vec![2, 1, 0]
        ]
    );
    assert_eq!(p, vec![2, 1, 0], "the last arrangement is left as it is");
}

#[test]
fn every_permutation_of_six_is_visited_once() {
    let mut p: Vec<usize> = (0..6).collect();
    let mut count = 1;
    let mut odd = 0;
    while next_permutation(&mut p) {
        count += 1;
        if permutation_sign_is_negative(&p) {
            odd += 1;
        }
    }
    assert_eq!(count, factorial_bounded(6));
    assert_eq!(odd, 360, "half of the permutations are odd");
}

#[test]
fn short_and_repeated_arrangements() {
    let mut empty: Vec<usize> = vec![];
    assert!(!next_permutation(&mut empty));
    let mut one = vec![7];
    assert!(!next_permutation(&mut one));
    let mut twins = vec![1, 1, 2];
    assert!(next_permutation(&mut twins));
    assert_eq!(twins, vec![1, 2, 1]);
    assert!(next_permutation(&mut twins));
    assert_eq!(twins, vec![2, 1, 1]);
    assert!(!next_permutation(&mut twins));
}

#[test]
fn matrix_errors_compare_by_value() {
    let e = MatrixError::TooLarge { order: 7, limit: MAX_DETERMINANT_ORDER };
    assert_eq!(e, MatrixError::TooLarge { order: 7, limit: 6 });
    assert_ne!(e, MatrixError::Singular);
    assert_eq!(
        MatrixError::DimensionMismatch { left: (1, 2), right: (2, 1) },
        MatrixError::DimensionMismatch { left: (1, 2), right: (2, 1) }
    );
}

use arithma_core::matrix::ArithmaMatrix;

fn mat(rows: &[&[i64]]) -> ArithmaMatrix<i64> {
    ArithmaMatrix::from_rows(rows.iter().map(|r| r.to_vec()).collect()).expect("rectangular")
}

#[test]
fn new_with_correct_count_works() {
    let m: ArithmaMatrix<i64> = ArithmaMatrix::new(0, 0, vec![]);
    assert!(m.is_empty());
    assert_eq!(m.len(), 0);
}

#[test]
fn identity_has_ones_on_the_diagonal() {
    let i3 = ArithmaMatrix::identity(3, 0_i64, 1_i64).expect("3x3 identity");
    assert_eq!(i3.shape(), (3, 3));
    assert!(i3.is_square());
    assert_eq!(i3.cells, vec![1, 0, 0, 0, 1, 0, 0, 0, 1]);
}

#[test]
fn get_and_set_are_bounds_checked() {
    let mut m = ArithmaMatrix::zeros(2, 3, 0_i64).expect("2x3");
    m.set(1, 2, 7).expect("in-bounds set");
    assert_eq!(m.get(1, 2), Ok(&7));
    // (0, 3) and (1, 0) would share a flat offset without the check.
    assert_eq!(m.get(0, 3).unwrap_err(), MatrixError::OutOfBounds { row: 0, col: 3 });
    assert!(m.set(2, 0, 1).is_err());
    assert_eq!(m.cells, vec![0, 0, 0, 0, 0, 7]);
}

#[test]
fn transpose_swaps_the_axes() {
    let m = mat(&[&[1, 2, 3], &[4, 5, 6]]);
    let t = m.transpose();
    assert_eq!(t.shape(), (3, 2));
    assert_eq!(t.cells, vec![1, 4, 2, 5, 3, 6]);
    // Transposing twice is the identity.
    assert_eq!(t.transpose().cells, m.cells);
}

#[test]
fn ragged_rows_are_rejected() {
    let ragged = ArithmaMatrix::from_rows(vec![vec![1, 2], vec![3]]);
    assert!(ragged.is_err(), "rows of differing length must not build");
    assert_eq!(
        ragged.err(),
        Some(MatrixError::DimensionMismatch { left: (1, 2), right: (1, 1) })
    );
    let empty: ArithmaMatrix<i64> = ArithmaMatrix::from_rows(vec![]).unwrap();
    assert_eq!(empty.shape(), (0, 0));
}

#[test]
fn oversized_matrices_are_refused() {
    assert!(ArithmaMatrix::zeros(MAX_DIMENSION + 1, 1, 0_i64).is_err());
    assert!(ArithmaMatrix::zeros(1, MAX_DIMENSION + 1, 0_i64).is_err());
    assert_eq!(
        ArithmaMatrix::zeros(MAX_DIMENSION + 1, 1, 0_i64).err(),
        Some(MatrixError::TooLarge { order: MAX_DIMENSION + 1, limit: MAX_DIMENSION })
    );
    assert!(ArithmaMatrix::identity(MAX_DIMENSION + 1, 0_i64, 1).is_err());
}

#[test]
fn minors_delete_the_right_row_and_column() {
    let m = mat(&[&[1, 2, 3], &[4, 5, 6], &[7, 8, 9]]);
    let minor = m.minor(1, 1).expect("square");
    assert_eq!(minor.shape(), (2, 2));
    assert_eq!(minor.cells, vec![1, 3, 7, 9]);
    assert_eq!(m.minor(0, 0).unwrap().cells, vec![5, 6, 8, 9]);
    assert_eq!(m.minor(1, 2).unwrap().cells, vec![1, 2, 7, 8]);
    assert_eq!(m.minor(3, 0).err(), Some(MatrixError::OutOfBounds { row: 3, col: 0 }));
    let r = mat(&[&[1, 2, 3]]);
    assert_eq!(r.minor(0, 0).err(), Some(MatrixError::NotSquare { rows: 1, cols: 3 }));
    assert!(r.is_square() == false);
}
