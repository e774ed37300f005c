use arithma_core::expression::ArithmaExpression;
use arithma_core::function::ArithmaFunction;
use arithma_core::matrix::{ArithmaMatrix, MatrixError};

fn n(v: i64) -> ArithmaExpression {
    ArithmaExpression::from_i64(v)
}

fn mat(rows: &[&[i64]]) -> ArithmaMatrix<ArithmaExpression> {
    ArithmaMatrix::from_rows(rows.iter().map(|r| r.iter().map(|v| n(*v)).collect()).collect())
        .expect("literal matrix must be well-formed")
}

fn identity(order: usize) -> ArithmaMatrix<ArithmaExpression> {
    ArithmaMatrix::identity(order, ArithmaExpression::zero(), n(1)).expect("identity")
}

/// The numeric value of an integer-literal tree of sums, differences and
/// products.
fn value(e: &ArithmaExpression) -> f64 {
    match e {
        ArithmaExpression::Number(v) => {
            let mut acc = 0.0;
            for d in v.value.value.iter().rev() {
                acc = acc * 256.0 + f64::from(*d);
            }
            if v.value.flags & 1 != 0 {
                -acc
            } else {
                acc
            }
        }
        ArithmaExpression::Function(f, args) => {
            let a: Vec<f64> = args.iter().map(value).collect();
            match f {
                ArithmaFunction::Add => a[0] + a[1],
                ArithmaFunction::Subtract => a[0] - a[1],
                ArithmaFunction::Multiply => a[0] * a[1],
                other => panic!("no value for {other:?}"),
            }
        }
        other => panic!("no value for {other:?}"),
    }
}

fn values(m: &ArithmaMatrix<ArithmaExpression>) -> Vec<f64> {
    m.cells.iter().map(value).collect()
}

#[test]
fn addition_requires_matching_shapes() {
    let a = mat(&[&[1, 2], &[3, 4]]);
    let b = mat(&[&[10, 20], &[30, 40]]);
    assert_eq!(values(&a.add(&b).expect("same shape")), vec![11.0, 22.0, 33.0, 44.0]);
    assert_eq!(values(&b.sub(&a).expect("same shape")), vec![9.0, 18.0, 27.0, 36.0]);
    let wrong = mat(&[&[1, 2, 3]]);
    assert_eq!(
        a.add(&wrong).unwrap_err(),
        MatrixError::DimensionMismatch { left: (2, 2), right: (1, 3) }
    );
}

#[test]
fn scalar_multiplication_scales_every_cell() {
    let a = mat(&[&[1, 2], &[3, 4]]);
    assert_eq!(values(&a.scalar_mul(&n(3))), vec![3.0, 6.0, 9.0, 12.0]);
}

#[test]
fn matrix_product_is_row_by_column() {
    let a = mat(&[&[1, 2], &[3, 4]]);
    let b = mat(&[&[5, 6], &[7, 8]]);
    assert_eq!(values(&a.matmul(&b).expect("2x2 by 2x2")), vec![19.0, 22.0, 43.0, 50.0]);
}

#[test]
fn matrix_product_is_not_commutative() {
    let a = mat(&[&[1, 2], &[3, 4]]);
    let b = mat(&[&[5, 6], &[7, 8]]);
    assert_ne!(
        values(&a.matmul(&b).expect("ab")),
        values(&b.matmul(&a).expect("ba")),
        "a test that passed for a commutative product would not be testing much"
    );
}

#[test]
fn product_with_the_identity_is_the_original() {
    let a = mat(&[&[1, 2, 3], &[4, 5, 6]]);
    let i3 = identity(3);
    let i2 = identity(2);
    assert_eq!(values(&a.matmul(&i3).expect("a*I")), values(&a));
    assert_eq!(values(&i2.matmul(&a).expect("I*a")), values(&a));
}

#[test]
fn product_checks_the_inner_dimension() {
    let a = mat(&[&[1, 2, 3]]);
    let b = mat(&[&[1, 2, 3]]);
    assert_eq!(
        a.matmul(&b).unwrap_err(),
        MatrixError::DimensionMismatch { left: (1, 3), right: (1, 3) }
    );
}

#[test]
fn product_cells_are_left_folded_sums_of_products() {
    let a = mat(&[&[1, 2, 3]]);
    let b = mat(&[&[4], &[5], &[6]]);
    let p = a.matmul(&b).expect("1x3 by 3x1");
    assert_eq!(p.shape(), (1, 1));
    match &p.cells[0] {
        ArithmaExpression::Function(ArithmaFunction::Add, outer) => match &outer[0] {
            ArithmaExpression::Function(ArithmaFunction::Add, inner) => {
                assert!(matches!(inner[0], ArithmaExpression::Function(ArithmaFunction::Multiply, _)));
            }
            other => panic!("unexpected {other:?}"),
        },
        other => panic!("unexpected {other:?}"),
    }
    assert_eq!(value(&p.cells[0]), 32.0);
}

#[test]
fn an_empty_inner_dimension_gives_zeros() {
    let a: ArithmaMatrix<ArithmaExpression> = ArithmaMatrix::new(2, 0, Vec::new());
    let b: ArithmaMatrix<ArithmaExpression> = ArithmaMatrix::new(0, 2, Vec::new());
    let p = a.matmul(&b).expect("2x0 by 0x2");
    assert_eq!(values(&p), vec![0.0, 0.0, 0.0, 0.0]);
}
