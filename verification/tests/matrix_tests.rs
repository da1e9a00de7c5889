use matmul::engine::Strategy;
use matmul::matrix::{Matrix, MatrixError};

/// Reads a matrix back as its flat row-major contents.
fn entries(m: &Matrix) -> Vec<i32> {
    let d = m.dim();
    let mut out: Vec<i32> = Vec::new();
    for i in 0..d {
        for j in 0..d {
            out.push(m.at(i, j).unwrap());
        }
    }
    out
}

#[test]
fn test_matrix_mul() {
    let a = Matrix::from(2, vec![1, 2, 3, 4]);
    let b = Matrix::from(2, vec![5, 6, 7, 8]);
    let c = a.multiply(&b).unwrap();
    assert_eq!(entries(&c), vec![19, 22, 43, 50]);
}

#[test]
fn test_matrix_mul2() {
    let a = Matrix::from(3, vec![1, 2, 3, 4, 5, 6, 7, 8, 9]);
    let b = Matrix::from(3, vec![9, 8, 7, 6, 5, 4, 3, 2, 1]);
    let c = a.multiply(&b).unwrap();
    assert_eq!(entries(&c), vec![30, 24, 18, 84, 69, 54, 138, 114, 90])
}

#[test]
fn one_by_one_product() {
    let a = Matrix::from(1, vec![7]);
    let b = Matrix::from(1, vec![6]);
    let c = a.multiply(&b).unwrap();
    assert_eq!(c.dim(), 1);
    assert_eq!(c.at(0, 0).unwrap(), 42);
}

#[test]
fn product_dimension() {
    let a = Matrix::from(3, vec![0; 9]);
    let b = Matrix::from(3, vec![1; 9]);
    let c = a.multiply(&b).unwrap();
    assert_eq!(c.dim(), 3);
    assert_eq!(entries(&c).len(), 9);
}

#[test]
fn dimension_mismatch_is_refused() {
    let a = Matrix::from(2, vec![1, 2, 3, 4]);
    let b = Matrix::from(3, vec![0; 9]);
    assert!(matches!(a.multiply(&b), Err(MatrixError::DimensionMismatch)));
    assert!(matches!(a.multiply_rows(&b), Err(MatrixError::DimensionMismatch)));
    assert!(matches!(
        a.multiply_with(&b, Strategy::Sequential),
        Err(MatrixError::DimensionMismatch)
    ));
    assert!(matches!(
        a.multiply_with(&b, Strategy::RowPartitioned),
        Err(MatrixError::DimensionMismatch)
    ));
}

#[test]
fn index_out_of_range_is_refused() {
    let m = Matrix::from(2, vec![1, 2, 3, 4]);
    assert!(matches!(m.at(2, 0), Err(MatrixError::IndexOutOfRange)));
    assert!(matches!(m.at(0, 2), Err(MatrixError::IndexOutOfRange)));
    assert!(matches!(m.at(2, 2), Err(MatrixError::IndexOutOfRange)));
    assert_eq!(m.at(1, 0).unwrap(), 3);
}

#[test]
fn random_has_the_right_shape() {
    let m = Matrix::random(4, 10);
    assert_eq!(m.dim(), 4);
    let cells = entries(&m);
    assert_eq!(cells.len(), 16);
    for v in cells {
        assert!(-10 < v && v < 10);
    }
}

#[test]
fn random_with_negative_cap() {
    let m = Matrix::random(3, -5);
    assert_eq!(m.dim(), 3);
    for v in entries(&m) {
        assert!(-5 < v && v < 5);
    }
}

#[test]
fn strategies_agree() {
    let a = Matrix::from(3, vec![2, -1, 0, 5, 3, -7, 1, 1, 4]);
    let b = Matrix::from(3, vec![-3, 2, 8, 0, 6, -2, 9, 9, 1]);
    let seq = a.multiply(&b).unwrap();
    let rows = a.multiply_rows(&b).unwrap();
    assert_eq!(seq.dim(), rows.dim());
    assert_eq!(entries(&seq), entries(&rows));
    let picked = a.multiply_with(&b, Strategy::RowPartitioned).unwrap();
    assert_eq!(entries(&seq), entries(&picked));
}

#[test]
fn identity_leaves_a_matrix_unchanged() {
    let id = Matrix::from(3, vec![1, 0, 0, 0, 1, 0, 0, 0, 1]);
    let m = Matrix::from(3, vec![4, -2, 11, 0, 7, -9, 3, 3, 8]);
    let left = id.multiply(&m).unwrap();
    assert_eq!(entries(&left), entries(&m));
    let right = m.multiply(&id).unwrap();
    assert_eq!(entries(&right), entries(&m));
}

#[test]
fn product_row_matches_the_full_product() {
    let a = Matrix::from(2, vec![1, 2, 3, 4]);
    let b = Matrix::from(2, vec![5, 6, 7, 8]);
    let c = a.multiply(&b).unwrap();
    assert_eq!(a.product_row(&b, 0), vec![c.at(0, 0).unwrap(), c.at(0, 1).unwrap()]);
    assert_eq!(a.product_row(&b, 1), vec![c.at(1, 0).unwrap(), c.at(1, 1).unwrap()]);
}

#[test]
fn accumulation_wraps_around() {
    let a = Matrix::from(1, vec![i32::MAX]);
    let b = Matrix::from(1, vec![2]);
    let c = a.multiply(&b).unwrap();
    assert_eq!(c.at(0, 0).unwrap(), i32::MAX.wrapping_mul(2));
    assert_eq!(c.at(0, 0).unwrap(), -2);
}
