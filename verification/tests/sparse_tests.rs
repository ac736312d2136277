use lau_matrix_analysis::{Matrix, SparseCOO};
use nalgebra::DMatrix;

fn add(x: f64, y: f64) -> f64 {
    x + y
}

fn mul(x: f64, y: f64) -> f64 {
    x * y
}

fn to_nalgebra(m: &Matrix<f64>) -> DMatrix<f64> {
    DMatrix::from_fn(m.nrows(), m.ncols(), |i, j| m.get(i, j))
}

#[test]
fn test_sparse_identity() {
    let mut s = SparseCOO::new(3, 3);
    for i in 0..3 {
        s.add_entry(i, i, 1.0);
    }
    assert_eq!(s.nnz(), 3);
    let dense = to_nalgebra(&s.to_dense(0.0, add));
    let diff = &dense - &DMatrix::<f64>::identity(3, 3);
    assert!(diff.iter().all(|v| v.abs() < 1e-10));
}

#[test]
fn test_sparse_dense_multiply() {
    let mut s = SparseCOO::new(2, 3);
    s.add_entry(0, 0, 1.0);
    s.add_entry(0, 2, 2.0);
    s.add_entry(1, 1, 3.0);
    let b = Matrix::from_row_slice(3, 2, &[1.0, 2.0, 3.0, 4.0, 5.0, 6.0]);
    let result = to_nalgebra(&s.mul_dense(&b, 0.0, add, mul));
    let dense = to_nalgebra(&s.to_dense(0.0, add));
    let expected = &dense * &to_nalgebra(&b);
    let diff = &result - &expected;
    assert!(diff.iter().all(|v| v.abs() < 1e-10));
}

#[test]
fn test_sparse_vec_multiply() {
    let mut s = SparseCOO::new(3, 3);
    s.add_entry(0, 0, 2.0);
    s.add_entry(1, 2, 1.0);
    s.add_entry(2, 1, 3.0);
    let v: Vec<f64> = vec![1.0, 2.0, 3.0];
    let result = s.mul_vec(&v, 0.0, add, mul);
    assert!((result[0] - 2.0).abs() < 1e-10);
    assert!((result[1] - 3.0).abs() < 1e-10);
    assert!((result[2] - 6.0).abs() < 1e-10);
}

#[test]
fn test_sparse_transpose() {
    let mut s = SparseCOO::new(2, 3);
    s.add_entry(0, 1, 5.0);
    s.add_entry(1, 2, 3.0);
    let st = s.transpose();
    assert_eq!(st.nrows, 3);
    assert_eq!(st.ncols, 2);
    assert_eq!(st.nnz(), 2);
    assert!((st.to_dense(0.0, add).get(1, 0) - 5.0).abs() < 1e-10);
}

#[test]
fn test_sparse_new_is_empty() {
    let s: SparseCOO<f64> = SparseCOO::new(4, 5);
    assert_eq!(s.nrows, 4);
    assert_eq!(s.ncols, 5);
    assert_eq!(s.nnz(), 0);
    let d = s.to_dense(0.0, add);
    assert_eq!(d.nrows(), 4);
    assert_eq!(d.ncols(), 5);
    assert!((0..4).all(|i| (0..5).all(|j| d.get(i, j) == 0.0)));
}

#[test]
fn test_sparse_duplicates_are_added() {
    let mut s = SparseCOO::new(2, 2);
    s.add_entry(1, 0, 1.5);
    s.add_entry(1, 0, 2.5);
    s.add_entry(0, 1, -1.0);
    assert_eq!(s.nnz(), 3);
    let d = s.to_dense(0.0, add);
    assert_eq!(d.get(1, 0), 4.0);
    assert_eq!(d.get(0, 1), -1.0);
    assert_eq!(d.get(0, 0), 0.0);
    let r = s.mul_vec(&[2.0, 3.0], 0.0, add, mul);
    assert_eq!(r, vec![-3.0, 8.0]);
}

#[test]
fn test_sparse_transpose_twice() {
    let mut s = SparseCOO::new(2, 3);
    s.add_entry(0, 1, 5.0);
    s.add_entry(1, 2, 3.0);
    s.add_entry(1, 0, -2.0);
    let u = s.transpose().transpose();
    assert_eq!(u.nrows, s.nrows);
    assert_eq!(u.ncols, s.ncols);
    assert_eq!(u.rows, s.rows);
    assert_eq!(u.cols, s.cols);
    assert_eq!(u.vals, s.vals);
}

#[test]
fn test_sparse_transpose_dense() {
    let mut s = SparseCOO::new(2, 3);
    s.add_entry(0, 1, 5.0);
    s.add_entry(1, 2, 3.0);
    s.add_entry(0, 1, 1.0);
    let dt = s.transpose().to_dense(0.0, add);
    let td = s.to_dense(0.0, add).transpose();
    assert_eq!(dt.nrows(), 3);
    assert_eq!(dt.ncols(), 2);
    for i in 0..3 {
        for j in 0..2 {
            assert_eq!(dt.get(i, j), td.get(i, j));
        }
    }
    assert_eq!(dt.get(1, 0), 6.0);
}

#[test]
fn test_sparse_mul_dense_columns() {
    let mut s = SparseCOO::new(2, 2);
    s.add_entry(0, 0, 1.0);
    s.add_entry(1, 0, 2.0);
    s.add_entry(1, 1, 3.0);
    let b = Matrix::from_row_slice(2, 3, &[1.0, 0.0, 2.0, 4.0, 1.0, -1.0]);
    let r = s.mul_dense(&b, 0.0, add, mul);
    assert_eq!(r.nrows(), 2);
    assert_eq!(r.ncols(), 3);
    let expected = [[1.0, 0.0, 2.0], [14.0, 3.0, 1.0]];
    for i in 0..2 {
        for j in 0..3 {
            assert_eq!(r.get(i, j), expected[i][j]);
        }
    }
    for c in 0..3 {
        let col: Vec<f64> = (0..2).map(|i| b.get(i, c)).collect();
        let v = s.mul_vec(&col, 0.0, add, mul);
        for i in 0..2 {
            assert_eq!(v[i], r.get(i, c));
        }
    }
}

#[test]
fn test_sparse_mul_vec_matches_dense_product_integers() {
    let mut s: SparseCOO<i64> = SparseCOO::new(3, 4);
    s.add_entry(2, 3, 5);
    s.add_entry(0, 1, -2);
    s.add_entry(2, 3, 1);
    s.add_entry(1, 0, 7);
    s.add_entry(0, 2, 3);
    let v = vec![1i64, 2, 3, 4];
    let r = s.mul_vec(&v, 0, |x: i64, y: i64| x + y, |x: i64, y: i64| x * y);
    let d = s.to_dense(0, |x: i64, y: i64| x + y);
    let expected: Vec<i64> = (0..3).map(|i| (0..4).map(|j| d.get(i, j) * v[j]).sum()).collect();
    assert_eq!(r, expected);
    assert_eq!(r, vec![5, 7, 24]);
}

#[test]
fn test_sparse_longer_index_vectors_are_ignored() {
    let s = SparseCOO {
        nrows: 2,
        ncols: 2,
        rows: vec![0, 1, 7, 9],
        cols: vec![1, 0, 8],
        vals: vec![5.0, 6.0],
    };
    assert_eq!(s.nnz(), 2);
    let d = s.to_dense(0.0, add);
    assert_eq!(d.as_rows(), &vec![vec![0.0, 5.0], vec![6.0, 0.0]]);
    let r = s.mul_vec(&[1.0, 2.0], 0.0, add, mul);
    assert_eq!(r, vec![10.0, 6.0]);
}
