use lau_matrix_analysis::{circulant, circulant_mul, hankel, toeplitz, toeplitz_symmetric, vandermonde, Matrix};

fn add(x: f64, y: f64) -> f64 {
    x + y
}

fn mul(x: f64, y: f64) -> f64 {
    x * y
}

fn is_symmetric(m: &Matrix<f64>) -> bool {
    let t = m.transpose();
    (0..m.nrows()).all(|i| (0..m.ncols()).all(|j| (m.get(i, j) - t.get(i, j)).abs() < 1e-10))
}

#[test]
fn test_toeplitz_basic() {
    let col: Vec<f64> = vec![1.0, 2.0, 3.0];
    let row: Vec<f64> = vec![1.0, 4.0, 5.0];
    let t = toeplitz(&col, &row);
    assert!((t.get(0, 0) - 1.0).abs() < 1e-10);
    assert!((t.get(0, 1) - 4.0).abs() < 1e-10);
    assert!((t.get(1, 0) - 2.0).abs() < 1e-10);
    assert!((t.get(2, 1) - 2.0).abs() < 1e-10);
}

#[test]
fn test_toeplitz_symmetric() {
    let col: Vec<f64> = vec![1.0, 2.0, 3.0];
    let t = toeplitz_symmetric(&col);
    assert!(is_symmetric(&t));
    assert!((t.get(0, 1) - 2.0).abs() < 1e-10);
    assert!((t.get(1, 0) - 2.0).abs() < 1e-10);
}

#[test]
fn test_circulant_basic() {
    let row: Vec<f64> = vec![1.0, 2.0, 3.0];
    let c = circulant(&row);
    assert!((c.get(0, 0) - 1.0).abs() < 1e-10);
    assert!((c.get(0, 1) - 2.0).abs() < 1e-10);
    assert!((c.get(0, 2) - 3.0).abs() < 1e-10);
    assert!((c.get(1, 0) - 3.0).abs() < 1e-10);
    assert!((c.get(1, 1) - 1.0).abs() < 1e-10);
    assert!((c.get(1, 2) - 2.0).abs() < 1e-10);
}

#[test]
fn test_circulant_mul() {
    let row: Vec<f64> = vec![1.0, 2.0, 3.0];
    let v: Vec<f64> = vec![1.0, 0.0, 0.0];
    let result = circulant_mul(&row, &v, 0.0, add, mul);
    let c = circulant(&row);
    for i in 0..3 {
        let mut expected = 0.0;
        for j in 0..3 {
            expected += c.get(i, j) * v[j];
        }
        assert!((result[i] - expected).abs() < 1e-10);
    }
}

#[test]
fn test_vandermonde_basic() {
    let x: Vec<f64> = vec![1.0, 2.0, 3.0];
    let v = vandermonde(&x, 3, 1.0, mul);
    assert!((v.get(0, 0) - 1.0).abs() < 1e-10);
    assert!((v.get(1, 1) - 2.0).abs() < 1e-10);
    assert!((v.get(2, 2) - 9.0).abs() < 1e-10);
}

#[test]
fn test_hankel_basic() {
    let col: Vec<f64> = vec![1.0, 2.0, 3.0];
    let row: Vec<f64> = vec![3.0, 4.0, 5.0];
    let h = hankel(&col, &row);
    assert!((h.get(0, 0) - 1.0).abs() < 1e-10);
    assert!((h.get(0, 1) - 2.0).abs() < 1e-10);
    assert!((h.get(1, 0) - 2.0).abs() < 1e-10);
    assert!((h.get(1, 1) - 3.0).abs() < 1e-10);
}

#[test]
fn test_toeplitz_shape_and_every_entry() {
    let col: Vec<f64> = vec![1.0, 2.0, 3.0, 7.0];
    let row: Vec<f64> = vec![1.0, 4.0];
    let t = toeplitz(&col, &row);
    assert_eq!(t.nrows(), 4);
    assert_eq!(t.ncols(), 2);
    let expected = [[1.0, 4.0], [2.0, 1.0], [3.0, 2.0], [7.0, 3.0]];
    for i in 0..4 {
        for j in 0..2 {
            assert_eq!(t.get(i, j), expected[i][j]);
        }
    }
}

#[test]
fn test_toeplitz_constant_diagonals() {
    let col: Vec<f64> = vec![1.0, 2.0, 3.0];
    let row: Vec<f64> = vec![1.0, 4.0, 5.0, 6.0];
    let t = toeplitz(&col, &row);
    for i in 0..2 {
        for j in 0..3 {
            assert_eq!(t.get(i + 1, j + 1), t.get(i, j));
        }
    }
}

#[test]
fn test_toeplitz_empty() {
    let empty: Vec<f64> = vec![];
    let t = toeplitz(&empty, &[1.0f64, 2.0]);
    assert_eq!(t.nrows(), 0);
    assert_eq!(t.ncols(), 2);
    let t2 = toeplitz_symmetric(&empty);
    assert_eq!(t2.nrows(), 0);
    assert_eq!(t2.ncols(), 0);
}

#[test]
fn test_toeplitz_symmetric_longer() {
    let col: Vec<f64> = vec![5.0, -1.0, 2.0, 0.5];
    let t = toeplitz_symmetric(&col);
    assert!(is_symmetric(&t));
    assert_eq!(t.get(3, 0), 0.5);
    assert_eq!(t.get(0, 3), 0.5);
}

#[test]
fn test_circulant_rows_shift() {
    let row: Vec<f64> = vec![1.0, 2.0, 3.0, 4.0];
    let c = circulant(&row);
    let n = 4;
    for i in 0..n - 1 {
        for j in 0..n {
            assert_eq!(c.get(i + 1, (j + 1) % n), c.get(i, j));
        }
    }
    assert_eq!(c.get(3, 0), 2.0);
}

#[test]
fn test_circulant_is_toeplitz() {
    let row: Vec<f64> = vec![1.0, 2.0, 3.0, 4.0];
    let col: Vec<f64> = vec![1.0, 4.0, 3.0, 2.0];
    let c = circulant(&row);
    let t = toeplitz(&col, &row);
    for i in 0..4 {
        for j in 0..4 {
            assert_eq!(c.get(i, j), t.get(i, j));
        }
    }
}

#[test]
fn test_circulant_single_and_empty() {
    let c = circulant(&[7.0f64]);
    assert_eq!(c.nrows(), 1);
    assert_eq!(c.get(0, 0), 7.0);
    let empty: Vec<f64> = vec![];
    let e = circulant(&empty);
    assert_eq!(e.nrows(), 0);
    let r = circulant_mul(&empty, &empty, 0.0, add, mul);
    assert!(r.is_empty());
}

#[test]
fn test_circulant_mul_general_vector() {
    let row: Vec<f64> = vec![1.0, 2.0, 3.0];
    let v: Vec<f64> = vec![4.0, 5.0, 6.0];
    let r = circulant_mul(&row, &v, 0.0, add, mul);
    // rows of the circulant matrix: [1,2,3], [3,1,2], [2,3,1]
    assert_eq!(r, vec![32.0, 29.0, 29.0]);
}

#[test]
fn test_circulant_mul_integer_entries() {
    let row: Vec<i64> = vec![2, -1, 0, 1];
    let v: Vec<i64> = vec![1, 2, 3, 4];
    let r = circulant_mul(&row, &v, 0i64, |x: i64, y: i64| x + y, |x: i64, y: i64| x * y);
    // rows: [2,-1,0,1], [1,2,-1,0], [0,1,2,-1], [-1,0,1,2]
    assert_eq!(r, vec![4, 2, 4, 10]);
}

#[test]
fn test_vandermonde_powers() {
    let x: Vec<f64> = vec![2.0, -1.0];
    let v = vandermonde(&x, 4, 1.0, mul);
    assert_eq!(v.nrows(), 2);
    assert_eq!(v.ncols(), 4);
    let expected = [[1.0, 2.0, 4.0, 8.0], [1.0, -1.0, 1.0, -1.0]];
    for i in 0..2 {
        for j in 0..4 {
            assert_eq!(v.get(i, j), expected[i][j]);
        }
    }
}

#[test]
fn test_vandermonde_no_columns() {
    let v = vandermonde(&[1.0f64, 2.0], 0, 1.0, mul);
    assert_eq!(v.nrows(), 2);
    assert_eq!(v.ncols(), 0);
}

#[test]
fn test_hankel_uses_row_past_column() {
    let col: Vec<f64> = vec![1.0, 2.0, 3.0];
    let row: Vec<f64> = vec![3.0, 4.0, 5.0, 6.0];
    let h = hankel(&col, &row);
    assert_eq!(h.nrows(), 3);
    assert_eq!(h.ncols(), 4);
    let expected = [[1.0, 2.0, 3.0, 4.0], [2.0, 3.0, 4.0, 5.0], [3.0, 4.0, 5.0, 6.0]];
    for i in 0..3 {
        for j in 0..4 {
            assert_eq!(h.get(i, j), expected[i][j]);
        }
    }
}

#[test]
fn test_hankel_constant_antidiagonals() {
    let h = hankel(&[1.0f64, 2.0, 3.0, 4.0], &[4.0, 8.0, 9.0]);
    for i in 0..3 {
        for j in 0..2 {
            assert_eq!(h.get(i, j + 1), h.get(i + 1, j));
        }
    }
}
