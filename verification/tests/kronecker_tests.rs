use lau_matrix_analysis::{kron, kron_sum, Matrix};
use nalgebra::DMatrix;

fn add(x: f64, y: f64) -> f64 {
    x + y
}

fn mul(x: f64, y: f64) -> f64 {
    x * y
}

fn to_nalgebra(m: &Matrix<f64>) -> DMatrix<f64> {
    DMatrix::from_fn(m.nrows(), m.ncols(), |i, j| m.get(i, j))
}

fn close(a: &Matrix<f64>, b: &Matrix<f64>, tol: f64) -> bool {
    a.nrows() == b.nrows()
        && a.ncols() == b.ncols()
        && (0..a.nrows()).all(|i| (0..a.ncols()).all(|j| (a.get(i, j) - b.get(i, j)).abs() < tol))
}

#[test]
fn test_kron_basic() {
    let a = Matrix::from_row_slice(2, 2, &[1.0, 2.0, 3.0, 4.0]);
    let b = Matrix::identity(2, 0.0, 1.0);
    let k = kron(&a, &b, mul);
    assert_eq!(k.nrows(), 4);
    assert_eq!(k.ncols(), 4);
    let expected = Matrix::from_row_slice(4, 4, &[
        1.0, 0.0, 2.0, 0.0,
        0.0, 1.0, 0.0, 2.0,
        3.0, 0.0, 4.0, 0.0,
        0.0, 3.0, 0.0, 4.0,
    ]);
    assert!(close(&k, &expected, 1e-10));
}

#[test]
fn test_kron_transpose_property() {
    let a = Matrix::from_row_slice(2, 3, &[1.0, 2.0, 3.0, 4.0, 5.0, 6.0]);
    let b = Matrix::from_row_slice(2, 2, &[1.0, -1.0, 2.0, 0.0]);
    let lhs = kron(&a, &b, mul).transpose();
    let rhs = kron(&a.transpose(), &b.transpose(), mul);
    assert!(close(&lhs, &rhs, 1e-10));
}

#[test]
fn test_kron_mixed_product() {
    let a = Matrix::from_row_slice(2, 2, &[1.0, 2.0, 3.0, 4.0]);
    let b = Matrix::from_row_slice(2, 2, &[0.0, 1.0, 1.0, 0.0]);
    let c = Matrix::from_row_slice(2, 2, &[2.0, 0.0, 0.0, 2.0]);
    let d = Matrix::from_row_slice(2, 2, &[1.0, 1.0, 1.0, 1.0]);
    let ac = to_nalgebra(&a) * to_nalgebra(&c);
    let bd = to_nalgebra(&b) * to_nalgebra(&d);
    let ac = Matrix::from_row_slice(2, 2, &[ac[(0, 0)], ac[(0, 1)], ac[(1, 0)], ac[(1, 1)]]);
    let bd = Matrix::from_row_slice(2, 2, &[bd[(0, 0)], bd[(0, 1)], bd[(1, 0)], bd[(1, 1)]]);
    let kron_ac_bd = to_nalgebra(&kron(&ac, &bd, mul));
    let product = to_nalgebra(&kron(&a, &b, mul)) * to_nalgebra(&kron(&c, &d, mul));
    let diff = product - kron_ac_bd;
    assert!(diff.iter().all(|v| v.abs() < 1e-8));
}

#[test]
fn test_kron_sum() {
    let a = Matrix::from_row_slice(2, 2, &[1.0, 0.0, 0.0, 2.0]);
    let b = Matrix::from_row_slice(2, 2, &[3.0, 0.0, 0.0, 4.0]);
    let ks = kron_sum(&a, &b, 0.0, 1.0, add, mul).unwrap();
    assert_eq!(ks.nrows(), 4);
    assert_eq!(ks.ncols(), 4);
}

#[test]
fn test_kron_rectangular_entries() {
    let a = Matrix::from_row_slice(1, 2, &[2.0, 3.0]);
    let b = Matrix::from_row_slice(2, 1, &[5.0, 7.0]);
    let k = kron(&a, &b, mul);
    assert_eq!(k.nrows(), 2);
    assert_eq!(k.ncols(), 2);
    let expected = Matrix::from_row_slice(2, 2, &[10.0, 15.0, 14.0, 21.0]);
    assert!(close(&k, &expected, 0.0 + 1e-12));
}

#[test]
fn test_kron_integer_entries() {
    let a = Matrix::from_row_slice(2, 1, &[1i64, -2]);
    let b = Matrix::from_row_slice(1, 3, &[3i64, 4, 5]);
    let k = kron(&a, &b, |x: i64, y: i64| x * y);
    assert_eq!(k.nrows(), 2);
    assert_eq!(k.ncols(), 3);
    let expected = [[3, 4, 5], [-6, -8, -10]];
    for i in 0..2 {
        for j in 0..3 {
            assert_eq!(k.get(i, j), expected[i][j]);
        }
    }
}

#[test]
fn test_kron_with_empty_factor() {
    let a = Matrix::from_row_slice(2, 2, &[1.0, 2.0, 3.0, 4.0]);
    let e: Matrix<f64> = Matrix::filled(0, 3, 0.0);
    let k = kron(&a, &e, mul);
    assert_eq!(k.nrows(), 0);
    assert_eq!(k.ncols(), 6);
}

#[test]
fn test_kron_sum_values() {
    let a = Matrix::from_row_slice(2, 2, &[1.0, 0.0, 0.0, 2.0]);
    let b = Matrix::from_row_slice(2, 2, &[3.0, 0.0, 0.0, 4.0]);
    let ks = kron_sum(&a, &b, 0.0, 1.0, add, mul).unwrap();
    let expected = Matrix::from_row_slice(4, 4, &[
        4.0, 0.0, 0.0, 0.0,
        0.0, 5.0, 0.0, 0.0,
        0.0, 0.0, 5.0, 0.0,
        0.0, 0.0, 0.0, 6.0,
    ]);
    assert!(close(&ks, &expected, 1e-12));
}

#[test]
fn test_kron_sum_off_diagonal() {
    let a = Matrix::from_row_slice(1, 1, &[2.0]);
    let b = Matrix::from_row_slice(2, 2, &[1.0, 3.0, 5.0, 7.0]);
    let ks = kron_sum(&a, &b, 0.0, 1.0, add, mul).unwrap();
    let expected = Matrix::from_row_slice(2, 2, &[3.0, 3.0, 5.0, 9.0]);
    assert!(close(&ks, &expected, 1e-12));
}

#[test]
fn test_kron_sum_not_square() {
    let a = Matrix::from_row_slice(1, 2, &[1.0, 2.0]);
    let b = Matrix::identity(2, 0.0, 1.0);
    assert!(kron_sum(&a, &b, 0.0, 1.0, add, mul).is_none());
    assert!(kron_sum(&b, &a, 0.0, 1.0, add, mul).is_none());
}

fn int_mat_mul(x: &Matrix<i64>, y: &Matrix<i64>) -> Matrix<i64> {
    let mut data = Vec::new();
    for i in 0..x.nrows() {
        for j in 0..y.ncols() {
            let mut acc = 0i64;
            for k in 0..x.ncols() {
                acc += x.get(i, k) * y.get(k, j);
            }
            data.push(acc);
        }
    }
    Matrix::from_row_slice(x.nrows(), y.ncols(), &data)
}

#[test]
fn test_kron_mixed_product_exact_integers() {
    let m = |x: i64, y: i64| x * y;
    let a = Matrix::from_row_slice(2, 3, &[1i64, -2, 3, 0, 4, 5]);
    let b = Matrix::from_row_slice(2, 1, &[2i64, -1]);
    let c = Matrix::from_row_slice(3, 2, &[1i64, 0, 2, -3, 1, 1]);
    let d = Matrix::from_row_slice(1, 2, &[3i64, 7]);
    let lhs = int_mat_mul(&kron(&a, &b, m), &kron(&c, &d, m));
    let rhs = kron(&int_mat_mul(&a, &c), &int_mat_mul(&b, &d), m);
    assert_eq!(lhs.nrows(), 4);
    assert_eq!(lhs.ncols(), 4);
    assert_eq!(lhs.as_rows(), rhs.as_rows());
}

#[test]
fn test_kron_inverse_and_identity_integers() {
    let m = |x: i64, y: i64| x * y;
    let a = Matrix::from_row_slice(2, 2, &[1i64, 1, 0, 1]);
    let a_inv = Matrix::from_row_slice(2, 2, &[1i64, -1, 0, 1]);
    let b = Matrix::from_row_slice(2, 2, &[2i64, 1, 1, 1]);
    let b_inv = Matrix::from_row_slice(2, 2, &[1i64, -1, -1, 2]);
    let prod = int_mat_mul(&kron(&a, &b, m), &kron(&a_inv, &b_inv, m));
    let id4 = Matrix::identity(4, 0i64, 1i64);
    assert_eq!(prod.as_rows(), id4.as_rows());
    let ii = kron(&Matrix::identity(2, 0i64, 1), &Matrix::identity(3, 0i64, 1), m);
    assert_eq!(ii.as_rows(), Matrix::identity(6, 0i64, 1).as_rows());
}

fn int_det(m: &Vec<Vec<i64>>) -> i64 {
    let n = m.len();
    if n == 0 {
        return 1;
    }
    let mut total = 0;
    for j in 0..n {
        let minor: Vec<Vec<i64>> = m[1..]
            .iter()
            .map(|row| row.iter().enumerate().filter(|(c, _)| *c != j).map(|(_, v)| *v).collect())
            .collect();
        let sign = if j % 2 == 0 { 1 } else { -1 };
        total += sign * m[0][j] * int_det(&minor);
    }
    total
}

#[test]
fn test_kron_determinant_with_single_factor() {
    let a = Matrix::from_row_slice(2, 2, &[1i64, 2, 3, 4]);
    let b = Matrix::from_row_slice(1, 1, &[5i64]);
    let mul = |x: i64, y: i64| x * y;
    let ab = kron(&a, &b, mul);
    let ba = kron(&b, &a, mul);
    // det(A) = -2, det(B) = 5: det(A ⊗ B) = det(A)^1 * det(B)^2.
    assert_eq!(int_det(ab.as_rows()), -2 * 25);
    assert_eq!(int_det(ba.as_rows()), 25 * -2);
}

#[test]
fn test_kron_determinant_square_factors() {
    let a = Matrix::from_row_slice(2, 2, &[1i64, 2, 3, 4]);
    let b = Matrix::from_row_slice(2, 2, &[2i64, 1, 1, 3]);
    let k = kron(&a, &b, |x: i64, y: i64| x * y);
    // det(A) = -2, det(B) = 5: det(A ⊗ B) = (-2)^2 * 5^2.
    assert_eq!(int_det(k.as_rows()), 4 * 25);
}
