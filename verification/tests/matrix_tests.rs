use lau_matrix_analysis::Matrix;

#[test]
fn test_matrix_from_row_slice() {
    let m = Matrix::from_row_slice(2, 3, &[1.0, 2.0, 3.0, 4.0, 5.0, 6.0]);
    assert_eq!(m.nrows(), 2);
    assert_eq!(m.ncols(), 3);
    assert_eq!(m.get(0, 2), 3.0);
    assert_eq!(m.get(1, 0), 4.0);
    assert_eq!(m.as_rows(), &vec![vec![1.0, 2.0, 3.0], vec![4.0, 5.0, 6.0]]);
}

#[test]
fn test_matrix_transpose() {
    let m = Matrix::from_row_slice(2, 3, &[1, 2, 3, 4, 5, 6]);
    let t = m.transpose();
    assert_eq!(t.nrows(), 3);
    assert_eq!(t.ncols(), 2);
    assert_eq!(t.as_rows(), &vec![vec![1, 4], vec![2, 5], vec![3, 6]]);
    let e: Matrix<i32> = Matrix::filled(0, 4, 0);
    let et = e.transpose();
    assert_eq!(et.nrows(), 4);
    assert_eq!(et.ncols(), 0);
}

#[test]
fn test_matrix_identity_and_filled() {
    let i = Matrix::identity(3, 0.0, 1.0);
    for r in 0..3 {
        for c in 0..3 {
            assert_eq!(i.get(r, c), if r == c { 1.0 } else { 0.0 });
        }
    }
    let f = Matrix::filled(2, 2, 7u8);
    assert_eq!(f.as_rows(), &vec![vec![7u8, 7], vec![7, 7]]);
}

#[test]
fn test_matrix_set_and_zip() {
    let mut a = Matrix::filled(2, 2, 0.0);
    a.set(1, 0, 2.5);
    assert_eq!(a.get(1, 0), 2.5);
    assert_eq!(a.get(0, 0), 0.0);
    let b = Matrix::from_row_slice(2, 2, &[1.0, 2.0, 3.0, 4.0]);
    let s = a.zip_with(&b, |x: f64, y: f64| x + y);
    assert_eq!(s.as_rows(), &vec![vec![1.0, 2.0], vec![5.5, 4.0]]);
}

#[test]
fn test_matrix_from_rows() {
    let m = Matrix::from_rows(vec![vec![1, 2], vec![3, 4], vec![5, 6]], 3, 2);
    assert_eq!(m.nrows(), 3);
    assert_eq!(m.ncols(), 2);
    assert_eq!(m.get(2, 1), 6);
}
