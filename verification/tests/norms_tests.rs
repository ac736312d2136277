use lau_matrix_analysis::{trace, Matrix};

#[test]
fn test_trace() {
    let a = Matrix::from_row_slice(2, 2, &[1.0, 2.0, 3.0, 4.0]);
    assert!((trace(&a, -0.0, |x: f64, y: f64| x + y) - 5.0).abs() < 1e-10);
}

#[test]
fn test_trace_rectangular_uses_shorter_side() {
    let wide = Matrix::from_row_slice(2, 3, &[1, 2, 3, 4, 5, 6]);
    assert_eq!(trace(&wide, 0, |x: i64, y: i64| x + y), 6);
    let tall = Matrix::from_row_slice(3, 2, &[1, 2, 3, 4, 5, 6]);
    assert_eq!(trace(&tall, 0, |x: i64, y: i64| x + y), 5);
}

#[test]
fn test_trace_adds_from_the_left() {
    // With `2 x + y` the order of the additions shows: (2 * 0 + 1) then 2 * 1 + 4.
    let a = Matrix::from_row_slice(2, 2, &[1, 2, 3, 4]);
    assert_eq!(trace(&a, 0, |x: i64, y: i64| 2 * x + y), 6);
}

#[test]
fn test_trace_empty_is_the_start_value() {
    let e: Matrix<f64> = Matrix::filled(0, 3, 1.0);
    let t = trace(&e, -0.0, |x: f64, y: f64| x + y);
    assert_eq!(t, 0.0);
    assert!(t.is_sign_negative());
}
