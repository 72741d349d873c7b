use matmul::generate::{generate_matrix, CELL_HIGH, CELL_LOW, SAFE_INNER};
use matmul::matrix::Matrix;

#[test]
fn generated_matrix_has_the_shape_asked_for() {
    let m = generate_matrix(7, 4);
    assert_eq!(m.width(), 7);
    assert_eq!(m.height(), 4);
    assert!(m.get(6, 3).is_ok());
    assert!(m.get(7, 0).is_err());
    assert!(m.get(0, 4).is_err());
    let empty = generate_matrix(0, 9);
    assert_eq!(empty, Matrix::new(0, 9, vec![]).unwrap());
}

#[test]
fn generated_elements_lie_in_the_range() {
    assert_eq!(CELL_LOW, -99);
    assert_eq!(CELL_HIGH, 99);
    let m = generate_matrix(60, 50);
    for x in 0..60 {
        for y in 0..50 {
            let v = m.get(x, y).unwrap();
            assert!(CELL_LOW <= v && v < CELL_HIGH);
        }
    }
}

#[test]
fn generated_elements_are_not_all_the_same() {
    let m = generate_matrix(60, 50);
    let first = m.get(0, 0).unwrap();
    let mut differs = false;
    for x in 0..60 {
        for y in 0..50 {
            if m.get(x, y).unwrap() != first {
                differs = true;
            }
        }
    }
    assert!(differs);
}

#[test]
fn product_of_generated_matrices_is_computed_by_both() {
    let a = generate_matrix(20, 9);
    let b = generate_matrix(13, 20);
    let sequential = a.clone().mul(b.clone()).unwrap();
    let parallel = a.mul_mt(b, 12).unwrap();
    assert_eq!(sequential.first_mismatch(&parallel), Ok(None));
    assert_eq!(sequential, parallel);
}

#[test]
fn extreme_generated_elements_fit_up_to_the_safe_width() {
    assert_eq!(SAFE_INNER, 219_108);
    assert!(99i64 * 99 * (SAFE_INNER as i64) <= i32::MAX as i64);
    assert!(99i64 * 99 * (SAFE_INNER as i64 + 1) > i32::MAX as i64);
    let a = Matrix::new(SAFE_INNER, 1, vec![-99; SAFE_INNER]).unwrap();
    let b = Matrix::new(1, SAFE_INNER, vec![-99; SAFE_INNER]).unwrap();
    assert_eq!(a.mul(b), Ok(Matrix::new(1, 1, vec![99 * 99 * 219_108]).unwrap()));
}

#[test]
fn left_operand_wider_than_safe_may_overflow() {
    let a = Matrix::new(SAFE_INNER + 1, 1, vec![-99; SAFE_INNER + 1]).unwrap();
    let b = Matrix::new(1, SAFE_INNER + 1, vec![-99; SAFE_INNER + 1]).unwrap();
    assert_eq!(a.mul(b), Err(matmul::error::MatrixError::Overflow));
}
