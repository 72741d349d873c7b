use matmul::error::MatrixError;
use matmul::matrix::Matrix;

fn left() -> Matrix {
    Matrix::new(3, 2, vec![1, 2, 3, 4, 5, 6]).unwrap()
}

fn right() -> Matrix {
    Matrix::new(2, 3, vec![7, 8, 9, 10, 11, 12]).unwrap()
}

#[test]
fn mul_three_by_two_times_two_by_three() {
    let product = left().mul(right()).unwrap();
    assert_eq!(product.width(), 2);
    assert_eq!(product.height(), 2);
    // cell (i, j) is the sum over k of left(k, i) * right(j, k)
    assert_eq!(product.get(0, 0), Ok(1 * 7 + 2 * 9 + 3 * 11));
    assert_eq!(product.get(0, 1), Ok(1 * 8 + 2 * 10 + 3 * 12));
    assert_eq!(product.get(1, 0), Ok(4 * 7 + 5 * 9 + 6 * 11));
    assert_eq!(product.get(1, 1), Ok(4 * 8 + 5 * 10 + 6 * 12));
    assert_eq!(product, Matrix::new(2, 2, vec![58, 139, 64, 154]).unwrap());
}

#[test]
fn both_multiplications_agree_on_the_three_by_two_scenario() {
    let sequential = left().mul(right()).unwrap();
    for bound in [1usize, 2, 3, 12] {
        let parallel = left().mul_mt(right(), bound).unwrap();
        assert_eq!(parallel, sequential);
        for i in 0..2 {
            for j in 0..2 {
                assert_eq!(parallel.get(i, j), sequential.get(i, j));
            }
        }
        assert_eq!(sequential.first_mismatch(&parallel), Ok(None));
    }
}

#[test]
fn one_by_one_times_one_by_one() {
    let a = Matrix::new(1, 1, vec![-6]).unwrap();
    let b = Matrix::new(1, 1, vec![7]).unwrap();
    let expected = Matrix::new(1, 1, vec![-42]).unwrap();
    assert_eq!(a.clone().mul(b.clone()), Ok(expected.clone()));
    assert_eq!(a.clone().mul_mt(b.clone(), 1), Ok(expected.clone()));
    assert_eq!(a.mul_mt(b, 12), Ok(expected));
}

#[test]
fn product_has_the_left_height_as_width_and_the_right_width_as_height() {
    // left: 2 wide, 4 high; right: 3 wide, 2 high
    let a = Matrix::new(2, 4, vec![1, 0, 0, 1, 2, 3, -1, -1]).unwrap();
    let b = Matrix::new(3, 2, vec![1, 2, 3, 4, 5, 6]).unwrap();
    let product = a.mul(b).unwrap();
    assert_eq!(product.width(), 4);
    assert_eq!(product.height(), 3);
    assert_eq!(
        product,
        Matrix::new(4, 3, vec![1, 4, 14, -5, 2, 5, 19, -7, 3, 6, 24, -9]).unwrap()
    );
}

#[test]
fn mul_refuses_mismatched_shapes() {
    let a = Matrix::new(3, 2, vec![1, 2, 3, 4, 5, 6]).unwrap();
    let b = Matrix::new(3, 2, vec![1, 2, 3, 4, 5, 6]).unwrap();
    assert_eq!(a.clone().mul(b.clone()), Err(MatrixError::Dimension));
    assert_eq!(a.clone().mul_mt(b.clone(), 1), Err(MatrixError::Dimension));
    assert_eq!(a.clone().mul_mt(b.clone(), 12), Err(MatrixError::Dimension));
    assert_eq!(a.mul_mt(b, 0), Err(MatrixError::Dimension));
}

#[test]
fn mul_with_an_empty_inner_dimension_gives_zeros() {
    let a = Matrix::new(0, 2, vec![]).unwrap();
    let b = Matrix::new(3, 0, vec![]).unwrap();
    let expected = Matrix::zeros(2, 3).unwrap();
    assert_eq!(a.clone().mul(b.clone()), Ok(expected.clone()));
    assert_eq!(a.mul_mt(b, 4), Ok(expected));
}

#[test]
fn mul_with_an_empty_output_gives_an_empty_matrix() {
    let a = Matrix::new(2, 0, vec![]).unwrap();
    let b = Matrix::new(3, 2, vec![1, 2, 3, 4, 5, 6]).unwrap();
    let expected = Matrix::new(0, 3, vec![]).unwrap();
    assert_eq!(a.clone().mul(b.clone()), Ok(expected.clone()));
    assert_eq!(a.clone().mul_mt(b.clone(), 12), Ok(expected.clone()));
    assert_eq!(a.mul_mt(b, 0), Ok(expected));
}

#[test]
fn mul_reports_a_cell_that_does_not_fit() {
    let a = Matrix::new(2, 1, vec![i32::MAX, 1]).unwrap();
    let b = Matrix::new(1, 2, vec![1, 1]).unwrap();
    assert_eq!(a.clone().mul(b.clone()), Err(MatrixError::Overflow));
    assert_eq!(a.clone().mul_mt(b.clone(), 1), Err(MatrixError::Overflow));
    assert_eq!(a.mul_mt(b, 12), Err(MatrixError::Overflow));
    let c = Matrix::new(1, 1, vec![i32::MIN]).unwrap();
    let d = Matrix::new(1, 1, vec![-1]).unwrap();
    assert_eq!(c.mul(d), Err(MatrixError::Overflow));
}

#[test]
fn mul_keeps_the_extreme_elements_that_fit() {
    let a = Matrix::new(2, 1, vec![i32::MAX, 0]).unwrap();
    let b = Matrix::new(1, 2, vec![1, 5]).unwrap();
    assert_eq!(a.mul(b), Ok(Matrix::new(1, 1, vec![i32::MAX]).unwrap()));
    let c = Matrix::new(2, 1, vec![i32::MIN, 7]).unwrap();
    let d = Matrix::new(1, 2, vec![1, 0]).unwrap();
    assert_eq!(c.mul_mt(d, 3), Ok(Matrix::new(1, 1, vec![i32::MIN]).unwrap()));
}

#[test]
fn mul_sums_exactly_where_partial_sums_exceed_64_bits() {
    // the first two terms add up to 2^63, the whole sum is 0
    let low = i32::MIN;
    let high = i32::MAX;
    let a = Matrix::new(6, 1, vec![low, low, low, low, 1, 1]).unwrap();
    let b = Matrix::new(1, 6, vec![low, low, high, high, low, low]).unwrap();
    let expected = Matrix::new(1, 1, vec![0]).unwrap();
    assert_eq!(a.clone().mul(b.clone()), Ok(expected.clone()));
    assert_eq!(a.mul_mt(b, 2), Ok(expected));
}

#[test]
fn mul_refuses_an_output_that_cannot_be_counted() {
    let a = Matrix::new(0, usize::MAX, vec![]).unwrap();
    let b = Matrix::new(usize::MAX, 0, vec![]).unwrap();
    assert_eq!(a.clone().mul(b.clone()), Err(MatrixError::Construction));
    assert_eq!(a.mul_mt(b, 12), Err(MatrixError::Construction));
}

#[test]
fn mul_by_the_identity_gives_the_transpose_layout() {
    // with the identity on the right, cell (i, j) of the product is left(j, i)
    let a = Matrix::new(2, 3, vec![1, 2, 3, 4, 5, 6]).unwrap();
    let identity = Matrix::new(2, 2, vec![1, 0, 0, 1]).unwrap();
    let product = a.clone().mul(identity).unwrap();
    assert_eq!(product.width(), 3);
    assert_eq!(product.height(), 2);
    for i in 0..3 {
        for j in 0..2 {
            assert_eq!(product.get(i, j), a.get(j, i));
        }
    }
}
