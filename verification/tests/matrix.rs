use neural_net::{as_matrix, Error, Matrix, Scalar, Vector};

#[derive(Clone, Copy, Debug, PartialEq)]
struct Real(f64);

impl Scalar for Real {
    fn zero() -> Self {
        Real(0.0)
    }
    fn one() -> Self {
        Real(1.0)
    }
    fn from_count(n: usize) -> Self {
        Real(n as f64)
    }
    fn plus(self, rhs: Self) -> Self {
        Real(self.0 + rhs.0)
    }
    fn minus(self, rhs: Self) -> Self {
        Real(self.0 - rhs.0)
    }
    fn times(self, rhs: Self) -> Self {
        Real(self.0 * rhs.0)
    }
    fn over(self, rhs: Self) -> Self {
        Real(self.0 / rhs.0)
    }
    fn negated(self) -> Self {
        Real(-self.0)
    }
    fn exp(self) -> Self {
        Real(self.0.exp())
    }
    fn exceeds(self, rhs: Self) -> bool {
        self.0 > rhs.0
    }
}

fn reals(values: &[f64]) -> Vector<Real> {
    Vector::from_vec(values.iter().map(|&x| Real(x)).collect())
}

/// A matrix from its rows; the store itself runs column by column.
fn rows(lines: &[&[f64]]) -> Matrix<Real> {
    let r = lines.len();
    let c = if r == 0 { 0 } else { lines[0].len() };
    let mut cells = Vec::new();
    for j in 0..c {
        for i in 0..r {
            cells.push(Real(lines[i][j]));
        }
    }
    Matrix::from_vec((r as isize, c as isize), cells).unwrap()
}

#[test]
fn store_runs_column_by_column() {
    let m = Matrix::from_vec((2, 3), vec![1, 2, 3, 4, 5, 6]).unwrap();
    assert_eq!(m.shape(), (2, 3));
    assert_eq!(m.index((0, 0)), Ok(&1));
    assert_eq!(m.index((1, 0)), Ok(&2));
    assert_eq!(m.index((0, 1)), Ok(&3));
    assert_eq!(m.index((1, 2)), Ok(&6));
    assert_eq!(m.data(), &[1, 2, 3, 4, 5, 6]);
}

#[test]
fn negative_dimension_is_no_shape() {
    assert_eq!(Matrix::from_vec((-1, 2), Vec::<i32>::new()), Err(Error::InvalidShape));
    assert_eq!(Matrix::from_vec((2, -1), Vec::<i32>::new()), Err(Error::InvalidShape));
    assert_eq!(Matrix::from_val((-1, 1), 0), Err(Error::InvalidShape));
    assert_eq!(Matrix::from_fn((1, -1), |k| k), Err(Error::InvalidShape));
    assert_eq!(Matrix::<Real>::zeros((-2, -2)), Err(Error::InvalidShape));
}

#[test]
fn data_must_fill_the_shape() {
    assert_eq!(Matrix::from_vec((2, 2), vec![1, 2, 3]), Err(Error::InvalidShape));
    assert_eq!(Matrix::from_vec((2, 2), vec![1, 2, 3, 4, 5]), Err(Error::InvalidShape));
    assert_eq!(Matrix::from_vec((0, 5), vec![1]), Err(Error::InvalidShape));
    assert!(Matrix::from_vec((0, 5), Vec::<i32>::new()).is_ok());
}

#[test]
fn a_shape_too_large_to_count_is_no_shape() {
    assert_eq!(Matrix::from_val((isize::MAX, 2), 0u8), Err(Error::InvalidShape));
    assert_eq!(Matrix::from_fn((isize::MAX, isize::MAX), |k| k), Err(Error::InvalidShape));
}

#[test]
fn from_fn_fills_the_store_in_order() {
    let m = Matrix::from_fn((2, 2), |k| k * 10).unwrap();
    assert_eq!(m.data(), &[0, 10, 20, 30]);
    assert_eq!(m.index((1, 1)), Ok(&30));
    assert_eq!(m.index((0, 1)), Ok(&20));
}

#[test]
fn from_val_fills_every_cell() {
    let m = Matrix::from_val((2, 3), 7).unwrap();
    assert_eq!(m.shape(), (2, 3));
    assert_eq!(m.data(), &[7, 7, 7, 7, 7, 7]);
    assert_eq!(Matrix::<Real>::zeros((1, 2)).unwrap(), rows(&[&[0.0, 0.0]]));
}

#[test]
fn signed_indices_wrap_along_each_axis() {
    let m = rows(&[&[1.0, 2.0, 3.0], &[4.0, 5.0, 6.0]]);
    assert_eq!(m.index((-1, -1)), Ok(&Real(6.0)));
    assert_eq!(m.index((-2, -3)), Ok(&Real(1.0)));
    assert_eq!(m.index((0, -1)), Ok(&Real(3.0)));
    assert_eq!(m.index((-1, 0)), Ok(&Real(4.0)));
    assert_eq!(m.fix_index((1, 2)), Ok(5));
    assert_eq!(m.fix_index((-1, -1)), Ok(5));
    assert_eq!(m.fix_index((0, 1)), Ok(2));
}

#[test]
fn indices_outside_the_matrix_are_refused() {
    let m = rows(&[&[1.0, 2.0, 3.0], &[4.0, 5.0, 6.0]]);
    assert_eq!(m.index((2, 0)), Err(Error::IndexOutOfBounds));
    assert_eq!(m.index((0, 3)), Err(Error::IndexOutOfBounds));
    assert_eq!(m.index((-3, 0)), Err(Error::IndexOutOfBounds));
    assert_eq!(m.index((0, -4)), Err(Error::IndexOutOfBounds));
    assert_eq!(m.fix_index((2, 3)), Err(Error::IndexOutOfBounds));
}

#[test]
fn set_replaces_one_cell() {
    let mut m = rows(&[&[1.0, 2.0], &[3.0, 4.0]]);
    assert_eq!(m.set((-1, 0), Real(9.0)), Ok(()));
    assert_eq!(m, rows(&[&[1.0, 2.0], &[9.0, 4.0]]));
    assert_eq!(m.set((2, 0), Real(0.0)), Err(Error::IndexOutOfBounds));
    assert_eq!(m, rows(&[&[1.0, 2.0], &[9.0, 4.0]]));
}

#[test]
fn cellwise_arithmetic() {
    let a = rows(&[&[1.0, 2.0], &[3.0, 4.0]]);
    let b = rows(&[&[0.5, 1.0], &[-3.0, 2.0]]);
    assert_eq!(a.add(&b), Ok(rows(&[&[1.5, 3.0], &[0.0, 6.0]])));
    assert_eq!(a.sub(&b), Ok(rows(&[&[0.5, 1.0], &[6.0, 2.0]])));
    assert_eq!(a.hadamard(&b), Ok(rows(&[&[0.5, 2.0], &[-9.0, 8.0]])));
    assert_eq!(a.scale(Real(3.0)), rows(&[&[3.0, 6.0], &[9.0, 12.0]]));
    assert_eq!(a.div(Real(2.0)), rows(&[&[0.5, 1.0], &[1.5, 2.0]]));
}

#[test]
fn shapes_must_match_exactly() {
    let a = rows(&[&[1.0, 2.0, 3.0], &[4.0, 5.0, 6.0]]);
    let b = rows(&[&[1.0, 2.0], &[3.0, 4.0], &[5.0, 6.0]]);
    assert_eq!(a.add(&b), Err(Error::ShapeMismatch));
    assert_eq!(a.sub(&b), Err(Error::ShapeMismatch));
    assert_eq!(a.hadamard(&b), Err(Error::ShapeMismatch));
    assert_eq!(a.zip_map(&b, |x, y| x.plus(y)), Err(Error::ShapeMismatch));
    let mut c = a.clone();
    assert_eq!(c.zip_apply(&b, |x, y| x.plus(y)), Err(Error::ShapeMismatch));
    assert_eq!(c, a);
}

#[test]
fn matrix_sum_commutes() {
    let a = rows(&[&[1.5, -2.0], &[1e300, 0.1]]);
    let b = rows(&[&[0.25, 7.0], &[-1e300, 0.2]]);
    assert_eq!(a.add(&b), b.add(&a));
}

#[test]
fn matrix_difference_adds_the_negative() {
    let a = rows(&[&[1.5, -2.0], &[3.0, 0.1]]);
    let b = rows(&[&[0.25, 7.0], &[-1.0, 0.2]]);
    let minus_one = Real::one().negated();
    assert_eq!(a.sub(&b), a.add(&b.scale(minus_one)));
}

#[test]
fn map_and_apply_transform_each_cell() {
    let a = rows(&[&[1.0, 2.0], &[3.0, 4.0]]);
    assert_eq!(a.map(|x| x.times(x)), rows(&[&[1.0, 4.0], &[9.0, 16.0]]));
    let b = rows(&[&[10.0, 20.0], &[30.0, 40.0]]);
    assert_eq!(a.zip_map(&b, |x, y| y.minus(x)), Ok(rows(&[&[9.0, 18.0], &[27.0, 36.0]])));
    let mut c = a.clone();
    c.apply(|x| x.negated());
    assert_eq!(c, rows(&[&[-1.0, -2.0], &[-3.0, -4.0]]));
    assert_eq!(c.zip_apply(&b, |x, y| x.plus(y)), Ok(()));
    assert_eq!(c, rows(&[&[9.0, 18.0], &[27.0, 36.0]]));
}

#[test]
fn transpose_swaps_rows_and_columns() {
    let a = rows(&[&[1.0, 2.0, 3.0], &[4.0, 5.0, 6.0]]);
    let t = a.transposed();
    assert_eq!(t, rows(&[&[1.0, 4.0], &[2.0, 5.0], &[3.0, 6.0]]));
    assert_eq!(t.shape(), (3, 2));
    let mut b = a.clone();
    b.transpose();
    assert_eq!(b, t);
    b.transpose();
    assert_eq!(b, a);
}

#[test]
fn matrix_product() {
    let a = rows(&[&[1.0, 2.0], &[3.0, 4.0]]);
    let b = rows(&[&[5.0, 6.0], &[7.0, 8.0]]);
    assert_eq!(a.mul(&b), Ok(rows(&[&[19.0, 22.0], &[43.0, 50.0]])));
    let c = rows(&[&[1.0, 0.0, 2.0], &[0.0, 1.0, 3.0]]);
    assert_eq!(a.mul(&c), Ok(rows(&[&[1.0, 2.0, 8.0], &[3.0, 4.0, 18.0]])));
}

#[test]
fn product_needs_matching_inner_dimensions() {
    let a = rows(&[&[1.0, 2.0], &[3.0, 4.0]]);
    let c = rows(&[&[1.0, 0.0, 2.0], &[0.0, 1.0, 3.0]]);
    assert_eq!(c.mul(&a), Err(Error::ShapeMismatch));
    assert_eq!(a.mul_with(false, &c, true), Err(Error::ShapeMismatch));
}

#[test]
fn product_of_empty_inner_dimension_is_zero() {
    let a: Matrix<Real> = Matrix::zeros((2, 0)).unwrap();
    let b: Matrix<Real> = Matrix::zeros((0, 3)).unwrap();
    assert_eq!(a.mul(&b), Ok(Matrix::zeros((2, 3)).unwrap()));
}

#[test]
fn product_too_large_to_count_is_no_shape() {
    let a: Matrix<Real> = Matrix::zeros((isize::MAX, 0)).unwrap();
    let b: Matrix<Real> = Matrix::zeros((0, 2)).unwrap();
    assert_eq!(a.mul(&b), Err(Error::InvalidShape));
}

#[test]
fn product_with_flags_equals_product_of_transposes() {
    let a = rows(&[&[1.0, 2.0, 3.0], &[4.0, 5.0, 6.0]]);
    let b = rows(&[&[1.0, -1.0], &[0.5, 2.0]]);
    assert_eq!(a.mul_with(true, &b, false), a.transposed().mul(&b));
    assert_eq!(b.mul_with(true, &a, false), b.transposed().mul(&a));
    assert_eq!(a.mul_with(false, &a, true), a.mul(&a.transposed()));
    assert_eq!(a.mul_with(true, &b, true), a.transposed().mul(&b.transposed()));
}

#[test]
fn transpose_of_a_product() {
    let a = rows(&[&[1.0, 2.0, 3.0], &[4.0, 5.0, 6.0]]);
    let b = rows(&[&[0.5, -1.0], &[2.0, 0.25], &[-3.0, 1.5]]);
    let left = a.mul(&b).unwrap().transposed();
    let right = b.transposed().mul(&a.transposed()).unwrap();
    assert_eq!(left, right);
    assert_eq!(left, rows(&[&[-4.5, -6.0], &[4.0, 6.25]]));
}

#[test]
fn matrix_times_vector() {
    let a = rows(&[&[1.0, 2.0, 3.0], &[4.0, 5.0, 6.0]]);
    assert_eq!(a.matvec(&reals(&[1.0, 0.5, -1.0])), Ok(reals(&[-1.0, 0.5])));
    assert_eq!(a.matvec_with(true, &reals(&[1.0, -1.0])), Ok(reals(&[-3.0, -3.0, -3.0])));
    assert_eq!(a.matvec(&reals(&[1.0, 0.5])), Err(Error::ShapeMismatch));
    assert_eq!(a.matvec_with(true, &reals(&[1.0, 0.5, 2.0])), Err(Error::ShapeMismatch));
}

#[test]
fn largest_cell_is_found_in_store_order() {
    let a = rows(&[&[1.0, 9.0], &[9.0, 2.0]]);
    assert_eq!(a.imax(), 1);
    assert_eq!(rows(&[&[3.0]]).imax(), 0);
}

#[test]
fn a_vector_is_a_matrix_of_one_column() {
    let m = as_matrix(&reals(&[1.0, 2.0, 3.0]));
    assert_eq!(m.shape(), (3, 1));
    assert_eq!(m, rows(&[&[1.0], &[2.0], &[3.0]]));
    let outer = m.mul_with(false, &as_matrix(&reals(&[10.0, 20.0])), true).unwrap();
    assert_eq!(outer, rows(&[&[10.0, 20.0], &[20.0, 40.0], &[30.0, 60.0]]));
}

#[test]
fn matrix_clone_is_independent() {
    let a = rows(&[&[1.0, 2.0], &[3.0, 4.0]]);
    let mut b = a.clone();
    assert_eq!(b.set((0, 0), Real(7.0)), Ok(()));
    assert_eq!(a, rows(&[&[1.0, 2.0], &[3.0, 4.0]]));
    assert_eq!(b, rows(&[&[7.0, 2.0], &[3.0, 4.0]]));
}
