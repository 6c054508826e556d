//! Sums, products and the largest cell of matrices of scalars.

use vstd::prelude::*;
use crate::error::Error;
use crate::kernels::{
    argmax, difference_of, hadamard_of, is_argmax, is_difference_of, is_dot, is_dot_prefix,
    is_dot_step, is_hadamard_of, is_scaled, is_sum_of, is_zeros, scaled, sum_of, zeros,
};
use crate::matrix::{same_shape, shape_fits, Grid, Matrix};
use crate::scalar::{is_reciprocal, Scalar};
use crate::vector::{Vector, VectorUtils};

verus! {

/// `r` is the matrix product of `a` and `b`, each taken as it is or, where
/// its flag is set, transposed: every cell of `r` is the dot product of a
/// row of the first with a column of the second.
pub open spec fn is_product_of<T: Scalar>(
    a: Grid<T>,
    a_flipped: bool,
    b: Grid<T>,
    b_flipped: bool,
    r: Grid<T>,
) -> bool {
    &&& r.well_formed()
    &&& a.width(a_flipped) == b.height(b_flipped)
    &&& r.rows == a.height(a_flipped)
    &&& r.cols == b.width(b_flipped)
    &&& forall|i: int, j: int|
        0 <= i < r.rows && 0 <= j < r.cols ==> is_dot(
            a.line(a_flipped, i),
            b.pillar(b_flipped, j),
            #[trigger] r.at(i, j),
        )
}

/// `y` is the product of `a`, taken as it is or transposed, with the
/// vector `x`: `y[i]` is the dot product of row `i` with `x`.
pub open spec fn is_matvec_of<T: Scalar>(a: Grid<T>, a_flipped: bool, x: Seq<T>, y: Seq<T>) -> bool {
    &&& x.len() == a.width(a_flipped)
    &&& y.len() == a.height(a_flipped)
    &&& forall|i: int| 0 <= i < y.len() ==> is_dot(a.line(a_flipped, i), x, #[trigger] y[i])
}

impl<T: Scalar> Matrix<T> {
    /// The matrix of zeros. A negative dimension is refused, and so is a
    /// shape with more cells than a signed index can count.
    pub fn zeros(shape: (isize, isize)) -> (r: Result<Self, Error>)
        ensures
            r is Err <==> !shape_fits(shape.0 as int, shape.1 as int),
            r is Err ==> r == Err::<Self, Error>(Error::InvalidShape),
            r is Ok ==> {
                &&& r.unwrap()@.well_formed()
                &&& r.unwrap()@.rows == shape.0
                &&& r.unwrap()@.cols == shape.1
                &&& is_zeros(r.unwrap()@.cells)
            },
    {
        match Self::cell_count(shape) {
            Some(count) => Ok(Matrix { shape, data: zeros(count) }),
            None => Err(Error::InvalidShape),
        }
    }

    /// The sum of two matrices of one shape, cell by cell.
    pub fn add(&self, other: &Self) -> (r: Result<Self, Error>)
        ensures
            !same_shape(self@, other@) <==> r is Err,
            r is Err ==> r == Err::<Self, Error>(Error::ShapeMismatch),
            r is Ok ==> same_shape(self@, r.unwrap()@) && is_sum_of(
                self@.cells,
                other@.cells,
                r.unwrap()@.cells,
            ),
    {
        proof {
            use_type_invariant(self);
            use_type_invariant(other);
        }
        if self.shape.0 != other.shape.0 || self.shape.1 != other.shape.1 {
            return Err(Error::ShapeMismatch);
        }
        Ok(
            Matrix {
                shape: self.shape,
                data: sum_of(self.data.as_slice(), other.data.as_slice()),
            },
        )
    }

    /// The difference of two matrices of one shape, cell by cell.
    pub fn sub(&self, other: &Self) -> (r: Result<Self, Error>)
        ensures
            !same_shape(self@, other@) <==> r is Err,
            r is Err ==> r == Err::<Self, Error>(Error::ShapeMismatch),
            r is Ok ==> same_shape(self@, r.unwrap()@) && is_difference_of(
                self@.cells,
                other@.cells,
                r.unwrap()@.cells,
            ),
    {
        proof {
            use_type_invariant(self);
            use_type_invariant(other);
        }
        if self.shape.0 != other.shape.0 || self.shape.1 != other.shape.1 {
            return Err(Error::ShapeMismatch);
        }
        Ok(
            Matrix {
                shape: self.shape,
                data: difference_of(self.data.as_slice(), other.data.as_slice()),
            },
        )
    }

    /// The Hadamard product of two matrices of one shape.
    pub fn hadamard(&self, other: &Self) -> (r: Result<Self, Error>)
        ensures
            !same_shape(self@, other@) <==> r is Err,
            r is Err ==> r == Err::<Self, Error>(Error::ShapeMismatch),
            r is Ok ==> same_shape(self@, r.unwrap()@) && is_hadamard_of(
                self@.cells,
                other@.cells,
                r.unwrap()@.cells,
            ),
    {
        proof {
            use_type_invariant(self);
            use_type_invariant(other);
        }
        if self.shape.0 != other.shape.0 || self.shape.1 != other.shape.1 {
            return Err(Error::ShapeMismatch);
        }
        Ok(
            Matrix {
                shape: self.shape,
                data: hadamard_of(self.data.as_slice(), other.data.as_slice()),
            },
        )
    }

    /// The matrix with every cell multiplied by `k`.
    pub fn scale(&self, k: T) -> (r: Self)
        ensures
            same_shape(self@, r@),
            is_scaled(self@.cells, k, r@.cells),
    {
        proof {
            use_type_invariant(self);
        }
        Matrix { shape: self.shape, data: scaled(self.data.as_slice(), k) }
    }

    /// The matrix with every cell multiplied by `1 / k`.
    pub fn div(&self, k: T) -> (r: Self)
        ensures
            same_shape(self@, r@),
            exists|q: T| is_reciprocal(k, q) && #[trigger] is_scaled(self@.cells, q, r@.cells),
    {
        let u = T::one();
        let q = u.over(k);
        let r = self.scale(q);
        r
    }

    /// The dot product of row `i` of `self` with column `j` of `other`,
    /// each matrix taken as it is or transposed.
    fn dot_cells(&self, flipped: bool, i: usize, other: &Self, other_flipped: bool, j: usize) -> (r: T)
        requires
            self@.width(flipped) == other@.height(other_flipped),
            i < self@.height(flipped),
            j < other@.width(other_flipped),
        ensures
            is_dot(self@.line(flipped, i as int), other@.pillar(other_flipped, j as int), r),
    {
        proof {
            use_type_invariant(self);
            use_type_invariant(other);
        }
        let n = if flipped {
            self.shape.0 as usize
        } else {
            self.shape.1 as usize
        };
        let ghost a = self@.line(flipped, i as int);
        let ghost b = other@.pillar(other_flipped, j as int);
        let mut acc = T::zero();
        let mut k: usize = 0;
        while k < n
            invariant
                k <= n,
                n == self@.width(flipped),
                n == other@.height(other_flipped),
                i < self@.height(flipped),
                j < other@.width(other_flipped),
                a == self@.line(flipped, i as int),
                b == other@.pillar(other_flipped, j as int),
                is_dot_prefix(a, b, k as int, acc),
            decreases n - k,
        {
            let ghost before = acc;
            let x = self.cell(flipped, i, k);
            let y = other.cell(other_flipped, k, j);
            let q = x.times(y);
            acc = acc.plus(q);
            k += 1;
            assert(a[k - 1] == x && b[k - 1] == y);
            assert(is_dot_prefix(a, b, k - 1, before) && is_dot_step(a, b, k - 1, before, acc));
        }
        acc
    }

    /// The dot product of row `i` of `self`, taken as it is or transposed,
    /// with `x`.
    fn dot_line(&self, flipped: bool, i: usize, x: &[T]) -> (r: T)
        requires
            self@.width(flipped) == x@.len(),
            i < self@.height(flipped),
        ensures
            is_dot(self@.line(flipped, i as int), x@, r),
    {
        proof {
            use_type_invariant(self);
        }
        let n = x.len();
        let ghost a = self@.line(flipped, i as int);
        let mut acc = T::zero();
        let mut k: usize = 0;
        while k < n
            invariant
                k <= n,
                n == self@.width(flipped),
                n == x@.len(),
                i < self@.height(flipped),
                a == self@.line(flipped, i as int),
                is_dot_prefix(a, x@, k as int, acc),
            decreases n - k,
        {
            let ghost before = acc;
            let y = self.cell(flipped, i, k);
            let q = y.times(x[k]);
            acc = acc.plus(q);
            k += 1;
            assert(is_dot_prefix(a, x@, k - 1, before) && is_dot_step(a, x@, k - 1, before, acc));
        }
        acc
    }

    /// The matrix product of `self` and `other`, each taken as it is or,
    /// where its flag is set, transposed; no transposed copy is made. The
    /// columns of the first must be as many as the rows of the second, and
    /// the product may have no more cells than a signed index can count.
    pub fn mul_with(&self, flipped: bool, other: &Self, other_flipped: bool) -> (r: Result<
        Self,
        Error,
    >)
        ensures
            r == Err::<Self, Error>(Error::ShapeMismatch) <==> self@.width(flipped)
                != other@.height(other_flipped),
            r == Err::<Self, Error>(Error::InvalidShape) <==> self@.width(flipped)
                == other@.height(other_flipped) && !shape_fits(
                self@.height(flipped),
                other@.width(other_flipped),
            ),
            r is Ok ==> is_product_of(self@, flipped, other@, other_flipped, r.unwrap()@),
            r is Err ==> r == Err::<Self, Error>(Error::ShapeMismatch) || r == Err::<Self, Error>(
                Error::InvalidShape,
            ),
    {
        proof {
            use_type_invariant(self);
            use_type_invariant(other);
        }
        let (rows, inner) = if flipped {
            (self.shape.1, self.shape.0)
        } else {
            (self.shape.0, self.shape.1)
        };
        let (other_rows, cols) = if other_flipped {
            (other.shape.1, other.shape.0)
        } else {
            (other.shape.0, other.shape.1)
        };
        if inner != other_rows {
            return Err(Error::ShapeMismatch);
        }
        if Self::cell_count((rows, cols)).is_none() {
            return Err(Error::InvalidShape);
        }
        let rows = rows as usize;
        let cols = cols as usize;
        let f = |i: usize, j: usize| -> (r: T)
            requires
                i < rows,
                j < cols,
            ensures
                is_dot(self@.line(flipped, i as int), other@.pillar(other_flipped, j as int), r),
            { self.dot_cells(flipped, i, other, other_flipped, j) };
        Ok(Matrix::tabulate(rows, cols, f))
    }

    /// The matrix product of `self` and `other`.
    pub fn mul(&self, other: &Self) -> (r: Result<Self, Error>)
        ensures
            r == Err::<Self, Error>(Error::ShapeMismatch) <==> self@.cols != other@.rows,
            r == Err::<Self, Error>(Error::InvalidShape) <==> self@.cols == other@.rows
                && !shape_fits(self@.rows, other@.cols),
            r is Ok ==> is_product_of(self@, false, other@, false, r.unwrap()@),
            r is Err ==> r == Err::<Self, Error>(Error::ShapeMismatch) || r == Err::<Self, Error>(
                Error::InvalidShape,
            ),
    {
        self.mul_with(false, other, false)
    }

    /// The product of `self`, taken as it is or transposed, with the vector
    /// `x`, which must have as many items as the matrix then has columns.
    pub fn matvec_with(&self, flipped: bool, x: &Vector<T>) -> (r: Result<Vector<T>, Error>)
        ensures
            r is Err <==> self@.width(flipped) != x@.len(),
            r is Err ==> r == Err::<Vector<T>, Error>(Error::ShapeMismatch),
            r is Ok ==> is_matvec_of(self@, flipped, x@, r.unwrap()@),
    {
        proof {
            use_type_invariant(self);
        }
        let (rows, cols) = if flipped {
            (self.shape.1 as usize, self.shape.0 as usize)
        } else {
            (self.shape.0 as usize, self.shape.1 as usize)
        };
        let items = x.data();
        if items.len() != cols {
            return Err(Error::ShapeMismatch);
        }
        let mut out: Vec<T> = Vec::new();
        let mut i: usize = 0;
        while i < rows
            invariant
                i <= rows,
                rows == self@.height(flipped),
                rows <= isize::MAX,
                items@ == x@,
                items@.len() == self@.width(flipped),
                out@.len() == i,
                forall|k: int|
                    0 <= k < i ==> is_dot(self@.line(flipped, k), x@, #[trigger] out@[k]),
            decreases rows - i,
        {
            out.push(self.dot_line(flipped, i, items));
            i += 1;
        }
        Ok(Vector::from_vec(out))
    }

    /// The product of `self` with the vector `x`, which must have as many
    /// items as the matrix has columns.
    pub fn matvec(&self, x: &Vector<T>) -> (r: Result<Vector<T>, Error>)
        ensures
            r is Err <==> self@.cols != x@.len(),
            r is Err ==> r == Err::<Vector<T>, Error>(Error::ShapeMismatch),
            r is Ok ==> is_matvec_of(self@, false, x@, r.unwrap()@),
    {
        self.matvec_with(false, x)
    }

    /// The place in the store of the largest cell, the first of them where
    /// several are equal. The matrix must have a cell.
    pub fn imax(&self) -> (r: isize)
        requires
            self@.cells.len() > 0,
        ensures
            is_argmax(self@.cells, r as int),
    {
        proof {
            use_type_invariant(self);
        }
        argmax(self.data.as_slice()) as isize
    }
}

} // verus!
