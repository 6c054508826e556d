//! A dense matrix with signed addressing, stored column by column. What
//! needs the arithmetic of the scalars has a file of its own.

use vstd::prelude::*;
use vstd::arithmetic::div_mod::{
    lemma_div_pos_is_pos, lemma_fundamental_div_mod, lemma_mod_pos_bound,
};
use crate::error::Error;
use crate::index::{names_item, resolve_item, wrapped};
use crate::kernels::{combine, is_combination, is_image, transform};
use crate::vector::{Vector, VectorUtils};

pub mod arithmetic;

pub use arithmetic::{is_matvec_of, is_product_of};

verus! {

/// Where the cell of row `i` and column `j` lies in the store of a matrix
/// of `rows` rows: the columns follow one another.
pub open spec fn offset(rows: int, i: int, j: int) -> int {
    j * rows + i
}

/// What a matrix is to its contracts: its shape and its cells in the order
/// of the store.
pub struct Grid<T> {
    pub rows: int,
    pub cols: int,
    pub cells: Seq<T>,
}

impl<T> Grid<T> {
    /// The shape is not negative and the cells fill it.
    pub open spec fn well_formed(self) -> bool {
        &&& self.rows >= 0
        &&& self.cols >= 0
        &&& self.cells.len() == self.rows * self.cols
    }

    /// The cell of row `i` and column `j`.
    pub open spec fn at(self, i: int, j: int) -> T {
        self.cells[offset(self.rows, i, j)]
    }

    /// The number of rows, of the matrix itself or, where `flipped`, of its
    /// transpose.
    pub open spec fn height(self, flipped: bool) -> int {
        if flipped {
            self.cols
        } else {
            self.rows
        }
    }

    /// The number of columns, of the matrix itself or, where `flipped`, of
    /// its transpose.
    pub open spec fn width(self, flipped: bool) -> int {
        if flipped {
            self.rows
        } else {
            self.cols
        }
    }

    /// The cell of row `i` and column `j`, of the matrix itself or, where
    /// `flipped`, of its transpose.
    pub open spec fn entry(self, flipped: bool, i: int, j: int) -> T {
        if flipped {
            self.at(j, i)
        } else {
            self.at(i, j)
        }
    }

    /// Row `i`, of the matrix itself or, where `flipped`, of its transpose.
    pub open spec fn line(self, flipped: bool, i: int) -> Seq<T> {
        Seq::new(self.width(flipped) as nat, |k: int| self.entry(flipped, i, k))
    }

    /// Column `j`, of the matrix itself or, where `flipped`, of its
    /// transpose.
    pub open spec fn pillar(self, flipped: bool, j: int) -> Seq<T> {
        Seq::new(self.height(flipped) as nat, |k: int| self.entry(flipped, k, j))
    }
}

/// A cell of a grid has its own place in the store, inside it.
pub proof fn lemma_offset_bounds(rows: int, cols: int, i: int, j: int)
    requires
        0 <= i < rows,
        0 <= j < cols,
    ensures
        0 <= offset(rows, i, j) < rows * cols,
        offset(rows, i, j) < offset(rows, 0, j + 1) <= rows * cols,
        offset(rows, 0, j) <= offset(rows, i, j),
{
    assert(0 <= j * rows) by (nonlinear_arith)
        requires
            0 <= j,
            0 <= rows,
    ;
    assert((j + 1) * rows <= cols * rows) by (nonlinear_arith)
        requires
            j + 1 <= cols,
            0 <= rows,
    ;
    assert((j + 1) * rows == j * rows + rows) by (nonlinear_arith);
    assert(cols * rows == rows * cols) by (nonlinear_arith);
}

/// Cells of an earlier column lie before the cells of a later one.
pub proof fn lemma_offset_order(rows: int, i: int, j: int, i2: int, j2: int)
    requires
        0 <= i < rows,
        0 <= i2 < rows,
        0 <= j < j2,
    ensures
        offset(rows, i, j) < offset(rows, i2, j2),
{
    assert((j + 1) * rows <= j2 * rows) by (nonlinear_arith)
        requires
            j + 1 <= j2,
            0 <= rows,
    ;
    assert((j + 1) * rows == j * rows + rows) by (nonlinear_arith);
}

/// Every place in the store of a grid is the place of a cell: the row and
/// the column come back.
pub proof fn lemma_offset_covers(rows: int, cols: int, k: int) -> (cell: (int, int))
    requires
        0 <= rows,
        0 <= cols,
        0 <= k < rows * cols,
    ensures
        0 <= cell.0 < rows,
        0 <= cell.1 < cols,
        offset(rows, cell.0, cell.1) == k,
{
    assert(rows > 0) by (nonlinear_arith)
        requires
            0 <= rows,
            0 <= k < rows * cols,
    ;
    let i = k % rows;
    let j = k / rows;
    lemma_fundamental_div_mod(k, rows);
    lemma_mod_pos_bound(k, rows);
    lemma_div_pos_is_pos(k, rows);
    assert(j < cols && j * rows + i == k) by (nonlinear_arith)
        requires
            k == rows * j + i,
            0 <= i,
            0 <= j,
            k < rows * cols,
            rows > 0,
    ;
    (i, j)
}

/// Two grids of one shape whose cells are equal, row by row and column by
/// column, are one grid.
pub proof fn lemma_grid_by_cells<T>(r: Grid<T>, s: Grid<T>)
    requires
        r.well_formed(),
        s.well_formed(),
        r.rows == s.rows,
        r.cols == s.cols,
        forall|i: int, j: int| 0 <= i < r.rows && 0 <= j < r.cols ==> #[trigger] r.at(i, j) == s.at(i, j),
    ensures
        r == s,
{
    assert forall|k: int| 0 <= k < r.cells.len() implies r.cells[k] == s.cells[k] by {
        let (i, j) = lemma_offset_covers(r.rows, r.cols, k);
        assert(r.at(i, j) == s.at(i, j));
    }
    assert(r.cells =~= s.cells);
}

/// Whether a shape has no negative dimension and no more cells than a
/// signed index can count.
pub open spec fn shape_fits(rows: int, cols: int) -> bool {
    rows >= 0 && cols >= 0 && rows * cols <= isize::MAX
}

/// `r` is the transpose of `a`.
pub open spec fn is_transpose_of<T>(a: Grid<T>, r: Grid<T>) -> bool {
    &&& r.well_formed()
    &&& r.rows == a.cols
    &&& r.cols == a.rows
    &&& forall|i: int, j: int|
        0 <= i < r.rows && 0 <= j < r.cols ==> #[trigger] r.at(i, j) == a.at(j, i)
}

/// Two grids have one shape.
pub open spec fn same_shape<T>(a: Grid<T>, b: Grid<T>) -> bool {
    a.rows == b.rows && a.cols == b.cols
}

/// A matrix of `shape.0` rows and `shape.1` columns.
#[derive(Debug, PartialEq)]
pub struct Matrix<T> {
    shape: (isize, isize),
    data: Vec<T>,
}

impl<T> View for Matrix<T> {
    type V = Grid<T>;

    closed spec fn view(&self) -> Grid<T> {
        Grid { rows: self.shape.0 as int, cols: self.shape.1 as int, cells: self.data@ }
    }
}

impl<T> Matrix<T> {
    /// The store holds one item for each cell of the shape.
    #[verifier::type_invariant]
    spec fn filled(self) -> bool {
        &&& self.shape.0 >= 0
        &&& self.shape.1 >= 0
        &&& self.data.len() == self.shape.0 * self.shape.1
        &&& self.data.len() <= isize::MAX
    }

    /// The number of cells of a shape, where the shape is in order.
    fn cell_count(shape: (isize, isize)) -> (r: Option<usize>)
        ensures
            shape_fits(shape.0 as int, shape.1 as int) <==> r is Some,
            r is Some ==> r.unwrap() == shape.0 * shape.1,
    {
        if shape.0 < 0 || shape.1 < 0 {
            return None;
        }
        assert(shape.0 * shape.1 >= 0) by (nonlinear_arith)
            requires
                shape.0 >= 0,
                shape.1 >= 0,
        ;
        match shape.0.checked_mul(shape.1) {
            Some(count) => Some(count as usize),
            None => None,
        }
    }

    /// The matrix whose store holds `f(0), f(1), ..`, one item for each cell
    /// of the shape. A negative dimension is refused, and so is a shape with
    /// more cells than a signed index can count.
    pub fn from_fn<F: Fn(isize) -> T>(shape: (isize, isize), f: F) -> (r: Result<Self, Error>)
        requires
            forall|k: isize| 0 <= k < shape.0 * shape.1 ==> f.requires((k,)),
        ensures
            r is Err <==> !shape_fits(shape.0 as int, shape.1 as int),
            r is Err ==> r == Err::<Self, Error>(Error::InvalidShape),
            r is Ok ==> {
                &&& r.unwrap()@.well_formed()
                &&& r.unwrap()@.rows == shape.0
                &&& r.unwrap()@.cols == shape.1
                &&& forall|k: isize|
                    0 <= k < shape.0 * shape.1 ==> f.ensures(
                        (k,),
                        #[trigger] r.unwrap()@.cells[k as int],
                    )
            },
    {
        let count: isize = match Self::cell_count(shape) {
            Some(count) => count as isize,
            None => {
                return Err(Error::InvalidShape);
            },
        };
        let mut data: Vec<T> = Vec::new();
        let mut k: isize = 0;
        while k < count
            invariant
                0 <= k <= count,
                count == shape.0 * shape.1,
                data.len() == k,
                forall|m: isize| 0 <= m < shape.0 * shape.1 ==> f.requires((m,)),
                forall|m: isize| 0 <= m < k ==> f.ensures((m,), #[trigger] data@[m as int]),
            decreases count - k,
        {
            data.push(f(k));
            k += 1;
        }
        Ok(Matrix { shape, data })
    }

    /// The matrix whose store is `data`. A negative dimension is refused,
    /// and so is a shape that `data` does not fill exactly or that has more
    /// cells than a signed index can count.
    pub fn from_vec(shape: (isize, isize), data: Vec<T>) -> (r: Result<Self, Error>)
        ensures
            r is Err <==> !shape_fits(shape.0 as int, shape.1 as int) || shape.0 * shape.1
                != data@.len(),
            r is Err ==> r == Err::<Self, Error>(Error::InvalidShape),
            r is Ok ==> r.unwrap()@ == (Grid {
                rows: shape.0 as int,
                cols: shape.1 as int,
                cells: data@,
            }),
    {
        match Self::cell_count(shape) {
            Some(count) => {
                if count == data.len() {
                    Ok(Matrix { shape, data })
                } else {
                    Err(Error::InvalidShape)
                }
            },
            None => Err(Error::InvalidShape),
        }
    }

    /// The number of rows and the number of columns.
    pub fn shape(&self) -> (r: (isize, isize))
        ensures
            r.0 == self@.rows,
            r.1 == self@.cols,
            self@.well_formed(),
            shape_fits(self@.rows, self@.cols),
    {
        proof {
            use_type_invariant(self);
        }
        self.shape
    }

    /// The store: the cells, column by column.
    pub fn data(&self) -> (r: &[T])
        ensures
            r@ == self@.cells,
            self@.well_formed(),
    {
        proof {
            use_type_invariant(self);
        }
        self.data.as_slice()
    }

    /// The place in the store of the cell that a pair of signed indices
    /// names: row first, each index wrapped along its own axis.
    pub fn fix_index(&self, index: (isize, isize)) -> (r: Result<usize, Error>)
        ensures
            self@.well_formed(),
            names_item(self@.rows, index.0 as int) && names_item(self@.cols, index.1 as int) ==> {
                &&& r is Ok
                &&& r.unwrap() == offset(
                    self@.rows,
                    wrapped(self@.rows, index.0 as int),
                    wrapped(self@.cols, index.1 as int),
                )
                &&& r.unwrap() < self@.cells.len()
            },
            !(names_item(self@.rows, index.0 as int) && names_item(self@.cols, index.1 as int))
                ==> r == Err::<usize, Error>(Error::IndexOutOfBounds),
    {
        proof {
            use_type_invariant(self);
        }
        let i = match resolve_item(self.shape.0 as usize, index.0) {
            Ok(i) => i,
            Err(e) => {
                return Err(e);
            },
        };
        let j = match resolve_item(self.shape.1 as usize, index.1) {
            Ok(j) => j,
            Err(e) => {
                return Err(e);
            },
        };
        proof {
            lemma_offset_bounds(self.shape.0 as int, self.shape.1 as int, i as int, j as int);
        }
        Ok(j * (self.shape.0 as usize) + i)
    }

    /// The cell that a pair of signed indices names.
    pub fn index(&self, index: (isize, isize)) -> (r: Result<&T, Error>)
        ensures
            names_item(self@.rows, index.0 as int) && names_item(self@.cols, index.1 as int) ==> r
                == Ok::<&T, Error>(
                &self@.at(wrapped(self@.rows, index.0 as int), wrapped(self@.cols, index.1 as int)),
            ),
            !(names_item(self@.rows, index.0 as int) && names_item(self@.cols, index.1 as int))
                ==> r == Err::<&T, Error>(Error::IndexOutOfBounds),
    {
        match self.fix_index(index) {
            Ok(place) => Ok(&self.data[place]),
            Err(e) => Err(e),
        }
    }

    /// Puts `val` in the cell that a pair of signed indices names.
    pub fn set(&mut self, index: (isize, isize), val: T) -> (r: Result<(), Error>)
        ensures
            final(self)@.rows == old(self)@.rows,
            final(self)@.cols == old(self)@.cols,
            names_item(old(self)@.rows, index.0 as int) && names_item(
                old(self)@.cols,
                index.1 as int,
            ) ==> r == Ok::<(), Error>(()) && final(self)@.cells == old(self)@.cells.update(
                offset(
                    old(self)@.rows,
                    wrapped(old(self)@.rows, index.0 as int),
                    wrapped(old(self)@.cols, index.1 as int),
                ),
                val,
            ),
            !(names_item(old(self)@.rows, index.0 as int) && names_item(
                old(self)@.cols,
                index.1 as int,
            )) ==> r == Err::<(), Error>(Error::IndexOutOfBounds) && final(self)@ == old(self)@,
    {
        proof {
            use_type_invariant(&*self);
        }
        match self.fix_index(index) {
            Ok(place) => {
                self.data[place] = val;
                Ok(())
            },
            Err(e) => Err(e),
        }
    }
}

impl<T: Copy> Matrix<T> {
    /// The cell of row `i` and column `j`, of the matrix itself or, where
    /// `flipped`, of its transpose.
    fn cell(&self, flipped: bool, i: usize, j: usize) -> (r: T)
        requires
            i < self@.height(flipped),
            j < self@.width(flipped),
        ensures
            r == self@.entry(flipped, i as int, j as int),
    {
        proof {
            use_type_invariant(self);
        }
        let rows = self.shape.0 as usize;
        if flipped {
            proof {
                lemma_offset_bounds(self.shape.0 as int, self.shape.1 as int, j as int, i as int);
            }
            self.data[i * rows + j]
        } else {
            proof {
                lemma_offset_bounds(self.shape.0 as int, self.shape.1 as int, i as int, j as int);
            }
            self.data[j * rows + i]
        }
    }

    /// The matrix of `rows` rows and `cols` columns whose cell of row `i`
    /// and column `j` is `f(i, j)`.
    fn tabulate<F: Fn(usize, usize) -> T>(rows: usize, cols: usize, f: F) -> (r: Self)
        requires
            rows <= isize::MAX,
            cols <= isize::MAX,
            rows * cols <= isize::MAX,
            forall|i: usize, j: usize| i < rows && j < cols ==> f.requires((i, j)),
        ensures
            r@.well_formed(),
            r@.rows == rows,
            r@.cols == cols,
            forall|i: usize, j: usize|
                i < rows && j < cols ==> f.ensures((i, j), #[trigger] r@.at(i as int, j as int)),
    {
        let mut data: Vec<T> = Vec::new();
        let mut j: usize = 0;
        while j < cols
            invariant
                j <= cols,
                rows <= isize::MAX,
                cols <= isize::MAX,
                rows * cols <= isize::MAX,
                data@.len() == offset(rows as int, 0, j as int),
                forall|i: usize, j: usize| i < rows && j < cols ==> f.requires((i, j)),
                forall|a: usize, b: usize|
                    a < rows && b < j ==> f.ensures(
                        (a, b),
                        #[trigger] data@[offset(rows as int, a as int, b as int)],
                    ),
            decreases cols - j,
        {
            let mut i: usize = 0;
            while i < rows
                invariant
                    i <= rows,
                    j < cols,
                    rows <= isize::MAX,
                    cols <= isize::MAX,
                    rows * cols <= isize::MAX,
                    data@.len() == offset(rows as int, i as int, j as int),
                    forall|i: usize, j: usize| i < rows && j < cols ==> f.requires((i, j)),
                    forall|a: usize, b: usize|
                        a < rows && b < j ==> f.ensures(
                            (a, b),
                            #[trigger] data@[offset(rows as int, a as int, b as int)],
                        ),
                    forall|a: usize|
                        a < i ==> f.ensures(
                            (a, j),
                            #[trigger] data@[offset(rows as int, a as int, j as int)],
                        ),
                decreases rows - i,
            {
                let val = f(i, j);
                data.push(val);
                assert forall|a: usize, b: usize| a < rows && b < j implies f.ensures(
                    (a, b),
                    #[trigger] data@[offset(rows as int, a as int, b as int)],
                ) by {
                    lemma_offset_order(rows as int, a as int, b as int, i as int, j as int);
                }
                assert forall|a: usize| a < i + 1 implies f.ensures(
                    (a, j),
                    #[trigger] data@[offset(rows as int, a as int, j as int)],
                ) by {
                    if a < i {
                    }
                }
                i += 1;
            }
            assert(offset(rows as int, rows as int, j as int) == offset(rows as int, 0, j + 1))
                by (nonlinear_arith);
            j += 1;
        }
        assert(data@.len() == rows * cols) by (nonlinear_arith)
            requires
                data@.len() == offset(rows as int, 0, cols as int),
        ;
        Matrix { shape: (rows as isize, cols as isize), data }
    }

    /// The matrix whose every cell is `val`. A negative dimension is
    /// refused, and so is a shape with more cells than a signed index can
    /// count.
    pub fn from_val(shape: (isize, isize), val: T) -> (r: Result<Self, Error>)
        ensures
            r is Err <==> !shape_fits(shape.0 as int, shape.1 as int),
            r is Err ==> r == Err::<Self, Error>(Error::InvalidShape),
            r is Ok ==> r.unwrap()@ == (Grid {
                rows: shape.0 as int,
                cols: shape.1 as int,
                cells: Seq::new((shape.0 * shape.1) as nat, |k: int| val),
            }),
    {
        let count: usize = match Self::cell_count(shape) {
            Some(count) => count,
            None => {
                return Err(Error::InvalidShape);
            },
        };
        let mut data: Vec<T> = Vec::new();
        let mut k: usize = 0;
        while k < count
            invariant
                k <= count,
                data@ == Seq::new(k as nat, |m: int| val),
            decreases count - k,
        {
            data.push(val);
            k += 1;
        }
        Ok(Matrix { shape, data })
    }

    /// The matrix of what `f` makes of each cell.
    pub fn map<F: Fn(T) -> T>(&self, f: F) -> (r: Self)
        requires
            forall|k: int| 0 <= k < self@.cells.len() ==> f.requires((#[trigger] self@.cells[k],)),
        ensures
            same_shape(self@, r@),
            is_image(f, self@.cells, r@.cells),
    {
        proof {
            use_type_invariant(self);
            assert(self@.cells == self.data@);
        }
        Matrix { shape: self.shape, data: transform(self.data.as_slice(), f) }
    }

    /// The matrix of what `f` makes of each pair of cells that stand at one
    /// place in two matrices of one shape.
    pub fn zip_map<F: Fn(T, T) -> T>(&self, other: &Self, f: F) -> (r: Result<Self, Error>)
        requires
            same_shape(self@, other@) ==> forall|k: int|
                0 <= k < self@.cells.len() ==> f.requires(
                    (#[trigger] self@.cells[k], other@.cells[k]),
                ),
        ensures
            !same_shape(self@, other@) <==> r is Err,
            r is Err ==> r == Err::<Self, Error>(Error::ShapeMismatch),
            r is Ok ==> same_shape(self@, r.unwrap()@) && is_combination(
                f,
                self@.cells,
                other@.cells,
                r.unwrap()@.cells,
            ),
    {
        proof {
            use_type_invariant(self);
            use_type_invariant(other);
        }
        if self.shape.0 != other.shape.0 || self.shape.1 != other.shape.1 {
            return Err(Error::ShapeMismatch);
        }
        assert(self@.cells == self.data@ && other@.cells == other.data@);
        Ok(
            Matrix {
                shape: self.shape,
                data: combine(self.data.as_slice(), other.data.as_slice(), f),
            },
        )
    }

    /// Replaces every cell by what `f` makes of it.
    pub fn apply<F: Fn(T) -> T>(&mut self, f: F)
        requires
            forall|k: int|
                0 <= k < old(self)@.cells.len() ==> f.requires((#[trigger] old(self)@.cells[k],)),
        ensures
            same_shape(old(self)@, final(self)@),
            is_image(f, old(self)@.cells, final(self)@.cells),
    {
        proof {
            use_type_invariant(&*self);
            assert(self@.cells == self.data@);
        }
        let data = transform(self.data.as_slice(), f);
        self.data = data;
    }

    /// Replaces every cell by what `f` makes of it and of the cell that
    /// stands at its place in `other`, a matrix of the same shape. Where the
    /// shapes differ nothing is changed.
    pub fn zip_apply<F: Fn(T, T) -> T>(&mut self, other: &Self, f: F) -> (r: Result<(), Error>)
        requires
            same_shape(old(self)@, other@) ==> forall|k: int|
                0 <= k < old(self)@.cells.len() ==> f.requires(
                    (#[trigger] old(self)@.cells[k], other@.cells[k]),
                ),
        ensures
            same_shape(old(self)@, final(self)@),
            !same_shape(old(self)@, other@) <==> r is Err,
            r is Err ==> r == Err::<(), Error>(Error::ShapeMismatch) && final(self)@ == old(self)@,
            r is Ok ==> is_combination(f, old(self)@.cells, other@.cells, final(self)@.cells),
    {
        proof {
            use_type_invariant(&*self);
            use_type_invariant(other);
        }
        if self.shape.0 != other.shape.0 || self.shape.1 != other.shape.1 {
            return Err(Error::ShapeMismatch);
        }
        assert(self@.cells == self.data@ && other@.cells == other.data@);
        let data = combine(self.data.as_slice(), other.data.as_slice(), f);
        self.data = data;
        Ok(())
    }

    /// The transpose, as a matrix of its own.
    pub fn transposed(&self) -> (r: Self)
        ensures
            is_transpose_of(self@, r@),
    {
        proof {
            use_type_invariant(self);
            assert(self.shape.1 * self.shape.0 == self.shape.0 * self.shape.1) by (nonlinear_arith);
        }
        let rows = self.shape.1 as usize;
        let cols = self.shape.0 as usize;
        let f = |i: usize, j: usize| -> (r: T)
            requires
                i < rows,
                j < cols,
            ensures
                r == self@.at(j as int, i as int),
            { self.cell(false, j, i) };
        Matrix::tabulate(rows, cols, f)
    }

    /// Turns the matrix into its transpose.
    pub fn transpose(&mut self)
        ensures
            is_transpose_of(old(self)@, final(self)@),
    {
        let turned = self.transposed();
        *self = turned;
    }
}

impl<T: Copy> Clone for Matrix<T> {
    /// An independent copy with the same shape and cells.
    fn clone(&self) -> (r: Self)
        ensures
            r@ == self@,
    {
        proof {
            use_type_invariant(self);
        }
        let n = self.data.len();
        let mut data: Vec<T> = Vec::new();
        let mut i: usize = 0;
        while i < n
            invariant
                i <= n,
                n == self.data@.len(),
                data@ == self.data@.subrange(0, i as int),
            decreases n - i,
        {
            data.push(self.data[i]);
            i += 1;
        }
        assert(data@ =~= self.data@);
        Matrix { shape: self.shape, data }
    }
}

/// The grid of one column that holds the items of `v`.
pub open spec fn column<T>(v: Seq<T>) -> Grid<T> {
    Grid { rows: v.len() as int, cols: 1, cells: v }
}

/// The vector as a matrix of one column.
pub fn as_matrix<T: Copy>(data: &Vector<T>) -> (r: Matrix<T>)
    ensures
        r@ == column(data@),
{
    let rows = data.len();
    assert(rows * 1 == rows) by (nonlinear_arith);
    Matrix { shape: (rows, 1), data: data.clone().into_vec() }
}

} // verus!
