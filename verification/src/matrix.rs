//! A dense 2-D array of scalars with shape-checked arithmetic, elementwise
//! mapping, and transposition.

use vstd::prelude::*;
use crate::scalar::{Scalar, Sampler};

verus! {

/// Failure of a matrix operation. Only `DimensionMismatch` is ever signalled
/// by the operations below; the other two kinds are reserved in the taxonomy
/// and currently unreachable.
#[derive(Clone, Copy, Debug, PartialEq, Eq, Structural)]
pub enum MatrixError {
    OutOfBounds,
    DimensionMismatch,
    UnexpectedMappingResult,
}

/// A dense matrix: a row count, a column count, and a rectangular grid of
/// scalar values. Both counts are at least one and fixed for the lifetime of
/// an instance; every operation returns a fresh matrix.
#[derive(Clone, Debug, PartialEq)]
pub struct Matrix<T> {
    pub rows: usize,
    pub cols: usize,
    pub data: Vec<Vec<T>>,
}

impl<T> View for Matrix<T> {
    type V = Seq<Seq<T>>;

    open spec fn view(&self) -> Seq<Seq<T>> {
        self.data@.map_values(|r: Vec<T>| r@)
    }
}

/// Elementwise sum of two equally-shaped grids.
pub open spec fn ew_plus<T: Scalar>(a: Seq<Seq<T>>, b: Seq<Seq<T>>) -> Seq<Seq<T>> {
    Seq::new(a.len(), |i: int| Seq::new(a[i].len(), |j: int| a[i][j].plus_spec(b[i][j])))
}

/// Elementwise difference of two equally-shaped grids.
pub open spec fn ew_minus<T: Scalar>(a: Seq<Seq<T>>, b: Seq<Seq<T>>) -> Seq<Seq<T>> {
    Seq::new(a.len(), |i: int| Seq::new(a[i].len(), |j: int| a[i][j].minus_spec(b[i][j])))
}

/// Elementwise (Hadamard) product of two equally-shaped grids.
pub open spec fn ew_times<T: Scalar>(a: Seq<Seq<T>>, b: Seq<Seq<T>>) -> Seq<Seq<T>> {
    Seq::new(a.len(), |i: int| Seq::new(a[i].len(), |j: int| a[i][j].times_spec(b[i][j])))
}

/// A unary function applied to every element of a grid.
pub open spec fn ew_apply<T: Scalar>(a: Seq<Seq<T>>, f: spec_fn(T) -> T) -> Seq<Seq<T>> {
    Seq::new(a.len(), |i: int| Seq::new(a[i].len(), |j: int| f(a[i][j])))
}

/// The transposed grid: element (i, j) of the result is element (j, i) of
/// the argument.
pub open spec fn grid_transpose<T>(a: Seq<Seq<T>>) -> Seq<Seq<T>> {
    Seq::new(a[0].len(), |i: int| Seq::new(a.len(), |j: int| a[j][i]))
}

/// The left-to-right accumulation of the first `k` products of a row of `a`
/// against column `j` of `b`, starting from zero — exactly the order in
/// which the executable product accumulates.
pub open spec fn dot_prefix<T: Scalar>(row: Seq<T>, b: Seq<Seq<T>>, j: int, k: nat) -> T
    decreases k,
{
    if k == 0 {
        T::zero_spec()
    } else {
        dot_prefix(row, b, j, (k - 1) as nat).plus_spec(row[k - 1].times_spec(b[k - 1][j]))
    }
}

/// The standard matrix product of two grids with compatible inner dimension.
pub open spec fn grid_product<T: Scalar>(a: Seq<Seq<T>>, b: Seq<Seq<T>>) -> Seq<Seq<T>> {
    Seq::new(a.len(), |i: int| Seq::new(b[0].len(), |j: int| dot_prefix(a[i], b, j, b.len())))
}

/// Two grids of equal shape with equal elements are equal.
pub proof fn lemma_grid_eq<T>(a: Seq<Seq<T>>, b: Seq<Seq<T>>)
    requires
        a.len() == b.len(),
        forall|i: int| 0 <= i < a.len() ==> (#[trigger] a[i]).len() == b[i].len(),
        forall|i: int, j: int| 0 <= i < a.len() && 0 <= j < a[i].len() ==> a[i][j] == b[i][j],
    ensures
        a == b,
{
    assert forall|i: int| 0 <= i < a.len() implies a[i] =~= b[i] by {
        assert(forall|j: int| 0 <= j < a[i].len() ==> a[i][j] == b[i][j]);
    }
    assert(a =~~= b);
}

impl<T> Matrix<T> {
    /// The structural invariant: positive shape, and a grid with exactly
    /// `rows` rows of exactly `cols` elements each.
    pub open spec fn wf(&self) -> bool {
        &&& self.rows >= 1
        &&& self.cols >= 1
        &&& self.data@.len() == self.rows
        &&& self@.len() == self.rows
        &&& forall|i: int| 0 <= i < self.data@.len() ==> (#[trigger] self.data@[i])@.len()
            == self.cols
        &&& forall|i: int| 0 <= i < self@.len() ==> (#[trigger] self@[i]).len() == self.cols
    }
}

impl<T: Scalar> Matrix<T> {
    /// Builds a matrix from an ordered, non-empty sequence of equally long,
    /// non-empty rows; the shape is inferred from the input.
    pub fn from(data: Vec<Vec<T>>) -> (r: Self)
        requires
            data@.len() >= 1,
            data@[0]@.len() >= 1,
            forall|i: int| 0 <= i < data@.len() ==> (#[trigger] data@[i])@.len() == data@[0]@.len(),
        ensures
            r.wf(),
            r.rows == data@.len(),
            r.cols == data@[0]@.len(),
            r@ == data@.map_values(|v: Vec<T>| v@),
    {
        let rows = data.len();
        let cols = data[0].len();
        Matrix { rows, cols, data }
    }

    /// An `rows x cols` matrix in which every element is `value`.
    fn filled(rows: usize, cols: usize, value: T) -> (r: Self)
        requires
            rows >= 1,
            cols >= 1,
        ensures
            r.wf(),
            r.rows == rows,
            r.cols == cols,
            forall|i: int, j: int| 0 <= i < rows && 0 <= j < cols ==> r@[i][j] == value,
    {
        let mut data: Vec<Vec<T>> = Vec::new();
        for x in 0..rows
            invariant
                data@.len() == x,
                forall|i: int| 0 <= i < x ==> (#[trigger] data@[i])@.len() == cols,
                forall|i: int, j: int| 0 <= i < x && 0 <= j < cols ==> data@[i]@[j] == value,
        {
            let mut row: Vec<T> = Vec::new();
            for y in 0..cols
                invariant
                    row@.len() == y,
                    forall|j: int| 0 <= j < y ==> row@[j] == value,
            {
                row.push(value);
            }
            data.push(row);
        }
        Matrix { rows, cols, data }
    }

    /// An all-zero matrix of the given positive shape.
    pub fn zeros(rows: usize, cols: usize) -> (r: Self)
        requires
            rows >= 1,
            cols >= 1,
        ensures
            r.wf(),
            r.rows == rows,
            r.cols == cols,
            forall|i: int, j: int| 0 <= i < rows && 0 <= j < cols ==> r@[i][j] == T::zero_spec(),
    {
        Matrix::filled(rows, cols, T::zero())
    }

    /// A matrix of the given positive shape whose elements are drawn one by
    /// one from the sampler. Nothing is stated of the drawn values.
    pub fn random<S: Sampler<T>>(rows: usize, cols: usize, sampler: &mut S) -> (r: Self)
        requires
            rows >= 1,
            cols >= 1,
        ensures
            r.wf(),
            r.rows == rows,
            r.cols == cols,
    {
        let mut data: Vec<Vec<T>> = Vec::new();
        for x in 0..rows
            invariant
                data@.len() == x,
                forall|i: int| 0 <= i < x ==> (#[trigger] data@[i])@.len() == cols,
        {
            let mut row: Vec<T> = Vec::new();
            for y in 0..cols
                invariant
                    row@.len() == y,
            {
                row.push(sampler.sample());
            }
            data.push(row);
        }
        Matrix { rows, cols, data }
    }

    /// A fresh matrix with the same shape and the same elements.
    pub fn duplicate(&self) -> (r: Self)
        requires
            self.wf(),
        ensures
            r.wf(),
            r.rows == self.rows,
            r.cols == self.cols,
            r@ == self@,
    {
        let mut data: Vec<Vec<T>> = Vec::new();
        for x in 0..self.rows
            invariant
                self.wf(),
                data@.len() == x,
                forall|i: int| 0 <= i < x ==> (#[trigger] data@[i])@.len() == self.cols,
                forall|i: int, j: int| 0 <= i < x && 0 <= j < self.cols ==> data@[i]@[j]
                    == self@[i][j],
        {
            let mut row: Vec<T> = Vec::new();
            for y in 0..self.cols
                invariant
                    self.wf(),
                    x < self.rows,
                    row@.len() == y,
                    forall|j: int| 0 <= j < y ==> row@[j] == self@[x as int][j],
            {
                row.push(self.data[x][y]);
            }
            data.push(row);
        }
        let m = Matrix { rows: self.rows, cols: self.cols, data };
        proof {
            lemma_grid_eq(m@, self@);
        }
        m
    }

    /// Elementwise sum. Succeeds exactly when both operands have the same
    /// shape; otherwise signals `DimensionMismatch`.
    pub fn add(&self, target: &Self) -> (r: Result<Self, MatrixError>)
        requires
            self.wf(),
            target.wf(),
        ensures
            r is Ok <==> (self.rows == target.rows && self.cols == target.cols),
            r matches Err(e) ==> e == MatrixError::DimensionMismatch,
            r matches Ok(m) ==> {
                &&& m.wf()
                &&& m.rows == self.rows
                &&& m.cols == self.cols
                &&& m@ == ew_plus(self@, target@)
            },
    {
        if self.rows != target.rows || self.cols != target.cols {
            return Err(MatrixError::DimensionMismatch);
        }
        let mut data: Vec<Vec<T>> = Vec::new();
        for x in 0..self.rows
            invariant
                self.wf(),
                target.wf(),
                target.rows == self.rows,
                target.cols == self.cols,
                data@.len() == x,
                forall|i: int| 0 <= i < x ==> (#[trigger] data@[i])@.len() == self.cols,
                forall|i: int, j: int| 0 <= i < x && 0 <= j < self.cols ==> data@[i]@[j]
                    == self@[i][j].plus_spec(target@[i][j]),
        {
            let mut row: Vec<T> = Vec::new();
            for y in 0..self.cols
                invariant
                    self.wf(),
                    target.wf(),
                    target.rows == self.rows,
                    target.cols == self.cols,
                    x < self.rows,
                    row@.len() == y,
                    forall|j: int| 0 <= j < y ==> row@[j] == self@[x as int][j].plus_spec(
                        target@[x as int][j],
                    ),
            {
                row.push(self.data[x][y].plus(target.data[x][y]));
            }
            data.push(row);
        }
        let m = Matrix { rows: self.rows, cols: self.cols, data };
        proof {
            lemma_grid_eq(m@, ew_plus(self@, target@));
        }
        Ok(m)
    }

    /// Elementwise difference. Succeeds exactly when both operands have the
    /// same shape; otherwise signals `DimensionMismatch`.
    pub fn sub(&self, target: &Self) -> (r: Result<Self, MatrixError>)
        requires
            self.wf(),
            target.wf(),
        ensures
            r is Ok <==> (self.rows == target.rows && self.cols == target.cols),
            r matches Err(e) ==> e == MatrixError::DimensionMismatch,
            r matches Ok(m) ==> {
                &&& m.wf()
                &&& m.rows == self.rows
                &&& m.cols == self.cols
                &&& m@ == ew_minus(self@, target@)
            },
    {
        if self.rows != target.rows || self.cols != target.cols {
            return Err(MatrixError::DimensionMismatch);
        }
        let mut data: Vec<Vec<T>> = Vec::new();
        for x in 0..self.rows
            invariant
                self.wf(),
                target.wf(),
                target.rows == self.rows,
                target.cols == self.cols,
                data@.len() == x,
                forall|i: int| 0 <= i < x ==> (#[trigger] data@[i])@.len() == self.cols,
                forall|i: int, j: int| 0 <= i < x && 0 <= j < self.cols ==> data@[i]@[j]
                    == self@[i][j].minus_spec(target@[i][j]),
        {
            let mut row: Vec<T> = Vec::new();
            for y in 0..self.cols
                invariant
                    self.wf(),
                    target.wf(),
                    target.rows == self.rows,
                    target.cols == self.cols,
                    x < self.rows,
                    row@.len() == y,
                    forall|j: int| 0 <= j < y ==> row@[j] == self@[x as int][j].minus_spec(
                        target@[x as int][j],
                    ),
            {
                row.push(self.data[x][y].minus(target.data[x][y]));
            }
            data.push(row);
        }
        let m = Matrix { rows: self.rows, cols: self.cols, data };
        proof {
            lemma_grid_eq(m@, ew_minus(self@, target@));
        }
        Ok(m)
    }

    /// Elementwise (Hadamard) product — not the inner product, despite the
    /// traditional name. Succeeds exactly when both operands have the same
    /// shape; otherwise signals `DimensionMismatch`.
    pub fn dot_product(&self, target: &Self) -> (r: Result<Self, MatrixError>)
        requires
            self.wf(),
            target.wf(),
        ensures
            r is Ok <==> (self.rows == target.rows && self.cols == target.cols),
            r matches Err(e) ==> e == MatrixError::DimensionMismatch,
            r matches Ok(m) ==> {
                &&& m.wf()
                &&& m.rows == self.rows
                &&& m.cols == self.cols
                &&& m@ == ew_times(self@, target@)
            },
    {
        if self.rows != target.rows || self.cols != target.cols {
            return Err(MatrixError::DimensionMismatch);
        }
        let mut data: Vec<Vec<T>> = Vec::new();
        for x in 0..self.rows
            invariant
                self.wf(),
                target.wf(),
                target.rows == self.rows,
                target.cols == self.cols,
                data@.len() == x,
                forall|i: int| 0 <= i < x ==> (#[trigger] data@[i])@.len() == self.cols,
                forall|i: int, j: int| 0 <= i < x && 0 <= j < self.cols ==> data@[i]@[j]
                    == self@[i][j].times_spec(target@[i][j]),
        {
            let mut row: Vec<T> = Vec::new();
            for y in 0..self.cols
                invariant
                    self.wf(),
                    target.wf(),
                    target.rows == self.rows,
                    target.cols == self.cols,
                    x < self.rows,
                    row@.len() == y,
                    forall|j: int| 0 <= j < y ==> row@[j] == self@[x as int][j].times_spec(
                        target@[x as int][j],
                    ),
            {
                row.push(self.data[x][y].times(target.data[x][y]));
            }
            data.push(row);
        }
        let m = Matrix { rows: self.rows, cols: self.cols, data };
        proof {
            lemma_grid_eq(m@, ew_times(self@, target@));
        }
        Ok(m)
    }

    /// Standard matrix product: an (m x k) by a (k x n) matrix yields
    /// (m x n). Succeeds exactly when the left operand's column count equals
    /// the right operand's row count; otherwise signals `DimensionMismatch`.
    pub fn mul(&self, target: &Self) -> (r: Result<Self, MatrixError>)
        requires
            self.wf(),
            target.wf(),
        ensures
            r is Ok <==> self.cols == target.rows,
            r matches Err(e) ==> e == MatrixError::DimensionMismatch,
            r matches Ok(m) ==> {
                &&& m.wf()
                &&& m.rows == self.rows
                &&& m.cols == target.cols
                &&& m@ == grid_product(self@, target@)
            },
    {
        if self.cols != target.rows {
            return Err(MatrixError::DimensionMismatch);
        }
        let mut data: Vec<Vec<T>> = Vec::new();
        for x in 0..self.rows
            invariant
                self.wf(),
                target.wf(),
                target.rows == self.cols,
                data@.len() == x,
                forall|i: int| 0 <= i < x ==> (#[trigger] data@[i])@.len() == target.cols,
                forall|i: int, j: int| 0 <= i < x && 0 <= j < target.cols ==> data@[i]@[j]
                    == dot_prefix(self@[i], target@, j, target@.len()),
        {
            let mut row: Vec<T> = Vec::new();
            for y in 0..target.cols
                invariant
                    self.wf(),
                    target.wf(),
                    target.rows == self.cols,
                    x < self.rows,
                    row@.len() == y,
                    forall|j: int| 0 <= j < y ==> row@[j] == dot_prefix(
                        self@[x as int],
                        target@,
                        j,
                        target@.len(),
                    ),
            {
                let mut sum = T::zero();
                for z in 0..self.cols
                    invariant
                        self.wf(),
                        target.wf(),
                        target.rows == self.cols,
                        x < self.rows,
                        y < target.cols,
                        sum == dot_prefix(self@[x as int], target@, y as int, z as nat),
                {
                    sum = sum.plus(self.data[x][z].times(target.data[z][y]));
                }
                proof {
                    assert(self.cols as nat == target@.len());
                }
                row.push(sum);
            }
            data.push(row);
        }
        let m = Matrix { rows: self.rows, cols: target.cols, data };
        proof {
            lemma_grid_eq(m@, grid_product(self@, target@));
        }
        Ok(m)
    }

    /// Applies a unary scalar function to every element, producing a matrix
    /// of the same shape. Total: never fails on shape.
    pub fn map<F: Fn(T) -> T>(&self, function: F) -> (r: Result<Self, MatrixError>)
        requires
            self.wf(),
            forall|i: int, j: int| 0 <= i < self@.len() && 0 <= j < self@[i].len()
                ==> call_requires(function, (#[trigger] self@[i][j],)),
        ensures
            r is Ok,
            r matches Ok(m) ==> {
                &&& m.wf()
                &&& m.rows == self.rows
                &&& m.cols == self.cols
                &&& forall|i: int, j: int| 0 <= i < self@.len() && 0 <= j < self@[i].len()
                    ==> call_ensures(function, (self@[i][j],), #[trigger] m@[i][j])
            },
    {
        let mut data: Vec<Vec<T>> = Vec::new();
        for x in 0..self.rows
            invariant
                self.wf(),
                forall|i: int, j: int| 0 <= i < self@.len() && 0 <= j < self@[i].len()
                    ==> call_requires(function, (#[trigger] self@[i][j],)),
                data@.len() == x,
                forall|i: int| 0 <= i < x ==> (#[trigger] data@[i])@.len() == self.cols,
                forall|i: int, j: int| 0 <= i < x && 0 <= j < self.cols ==> call_ensures(
                    function,
                    (self@[i][j],),
                    #[trigger] data@[i]@[j],
                ),
        {
            let mut row: Vec<T> = Vec::new();
            for y in 0..self.cols
                invariant
                    self.wf(),
                    forall|i: int, j: int| 0 <= i < self@.len() && 0 <= j < self@[i].len()
                        ==> call_requires(function, (#[trigger] self@[i][j],)),
                    x < self.rows,
                    row@.len() == y,
                    forall|j: int| 0 <= j < y ==> call_ensures(
                        function,
                        (self@[x as int][j],),
                        #[trigger] row@[j],
                    ),
            {
                proof {
                    assert(self.data@[x as int]@[y as int] == self@[x as int][y as int]);
                }
                row.push(function(self.data[x][y]));
            }
            data.push(row);
        }
        let m = Matrix { rows: self.rows, cols: self.cols, data };
        Ok(m)
    }

    /// The transposed copy: shape (r x c) becomes (c x r), element (i, j)
    /// becomes element (j, i). Total operation, never fails.
    pub fn transpose(&self) -> (r: Self)
        requires
            self.wf(),
        ensures
            r.wf(),
            r.rows == self.cols,
            r.cols == self.rows,
            r@ == grid_transpose(self@),
    {
        let mut data: Vec<Vec<T>> = Vec::new();
        for x in 0..self.cols
            invariant
                self.wf(),
                data@.len() == x,
                forall|i: int| 0 <= i < x ==> (#[trigger] data@[i])@.len() == self.rows,
                forall|i: int, j: int| 0 <= i < x && 0 <= j < self.rows ==> data@[i]@[j]
                    == self@[j][i],
        {
            let mut row: Vec<T> = Vec::new();
            for y in 0..self.rows
                invariant
                    self.wf(),
                    x < self.cols,
                    row@.len() == y,
                    forall|j: int| 0 <= j < y ==> row@[j] == self@[j][x as int],
            {
                row.push(self.data[y][x]);
            }
            data.push(row);
        }
        let m = Matrix { rows: self.cols, cols: self.rows, data };
        proof {
            lemma_grid_eq(m@, grid_transpose(self@));
        }
        m
    }
}

/// Law: for equally shaped matrices, subtracting and then adding back the
/// same matrix restores the original elementwise, whenever the scalar's own
/// minus/plus pair cancels exactly (as the crate's wrapping `u64` instance
/// does; floating-point instances satisfy it only within rounding).
pub proof fn lemma_add_sub_inverse<T: Scalar>(a: Matrix<T>, b: Matrix<T>)
    requires
        a.wf(),
        b.wf(),
        a.rows == b.rows,
        a.cols == b.cols,
        forall|x: T, y: T| #[trigger] x.minus_spec(y).plus_spec(y) == x,
    ensures
        ew_plus(ew_minus(a@, b@), b@) == a@,
{
    lemma_grid_eq(ew_plus(ew_minus(a@, b@), b@), a@);
}

/// The inverse law holds outright for the crate's wrapping `u64` scalar:
/// its minus/plus pair cancels on every pair of values.
pub proof fn lemma_add_sub_inverse_u64(a: Matrix<u64>, b: Matrix<u64>)
    requires
        a.wf(),
        b.wf(),
        a.rows == b.rows,
        a.cols == b.cols,
    ensures
        ew_plus(ew_minus(a@, b@), b@) == a@,
{
    assert forall|x: u64, y: u64| #[trigger] x.minus_spec(y).plus_spec(y) == x by {
        crate::scalar::lemma_u64_minus_plus_cancel(x, y);
    }
    lemma_add_sub_inverse(a, b);
}

/// Law: transposition is an involution — transposing twice gives back the
/// original grid, for every well-formed matrix.
pub proof fn lemma_transpose_involution<T: Scalar>(a: Matrix<T>)
    requires
        a.wf(),
    ensures
        grid_transpose(grid_transpose(a@)) == a@,
{
    lemma_grid_eq(grid_transpose(grid_transpose(a@)), a@);
}

} // verus!
