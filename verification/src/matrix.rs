//! Dense matrices in row-major order, and the choice of a pivot row.

use crate::scalar::Scalar;
use vstd::prelude::*;

verus! {

/// A dense matrix: `dimensions.0` rows of `dimensions.1` entries each, row after row.
#[derive(Debug)]
pub struct Matrix {
    /// The entries, row after row.
    pub elements: Vec<Scalar>,
    /// The number of rows and the number of columns.
    pub dimensions: (usize, usize),
}

/// Whether the entries of `column` before position `row` are all zero.
pub open spec fn leading_zeros(column: Seq<Scalar>, row: int) -> bool {
    forall|r: int| 0 <= r < row && r < column.len() ==> (#[trigger] column[r]).is_zero()
}

/// Whether `row` is the pivot row of `column`.
///
/// Among the entries that are neither zero nor NaN the pivot is the first
/// one of least magnitude. A NaN is the pivot where only zeros stand before
/// it, and it hides whatever follows. A column of zeros has its last row as
/// pivot row.
pub open spec fn is_pivot_row(column: Seq<Scalar>, row: int) -> bool {
    &&& 0 <= row < column.len()
    &&& if leading_zeros(column, column.len() as int) {
        row == column.len() - 1
    } else if column[row].is_nan() {
        leading_zeros(column, row)
    } else {
        &&& !column[row].is_zero()
        &&& forall|r: int|
            0 <= r < column.len() && (#[trigger] column[r]).is_nan() ==> !leading_zeros(column, r)
        &&& forall|r: int|
            0 <= r < column.len() && !(#[trigger] column[r]).is_zero() && !column[r].is_nan()
                ==> column[row].magnitude() <= column[r].magnitude() && (r < row
                ==> column[row].magnitude() < column[r].magnitude())
    }
}

impl Matrix {
    /// The number of rows.
    pub open spec fn spec_rows(&self) -> usize {
        self.dimensions.0
    }

    /// The number of columns.
    pub open spec fn spec_cols(&self) -> usize {
        self.dimensions.1
    }

    /// Whether there are as many entries as the dimensions announce.
    pub open spec fn wf(&self) -> bool {
        self.elements@.len() == self.dimensions.0 * self.dimensions.1
    }

    /// Whether the matrix has as many rows as columns.
    pub open spec fn spec_is_square(&self) -> bool {
        self.dimensions.0 == self.dimensions.1
    }

    /// The entry in row `row` and column `col`.
    pub open spec fn at(&self, row: int, col: int) -> Scalar {
        self.elements@[row * self.dimensions.1 + col]
    }

    /// The entries of row `row`, from the first column to the last.
    pub open spec fn row_of(&self, row: int) -> Seq<Scalar> {
        Seq::new(self.dimensions.1 as nat, |col: int| self.at(row, col))
    }

    /// The entries of column `col`, from the first row to the last.
    pub open spec fn column_of(&self, col: int) -> Seq<Scalar> {
        Seq::new(self.dimensions.0 as nat, |row: int| self.at(row, col))
    }

    /// The position of an entry lies within the entries.
    pub proof fn lemma_position_in_range(&self, row: int, col: int)
        requires
            self.wf(),
            0 <= row < self.dimensions.0,
            0 <= col < self.dimensions.1,
        ensures
            0 <= row * self.dimensions.1 + col < self.elements@.len(),
            row * self.dimensions.1 + col <= usize::MAX,
    {
        let cols = self.dimensions.1 as int;
        let rows = self.dimensions.0 as int;
        assert(self.elements@.len() == self.elements.len());
        assert(row * cols >= 0) by (nonlinear_arith)
            requires
                row >= 0,
                cols >= 0,
        ;
        assert(row * cols + cols <= rows * cols) by (nonlinear_arith)
            requires
                0 <= row < rows,
                cols >= 0,
        ;
    }

    /// The matrix with the given entries and dimensions.
    pub fn new(elements: Vec<Scalar>, dimensions: (usize, usize)) -> (matrix: Matrix)
        requires
            elements@.len() == dimensions.0 * dimensions.1,
        ensures
            matrix.elements == elements,
            matrix.dimensions == dimensions,
            matrix.wf(),
    {
        Matrix { elements, dimensions }
    }

    /// The number of rows.
    #[verifier::when_used_as_spec(spec_rows)]
    pub fn rows(&self) -> (n: usize)
        ensures
            n == self.spec_rows(),
    {
        self.dimensions.0
    }

    /// The number of columns.
    #[verifier::when_used_as_spec(spec_cols)]
    pub fn cols(&self) -> (n: usize)
        ensures
            n == self.spec_cols(),
    {
        self.dimensions.1
    }

    /// Whether the matrix has as many rows as columns.
    #[verifier::when_used_as_spec(spec_is_square)]
    pub fn is_square(&self) -> (square: bool)
        ensures
            square == self.spec_is_square(),
    {
        self.dimensions.0 == self.dimensions.1
    }

    /// Whether there are as many entries as the dimensions announce.
    pub fn is_well_formed(&self) -> (good: bool)
        ensures
            good == self.wf(),
    {
        let product = self.dimensions.0.checked_mul(self.dimensions.1);
        assert(self.elements@.len() == self.elements.len());
        match product {
            Some(count) => self.elements.len() == count,
            None => false,
        }
    }

    /// The entry in row `row_idx` and column `col_idx`.
    pub fn get_element(&self, row_idx: usize, col_idx: usize) -> (element: Scalar)
        requires
            self.wf(),
            row_idx < self.dimensions.0,
            col_idx < self.dimensions.1,
        ensures
            element == self.at(row_idx as int, col_idx as int),
    {
        let ncols = self.dimensions.1;
        proof {
            self.lemma_position_in_range(row_idx as int, col_idx as int);
        }
        self.elements[row_idx * ncols + col_idx]
    }

    /// The entries of row `row_idx`.
    pub fn get_row(&self, row_idx: usize) -> (row: Vec<Scalar>)
        requires
            self.wf(),
            row_idx < self.dimensions.0,
        ensures
            row@ == self.row_of(row_idx as int),
    {
        let mut row: Vec<Scalar> = Vec::new();
        let mut col_idx: usize = 0;
        while col_idx < self.dimensions.1
            invariant
                self.wf(),
                row_idx < self.dimensions.0,
                col_idx <= self.dimensions.1,
                row@ == self.row_of(row_idx as int).take(col_idx as int),
            decreases self.dimensions.1 - col_idx,
        {
            row.push(self.get_element(row_idx, col_idx));
            col_idx += 1;
        }
        row
    }

    /// The entries of column `col_idx`.
    pub fn get_column(&self, col_idx: usize) -> (column: Vec<Scalar>)
        requires
            self.wf(),
            col_idx < self.dimensions.1,
        ensures
            column@ == self.column_of(col_idx as int),
    {
        let mut column: Vec<Scalar> = Vec::new();
        let mut row_idx: usize = 0;
        while row_idx < self.dimensions.0
            invariant
                self.wf(),
                col_idx < self.dimensions.1,
                row_idx <= self.dimensions.0,
                column@ == self.column_of(col_idx as int).take(row_idx as int),
            decreases self.dimensions.0 - row_idx,
        {
            column.push(self.get_element(row_idx, col_idx));
            row_idx += 1;
        }
        column
    }

    /// The pivot row of column `col_idx` of a square matrix.
    pub fn get_pivot_row_idx(&self, col_idx: usize) -> (pivot_row_idx: usize)
        requires
            self.wf(),
            self.is_square(),
            col_idx < self.dimensions.1,
        ensures
            is_pivot_row(self.column_of(col_idx as int), pivot_row_idx as int),
    {
        let column_elements = self.get_column(col_idx);
        pivot_row(&column_elements)
    }
}

/// The pivot row of a column that is not empty.
pub fn pivot_row(column: &Vec<Scalar>) -> (row: usize)
    requires
        column@.len() > 0,
    ensures
        is_pivot_row(column@, row as int),
{
    let mut pivot_row_idx: usize = 0;
    let mut best = column[0];
    let mut idx: usize = 1;
    assert(is_pivot_row(column@.take(1), 0));
    while idx < column.len()
        invariant
            1 <= idx <= column.len(),
            pivot_row_idx < idx,
            best == column@[pivot_row_idx as int],
            is_pivot_row(column@.take(idx as int), pivot_row_idx as int),
        decreases column.len() - idx,
    {
        let candidate = column[idx];
        let ghost seen = column@.take(idx as int);
        let ghost grown = column@.take(idx + 1);
        proof {
            assert forall|r: int| 0 <= r < idx implies grown[r] == seen[r] by {}
            assert(grown[idx as int] == candidate);
            assert forall|r: int| 0 <= r <= idx implies leading_zeros(grown, r) == leading_zeros(
                seen,
                r,
            ) by {
                if leading_zeros(seen, r) {
                    assert forall|q: int| 0 <= q < r && q < grown.len() implies (
                    #[trigger] grown[q]).is_zero() by {
                        assert(seen[q].is_zero());
                    }
                }
                if leading_zeros(grown, r) {
                    assert forall|q: int| 0 <= q < r && q < seen.len() implies (
                    #[trigger] seen[q]).is_zero() by {
                        assert(grown[q].is_zero());
                    }
                }
            }
        }
        if (candidate.magnitude_below(best) && !candidate.is_zero()) || best.is_zero() {
            proof {
                if best.is_zero() {
                    assert(leading_zeros(seen, idx as int));
                }
            }
            pivot_row_idx = idx;
            best = candidate;
        }
        idx += 1;
        proof {
            assert(is_pivot_row(grown, pivot_row_idx as int));
        }
    }
    assert(column@.take(idx as int) =~= column@);
    pivot_row_idx
}

/// A column has one pivot row only.
pub proof fn lemma_pivot_row_unique(column: Seq<Scalar>, first: int, second: int)
    requires
        is_pivot_row(column, first),
        is_pivot_row(column, second),
    ensures
        first == second,
{
    if leading_zeros(column, column.len() as int) {
    } else if column[first].is_nan() {
        if column[second].is_nan() {
            if first < second {
                assert(column[first].is_zero());
            } else if second < first {
                assert(column[second].is_zero());
            }
        }
    } else {
        if column[second].is_nan() {
        }
    }
}

} // verus!
