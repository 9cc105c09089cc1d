//! Forward elimination as a stream of row operations.
//!
//! For every pivot column `p` of a square matrix, from the first to the
//! last, and every row `r` below the diagonal, from `p + 1` down, one
//! operation adds a multiple of row `p` to row `r`. The operations are
//! recorded, not applied: the matrix stays as it is. The multiplier of the
//! step, `-matrix[r][p] / matrix[p][p]`, is the caller's to compute; it is
//! handed in as entry `(r, p)` of a second matrix.

use crate::elimination_laws::{lemma_elimination_schedule, lemma_steps_before_shape};
use crate::error::PlanError;
use crate::matrix::Matrix;
use crate::planner::{batches_of, schedule, schedule_of, ConflictRule, RowOperation};
use crate::scalar::{Scalar, ONE_BITS};
use vstd::prelude::*;

verus! {

/// The operation that eliminates row `row` against the pivot row `pivot`.
pub open spec fn elimination_step(multipliers: Matrix, pivot: int, row: int) -> RowOperation {
    RowOperation {
        row_operand_idx1: pivot as usize,
        row_operand_idx2: row as usize,
        destination_row_idx: row as usize,
        factor1: multipliers.at(row, pivot),
        factor2: Scalar { bits: ONE_BITS },
    }
}

/// The operations of pivot column `pivot`, from the row below the diagonal to the last row.
pub open spec fn column_steps(multipliers: Matrix, pivot: int) -> Seq<RowOperation> {
    Seq::new(
        (multipliers.dimensions.0 - 1 - pivot) as nat,
        |k: int| elimination_step(multipliers, pivot, pivot + 1 + k),
    )
}

/// The operations of the pivot columns before `pivot`, column after column.
pub open spec fn steps_before(multipliers: Matrix, pivot: int) -> Seq<RowOperation>
    decreases pivot,
{
    if pivot <= 0 {
        Seq::empty()
    } else {
        steps_before(multipliers, pivot - 1) + column_steps(multipliers, pivot - 1)
    }
}

/// The whole stream of an elimination.
pub open spec fn elimination_steps(multipliers: Matrix) -> Seq<RowOperation> {
    steps_before(multipliers, multipliers.dimensions.0 as int)
}

/// Whether `first` comes before `second` in the order of eliminations: by
/// pivot row, and under one pivot row by the row that is written.
pub open spec fn precedes(first: RowOperation, second: RowOperation) -> bool {
    ||| first.row_operand_idx1 < second.row_operand_idx1
    ||| first.row_operand_idx1 == second.row_operand_idx1 && first.destination_row_idx
        < second.destination_row_idx
}

/// Whether every operation of the stream comes before all that follow it.
pub open spec fn strictly_increasing(operations: Seq<RowOperation>) -> bool {
    forall|i: int, j: int|
        0 <= i < j < operations.len() ==> precedes(
            #[trigger] operations[i],
            #[trigger] operations[j],
        )
}

/// Whether `operation` eliminates a row of a matrix of order `order`
/// against a pivot row above it, with the multiplier that `multipliers` holds.
pub open spec fn is_elimination_step(
    multipliers: Matrix,
    operation: RowOperation,
    order: int,
) -> bool {
    &&& operation.row_operand_idx1 < operation.destination_row_idx < order
    &&& operation == elimination_step(
        multipliers,
        operation.row_operand_idx1 as int,
        operation.destination_row_idx as int,
    )
}

/// The number of operations of the first `pivot` columns of a matrix of order `order`.
pub open spec fn steps_count(order: int, pivot: int) -> int {
    pivot * (2 * order - pivot - 1) / 2
}

/// The columns before `pivot`, each as a batch.
pub open spec fn column_batches(multipliers: Matrix, pivot: int) -> Seq<Seq<RowOperation>> {
    Seq::new(pivot as nat, |p: int| column_steps(multipliers, p))
}

/// Whether pivot column `pivot` can be eliminated: the pivot is not zero and
/// every multiplier of the column is a finite number.
pub open spec fn pivot_usable(matrix: Matrix, multipliers: Matrix, pivot: int) -> bool {
    &&& !matrix.at(pivot, pivot).is_zero()
    &&& forall|row: int|
        pivot < row < matrix.dimensions.0 ==> (#[trigger] multipliers.at(row, pivot)).is_finite()
}

/// Whether every pivot column can be eliminated.
pub open spec fn all_pivots_usable(matrix: Matrix, multipliers: Matrix) -> bool {
    forall|pivot: int|
        0 <= pivot < matrix.dimensions.0 ==> pivot_usable(matrix, multipliers, pivot)
}

/// Whether `pivot` is the first pivot column that cannot be eliminated.
pub open spec fn fails_at(matrix: Matrix, multipliers: Matrix, pivot: int) -> bool {
    &&& 0 <= pivot < matrix.dimensions.0
    &&& !pivot_usable(matrix, multipliers, pivot)
    &&& forall|before: int| 0 <= before < pivot ==> pivot_usable(matrix, multipliers, before)
}

/// Whether `matrix` and `multipliers` are square matrices of one order.
pub open spec fn elimination_inputs(matrix: Matrix, multipliers: Matrix) -> bool {
    &&& matrix.wf()
    &&& multipliers.wf()
    &&& matrix.is_square()
    &&& multipliers.dimensions == matrix.dimensions
}

/// Whether `matrix` and `multipliers` are square matrices of one order.
pub fn are_elimination_inputs(matrix: &Matrix, multipliers: &Matrix) -> (good: bool)
    ensures
        good == elimination_inputs(*matrix, *multipliers),
{
    matrix.is_well_formed() && multipliers.is_well_formed() && matrix.is_square()
        && multipliers.dimensions.0 == matrix.dimensions.0 && multipliers.dimensions.1
        == matrix.dimensions.1
}

/// Records the forward elimination of `matrix`.
///
/// Entry `(r, p)` of `multipliers`, for `r > p`, is the multiplier of the
/// step that eliminates row `r` against pivot row `p`; no other entry is
/// read. The call fails at the first pivot column that cannot be
/// eliminated, and otherwise returns the operations of all columns in
/// order. No operation that is returned has a multiplier that is infinite
/// or NaN.
pub fn eliminate(matrix: &Matrix, multipliers: &Matrix) -> (result: Result<
    Vec<RowOperation>,
    PlanError,
>)
    requires
        elimination_inputs(*matrix, *multipliers),
    ensures
        result is Ok <==> all_pivots_usable(*matrix, *multipliers),
        match result {
            Ok(operations) => {
                &&& operations@ == elimination_steps(*multipliers)
                &&& operations@.len() == matrix.dimensions.0 * (matrix.dimensions.0 - 1) / 2
                &&& strictly_increasing(operations@)
                &&& forall|i: int|
                    0 <= i < operations@.len() ==> {
                        &&& is_elimination_step(
                            *multipliers,
                            #[trigger] operations@[i],
                            matrix.dimensions.0 as int,
                        )
                        &&& operations@[i].factor1.is_finite()
                    }
            },
            Err(PlanError::SingularPivot { pivot }) => fails_at(
                *matrix,
                *multipliers,
                pivot as int,
            ),
            Err(_) => false,
        },
{
    let order = matrix.dimensions.0;
    let mut operations: Vec<RowOperation> = Vec::new();
    let mut pivot: usize = 0;
    while pivot < order
        invariant
            elimination_inputs(*matrix, *multipliers),
            order == matrix.dimensions.0,
            pivot <= order,
            operations@ == steps_before(*multipliers, pivot as int),
            forall|before: int| 0 <= before < pivot ==> pivot_usable(*matrix, *multipliers, before),
        decreases order - pivot,
    {
        if matrix.get_element(pivot, pivot).is_zero() {
            assert(!pivot_usable(*matrix, *multipliers, pivot as int));
            return Err(PlanError::SingularPivot { pivot });
        }
        let mut row: usize = pivot + 1;
        while row < order
            invariant
                elimination_inputs(*matrix, *multipliers),
                order == matrix.dimensions.0,
                pivot < row <= order,
                forall|before: int|
                    0 <= before < pivot ==> pivot_usable(*matrix, *multipliers, before),
                !matrix.at(pivot as int, pivot as int).is_zero(),
                operations@ == steps_before(*multipliers, pivot as int) + column_steps(
                    *multipliers,
                    pivot as int,
                ).take(row - pivot - 1),
                forall|above: int|
                    pivot < above < row ==> (#[trigger] multipliers.at(
                        above,
                        pivot as int,
                    )).is_finite(),
            decreases order - row,
        {
            let factor = multipliers.get_element(row, pivot);
            if !factor.is_finite() {
                assert(!pivot_usable(*matrix, *multipliers, pivot as int));
                return Err(PlanError::SingularPivot { pivot });
            }
            operations.push(
                RowOperation {
                    row_operand_idx1: pivot,
                    row_operand_idx2: row,
                    destination_row_idx: row,
                    factor1: factor,
                    factor2: Scalar::one(),
                },
            );
            proof {
                let column = column_steps(*multipliers, pivot as int);
                assert(column.take(row - pivot) =~= column.take(row - pivot - 1).push(
                    column[row - pivot - 1],
                ));
                assert(operations@ =~= steps_before(*multipliers, pivot as int) + column.take(
                    row - pivot,
                ));
            }
            row += 1;
        }
        proof {
            let column = column_steps(*multipliers, pivot as int);
            assert(column.take(row - pivot - 1) =~= column);
        }
        pivot += 1;
    }
    proof {
        lemma_steps_before_shape(*multipliers, order as int);
        assert(order * (2 * order - order - 1) == order * (order - 1)) by (nonlinear_arith);
        assert forall|i: int| 0 <= i < operations@.len() implies (
        #[trigger] operations@[i]).factor1.is_finite() by {
            let operation = operations@[i];
            assert(is_elimination_step(*multipliers, operation, order as int));
            assert(pivot_usable(*matrix, *multipliers, operation.row_operand_idx1 as int));
        }
    }
    Ok(operations)
}

/// Records the forward elimination of `matrix` and schedules it under `rule`.
///
/// The call fails where [`eliminate`] fails. The schedule of a matrix of
/// order two or more has one batch for each pivot column but the last.
pub fn plan_elimination(matrix: &Matrix, multipliers: &Matrix, rule: ConflictRule) -> (result:
    Result<Vec<Vec<RowOperation>>, PlanError>)
    requires
        elimination_inputs(*matrix, *multipliers),
    ensures
        result is Ok <==> all_pivots_usable(*matrix, *multipliers),
        match result {
            Ok(batches) => {
                &&& batches_of(batches@) == schedule_of(rule, elimination_steps(*multipliers))
                &&& matrix.dimensions.0 >= 2 ==> batches_of(batches@) == column_batches(
                    *multipliers,
                    matrix.dimensions.0 - 1,
                )
                &&& matrix.dimensions.0 < 2 ==> batches_of(batches@) == seq![
                    Seq::<RowOperation>::empty(),
                ]
            },
            Err(PlanError::SingularPivot { pivot }) => fails_at(
                *matrix,
                *multipliers,
                pivot as int,
            ),
            Err(_) => false,
        },
{
    match eliminate(matrix, multipliers) {
        Ok(operations) => {
            proof {
                if matrix.dimensions.0 >= 2 {
                    lemma_elimination_schedule(rule, *multipliers);
                }
            }
            Ok(schedule(&operations, rule))
        },
        Err(error) => Err(error),
    }
}

} // verus!
