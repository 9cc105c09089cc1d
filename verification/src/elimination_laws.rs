//! What holds of every elimination stream, and of its schedule.

use crate::elimination::{
    column_batches, column_steps, elimination_step, elimination_steps, is_elimination_step,
    precedes, steps_before, steps_count, strictly_increasing,
};
use crate::matrix::Matrix;
use crate::planner::{conflict_free, schedule_of, ConflictRule, RowOperation};
use crate::schedule_laws::lemma_schedule_shape;
use vstd::prelude::*;

verus! {

/// The count of steps grows by the length of a column.
proof fn lemma_steps_count_next(order: int, pivot: int)
    requires
        0 <= pivot < order,
    ensures
        steps_count(order, pivot + 1) == steps_count(order, pivot) + (order - 1 - pivot),
        steps_count(order, 0) == 0,
        steps_count(order, pivot) >= 0,
{
    let a = pivot * (2 * order - pivot - 1);
    let b = (pivot + 1) * (2 * order - pivot - 2);
    assert(b == a + 2 * (order - 1 - pivot)) by (nonlinear_arith)
        requires
            a == pivot * (2 * order - pivot - 1),
            b == (pivot + 1) * (2 * order - pivot - 2),
    ;
    assert(a >= 0) by (nonlinear_arith)
        requires
            a == pivot * (2 * order - pivot - 1),
            0 <= pivot < order,
    ;
    assert(0 * (2 * order - 0 - 1) == 0);
}

/// The stream of the first `pivot` columns: its length, its members and their order.
pub proof fn lemma_steps_before_shape(multipliers: Matrix, pivot: int)
    requires
        0 <= pivot <= multipliers.dimensions.0,
    ensures
        steps_before(multipliers, pivot).len() == steps_count(
            multipliers.dimensions.0 as int,
            pivot,
        ),
        forall|i: int|
            0 <= i < steps_before(multipliers, pivot).len() ==> {
                &&& (#[trigger] steps_before(multipliers, pivot)[i]).row_operand_idx1 < pivot
                &&& is_elimination_step(
                    multipliers,
                    steps_before(multipliers, pivot)[i],
                    multipliers.dimensions.0 as int,
                )
            },
        strictly_increasing(steps_before(multipliers, pivot)),
    decreases pivot,
{
    let order = multipliers.dimensions.0 as int;
    if pivot > 0 {
        let earlier = steps_before(multipliers, pivot - 1);
        let column = column_steps(multipliers, pivot - 1);
        let all = steps_before(multipliers, pivot);
        lemma_steps_before_shape(multipliers, pivot - 1);
        lemma_steps_count_next(order, pivot - 1);
        assert(all =~= earlier + column);
        assert forall|i: int| 0 <= i < all.len() implies {
            &&& (#[trigger] all[i]).row_operand_idx1 < pivot
            &&& is_elimination_step(multipliers, all[i], order)
        } by {
            if i < earlier.len() {
                assert(all[i] == earlier[i]);
            } else {
                assert(all[i] == column[i - earlier.len()]);
            }
        }
        assert forall|i: int, j: int| 0 <= i < j < all.len() implies precedes(
            #[trigger] all[i],
            #[trigger] all[j],
        ) by {
            if j < earlier.len() {
                assert(precedes(earlier[i], earlier[j]));
            } else if i < earlier.len() {
                assert(all[i] == earlier[i]);
                assert(all[j] == column[j - earlier.len()]);
            } else {
                assert(all[i] == column[i - earlier.len()]);
                assert(all[j] == column[j - earlier.len()]);
            }
        }
    } else {
        assert(0 * (2 * order - 0 - 1) == 0);
    }
}

/// An elimination of a matrix of order `n` has `n (n - 1) / 2` operations.
pub proof fn lemma_elimination_count(multipliers: Matrix)
    ensures
        elimination_steps(multipliers).len() == multipliers.dimensions.0 * (
        multipliers.dimensions.0 - 1) / 2,
{
    let order = multipliers.dimensions.0 as int;
    lemma_steps_before_shape(multipliers, order);
    assert(order * (2 * order - order - 1) == order * (order - 1)) by (nonlinear_arith);
}

/// The operations of an elimination come in strictly increasing order of
/// pivot row and, under one pivot row, of the row that is written.
pub proof fn lemma_elimination_order(multipliers: Matrix, i: int, j: int)
    requires
        0 <= i < j < elimination_steps(multipliers).len(),
    ensures
        precedes(elimination_steps(multipliers)[i], elimination_steps(multipliers)[j]),
{
    lemma_steps_before_shape(multipliers, multipliers.dimensions.0 as int);
}

/// Every operation of an elimination reads the pivot row and the row that
/// it writes, which lies below the pivot row and within the matrix.
pub proof fn lemma_elimination_members(multipliers: Matrix, i: int)
    requires
        0 <= i < elimination_steps(multipliers).len(),
    ensures
        is_elimination_step(
            multipliers,
            elimination_steps(multipliers)[i],
            multipliers.dimensions.0 as int,
        ),
        elimination_steps(multipliers)[i].in_bounds(multipliers.dimensions.0),
{
    lemma_steps_before_shape(multipliers, multipliers.dimensions.0 as int);
}

/// The step that eliminates row `row` against pivot row `pivot` stands
/// behind the steps of the columns before `pivot` and the steps of the rows
/// between.
pub proof fn lemma_elimination_position(multipliers: Matrix, pivot: int, row: int)
    requires
        0 <= pivot < row < multipliers.dimensions.0,
    ensures
        0 <= steps_count(multipliers.dimensions.0 as int, pivot) + (row - pivot - 1)
            < elimination_steps(multipliers).len(),
        elimination_steps(multipliers)[steps_count(multipliers.dimensions.0 as int, pivot) + (row
            - pivot - 1)] == elimination_step(multipliers, pivot, row),
{
    let order = multipliers.dimensions.0 as int;
    lemma_steps_before_shape(multipliers, pivot);
    lemma_steps_before_extends(multipliers, pivot + 1, order);
    let upto = steps_before(multipliers, pivot + 1);
    let column = column_steps(multipliers, pivot);
    assert(upto =~= steps_before(multipliers, pivot) + column);
    assert(upto[steps_before(multipliers, pivot).len() + (row - pivot - 1)] == column[row - pivot
        - 1]);
}

/// The stream of fewer columns is the beginning of the stream of more columns.
proof fn lemma_steps_before_extends(multipliers: Matrix, fewer: int, more: int)
    requires
        0 <= fewer <= more,
    ensures
        steps_before(multipliers, fewer).len() <= steps_before(multipliers, more).len(),
        steps_before(multipliers, more).take(steps_before(multipliers, fewer).len() as int)
            == steps_before(multipliers, fewer),
    decreases more - fewer,
{
    if fewer < more {
        lemma_steps_before_extends(multipliers, fewer, more - 1);
        let shorter = steps_before(multipliers, more - 1);
        let longer = steps_before(multipliers, more);
        assert(longer =~= shorter + column_steps(multipliers, more - 1));
        assert(longer.take(steps_before(multipliers, fewer).len() as int) =~= shorter.take(
            steps_before(multipliers, fewer).len() as int,
        ));
    } else {
        assert(steps_before(multipliers, more).take(steps_before(multipliers, fewer).len() as int)
            =~= steps_before(multipliers, fewer));
    }
}

/// A block free of conflicts whose first operation collides with the open
/// batch becomes the next batch; behind the empty stream it is the only batch.
pub proof fn lemma_schedule_append_block(
    rule: ConflictRule,
    operations: Seq<RowOperation>,
    block: Seq<RowOperation>,
)
    requires
        block.len() > 0,
        conflict_free(rule, block),
        operations.len() > 0 ==> rule.conflicts_with(
            schedule_of(rule, operations).last(),
            block.first(),
        ),
    ensures
        operations.len() > 0 ==> schedule_of(rule, operations + block) == schedule_of(
            rule,
            operations,
        ).push(block),
        operations.len() == 0 ==> schedule_of(rule, operations + block) == seq![block],
    decreases block.len(),
{
    let whole = operations + block;
    let shorter = block.drop_last();
    lemma_schedule_shape(rule, operations);
    assert(whole.drop_last() =~= operations + shorter);
    assert(whole.last() == block.last());
    if block.len() == 1 {
        assert(operations + shorter =~= operations);
        assert(seq![block.last()] =~= block);
        assert(Seq::<RowOperation>::empty().push(block.last()) =~= block);
        if operations.len() == 0 {
            assert(schedule_of(rule, whole) =~= seq![block]);
        }
    } else {
        assert forall|i: int, j: int| 0 <= i < j < shorter.len() implies !rule.collides(
            #[trigger] shorter[i],
            #[trigger] shorter[j],
        ) by {
            assert(!rule.collides(block[i], block[j]));
        }
        lemma_schedule_append_block(rule, operations, shorter);
        assert(!rule.conflicts_with(shorter, block.last())) by {
            assert forall|i: int| 0 <= i < shorter.len() implies !rule.collides(
                #[trigger] shorter[i],
                block.last(),
            ) by {
                assert(!rule.collides(block[i], block[block.len() - 1]));
            }
        }
        assert(shorter.push(block.last()) =~= block);
        let earlier = schedule_of(rule, operations + shorter);
        assert(earlier.last() == shorter);
        if operations.len() == 0 {
            assert(schedule_of(rule, whole) =~= seq![block]);
        } else {
            assert(schedule_of(rule, whole) =~= schedule_of(rule, operations).push(block));
        }
    }
}

/// The operations of one pivot column never collide with one another.
proof fn lemma_column_conflict_free(rule: ConflictRule, multipliers: Matrix, pivot: int)
    requires
        0 <= pivot < multipliers.dimensions.0,
    ensures
        conflict_free(rule, column_steps(multipliers, pivot)),
{
}

/// The schedule of the first `pivot` columns has these columns as its batches.
proof fn lemma_columns_schedule(rule: ConflictRule, multipliers: Matrix, pivot: int)
    requires
        1 <= pivot < multipliers.dimensions.0,
    ensures
        schedule_of(rule, steps_before(multipliers, pivot)) == column_batches(multipliers, pivot),
    decreases pivot,
{
    let column = column_steps(multipliers, pivot - 1);
    let earlier = steps_before(multipliers, pivot - 1);
    lemma_column_conflict_free(rule, multipliers, pivot - 1);
    lemma_steps_before_shape(multipliers, pivot - 1);
    lemma_steps_count_next(multipliers.dimensions.0 as int, pivot - 1);
    if pivot == 1 {
        assert(earlier.len() == 0);
        lemma_schedule_append_block(rule, earlier, column);
        assert(column_batches(multipliers, pivot) =~= seq![column]);
    } else {
        lemma_columns_schedule(rule, multipliers, pivot - 1);
        lemma_steps_before_shape(multipliers, pivot - 2);
        lemma_steps_count_next(multipliers.dimensions.0 as int, pivot - 2);
        let open = column_steps(multipliers, pivot - 2);
        assert(schedule_of(rule, earlier).last() == open);
        assert(rule.collides(open[1], column.first()));
        assert(earlier.len() > 0) by {
            assert(earlier =~= steps_before(multipliers, pivot - 2) + open);
        }
        lemma_schedule_append_block(rule, earlier, column);
        assert(column_batches(multipliers, pivot) =~= column_batches(multipliers, pivot - 1).push(
            column,
        ));
    }
}

/// Under either rule the schedule of an elimination has one batch for each
/// pivot column that has rows below the diagonal, in the order of the columns.
pub proof fn lemma_elimination_schedule(rule: ConflictRule, multipliers: Matrix)
    requires
        multipliers.dimensions.0 >= 2,
    ensures
        schedule_of(rule, elimination_steps(multipliers)) == column_batches(
            multipliers,
            multipliers.dimensions.0 - 1,
        ),
{
    let order = multipliers.dimensions.0 as int;
    lemma_columns_schedule(rule, multipliers, order - 1);
    assert(column_steps(multipliers, order - 1) =~= Seq::<RowOperation>::empty());
    assert(steps_before(multipliers, order) =~= steps_before(multipliers, order - 1));
}

} // verus!
