//! Row operations and their partition into batches.
//!
//! A stream of operations is cut into consecutive batches by one pass from
//! left to right: an operation joins the batch that is open unless it
//! collides with an operation already in it, in which case the batch is
//! closed and the operation opens the next one. When the stream ends the
//! open batch is closed too, so the empty stream has one batch, which is
//! empty. [`schedule_of`] is the mathematical statement of that pass and
//! [`is_greedy`] says which partition it yields; the module
//! [`crate::schedule_laws`] proves what every schedule has.

use crate::error::PlanError;
use crate::scalar::Scalar;
use crate::schedule_laws::{
    lemma_conflict_free_stream_single_batch, lemma_schedule_greedy, lemma_schedule_minimal,
    lemma_schedule_shape,
};
use std::collections::HashSet;
use vstd::prelude::*;

verus! {

/// One elementary step `dest = factor1 * rows[src1] + factor2 * rows[src2]`.
#[derive(Debug, Copy, Clone, PartialEq, Eq, Structural)]
pub struct RowOperation {
    /// Index of the first row that is read.
    pub row_operand_idx1: usize,
    /// Index of the second row that is read.
    pub row_operand_idx2: usize,
    /// Index of the row that is written.
    pub destination_row_idx: usize,
    /// Multiplier of the first row.
    pub factor1: Scalar,
    /// Multiplier of the second row.
    pub factor2: Scalar,
}

impl RowOperation {
    /// Whether the operation reads `row`.
    pub open spec fn reads(self, row: usize) -> bool {
        self.row_operand_idx1 == row || self.row_operand_idx2 == row
    }

    /// Whether all three indices name a row of a matrix with `rows` rows.
    pub open spec fn spec_in_bounds(&self, rows: usize) -> bool {
        &&& self.row_operand_idx1 < rows
        &&& self.row_operand_idx2 < rows
        &&& self.destination_row_idx < rows
    }

    /// The first index of the operation, in the order first source, second
    /// source, destination, that names no row of a matrix with `rows` rows;
    /// the destination where there is none.
    pub open spec fn spec_first_row_outside(&self, rows: usize) -> usize {
        if self.row_operand_idx1 >= rows {
            self.row_operand_idx1
        } else if self.row_operand_idx2 >= rows {
            self.row_operand_idx2
        } else {
            self.destination_row_idx
        }
    }

    /// The first index of the operation that names no row of a matrix with
    /// `rows` rows; the destination where there is none.
    #[verifier::when_used_as_spec(spec_first_row_outside)]
    pub fn first_row_outside(&self, rows: usize) -> (row: usize)
        ensures
            row == self.spec_first_row_outside(rows),
    {
        if self.row_operand_idx1 >= rows {
            self.row_operand_idx1
        } else if self.row_operand_idx2 >= rows {
            self.row_operand_idx2
        } else {
            self.destination_row_idx
        }
    }

    /// Whether all three indices name a row of a matrix with `rows` rows.
    #[verifier::when_used_as_spec(spec_in_bounds)]
    pub fn in_bounds(&self, rows: usize) -> (inside: bool)
        ensures
            inside == self.spec_in_bounds(rows),
    {
        self.row_operand_idx1 < rows && self.row_operand_idx2 < rows && self.destination_row_idx
            < rows
    }
}

/// When two operations may not share a batch.
#[derive(Debug, Copy, Clone, PartialEq, Eq, Structural)]
pub enum ConflictRule {
    /// Two operations collide when they write the same row.
    DestinationOnly,
    /// In addition, an operation collides with an earlier one whose
    /// destination it reads.
    DestinationAndSources,
}

impl ConflictRule {
    /// Whether `later` may not join a batch that holds `earlier`.
    pub open spec fn collides(self, earlier: RowOperation, later: RowOperation) -> bool {
        ||| later.destination_row_idx == earlier.destination_row_idx
        ||| self == ConflictRule::DestinationAndSources && later.reads(
            earlier.destination_row_idx,
        )
    }

    /// Whether `operation` collides with a member of `batch`.
    pub open spec fn conflicts_with(self, batch: Seq<RowOperation>, operation: RowOperation) -> bool {
        exists|i: int| 0 <= i < batch.len() && self.collides(#[trigger] batch[i], operation)
    }

    /// Whether `operation` may not join a batch whose members write the rows `claimed`.
    pub open spec fn blocked_by(self, claimed: Set<usize>, operation: RowOperation) -> bool {
        ||| claimed.contains(operation.destination_row_idx)
        ||| self == ConflictRule::DestinationAndSources && (claimed.contains(
            operation.row_operand_idx1,
        ) || claimed.contains(operation.row_operand_idx2))
    }

    /// Decides by a scan of `batch` whether `operation` collides with a member of it.
    pub fn conflicts(&self, batch: &Vec<RowOperation>, operation: &RowOperation) -> (hit: bool)
        ensures
            hit == self.conflicts_with(batch@, *operation),
    {
        let strict = match self {
            ConflictRule::DestinationOnly => false,
            ConflictRule::DestinationAndSources => true,
        };
        let mut i: usize = 0;
        while i < batch.len()
            invariant
                i <= batch.len(),
                strict == (*self == ConflictRule::DestinationAndSources),
                forall|k: int| 0 <= k < i ==> !self.collides(#[trigger] batch@[k], *operation),
            decreases batch.len() - i,
        {
            let written = batch[i].destination_row_idx;
            if operation.destination_row_idx == written || (strict && (operation.row_operand_idx1
                == written || operation.row_operand_idx2 == written)) {
                return true;
            }
            i += 1;
        }
        false
    }
}

/// Whether no member of `batch` collides with a member before it.
pub open spec fn conflict_free(rule: ConflictRule, batch: Seq<RowOperation>) -> bool {
    forall|i: int, j: int|
        0 <= i < j < batch.len() ==> !rule.collides(#[trigger] batch[i], #[trigger] batch[j])
}

/// Whether `batches` cuts `operations` into consecutive batches, each free of conflicts.
pub open spec fn is_partition(
    rule: ConflictRule,
    operations: Seq<RowOperation>,
    batches: Seq<Seq<RowOperation>>,
) -> bool {
    &&& batches.flatten() == operations
    &&& forall|k: int| 0 <= k < batches.len() ==> conflict_free(rule, #[trigger] batches[k])
}

/// Whether `batches` is a partition of `operations` that closes a batch only
/// where the next operation collides with it, and has an empty batch only
/// where it is the single batch of the empty stream.
pub open spec fn is_greedy(
    rule: ConflictRule,
    operations: Seq<RowOperation>,
    batches: Seq<Seq<RowOperation>>,
) -> bool {
    &&& is_partition(rule, operations, batches)
    &&& batches.len() >= 1
    &&& forall|k: int|
        0 <= k < batches.len() && (#[trigger] batches[k]).len() == 0 ==> batches.len() == 1
    &&& forall|k: int|
        1 <= k < batches.len() ==> rule.conflicts_with(
            batches[k - 1],
            (#[trigger] batches[k]).first(),
        )
}

/// The rows that the members of `batch` write.
pub open spec fn destinations(batch: Seq<RowOperation>) -> Set<usize> {
    Set::new(
        |row: usize|
            exists|i: int| 0 <= i < batch.len() && (#[trigger] batch[i]).destination_row_idx == row,
    )
}

/// The schedule of `operations` under `rule`: the batches in order, the last
/// one being the batch that is still open when the stream ends. The empty
/// stream has the schedule of one empty batch.
pub open spec fn schedule_of(rule: ConflictRule, operations: Seq<RowOperation>) -> Seq<
    Seq<RowOperation>,
>
    decreases operations.len(),
{
    if operations.len() == 0 {
        seq![Seq::<RowOperation>::empty()]
    } else {
        let earlier = schedule_of(rule, operations.drop_last());
        let operation = operations.last();
        if rule.conflicts_with(earlier.last(), operation) {
            earlier.push(seq![operation])
        } else {
            earlier.update(earlier.len() - 1, earlier.last().push(operation))
        }
    }
}

/// The batches of an executable schedule as sequences.
pub open spec fn batches_of(schedule: Seq<Vec<RowOperation>>) -> Seq<Seq<RowOperation>> {
    schedule.map_values(|batch: Vec<RowOperation>| batch@)
}

/// The rows that a batch writes block an operation exactly when the
/// operation collides with a member of the batch.
pub proof fn lemma_blocked_iff_conflict(
    rule: ConflictRule,
    batch: Seq<RowOperation>,
    operation: RowOperation,
)
    ensures
        rule.blocked_by(destinations(batch), operation) == rule.conflicts_with(batch, operation),
{
    let claimed = destinations(batch);
    if rule.conflicts_with(batch, operation) {
        let i = choose|i: int| 0 <= i < batch.len() && rule.collides(#[trigger] batch[i], operation);
        assert(claimed.contains(batch[i].destination_row_idx));
    }
    if rule.blocked_by(claimed, operation) {
        if claimed.contains(operation.destination_row_idx) {
            let i = choose|i: int|
                0 <= i < batch.len() && (#[trigger] batch[i]).destination_row_idx
                    == operation.destination_row_idx;
            assert(rule.collides(batch[i], operation));
        } else if claimed.contains(operation.row_operand_idx1) {
            let i = choose|i: int|
                0 <= i < batch.len() && (#[trigger] batch[i]).destination_row_idx
                    == operation.row_operand_idx1;
            assert(rule.collides(batch[i], operation));
        } else {
            let i = choose|i: int|
                0 <= i < batch.len() && (#[trigger] batch[i]).destination_row_idx
                    == operation.row_operand_idx2;
            assert(rule.collides(batch[i], operation));
        }
    }
}

/// Whether `operation` may not join a batch whose members write the rows `claimed`.
fn blocked(claimed: &HashSet<usize>, operation: &RowOperation, rule: ConflictRule) -> (hit: bool)
    ensures
        hit == rule.blocked_by(claimed@, *operation),
{
    broadcast use vstd::std_specs::hash::group_hash_axioms;

    if claimed.contains(&operation.destination_row_idx) {
        return true;
    }
    match rule {
        ConflictRule::DestinationOnly => false,
        ConflictRule::DestinationAndSources => claimed.contains(&operation.row_operand_idx1)
            || claimed.contains(&operation.row_operand_idx2),
    }
}

/// Partitions `operations` into batches under `rule`, in one pass and with
/// one set lookup for each row that an operation names. No partition into
/// consecutive batches free of conflicts has fewer batches.
pub fn schedule(operations: &Vec<RowOperation>, rule: ConflictRule) -> (batches: Vec<
    Vec<RowOperation>,
>)
    ensures
        batches_of(batches@) == schedule_of(rule, operations@),
        is_greedy(rule, operations@, batches_of(batches@)),
        operations@.len() > 0 ==> batches@.len() <= operations@.len(),
        conflict_free(rule, operations@) ==> batches_of(batches@) == seq![operations@],
        forall|other: Seq<Seq<RowOperation>>|
            other.len() >= 1 && #[trigger] is_partition(rule, operations@, other) ==> batches@.len()
                <= other.len(),
{
    broadcast use vstd::std_specs::hash::group_hash_axioms;

    let mut batches: Vec<Vec<RowOperation>> = Vec::new();
    let mut claimed: HashSet<usize> = HashSet::new();
    let mut current: Vec<RowOperation> = Vec::new();
    let mut i: usize = 0;
    assert(operations@.take(0) =~= Seq::empty());
    assert(batches_of(batches@).push(current@) =~= seq![Seq::<RowOperation>::empty()]);
    assert(claimed@ =~= destinations(current@));
    while i < operations.len()
        invariant
            i <= operations.len(),
            batches_of(batches@).push(current@) == schedule_of(rule, operations@.take(i as int)),
            claimed@ == destinations(current@),
        decreases operations.len() - i,
    {
        let operation = operations[i];
        let ghost before = operations@.take(i as int);
        let ghost closed = batches_of(batches@);
        let ghost open = current@;
        proof {
            assert(operations@.take(i + 1).drop_last() =~= before);
            assert(operations@.take(i + 1).last() == operation);
            assert(closed.push(open).last() == open);
            lemma_blocked_iff_conflict(rule, open, operation);
        }
        if blocked(&claimed, &operation, rule) {
            batches.push(current);
            current = Vec::new();
            claimed.clear();
            proof {
                assert(batches_of(batches@) =~= closed.push(open));
            }
        }
        let ghost kept = current@;
        claimed.insert(operation.destination_row_idx);
        current.push(operation);
        proof {
            assert(claimed@ =~= destinations(current@)) by {
                assert forall|row: usize| destinations(kept).insert(
                    operation.destination_row_idx,
                ).contains(row) == destinations(kept.push(operation)).contains(row) by {
                    let grown = kept.push(operation);
                    if destinations(kept).contains(row) {
                        let k = choose|k: int|
                            0 <= k < kept.len() && (#[trigger] kept[k]).destination_row_idx == row;
                        assert(grown[k].destination_row_idx == row);
                    }
                    if row == operation.destination_row_idx {
                        assert(grown[kept.len() as int].destination_row_idx == row);
                    }
                    if destinations(grown).contains(row) {
                        let k = choose|k: int|
                            0 <= k < grown.len() && (#[trigger] grown[k]).destination_row_idx
                                == row;
                        if k < kept.len() {
                            assert(kept[k].destination_row_idx == row);
                        }
                    }
                }
            }
            assert(batches_of(batches@).push(current@) =~= schedule_of(
                rule,
                operations@.take(i + 1),
            ));
        }
        i += 1;
    }
    proof {
        assert(operations@.take(i as int) =~= operations@);
    }
    batches.push(current);
    proof {
        assert(batches_of(batches@) =~= schedule_of(rule, operations@));
        lemma_schedule_greedy(rule, operations@);
        lemma_schedule_shape(rule, operations@);
        if conflict_free(rule, operations@) {
            lemma_conflict_free_stream_single_batch(rule, operations@);
        }
        assert forall|other: Seq<Seq<RowOperation>>|
            other.len() >= 1 && #[trigger] is_partition(
                rule,
                operations@,
                other,
            ) implies batches@.len() <= other.len() by {
            lemma_schedule_minimal(rule, operations@, other);
        }
    }
    batches
}

/// Checks that every operation of the stream names rows of a matrix with
/// `rows` rows only, and reports the first operation that does not.
pub fn check_operations(operations: &Vec<RowOperation>, rows: usize) -> (result: Result<
    (),
    PlanError,
>)
    ensures
        match result {
            Ok(_) => forall|i: int|
                0 <= i < operations@.len() ==> (#[trigger] operations@[i]).in_bounds(rows),
            Err(PlanError::IndexOutOfRange { position, row, rows: announced }) => {
                &&& position < operations@.len()
                &&& !operations@[position as int].in_bounds(rows)
                &&& forall|i: int| 0 <= i < position ==> (#[trigger] operations@[i]).in_bounds(rows)
                &&& row == operations@[position as int].first_row_outside(rows)
                &&& announced == rows
            },
            Err(_) => false,
        },
{
    let mut position: usize = 0;
    while position < operations.len()
        invariant
            position <= operations.len(),
            forall|i: int| 0 <= i < position ==> (#[trigger] operations@[i]).in_bounds(rows),
        decreases operations.len() - position,
    {
        let operation = &operations[position];
        if !operation.in_bounds(rows) {
            return Err(
                PlanError::IndexOutOfRange {
                    position,
                    row: operation.first_row_outside(rows),
                    rows,
                },
            );
        }
        position += 1;
    }
    Ok(())
}

/// An accumulator of row operations and of their schedule.
pub struct Planner {
    /// The operations in the order in which they were added.
    pub input_operations: Vec<RowOperation>,
    /// The schedule that the last call of [`Planner::optimize`] computed.
    pub optimized_operations: Vec<Vec<RowOperation>>,
    /// The rule by which the planner cuts batches.
    pub rule: ConflictRule,
}

impl Planner {
    /// The operations added so far.
    pub open spec fn operations(&self) -> Seq<RowOperation> {
        self.input_operations@
    }

    /// The batches that the planner holds.
    pub open spec fn batches(&self) -> Seq<Seq<RowOperation>> {
        batches_of(self.optimized_operations@)
    }

    /// A planner without operations and without batches, which cuts batches
    /// where a destination is written twice.
    pub fn new() -> (planner: Planner)
        ensures
            planner.operations() == Seq::<RowOperation>::empty(),
            planner.batches() == Seq::<Seq<RowOperation>>::empty(),
            planner.rule == ConflictRule::DestinationOnly,
    {
        Planner {
            input_operations: Vec::new(),
            optimized_operations: Vec::new(),
            rule: ConflictRule::DestinationOnly,
        }
    }

    /// A planner without operations and without batches, which cuts batches by `rule`.
    pub fn with_rule(rule: ConflictRule) -> (planner: Planner)
        ensures
            planner.operations() == Seq::<RowOperation>::empty(),
            planner.batches() == Seq::<Seq<RowOperation>>::empty(),
            planner.rule == rule,
    {
        Planner { input_operations: Vec::new(), optimized_operations: Vec::new(), rule }
    }

    /// Appends `operation` to the stream. The batches stay as they are.
    pub fn add_operation(&mut self, operation: RowOperation)
        ensures
            final(self).operations() == old(self).operations().push(operation),
            final(self).optimized_operations == old(self).optimized_operations,
            final(self).rule == old(self).rule,
    {
        self.input_operations.push(operation);
    }

    /// Replaces the batches by the schedule of the operations added so far.
    pub fn optimize(&mut self)
        ensures
            final(self).batches() == schedule_of(old(self).rule, old(self).operations()),
            is_greedy(old(self).rule, old(self).operations(), final(self).batches()),
            old(self).operations().len() > 0 ==> final(self).batches().len() <= old(
                self,
            ).operations().len(),
            conflict_free(old(self).rule, old(self).operations()) ==> final(self).batches()
                == seq![old(self).operations()],
            forall|other: Seq<Seq<RowOperation>>|
                other.len() >= 1 && #[trigger] is_partition(
                    old(self).rule,
                    old(self).operations(),
                    other,
                ) ==> final(self).batches().len() <= other.len(),
            final(self).input_operations == old(self).input_operations,
            final(self).rule == old(self).rule,
    {
        self.optimized_operations = schedule(&self.input_operations, self.rule);
    }
}

} // verus!
