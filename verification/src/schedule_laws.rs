//! What holds of every schedule.
//!
//! Each public proof function states one property of [`schedule_of`] for all
//! streams of operations and for both conflict rules, unless it names a rule.

use crate::planner::{
    conflict_free, is_greedy, is_partition, schedule_of, ConflictRule, RowOperation,
};
use vstd::prelude::*;

verus! {

/// A sequence of sequences with a last member flattens to what the members
/// before it flatten to, followed by the last member.
proof fn lemma_flatten_last<A>(parts: Seq<Seq<A>>)
    requires
        parts.len() >= 1,
    ensures
        parts.flatten() == parts.drop_last().flatten() + parts.last(),
{
    assert(parts.drop_last().push(parts.last()) =~= parts);
    parts.drop_last().lemma_flatten_push(parts.last());
}

/// A schedule has at least one batch. The empty stream has the schedule of
/// one empty batch; any other stream has at most as many batches as
/// operations, and none of them is empty.
pub proof fn lemma_schedule_shape(rule: ConflictRule, operations: Seq<RowOperation>)
    ensures
        schedule_of(rule, operations).len() >= 1,
        operations.len() == 0 ==> schedule_of(rule, operations) == seq![
            Seq::<RowOperation>::empty(),
        ],
        operations.len() > 0 ==> schedule_of(rule, operations).len() <= operations.len(),
        operations.len() > 0 ==> forall|k: int|
            0 <= k < schedule_of(rule, operations).len() ==> (#[trigger] schedule_of(
                rule,
                operations,
            )[k]).len() > 0,
    decreases operations.len(),
{
    if operations.len() > 0 {
        lemma_schedule_shape(rule, operations.drop_last());
    }
}

/// The batches of a schedule, one after the other, are the stream itself.
pub proof fn lemma_schedule_concatenation(rule: ConflictRule, operations: Seq<RowOperation>)
    ensures
        schedule_of(rule, operations).flatten() == operations,
    decreases operations.len(),
{
    let batches = schedule_of(rule, operations);
    if operations.len() == 0 {
        lemma_flatten_last(batches);
        assert(batches.drop_last() =~= Seq::<Seq<RowOperation>>::empty());
        assert(batches.flatten() =~= operations);
    } else {
        let earlier = schedule_of(rule, operations.drop_last());
        let operation = operations.last();
        lemma_schedule_shape(rule, operations.drop_last());
        lemma_schedule_concatenation(rule, operations.drop_last());
        lemma_flatten_last(earlier);
        lemma_flatten_last(batches);
        if rule.conflicts_with(earlier.last(), operation) {
            assert(batches.drop_last() =~= earlier);
        } else {
            assert(batches.drop_last() =~= earlier.drop_last());
        }
        assert(batches.flatten() =~= operations.drop_last().push(operation));
        assert(operations.drop_last().push(operation) =~= operations);
    }
}

/// Equal streams have equal schedules: a schedule depends on the rule and
/// the operations alone.
pub proof fn lemma_schedule_deterministic(
    rule: ConflictRule,
    first: Seq<RowOperation>,
    second: Seq<RowOperation>,
)
    requires
        first == second,
    ensures
        schedule_of(rule, first) == schedule_of(rule, second),
{
}

/// No batch of a schedule holds an operation that collides with an earlier
/// operation of the same batch.
pub proof fn lemma_batches_conflict_free(rule: ConflictRule, operations: Seq<RowOperation>)
    ensures
        forall|k: int|
            0 <= k < schedule_of(rule, operations).len() ==> conflict_free(
                rule,
                #[trigger] schedule_of(rule, operations)[k],
            ),
    decreases operations.len(),
{
    if operations.len() > 0 {
        lemma_batches_conflict_free(rule, operations.drop_last());
        lemma_schedule_shape(rule, operations.drop_last());
    }
}

/// Two different operations of one batch never write the same row, whatever the rule.
pub proof fn lemma_distinct_destinations_in_batch(
    rule: ConflictRule,
    operations: Seq<RowOperation>,
    k: int,
    i: int,
    j: int,
)
    requires
        0 <= k < schedule_of(rule, operations).len(),
        0 <= i < schedule_of(rule, operations)[k].len(),
        0 <= j < schedule_of(rule, operations)[k].len(),
        i != j,
    ensures
        schedule_of(rule, operations)[k][i].destination_row_idx != schedule_of(
            rule,
            operations,
        )[k][j].destination_row_idx,
{
    lemma_batches_conflict_free(rule, operations);
    let batch = schedule_of(rule, operations)[k];
    assert(conflict_free(rule, batch));
    if i < j {
        assert(!rule.collides(batch[i], batch[j]));
    } else {
        assert(!rule.collides(batch[j], batch[i]));
    }
}

/// Under the rule that looks at sources too, no operation of a batch reads a
/// row that an earlier operation of the same batch writes.
pub proof fn lemma_no_read_after_write_in_batch(
    operations: Seq<RowOperation>,
    k: int,
    i: int,
    j: int,
)
    requires
        0 <= k < schedule_of(ConflictRule::DestinationAndSources, operations).len(),
        0 <= i < j < schedule_of(ConflictRule::DestinationAndSources, operations)[k].len(),
    ensures
        !schedule_of(ConflictRule::DestinationAndSources, operations)[k][j].reads(
            schedule_of(ConflictRule::DestinationAndSources, operations)[k][i].destination_row_idx,
        ),
{
    let rule = ConflictRule::DestinationAndSources;
    lemma_batches_conflict_free(rule, operations);
    let batch = schedule_of(rule, operations)[k];
    assert(conflict_free(rule, batch));
    assert(!rule.collides(batch[i], batch[j]));
}

/// A batch is closed only where it must be: the first operation of every
/// batch but the first collides with an operation of the batch before it.
pub proof fn lemma_boundaries_forced(rule: ConflictRule, operations: Seq<RowOperation>)
    ensures
        forall|k: int|
            1 <= k < schedule_of(rule, operations).len() ==> rule.conflicts_with(
                schedule_of(rule, operations)[k - 1],
                (#[trigger] schedule_of(rule, operations)[k]).first(),
            ),
    decreases operations.len(),
{
    if operations.len() > 0 {
        let earlier = schedule_of(rule, operations.drop_last());
        let batches = schedule_of(rule, operations);
        lemma_boundaries_forced(rule, operations.drop_last());
        lemma_schedule_shape(rule, operations.drop_last());
        assert forall|k: int| 1 <= k < batches.len() implies rule.conflicts_with(
            batches[k - 1],
            (#[trigger] batches[k]).first(),
        ) by {
            if k < earlier.len() {
                assert(rule.conflicts_with(earlier[k - 1], earlier[k].first()));
                assert(operations.drop_last().len() > 0);
                assert(earlier[k].len() > 0);
            }
        }
    }
}

/// A stream in which no operation collides with an earlier one is scheduled
/// as a single batch.
pub proof fn lemma_conflict_free_stream_single_batch(
    rule: ConflictRule,
    operations: Seq<RowOperation>,
)
    requires
        conflict_free(rule, operations),
    ensures
        schedule_of(rule, operations) == seq![operations],
    decreases operations.len(),
{
    if operations.len() > 0 {
        let shorter = operations.drop_last();
        assert(conflict_free(rule, shorter)) by {
            assert forall|i: int, j: int| 0 <= i < j < shorter.len() implies !rule.collides(
                #[trigger] shorter[i],
                #[trigger] shorter[j],
            ) by {
                assert(!rule.collides(operations[i], operations[j]));
            }
        }
        lemma_conflict_free_stream_single_batch(rule, shorter);
        assert(!rule.conflicts_with(shorter, operations.last())) by {
            assert forall|i: int| 0 <= i < shorter.len() implies !rule.collides(
                #[trigger] shorter[i],
                operations.last(),
            ) by {
                assert(!rule.collides(operations[i], operations[operations.len() - 1]));
            }
        }
        assert(shorter.push(operations.last()) =~= operations);
        assert(schedule_of(rule, operations) =~= seq![operations]);
    } else {
        assert(schedule_of(rule, operations) =~~= seq![operations]);
    }
}

/// Where no two operations write the same row, the schedule that cuts at
/// repeated destinations is a single batch.
pub proof fn lemma_distinct_destinations_single_batch(operations: Seq<RowOperation>)
    requires
        forall|i: int, j: int|
            0 <= i < j < operations.len() ==> (#[trigger] operations[i]).destination_row_idx != (
            #[trigger] operations[j]).destination_row_idx,
    ensures
        schedule_of(ConflictRule::DestinationOnly, operations) == seq![operations],
{
    lemma_conflict_free_stream_single_batch(ConflictRule::DestinationOnly, operations);
}

/// The schedule never falls behind another partition of the same stream: it
/// has no more batches, and where it has as many, its last batch is no longer.
proof fn lemma_schedule_stays_ahead(
    rule: ConflictRule,
    operations: Seq<RowOperation>,
    other: Seq<Seq<RowOperation>>,
)
    requires
        is_partition(rule, operations, other),
        other.len() >= 1,
    ensures
        schedule_of(rule, operations).len() <= other.len(),
        schedule_of(rule, operations).len() == other.len() ==> schedule_of(
            rule,
            operations,
        ).last().len() <= other.last().len(),
    decreases operations.len(), other.len(),
{
    let batches = schedule_of(rule, operations);
    lemma_flatten_last(other);
    if operations.len() == 0 {
    } else if other.last().len() == 0 {
        let fewer = other.drop_last();
        assert(fewer.flatten() =~= operations);
        if fewer.len() == 0 {
            assert(fewer.flatten() =~= Seq::<RowOperation>::empty());
        }
        lemma_schedule_stays_ahead(rule, operations, fewer);
    } else {
        let shorter = operations.drop_last();
        let operation = operations.last();
        let tail = other.last();
        let trimmed = other.update(other.len() - 1, tail.drop_last());
        assert(tail.last() == operation);
        lemma_flatten_last(trimmed);
        assert(trimmed.drop_last() =~= other.drop_last());
        assert(trimmed.flatten() =~= shorter);
        assert(conflict_free(rule, tail));
        assert forall|k: int| 0 <= k < trimmed.len() implies conflict_free(
            rule,
            #[trigger] trimmed[k],
        ) by {
            if k == trimmed.len() - 1 {
                assert forall|i: int, j: int| 0 <= i < j < trimmed[k].len() implies !rule.collides(
                    #[trigger] trimmed[k][i],
                    #[trigger] trimmed[k][j],
                ) by {
                    assert(!rule.collides(tail[i], tail[j]));
                }
            } else {
                assert(conflict_free(rule, other[k]));
            }
        }
        lemma_schedule_stays_ahead(rule, shorter, trimmed);
        let earlier = schedule_of(rule, shorter);
        lemma_schedule_shape(rule, shorter);
        if rule.conflicts_with(earlier.last(), operation) && earlier.len() == other.len() {
            let open = earlier.last();
            let i = choose|i: int| 0 <= i < open.len() && rule.collides(#[trigger] open[i], operation);
            lemma_schedule_concatenation(rule, shorter);
            lemma_flatten_last(earlier);
            let shift = trimmed.last().len() - open.len();
            assert(open[i] == shorter[shorter.len() - open.len() + i]);
            assert(trimmed.last()[shift + i] == shorter[shorter.len() - open.len() + i]);
            assert(tail[shift + i] == open[i]);
            assert(!rule.collides(tail[shift + i], tail[tail.len() - 1]));
        }
    }
}

/// No partition of a stream into consecutive batches free of conflicts has
/// fewer batches than the schedule.
pub proof fn lemma_schedule_minimal(
    rule: ConflictRule,
    operations: Seq<RowOperation>,
    other: Seq<Seq<RowOperation>>,
)
    requires
        is_partition(rule, operations, other),
        other.len() >= 1,
    ensures
        schedule_of(rule, operations).len() <= other.len(),
{
    lemma_schedule_stays_ahead(rule, operations, other);
}

/// The schedule of a stream is greedy.
pub proof fn lemma_schedule_greedy(rule: ConflictRule, operations: Seq<RowOperation>)
    ensures
        is_greedy(rule, operations, schedule_of(rule, operations)),
{
    lemma_schedule_shape(rule, operations);
    lemma_schedule_concatenation(rule, operations);
    lemma_batches_conflict_free(rule, operations);
    lemma_boundaries_forced(rule, operations);
}

/// The schedule of a stream is its only greedy partition.
pub proof fn lemma_schedule_unique(
    rule: ConflictRule,
    operations: Seq<RowOperation>,
    batches: Seq<Seq<RowOperation>>,
)
    requires
        is_greedy(rule, operations, batches),
    ensures
        batches == schedule_of(rule, operations),
    decreases operations.len(),
{
    lemma_flatten_last(batches);
    let tail = batches.last();
    if operations.len() == 0 {
        assert(tail.len() == 0);
        assert(batches =~~= seq![Seq::<RowOperation>::empty()]);
    } else {
        let shorter = operations.drop_last();
        let operation = operations.last();
        if tail.len() == 0 {
            assert(batches.drop_last() =~= Seq::<Seq<RowOperation>>::empty());
            assert(batches.flatten() =~= Seq::<RowOperation>::empty());
        }
        assert(tail.last() == operation);
        assert(conflict_free(rule, tail));
        if tail.len() == 1 {
            let closed = batches.drop_last();
            assert(closed.flatten() =~= shorter);
            assert(seq![operation] =~= tail);
            if closed.len() == 0 {
                assert(shorter.len() == 0);
                lemma_schedule_shape(rule, shorter);
                assert(batches =~~= seq![seq![operation]]);
                assert(schedule_of(rule, operations) =~~= seq![seq![operation]]);
            } else {
                assert forall|k: int| 0 <= k < closed.len() implies conflict_free(
                    rule,
                    #[trigger] closed[k],
                ) by {
                    assert(closed[k] == batches[k]);
                }
                assert forall|k: int| 0 <= k < closed.len() && (#[trigger] closed[k]).len()
                    == 0 implies closed.len() == 1 by {
                    assert(closed[k] == batches[k]);
                }
                assert forall|k: int| 1 <= k < closed.len() implies rule.conflicts_with(
                    closed[k - 1],
                    (#[trigger] closed[k]).first(),
                ) by {
                    assert(closed[k] == batches[k]);
                    assert(closed[k - 1] == batches[k - 1]);
                }
                lemma_schedule_unique(rule, shorter, closed);
                assert(rule.conflicts_with(batches[batches.len() - 2], tail.first()));
                assert(closed.last() == batches[batches.len() - 2]);
                assert(closed.push(tail) =~= batches);
            }
        } else {
            let trimmed = batches.update(batches.len() - 1, tail.drop_last());
            lemma_flatten_last(trimmed);
            assert(trimmed.drop_last() =~= batches.drop_last());
            assert(trimmed.flatten() =~= shorter);
            assert(conflict_free(rule, tail.drop_last())) by {
                assert forall|i: int, j: int| 0 <= i < j < tail.drop_last().len() implies 
                    !rule.collides(#[trigger] tail.drop_last()[i], #[trigger] tail.drop_last()[j]) by {
                    assert(!rule.collides(tail[i], tail[j]));
                }
            }
            assert forall|k: int| 0 <= k < trimmed.len() implies conflict_free(
                rule,
                #[trigger] trimmed[k],
            ) by {
                if k < trimmed.len() - 1 {
                    assert(trimmed[k] == batches[k]);
                }
            }
            assert forall|k: int| 0 <= k < trimmed.len() && (#[trigger] trimmed[k]).len()
                == 0 implies trimmed.len() == 1 by {
                if k < trimmed.len() - 1 {
                    assert(trimmed[k] == batches[k]);
                }
            }
            assert forall|k: int| 1 <= k < trimmed.len() implies rule.conflicts_with(
                trimmed[k - 1],
                (#[trigger] trimmed[k]).first(),
            ) by {
                assert(rule.conflicts_with(batches[k - 1], batches[k].first()));
                assert(trimmed[k - 1] == batches[k - 1]);
                assert(trimmed[k].first() == batches[k].first());
            }
            lemma_schedule_unique(rule, shorter, trimmed);
            assert(!rule.conflicts_with(tail.drop_last(), operation)) by {
                assert forall|i: int| 0 <= i < tail.drop_last().len() implies !rule.collides(
                    #[trigger] tail.drop_last()[i],
                    operation,
                ) by {
                    assert(!rule.collides(tail[i], tail[tail.len() - 1]));
                }
            }
            assert(tail.drop_last().push(operation) =~= tail);
            assert(trimmed.update(trimmed.len() - 1, tail) =~= batches);
        }
    }
}

} // verus!
