//! Recovery: whether a stored plan belongs to the delivery that was rebuilt for it.

use crate::change::{count_events, events, lemma_row_events, negatives, positives, Change};
use crate::relation::batch::{Batch, Delete, Insert, MAX_MUTATIONS_PER_BATCH};
use crate::relation::fault::{RelationError, RelationErrorModel, RelationFault};
use crate::bytes::same_bytes;
use crate::relation::plan::{
    bounded_canonical_rows, keys_fault, keys_of, next_id_fits, validate_next_id,
};
use crate::text::{abs, magnitude};
use vstd::prelude::*;

verus! {

/// For each event of the first `rows` rows that inserts, its row.
pub open spec fn insert_rows(diffs: Seq<i64>, rows: int) -> Seq<u64>
    decreases rows,
{
    if rows <= 0 {
        Seq::empty()
    } else if diffs[rows - 1] > 0 {
        insert_rows(diffs, rows - 1) + repeated(rows - 1, diffs[rows - 1] as nat)
    } else {
        insert_rows(diffs, rows - 1)
    }
}

/// For each event of the first `rows` rows that deletes, its row.
pub open spec fn delete_rows(diffs: Seq<i64>, rows: int) -> Seq<u64>
    decreases rows,
{
    if rows <= 0 {
        Seq::empty()
    } else if diffs[rows - 1] < 0 {
        delete_rows(diffs, rows - 1) + repeated(rows - 1, (-diffs[rows - 1]) as nat)
    } else {
        delete_rows(diffs, rows - 1)
    }
}

/// A row, `count` times.
pub open spec fn repeated(row: int, count: nat) -> Seq<u64> {
    Seq::new(count, |k: int| row as u64)
}

/// The rows that a batch inserts.
pub open spec fn rows_inserted(batch: Batch) -> Seq<u64> {
    batch.inserts@.map_values(|insert: Insert| insert.row_index)
}

/// The rows that a batch deletes.
pub open spec fn rows_deleted(batch: Batch) -> Seq<u64> {
    batch.deletes@.map_values(|delete: Delete| delete.row_index)
}

/// The first ID that a batch inserts, where `next_id` follows its last one.
pub open spec fn first_id(batch: Batch, next_id: u64) -> int {
    next_id - batch.inserts@.len()
}

/// The inserted IDs end at the frontier, and the deleted ones lie below it, each once.
pub open spec fn ids_fit(batch: Batch, next_id: u64) -> bool {
    &&& forall|k: int|
        0 <= k < batch.inserts@.len() ==> (#[trigger] batch.inserts@[k]).technical_id == first_id(
            batch,
            next_id,
        ) + k
    &&& forall|k: int|
        0 <= k < batch.deletes@.len() ==> 0 < (#[trigger] batch.deletes@[k]).technical_id < next_id
    &&& forall|j: int, k: int|
        0 <= j < k < batch.deletes@.len() ==> (#[trigger] batch.deletes@[j]).technical_id != (
        #[trigger] batch.deletes@[k]).technical_id
}

/// A deletion of an ID that the batch itself inserts follows the insertion of an equal row.
pub open spec fn consumes_earlier(
    batch: Batch,
    next_id: u64,
    keys: Seq<Seq<u8>>,
    k: int,
) -> bool {
    let delete = batch.deletes@[k];
    let first = first_id(batch, next_id);
    delete.technical_id >= first ==> {
        let source = batch.inserts@[delete.technical_id - first].row_index;
        source < delete.row_index && keys[source as int] == keys[delete.row_index as int]
    }
}

/// Why a stored plan cannot belong to `change`, the order of its mutations aside.
pub open spec fn plan_fault(batch: Batch, next_id: u64, change: Change) -> Option<
    RelationErrorModel,
> {
    let count = batch.inserts@.len() + batch.deletes@.len();
    let rows = change.records.rows as int;
    let input = events(change.diffs@, rows);
    if !next_id_fits(next_id) {
        Some(RelationErrorModel::Fault(RelationFault::NextId))
    } else if input > u64::MAX {
        Some(RelationErrorModel::Fault(RelationFault::EventCountOverflow))
    } else if count == 0 || count > MAX_MUTATIONS_PER_BATCH || count != input {
        Some(RelationErrorModel::Fault(RelationFault::PlanCoverage))
    } else if first_id(batch, next_id) <= 0 {
        Some(RelationErrorModel::Fault(RelationFault::InsertFrontier))
    } else if !ids_fit(batch, next_id) {
        Some(RelationErrorModel::Fault(RelationFault::PreparedIds))
    } else {
        match keys_fault(change, rows) {
            Some(fault) => Some(RelationErrorModel::Row(fault)),
            None => None,
        }
    }
}

/// Whether the mutations of a stored plan are those that `change` asks for, in its order.
pub open spec fn plan_follows(batch: Batch, next_id: u64, change: Change) -> bool {
    let rows = change.records.rows as int;
    &&& rows_inserted(batch) == insert_rows(change.diffs@, rows)
    &&& rows_deleted(batch) == delete_rows(change.diffs@, rows)
    &&& forall|k: int|
        0 <= k < batch.deletes@.len() ==> #[trigger] consumes_earlier(
            batch,
            next_id,
            keys_of(change),
            k,
        )
}

/// Whether a stored plan belongs to `change`.
pub open spec fn plan_valid(batch: Batch, next_id: u64, change: Change) -> bool {
    plan_fault(batch, next_id, change) is None && plan_follows(batch, next_id, change)
}

/// Why the event of `row` behind `k` others of it, going backwards, does not match a plan, if
/// it does not.
pub open spec fn event_fault(
    batch: Batch,
    next_id: u64,
    change: Change,
    row: int,
    k: int,
) -> Option<RelationFault> {
    let diffs = change.diffs@;
    let total = diffs.len() as int;
    let insert = batch.inserts@.len() - (positives(diffs, total) - positives(diffs, row + 1)) - k
        - 1;
    let delete = batch.deletes@.len() - (negatives(diffs, total) - negatives(diffs, row + 1)) - k
        - 1;
    if diffs[row] > 0 {
        if insert < 0 || batch.inserts@[insert].row_index != row {
            Some(RelationFault::PreparedInserts)
        } else {
            None
        }
    } else if delete < 0 {
        Some(RelationFault::MissingDeletion)
    } else if batch.deletes@[delete].row_index != row {
        Some(RelationFault::PreparedDeletions)
    } else if !consumes_earlier(batch, next_id, keys_of(change), delete) {
        Some(RelationFault::ConsumedInsert)
    } else {
        None
    }
}

/// The first reason among the last `count` events of `row`, going backwards.
pub open spec fn row_order_fault(
    batch: Batch,
    next_id: u64,
    change: Change,
    row: int,
    count: int,
) -> Option<RelationFault>
    decreases count,
{
    if count <= 0 {
        None
    } else {
        match row_order_fault(batch, next_id, change, row, count - 1) {
            Some(fault) => Some(fault),
            None => event_fault(batch, next_id, change, row, count - 1),
        }
    }
}

/// The first reason from the last row back to `row`.
pub open spec fn order_fault(batch: Batch, next_id: u64, change: Change, row: int) -> Option<
    RelationFault,
>
    decreases change.diffs@.len() - row,
{
    if row < 0 || row >= change.diffs@.len() {
        None
    } else {
        match order_fault(batch, next_id, change, row + 1) {
            Some(fault) => Some(fault),
            None => row_order_fault(
                batch,
                next_id,
                change,
                row,
                abs(change.diffs@[row] as int) as int,
            ),
        }
    }
}

proof fn lemma_row_order_stays(
    batch: Batch,
    next_id: u64,
    change: Change,
    row: int,
    low: int,
    high: int,
)
    requires
        low <= high,
        row_order_fault(batch, next_id, change, row, low) is Some,
    ensures
        row_order_fault(batch, next_id, change, row, high) == row_order_fault(
            batch,
            next_id,
            change,
            row,
            low,
        ),
    decreases high - low,
{
    if low < high {
        lemma_row_order_stays(batch, next_id, change, row, low, high - 1);
    }
}

proof fn lemma_order_stays(batch: Batch, next_id: u64, change: Change, low: int, high: int)
    requires
        0 <= low <= high < change.diffs@.len(),
        order_fault(batch, next_id, change, high) is Some,
    ensures
        order_fault(batch, next_id, change, low) == order_fault(batch, next_id, change, high),
    decreases high - low,
{
    if low < high {
        lemma_order_stays(batch, next_id, change, low + 1, high);
    }
}

pub proof fn lemma_row_counts(diffs: Seq<i64>, rows: int)
    requires
        0 <= rows <= diffs.len(),
    ensures
        insert_rows(diffs, rows).len() == positives(diffs, rows),
        delete_rows(diffs, rows).len() == negatives(diffs, rows),
    decreases rows,
{
    if rows > 0 {
        lemma_row_counts(diffs, rows - 1);
    }
}

/// Whether no two deletions name the same ID.
fn has_distinct_ids(deletes: &Vec<Delete>) -> (distinct: bool)
    ensures
        distinct == forall|j: int, k: int|
            0 <= j < k < deletes@.len() ==> (#[trigger] deletes@[j]).technical_id != (
            #[trigger] deletes@[k]).technical_id,
{
    let mut later: usize = 0;
    while later < deletes.len()
        invariant
            later <= deletes@.len(),
            forall|j: int, k: int|
                0 <= j < k < later ==> (#[trigger] deletes@[j]).technical_id != (
                #[trigger] deletes@[k]).technical_id,
        decreases deletes@.len() - later,
    {
        let mut earlier: usize = 0;
        while earlier < later
            invariant
                earlier <= later < deletes@.len(),
                forall|j: int|
                    0 <= j < earlier ==> (#[trigger] deletes@[j]).technical_id
                        != deletes@[later as int].technical_id,
            decreases later - earlier,
        {
            if deletes[earlier].technical_id == deletes[later].technical_id {
                assert(deletes@[earlier as int].technical_id == deletes@[later as int].technical_id);
                return false;
            }
            earlier += 1;
        }
        later += 1;
    }
    true
}

/// Whether the IDs of a stored plan fit the frontier.
fn has_fitting_ids(batch: &Batch, next_id: u64, first: u64) -> (fit: bool)
    requires
        first == first_id(*batch, next_id),
    ensures
        fit == ids_fit(*batch, next_id),
{
    let mut index: usize = 0;
    while index < batch.inserts.len()
        invariant
            first == first_id(*batch, next_id),
            index <= batch.inserts@.len(),
            forall|k: int|
                0 <= k < index ==> (#[trigger] batch.inserts@[k]).technical_id == first_id(
                    *batch,
                    next_id,
                ) + k,
        decreases batch.inserts@.len() - index,
    {
        if batch.inserts[index].technical_id != first + index as u64 {
            assert(batch.inserts@[index as int].technical_id != first_id(*batch, next_id) + index);
            return false;
        }
        index += 1;
    }
    let mut next: usize = 0;
    while next < batch.deletes.len()
        invariant
            next <= batch.deletes@.len(),
            forall|k: int|
                0 <= k < next ==> 0 < (#[trigger] batch.deletes@[k]).technical_id < next_id,
        decreases batch.deletes@.len() - next,
    {
        let id: u64 = batch.deletes[next].technical_id;
        if id == 0 || id >= next_id {
            assert(!(0 < batch.deletes@[next as int].technical_id < next_id));
            return false;
        }
        next += 1;
    }
    has_distinct_ids(&batch.deletes)
}

/// Dropping the last of a row's events from both sides keeps them equal or unequal.
proof fn lemma_drop_event(actual: Seq<u64>, left: int, before: Seq<u64>, row: int, count: nat)
    requires
        0 <= left <= actual.len(),
        count > 0,
    ensures
        actual.take(left) == before + repeated(row, count) <==> {
            &&& left > 0
            &&& actual[left - 1] == row as u64
            &&& actual.take(left - 1) == before + repeated(row, (count - 1) as nat)
        },
{
    let expected = before + repeated(row, count);
    let shorter = before + repeated(row, (count - 1) as nat);
    assert(expected =~= shorter.push(row as u64));
    if left > 0 {
        assert(actual.take(left) =~= actual.take(left - 1).push(actual[left - 1]));
        if actual.take(left) == expected {
            assert(expected.drop_last() =~= shorter);
            assert(actual.take(left).drop_last() =~= actual.take(left - 1));
            assert(actual.take(left).last() == actual[left - 1]);
        }
    } else {
        assert(actual.take(left).len() == 0);
    }
}

/// Validates a recovered immutable plan against its exact reconstructed input.
pub fn validate(batch: &Batch, next_id: u64, input: &Change) -> (result: Result<(), RelationError>)
    requires
        input.wf(),
    ensures
        result is Ok <==> plan_valid(*batch, next_id, *input),
        plan_fault(*batch, next_id, *input) is Some ==> result is Err && result->Err_0@
            == plan_fault(*batch, next_id, *input)->0,
        plan_fault(*batch, next_id, *input) is None && result is Err ==> {
            &&& order_fault(*batch, next_id, *input, 0) is Some
            &&& result->Err_0@ == RelationErrorModel::Fault(
                order_fault(*batch, next_id, *input, 0)->0,
            )
        },
        plan_valid(*batch, next_id, *input) ==> order_fault(*batch, next_id, *input, 0) is None,
{
    validate_next_id(next_id)?;
    let input_count: u64 = match count_events(input.diffs.as_slice()) {
        Some(count) => count,
        None => {
            return Err(RelationError::Fault(RelationFault::EventCountOverflow));
        },
    };
    let insert_count: usize = batch.inserts.len();
    let delete_count: usize = batch.deletes.len();
    if insert_count > MAX_MUTATIONS_PER_BATCH || delete_count > MAX_MUTATIONS_PER_BATCH {
        return Err(RelationError::Fault(RelationFault::PlanCoverage));
    }
    let count: usize = insert_count + delete_count;
    if count == 0 || count > MAX_MUTATIONS_PER_BATCH || count as u64 != input_count {
        return Err(RelationError::Fault(RelationFault::PlanCoverage));
    }
    if insert_count as u64 >= next_id {
        return Err(RelationError::Fault(RelationFault::InsertFrontier));
    }
    let first: u64 = next_id - insert_count as u64;
    if !has_fitting_ids(batch, next_id, first) {
        return Err(RelationError::Fault(RelationFault::PreparedIds));
    }
    let rows: Vec<Vec<u8>> = match bounded_canonical_rows(input) {
        Ok(rows) => rows,
        Err(error) => {
            return Err(RelationError::Row(error));
        },
    };
    let ghost keys = keys_of(*input);
    let ghost diffs = input.diffs@;
    let ghost total = input.records.rows as int;
    let ghost inserted = rows_inserted(*batch);
    let ghost deleted = rows_deleted(*batch);
    let mut inserts_left: usize = insert_count;
    let mut deletes_left: usize = delete_count;
    let mut row: usize = input.diffs.len();
    let mut alike: Option<(usize, usize)> = None;
    proof {
        assert(inserted.take(inserts_left as int) =~= inserted);
        assert(deleted.take(deletes_left as int) =~= deleted);
        lemma_row_counts(diffs, total);
    }
    while row > 0
        invariant
            input.wf(),
            diffs == input.diffs@,
            total == input.records.rows,
            total == diffs.len(),
            keys == keys_of(*input),
            rows@.len() == total,
            forall|i: int| 0 <= i < rows@.len() ==> #[trigger] rows@[i]@ == keys[i],
            alike matches Some((left_row, right_row)) ==> left_row < total && right_row < total
                && keys[left_row as int] == keys[right_row as int],
            inserted == rows_inserted(*batch),
            deleted == rows_deleted(*batch),
            insert_rows(diffs, total).len() == positives(diffs, total),
            delete_rows(diffs, total).len() == negatives(diffs, total),
            first == first_id(*batch, next_id),
            first > 0,
            ids_fit(*batch, next_id),
            plan_fault(*batch, next_id, *input) is None,
            batch.inserts@.len() + batch.deletes@.len() == events(diffs, total),
            row <= total,
            order_fault(*batch, next_id, *input, row as int) is None,
            inserts_left <= batch.inserts@.len(),
            deletes_left <= batch.deletes@.len(),
            batch.inserts@.len() - inserts_left == positives(diffs, total) - positives(
                diffs,
                row as int,
            ),
            batch.deletes@.len() - deletes_left == negatives(diffs, total) - negatives(
                diffs,
                row as int,
            ),
            inserted == insert_rows(diffs, total) <==> inserted.take(inserts_left as int)
                == insert_rows(diffs, row as int),
            deleted == delete_rows(diffs, total) <==> deleted.take(deletes_left as int)
                == delete_rows(diffs, row as int),
            forall|k: int|
                deletes_left <= k < batch.deletes@.len() ==> #[trigger] consumes_earlier(
                    *batch,
                    next_id,
                    keys,
                    k,
                ),
        decreases row,
    {
        let here: usize = row - 1;
        let diff: i64 = input.diffs[here];
        let mut left: u64 = magnitude(diff);
        let ghost inserts_before = insert_rows(diffs, here as int);
        let ghost deletes_before = delete_rows(diffs, here as int);
        while left > 0
            invariant
                input.wf(),
                diffs == input.diffs@,
                total == input.records.rows,
                total == diffs.len(),
                keys == keys_of(*input),
                rows@.len() == total,
                forall|i: int| 0 <= i < rows@.len() ==> #[trigger] rows@[i]@ == keys[i],
                alike matches Some((left_row, right_row)) ==> left_row < total && right_row < total
                    && keys[left_row as int] == keys[right_row as int],
                inserted == rows_inserted(*batch),
                deleted == rows_deleted(*batch),
                delete_rows(diffs, total).len() == negatives(diffs, total),
                first == first_id(*batch, next_id),
                first > 0,
                ids_fit(*batch, next_id),
                plan_fault(*batch, next_id, *input) is None,
                here < total,
                left <= abs(diff as int),
                order_fault(*batch, next_id, *input, here + 1) is None,
                row_order_fault(*batch, next_id, *input, here as int, abs(diff as int) - left)
                    is None,
                diff == diffs[here as int],
                diff != 0,
                inserts_before == insert_rows(diffs, here as int),
                deletes_before == delete_rows(diffs, here as int),
                inserts_left <= batch.inserts@.len(),
                deletes_left <= batch.deletes@.len(),
                batch.inserts@.len() - inserts_left == positives(diffs, total) - positives(
                    diffs,
                    here as int,
                ) - (if diff > 0 {
                    left as int
                } else {
                    0
                }),
                batch.deletes@.len() - deletes_left == negatives(diffs, total) - negatives(
                    diffs,
                    here as int,
                ) - (if diff < 0 {
                    left as int
                } else {
                    0
                }),
                inserted == insert_rows(diffs, total) <==> inserted.take(inserts_left as int)
                    == inserts_before + repeated(
                    here as int,
                    if diff > 0 {
                        left as nat
                    } else {
                        0
                    },
                ),
                deleted == delete_rows(diffs, total) <==> deleted.take(deletes_left as int)
                    == deletes_before + repeated(
                    here as int,
                    if diff < 0 {
                        left as nat
                    } else {
                        0
                    },
                ),
                forall|k: int|
                    deletes_left <= k < batch.deletes@.len() ==> #[trigger] consumes_earlier(
                        *batch,
                        next_id,
                        keys,
                        k,
                    ),
            decreases left,
        {
            let ghost place = abs(diff as int) - left;
            proof {
                lemma_row_events(diffs, here as int);
                if event_fault(*batch, next_id, *input, here as int, place) is Some {
                    lemma_row_order_stays(
                        *batch,
                        next_id,
                        *input,
                        here as int,
                        place + 1,
                        abs(diff as int) as int,
                    );
                    lemma_order_stays(*batch, next_id, *input, 0, here as int);
                }
            }
            if diff > 0 {
                proof {
                    lemma_drop_event(
                        inserted,
                        inserts_left as int,
                        inserts_before,
                        here as int,
                        left as nat,
                    );
                }
                if inserts_left == 0 || batch.inserts[inserts_left - 1].row_index != here as u64 {
                    return Err(RelationError::Fault(RelationFault::PreparedInserts));
                }
                inserts_left -= 1;
            } else {
                proof {
                    lemma_drop_event(
                        deleted,
                        deletes_left as int,
                        deletes_before,
                        here as int,
                        left as nat,
                    );
                }
                if deletes_left == 0 {
                    return Err(RelationError::Fault(RelationFault::MissingDeletion));
                }
                let delete: Delete = batch.deletes[deletes_left - 1];
                if delete.row_index != here as u64 {
                    return Err(RelationError::Fault(RelationFault::PreparedDeletions));
                }
                if delete.technical_id >= first {
                    let offset: u64 = delete.technical_id - first;
                    let source: u64 = batch.inserts[offset as usize].row_index;
                    if source >= here as u64 {
                        assert(!consumes_earlier(*batch, next_id, keys, deletes_left - 1));
                        return Err(RelationError::Fault(RelationFault::ConsumedInsert));
                    }
                    let known: bool = match alike {
                        Some((left_row, right_row)) => left_row == source as usize && right_row
                            == here,
                        None => false,
                    };
                    if !known {
                        if !same_bytes(rows[source as usize].as_slice(), rows[here].as_slice()) {
                            assert(!consumes_earlier(*batch, next_id, keys, deletes_left - 1));
                            return Err(RelationError::Fault(RelationFault::ConsumedInsert));
                        }
                        alike = Some((source as usize, here));
                    }
                }
                assert(consumes_earlier(*batch, next_id, keys, deletes_left - 1));
                deletes_left -= 1;
            }
            left -= 1;
        }
        proof {
            assert(inserts_before + repeated(here as int, 0) =~= inserts_before);
            assert(deletes_before + repeated(here as int, 0) =~= deletes_before);
        }
        row -= 1;
    }
    assert(inserted.take(0) =~= Seq::empty());
    assert(deleted.take(0) =~= Seq::empty());
    Ok(())
}

} // verus!
