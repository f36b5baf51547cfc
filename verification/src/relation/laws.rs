//! What holds of planning and recovery together.

use crate::buffered::delivery::DeliveryBatch;
use crate::change::{lemma_counts_grow, negatives, positives};
use crate::relation::batch::{Batch, Delete, Insert, EXHAUSTED_ID};
use crate::relation::plan::{
    added, distinct_keys, inserted_ids, keys_of, lemma_ids_suffice, lemma_reply_is_used,
    lookup_fault, matches_fit, offered, offers, planned, planned_deletes, planned_inserts,
    request_of, requests_of, row_deletes, row_inserts, survey_fault, taken, Matches, RowPlan,
    Survey,
};
use crate::relation::recovery::{
    consumes_earlier, delete_rows, first_id, ids_fit, insert_rows, plan_fault, plan_follows,
    plan_valid, repeated,
};
use vstd::prelude::*;

verus! {

/// An insertion stands in the place of its ID, within the events of its row.
pub proof fn lemma_planned_insert(diffs: Seq<i64>, next_id: u64, rows: int, m: int)
    requires
        0 <= rows <= diffs.len(),
        diffs.len() <= u64::MAX,
        next_id + positives(diffs, rows) <= EXHAUSTED_ID,
        0 <= m < positives(diffs, rows),
    ensures
        planned_inserts(diffs, next_id, rows).len() == positives(diffs, rows),
        ({
            let insert = planned_inserts(diffs, next_id, rows)[m];
            let row = insert.row_index as int;
            &&& insert.technical_id == next_id + m
            &&& 0 <= row < rows
            &&& diffs[row] > 0
            &&& positives(diffs, row) <= m < positives(diffs, row + 1)
        }),
    decreases rows,
{
    lemma_planned_counts(diffs, next_id, rows);
    if rows > 0 {
        lemma_planned_counts(diffs, next_id, rows - 1);
        if m < positives(diffs, rows - 1) {
            lemma_planned_insert(diffs, next_id, rows - 1, m);
        }
    }
}

pub proof fn lemma_planned_counts(diffs: Seq<i64>, next_id: u64, rows: int)
    requires
        0 <= rows <= diffs.len(),
    ensures
        planned_inserts(diffs, next_id, rows).len() == positives(diffs, rows),
    decreases rows,
{
    if rows > 0 {
        lemma_planned_counts(diffs, next_id, rows - 1);
    }
}

pub proof fn lemma_inserted_rows(diffs: Seq<i64>, next_id: u64, rows: int)
    requires
        0 <= rows <= diffs.len(),
    ensures
        planned_inserts(diffs, next_id, rows).map_values(|insert: Insert| insert.row_index)
            == insert_rows(diffs, rows),
    decreases rows,
{
    if rows > 0 {
        lemma_inserted_rows(diffs, next_id, rows - 1);
        let before = planned_inserts(diffs, next_id, rows - 1);
        let part = row_inserts(diffs, next_id, rows - 1);
        let row = |insert: Insert| insert.row_index;
        assert((before + part).map_values(row) =~= before.map_values(row) + part.map_values(row));
        if diffs[rows - 1] > 0 {
            assert(part.map_values(row) =~= repeated(rows - 1, diffs[rows - 1] as nat));
        } else {
            assert(before.map_values(row) + part.map_values(row) =~= before.map_values(row));
        }
    } else {
        assert(planned_inserts(diffs, next_id, rows).map_values(|insert: Insert| insert.row_index)
            =~= insert_rows(diffs, rows));
    }
}

pub proof fn lemma_deleted_rows(
    keys: Seq<Seq<u8>>,
    diffs: Seq<i64>,
    next_id: u64,
    group_of: Seq<usize>,
    found: Seq<Seq<u64>>,
    rows: int,
)
    requires
        0 <= rows <= diffs.len(),
    ensures
        planned_deletes(keys, diffs, next_id, group_of, found, rows).map_values(
            |delete: Delete| delete.row_index,
        ) == delete_rows(diffs, rows),
        planned_deletes(keys, diffs, next_id, group_of, found, rows).len() == negatives(
            diffs,
            rows,
        ),
    decreases rows,
{
    let row = |delete: Delete| delete.row_index;
    if rows > 0 {
        lemma_deleted_rows(keys, diffs, next_id, group_of, found, rows - 1);
        let before = planned_deletes(keys, diffs, next_id, group_of, found, rows - 1);
        let part = row_deletes(
            keys,
            diffs,
            next_id,
            found[group_of[rows - 1] as int],
            rows - 1,
        );
        assert((before + part).map_values(row) =~= before.map_values(row) + part.map_values(row));
        if diffs[rows - 1] < 0 {
            assert(part.map_values(row) =~= repeated(rows - 1, (-diffs[rows - 1]) as nat));
        } else {
            assert(before.map_values(row) + part.map_values(row) =~= before.map_values(row));
        }
    } else {
        assert(planned_deletes(keys, diffs, next_id, group_of, found, rows).map_values(row)
            =~= delete_rows(diffs, rows));
    }
}

/// A deletion takes the next ID of its key that earlier rows have left.
pub proof fn lemma_planned_delete(
    keys: Seq<Seq<u8>>,
    diffs: Seq<i64>,
    next_id: u64,
    group_of: Seq<usize>,
    found: Seq<Seq<u64>>,
    rows: int,
    k: int,
)
    requires
        0 <= rows <= diffs.len(),
        diffs.len() <= u64::MAX,
        0 <= k < negatives(diffs, rows),
    ensures
        ({
            let delete = planned_deletes(keys, diffs, next_id, group_of, found, rows)[k];
            let row = delete.row_index as int;
            let ids = found[group_of[row] as int] + inserted_ids(
                keys,
                diffs,
                next_id,
                keys[row],
                row,
            );
            &&& 0 <= row < rows
            &&& diffs[row] < 0
            &&& negatives(diffs, row) <= k < negatives(diffs, row + 1)
            &&& delete.technical_id == ids[taken(keys, diffs, keys[row], row) + k - negatives(
                diffs,
                row,
            )]
        }),
    decreases rows,
{
    if rows > 0 {
        lemma_deleted_rows(keys, diffs, next_id, group_of, found, rows - 1);
        if k < negatives(diffs, rows - 1) {
            lemma_planned_delete(keys, diffs, next_id, group_of, found, rows - 1, k);
        }
    }
}

/// An inserted ID belongs to a row of its key.
pub proof fn lemma_inserted_id(
    keys: Seq<Seq<u8>>,
    diffs: Seq<i64>,
    next_id: u64,
    key: Seq<u8>,
    rows: int,
    q: int,
) -> (row: int)
    requires
        0 <= rows <= diffs.len(),
        next_id + positives(diffs, rows) <= EXHAUSTED_ID,
        0 <= q < inserted_ids(keys, diffs, next_id, key, rows).len(),
    ensures
        0 <= row < rows,
        keys[row] == key,
        diffs[row] > 0,
        positives(diffs, row) <= inserted_ids(keys, diffs, next_id, key, rows)[q] - next_id
            < positives(diffs, row + 1),
    decreases rows,
{
    let before = inserted_ids(keys, diffs, next_id, key, rows - 1);
    if q < before.len() {
        lemma_inserted_id(keys, diffs, next_id, key, rows - 1, q)
    } else {
        rows - 1
    }
}

/// IDs are inserted in ascending order.
proof fn lemma_inserted_ascend(
    keys: Seq<Seq<u8>>,
    diffs: Seq<i64>,
    next_id: u64,
    key: Seq<u8>,
    rows: int,
    p: int,
    q: int,
)
    requires
        0 <= rows <= diffs.len(),
        next_id + positives(diffs, rows) <= EXHAUSTED_ID,
        0 <= p < q < inserted_ids(keys, diffs, next_id, key, rows).len(),
    ensures
        inserted_ids(keys, diffs, next_id, key, rows)[p] < inserted_ids(
            keys,
            diffs,
            next_id,
            key,
            rows,
        )[q],
    decreases rows,
{
    let before = inserted_ids(keys, diffs, next_id, key, rows - 1);
    if q < before.len() {
        lemma_inserted_ascend(keys, diffs, next_id, key, rows - 1, p, q);
    } else if p < before.len() {
        let row = lemma_inserted_id(keys, diffs, next_id, key, rows - 1, p);
        lemma_counts_grow(diffs, row + 1, rows - 1);
    }
}

/// Later rows only add to the inserted IDs of a key.
proof fn lemma_inserted_prefix(
    keys: Seq<Seq<u8>>,
    diffs: Seq<i64>,
    next_id: u64,
    key: Seq<u8>,
    low: int,
    high: int,
)
    requires
        0 <= low <= high <= diffs.len(),
    ensures
        inserted_ids(keys, diffs, next_id, key, low).len() <= inserted_ids(
            keys,
            diffs,
            next_id,
            key,
            high,
        ).len(),
        inserted_ids(keys, diffs, next_id, key, low) == inserted_ids(
            keys,
            diffs,
            next_id,
            key,
            high,
        ).take(inserted_ids(keys, diffs, next_id, key, low).len() as int),
        taken(keys, diffs, key, low) <= taken(keys, diffs, key, high),
    decreases high,
{
    let part = inserted_ids(keys, diffs, next_id, key, low);
    if low < high {
        lemma_inserted_prefix(keys, diffs, next_id, key, low, high - 1);
        assert(inserted_ids(keys, diffs, next_id, key, high).take(part.len() as int)
            =~= inserted_ids(keys, diffs, next_id, key, high - 1).take(part.len() as int));
    } else {
        assert(part.take(part.len() as int) =~= part);
    }
}

/// The offers of a target: no ID is offered for two distinct rows.
pub open spec fn offers_disjoint(found: Seq<Seq<u64>>) -> bool {
    forall|g: int, h: int, a: int, b: int|
        #![trigger found[g][a], found[h][b]]
        0 <= g < found.len() && 0 <= h < found.len() && g != h && 0 <= a < found[g].len() && 0 <= b
            < found[h].len() ==> found[g][a] != found[h][b]
}

proof fn lemma_offers_ascend(found: Seq<u64>, a: int, b: int)
    requires
        forall|i: int| 0 < i < found.len() ==> found[i - 1] < #[trigger] found[i],
        0 <= a < b < found.len(),
    ensures
        found[a] < found[b],
    decreases b,
{
    if a < b - 1 {
        lemma_offers_ascend(found, a, b - 1);
    }
    assert(found[b - 1] < found[b]);
}

/// What `offered` gives for a distinct row lies below the frontier and ascends.
pub proof fn lemma_offer_fits(
    groups: Seq<RowPlan>,
    matches: Seq<Matches>,
    next_id: u64,
    group: int,
)
    requires
        0 <= group < groups.len(),
        lookup_fault(groups, matches, next_id) is None,
    ensures
        forall|i: int|
            0 <= i < offered(groups, matches, group).len() ==> 0 < #[trigger] offered(
                groups,
                matches,
                group,
            )[i] < next_id,
        forall|i: int|
            0 < i < offered(groups, matches, group).len() ==> offered(groups, matches, group)[i - 1]
                < #[trigger] offered(groups, matches, group)[i],
{
    lemma_reply_is_used(groups, matches, next_id, group, groups.len() as int);
    if groups[group].take != 0 {
        let found = matches[requests_of(groups, group).len() as int];
        assert(matches_fit(request_of(groups[group]), found, next_id));
    }
}

/// Where an ID that a plan deletes comes from: its key and its place among the IDs of the key.
pub open spec fn source_place(
    keys: Seq<Seq<u8>>,
    diffs: Seq<i64>,
    batch: Batch,
    k: int,
) -> int {
    let row = batch.deletes@[k].row_index as int;
    taken(keys, diffs, keys[row], row) + k - negatives(diffs, row)
}

/// All the IDs of a distinct row, existing ones before new ones.
pub open spec fn all_ids(
    keys: Seq<Seq<u8>>,
    diffs: Seq<i64>,
    next_id: u64,
    existing: Seq<u64>,
    key: Seq<u8>,
) -> Seq<u64> {
    existing + inserted_ids(keys, diffs, next_id, key, diffs.len() as int)
}

/// A deletion takes an ID of its key, which its own row has not used before.
pub proof fn lemma_delete_source(
    input: DeliveryBatch,
    next_id: u64,
    survey: Survey,
    matches: Seq<Matches>,
    batch: Batch,
    k: int,
)
    requires
        input.wf(),
        survey_fault(input, next_id) is None,
        survey.describes(input, next_id),
        lookup_fault(survey.groups@, matches, next_id) is None,
        planned(batch, input, next_id, survey, matches),
        0 <= k < batch.deletes@.len(),
    ensures
        ({
            let keys = keys_of(input.change);
            let diffs = input.change.diffs@;
            let delete = batch.deletes@[k];
            let row = delete.row_index as int;
            let place = source_place(keys, diffs, batch, k);
            let group = survey.group_of@[row] as int;
            let existing = offered(survey.groups@, matches, group);
            let ids = all_ids(keys, diffs, next_id, existing, keys[row]);
            &&& 0 <= row < diffs.len()
            &&& diffs[row] < 0
            &&& negatives(diffs, row) <= k < negatives(diffs, row + 1)
            &&& 0 <= group < survey.groups@.len()
            &&& 0 <= place < existing.len() + added(keys, diffs, keys[row], row)
            &&& taken(keys, diffs, keys[row], row) <= place < taken(
                keys,
                diffs,
                keys[row],
                row + 1,
            )
            &&& place < ids.len()
            &&& delete.technical_id == ids[place]
            &&& inserted_ids(keys, diffs, next_id, keys[row], row).len() == added(
                keys,
                diffs,
                keys[row],
                row,
            )
            &&& place >= existing.len() ==> delete.technical_id == inserted_ids(
                keys,
                diffs,
                next_id,
                keys[row],
                row,
            )[place - existing.len()]
        }),
{
    let keys = keys_of(input.change);
    let diffs = input.change.diffs@;
    let rows = diffs.len() as int;
    let found = offers(survey.groups@, matches);
    lemma_deleted_rows(keys, diffs, next_id, survey.group_of@, found, rows);
    lemma_planned_delete(keys, diffs, next_id, survey.group_of@, found, rows, k);
    let row = batch.deletes@[k].row_index as int;
    let group = survey.group_of@[row] as int;
    assert(group < survey.groups@.len());
    let existing = offered(survey.groups@, matches, group);
    assert(found[group] == existing);
    lemma_ids_suffice(input, next_id, survey, matches, row);
    lemma_inserted_len(keys, diffs, next_id, keys[row], row);
    lemma_inserted_prefix(keys, diffs, next_id, keys[row], row, rows);
    let part = inserted_ids(keys, diffs, next_id, keys[row], row);
    let whole = inserted_ids(keys, diffs, next_id, keys[row], rows);
    let place = source_place(keys, diffs, batch, k);
    if place >= existing.len() {
        assert((existing + part)[place] == part[place - existing.len()]);
        assert(whole.take(part.len() as int)[place - existing.len()] == whole[place
            - existing.len()]);
    }
}

proof fn lemma_inserted_len(
    keys: Seq<Seq<u8>>,
    diffs: Seq<i64>,
    next_id: u64,
    key: Seq<u8>,
    rows: int,
)
    requires
        0 <= rows <= diffs.len(),
    ensures
        inserted_ids(keys, diffs, next_id, key, rows).len() == added(keys, diffs, key, rows),
    decreases rows,
{
    if rows > 0 {
        lemma_inserted_len(keys, diffs, next_id, key, rows - 1);
    }
}

/// Two deletions of one plan never name the same ID.
pub proof fn lemma_deletes_distinct(
    input: DeliveryBatch,
    next_id: u64,
    survey: Survey,
    matches: Seq<Matches>,
    batch: Batch,
    j: int,
    k: int,
)
    requires
        input.wf(),
        survey_fault(input, next_id) is None,
        survey.describes(input, next_id),
        distinct_keys(keys_of(input.change), survey.groups@),
        lookup_fault(survey.groups@, matches, next_id) is None,
        offers_disjoint(offers(survey.groups@, matches)),
        planned(batch, input, next_id, survey, matches),
        0 <= j < k < batch.deletes@.len(),
    ensures
        batch.deletes@[j].technical_id != batch.deletes@[k].technical_id,
{
    let keys = keys_of(input.change);
    let diffs = input.change.diffs@;
    let rows = diffs.len() as int;
    lemma_delete_source(input, next_id, survey, matches, batch, j);
    lemma_delete_source(input, next_id, survey, matches, batch, k);
    let row_j = batch.deletes@[j].row_index as int;
    let row_k = batch.deletes@[k].row_index as int;
    let group_j = survey.group_of@[row_j] as int;
    let group_k = survey.group_of@[row_k] as int;
    let place_j = source_place(keys, diffs, batch, j);
    let place_k = source_place(keys, diffs, batch, k);
    let found_j = offered(survey.groups@, matches, group_j);
    let found_k = offered(survey.groups@, matches, group_k);
    lemma_offer_fits(survey.groups@, matches, next_id, group_j);
    lemma_offer_fits(survey.groups@, matches, next_id, group_k);
    let new_j = inserted_ids(keys, diffs, next_id, keys[row_j], rows);
    let new_k = inserted_ids(keys, diffs, next_id, keys[row_k], rows);
    if place_j >= found_j.len() {
        let source = lemma_inserted_id(
            keys,
            diffs,
            next_id,
            keys[row_j],
            rows,
            place_j - found_j.len(),
        );
        if place_k >= found_k.len() && keys[row_j] != keys[row_k] {
            let other = lemma_inserted_id(
                keys,
                diffs,
                next_id,
                keys[row_k],
                rows,
                place_k - found_k.len(),
            );
            if source < other {
                lemma_counts_grow(diffs, source + 1, other);
            } else {
                lemma_counts_grow(diffs, other + 1, source);
            }
        }
    }
    if place_k >= found_k.len() {
        let source = lemma_inserted_id(
            keys,
            diffs,
            next_id,
            keys[row_k],
            rows,
            place_k - found_k.len(),
        );
    }
    if keys[row_j] == keys[row_k] {
        crate::relation::plan::lemma_groups_are_keys(
            keys,
            survey.groups@,
            survey.group_of@,
            rows,
            row_j,
            row_k,
        );
        if row_j > row_k {
            lemma_counts_grow(diffs, row_k + 1, row_j);
        }
        if row_j < row_k {
            lemma_inserted_prefix(keys, diffs, next_id, keys[row_j], row_j + 1, row_k);
        }
        assert(place_j < place_k);
        if place_k < found_k.len() {
            lemma_offers_ascend(found_k, place_j, place_k);
        } else if place_j >= found_j.len() {
            lemma_inserted_ascend(
                keys,
                diffs,
                next_id,
                keys[row_k],
                rows,
                place_j - found_j.len(),
                place_k - found_k.len(),
            );
        }
    } else {
        crate::relation::plan::lemma_groups_are_keys(
            keys,
            survey.groups@,
            survey.group_of@,
            rows,
            row_j,
            row_k,
        );
        assert(group_j != group_k);
        if place_j < found_j.len() && place_k < found_k.len() {
            let found = offers(survey.groups@, matches);
            assert(found[group_j][place_j] != found[group_k][place_k]);
        }
    }
}

/// A prepared plan is accepted on recovery: whatever `prepare` plans for a delivery,
/// `validate` finds valid for it, provided that the target offers no ID for two distinct rows.
pub proof fn law_prepared_plan_is_valid(
    input: DeliveryBatch,
    next_id: u64,
    survey: Survey,
    matches: Seq<Matches>,
    batch: Batch,
    next_id_after: u64,
)
    requires
        input.wf(),
        survey_fault(input, next_id) is None,
        survey.describes(input, next_id),
        distinct_keys(keys_of(input.change), survey.groups@),
        lookup_fault(survey.groups@, matches, next_id) is None,
        offers_disjoint(offers(survey.groups@, matches)),
        planned(batch, input, next_id, survey, matches),
        next_id_after == next_id + positives(
            input.change.diffs@,
            input.change.records.rows as int,
        ),
    ensures
        plan_valid(batch, next_id_after, input.change),
{
    let change = input.change;
    let keys = keys_of(change);
    let diffs = change.diffs@;
    let rows = change.records.rows as int;
    let found = offers(survey.groups@, matches);
    lemma_planned_counts(diffs, next_id, rows);
    lemma_inserted_rows(diffs, next_id, rows);
    lemma_deleted_rows(keys, diffs, next_id, survey.group_of@, found, rows);
    assert(first_id(batch, next_id_after) == next_id);
    assert forall|m: int| 0 <= m < batch.inserts@.len() implies (
    #[trigger] batch.inserts@[m]).technical_id == next_id + m by {
        lemma_planned_insert(diffs, next_id, rows, m);
    }
    assert forall|k: int| 0 <= k < batch.deletes@.len() implies {
        &&& 0 < (#[trigger] batch.deletes@[k]).technical_id < next_id_after
        &&& consumes_earlier(batch, next_id_after, keys, k)
    } by {
        lemma_delete_source(input, next_id, survey, matches, batch, k);
        let delete = batch.deletes@[k];
        let row = delete.row_index as int;
        let group = survey.group_of@[row] as int;
        let place = source_place(keys, diffs, batch, k);
        let existing = offered(survey.groups@, matches, group);
        lemma_offer_fits(survey.groups@, matches, next_id, group);
        lemma_counts_grow(diffs, row, rows);
        if place >= existing.len() {
            let source = lemma_inserted_id(
                keys,
                diffs,
                next_id,
                keys[row],
                row,
                place - existing.len(),
            );
            lemma_counts_grow(diffs, source + 1, rows);
            let offset = delete.technical_id - next_id;
            lemma_planned_insert(diffs, next_id, rows, offset);
            let other = batch.inserts@[offset].row_index as int;
            if other < source {
                lemma_counts_grow(diffs, other + 1, source);
            } else if other > source {
                lemma_counts_grow(diffs, source + 1, other);
            }
            assert(other == source);
        } else {
            assert(delete.technical_id == existing[place]);
        }
    }
    assert forall|j: int, k: int| 0 <= j < k < batch.deletes@.len() implies (
    #[trigger] batch.deletes@[j]).technical_id != (#[trigger] batch.deletes@[k]).technical_id by {
        lemma_deletes_distinct(input, next_id, survey, matches, batch, j, k);
    }
    assert(ids_fit(batch, next_id_after));
    assert forall|k: int| 0 <= k < batch.deletes@.len() implies #[trigger] consumes_earlier(
        batch,
        next_id_after,
        keys,
        k,
    ) by {
        assert(0 < batch.deletes@[k].technical_id);
    }
    assert(plan_fault(batch, next_id_after, change) is None);
    assert(plan_follows(batch, next_id_after, change));
}

/// Technical IDs are never reused: what a plan inserts lies between the frontier before it
/// and the frontier after it, consecutively.
pub proof fn law_ids_are_never_reused(
    input: DeliveryBatch,
    next_id: u64,
    survey: Survey,
    matches: Seq<Matches>,
    batch: Batch,
    m: int,
)
    requires
        input.wf(),
        survey.describes(input, next_id),
        planned(batch, input, next_id, survey, matches),
        0 <= m < batch.inserts@.len(),
    ensures
        batch.inserts@[m].technical_id == next_id + m,
        next_id <= batch.inserts@[m].technical_id < next_id + positives(
            input.change.diffs@,
            input.change.records.rows as int,
        ),
{
    let diffs = input.change.diffs@;
    let rows = input.change.records.rows as int;
    lemma_planned_counts(diffs, next_id, rows);
    lemma_planned_insert(diffs, next_id, rows, m);
}

} // verus!
