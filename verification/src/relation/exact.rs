//! What a planned batch does to a relation: its rows change exactly as the delivery says.

use crate::buffered::delivery::DeliveryBatch;
use crate::change::{lemma_counts_grow, positives};
use crate::relation::batch::{delete_pairs, insert_pairs, last_row, terminal, Batch, Delete, Insert};
use crate::relation::laws::{
    law_prepared_plan_is_valid, lemma_delete_source, lemma_inserted_id, lemma_planned_counts,
    offers_disjoint, source_place,
};
use crate::relation::plan::{
    added, distinct_keys, keys_of, lookup_fault, offered, offers, planned, planned_deletes,
    planned_inserts, row_deletes, row_inserts, survey_fault, taken, Matches, RowPlan, Survey,
};
use crate::relation::recovery::{consumes_earlier, first_id, ids_fit};
use vstd::prelude::*;

verus! {

/// A relation is the identity of the row under each technical ID: here after the first
/// `count` insertions; an ID that is there already is left alone.
pub open spec fn inserted(
    relation: Map<u64, Seq<u8>>,
    keys: Seq<Seq<u8>>,
    inserts: Seq<Insert>,
    count: int,
) -> Map<u64, Seq<u8>>
    decreases count,
{
    if count <= 0 {
        relation
    } else {
        let before = inserted(relation, keys, inserts, count - 1);
        let insert = inserts[count - 1];
        if before.contains_key(insert.technical_id) {
            before
        } else {
            before.insert(insert.technical_id, keys[insert.row_index as int])
        }
    }
}

/// The relation after the first `count` deletions; an ID that is not there is passed over.
pub open spec fn removed(relation: Map<u64, Seq<u8>>, deletes: Seq<Delete>, count: int) -> Map<
    u64,
    Seq<u8>,
>
    decreases count,
{
    if count <= 0 {
        relation
    } else {
        removed(relation, deletes, count - 1).remove(deletes[count - 1].technical_id)
    }
}

/// The relation after a batch: it is inserted first, and then deleted from.
pub open spec fn applied(
    relation: Map<u64, Seq<u8>>,
    keys: Seq<Seq<u8>>,
    batch: Batch,
) -> Map<u64, Seq<u8>> {
    removed(
        inserted(relation, keys, batch.inserts@, batch.inserts@.len() as int),
        batch.deletes@,
        batch.deletes@.len() as int,
    )
}

/// Whether a batch inserts an ID.
pub open spec fn inserts_id(inserts: Seq<Insert>, id: u64, count: int) -> bool {
    exists|i: int| 0 <= i < count && (#[trigger] inserts[i]).technical_id == id
}

/// Whether a batch deletes an ID.
pub open spec fn deletes_id(deletes: Seq<Delete>, id: u64, count: int) -> bool {
    exists|i: int| 0 <= i < count && (#[trigger] deletes[i]).technical_id == id
}

proof fn lemma_inserted_keys(
    relation: Map<u64, Seq<u8>>,
    keys: Seq<Seq<u8>>,
    inserts: Seq<Insert>,
    count: int,
    id: u64,
)
    requires
        0 <= count <= inserts.len(),
    ensures
        inserted(relation, keys, inserts, count).contains_key(id) <==> relation.contains_key(id)
            || inserts_id(inserts, id, count),
        relation.contains_key(id) ==> inserted(relation, keys, inserts, count)[id] == relation[id],
    decreases count,
{
    if count > 0 {
        lemma_inserted_keys(relation, keys, inserts, count - 1, id);
        if inserts_id(inserts, id, count) && inserts[count - 1].technical_id != id {
            let i = choose|i: int| 0 <= i < count && (#[trigger] inserts[i]).technical_id == id;
            assert(inserts_id(inserts, id, count - 1));
        }
        if inserts_id(inserts, id, count - 1) {
            let i = choose|i: int| 0 <= i < count - 1 && (#[trigger] inserts[i]).technical_id == id;
            assert(inserts[i].technical_id == id);
        }
        assert(inserts[count - 1].technical_id == id ==> inserts_id(inserts, id, count));
    }
}

proof fn lemma_removed_keys(relation: Map<u64, Seq<u8>>, deletes: Seq<Delete>, count: int, id: u64)
    requires
        0 <= count <= deletes.len(),
    ensures
        removed(relation, deletes, count).contains_key(id) <==> relation.contains_key(id)
            && !deletes_id(deletes, id, count),
        removed(relation, deletes, count).contains_key(id) ==> removed(relation, deletes, count)[id]
            == relation[id],
    decreases count,
{
    if count > 0 {
        lemma_removed_keys(relation, deletes, count - 1, id);
        if deletes_id(deletes, id, count) && deletes[count - 1].technical_id != id {
            let i = choose|i: int| 0 <= i < count && (#[trigger] deletes[i]).technical_id == id;
            assert(deletes_id(deletes, id, count - 1));
        }
        if deletes_id(deletes, id, count - 1) {
            let i = choose|i: int| 0 <= i < count - 1 && (#[trigger] deletes[i]).technical_id == id;
            assert(deletes[i].technical_id == id);
        }
        assert(deletes[count - 1].technical_id == id ==> deletes_id(deletes, id, count));
    }
}

/// A batch that is applied again leaves the relation as it is.
pub proof fn law_replay_is_idempotent(
    relation: Map<u64, Seq<u8>>,
    keys: Seq<Seq<u8>>,
    batch: Batch,
)
    ensures
        applied(applied(relation, keys, batch), keys, batch) == applied(relation, keys, batch),
{
    let inserts = batch.inserts@;
    let deletes = batch.deletes@;
    let once = applied(relation, keys, batch);
    let twice = applied(once, keys, batch);
    assert forall|id: u64| #[trigger] twice.contains_key(id) == once.contains_key(id) && (
    once.contains_key(id) ==> twice[id] == once[id]) by {
        let first = inserted(relation, keys, inserts, inserts.len() as int);
        let second = inserted(once, keys, inserts, inserts.len() as int);
        lemma_inserted_keys(relation, keys, inserts, inserts.len() as int, id);
        lemma_removed_keys(first, deletes, deletes.len() as int, id);
        lemma_inserted_keys(once, keys, inserts, inserts.len() as int, id);
        lemma_removed_keys(second, deletes, deletes.len() as int, id);
    }
    assert(twice =~= once);
}

proof fn lemma_last_row(pairs: Seq<(u64, u64)>, id: u64)
    ensures
        last_row(pairs, id) is Some <==> exists|i: int|
            0 <= i < pairs.len() && (#[trigger] pairs[i]).1 == id,
    decreases pairs.len(),
{
    if pairs.len() > 0 {
        let front = pairs.drop_last();
        lemma_last_row(front, id);
        if pairs.last().1 == id {
            assert(pairs[pairs.len() - 1].1 == id);
        } else {
            if exists|i: int| 0 <= i < pairs.len() && (#[trigger] pairs[i]).1 == id {
                let i = choose|i: int| 0 <= i < pairs.len() && (#[trigger] pairs[i]).1 == id;
                assert(front[i].1 == id);
            }
            if exists|i: int| 0 <= i < front.len() && (#[trigger] front[i]).1 == id {
                let i = choose|i: int| 0 <= i < front.len() && (#[trigger] front[i]).1 == id;
                assert(pairs[i].1 == id);
            }
        }
    }
}

/// What a batch leaves under an ID is what its final mutation says; other IDs stay as they are.
pub proof fn law_final_mutations_describe_a_batch(
    relation: Map<u64, Seq<u8>>,
    keys: Seq<Seq<u8>>,
    batch: Batch,
    id: u64,
)
    ensures
        applied(relation, keys, batch).contains_key(id) <==> (match terminal(
            insert_pairs(batch.inserts@),
            delete_pairs(batch.deletes@),
            id,
        ) {
            Some(mutation) => !mutation.deleted,
            None => relation.contains_key(id),
        }),
{
    let inserts = batch.inserts@;
    let deletes = batch.deletes@;
    let first = inserted(relation, keys, inserts, inserts.len() as int);
    lemma_inserted_keys(relation, keys, inserts, inserts.len() as int, id);
    lemma_removed_keys(first, deletes, deletes.len() as int, id);
    lemma_last_row(insert_pairs(inserts), id);
    lemma_last_row(delete_pairs(deletes), id);
    if inserts_id(inserts, id, inserts.len() as int) {
        let i = choose|i: int|
            0 <= i < inserts.len() && (#[trigger] inserts[i]).technical_id == id;
        assert(insert_pairs(inserts)[i].1 == id);
    }
    if exists|i: int|
        0 <= i < insert_pairs(inserts).len() && (#[trigger] insert_pairs(inserts)[i]).1 == id {
        let i = choose|i: int|
            0 <= i < insert_pairs(inserts).len() && (#[trigger] insert_pairs(inserts)[i]).1 == id;
        assert(inserts[i].technical_id == id);
    }
    if deletes_id(deletes, id, deletes.len() as int) {
        let i = choose|i: int|
            0 <= i < deletes.len() && (#[trigger] deletes[i]).technical_id == id;
        assert(delete_pairs(deletes)[i].1 == id);
    }
    if exists|i: int|
        0 <= i < delete_pairs(deletes).len() && (#[trigger] delete_pairs(deletes)[i]).1 == id {
        let i = choose|i: int|
            0 <= i < delete_pairs(deletes).len() && (#[trigger] delete_pairs(deletes)[i]).1 == id;
        assert(deletes[i].technical_id == id);
    }
}

/// The IDs under which a relation holds a row.
pub open spec fn instances(relation: Map<u64, Seq<u8>>, key: Seq<u8>) -> Set<u64> {
    relation.dom().filter(|id: u64| relation[id] == key)
}

/// How many of the first `count` insertions are of a row.
pub open spec fn inserts_of(
    keys: Seq<Seq<u8>>,
    inserts: Seq<Insert>,
    key: Seq<u8>,
    count: int,
) -> nat
    decreases count,
{
    if count <= 0 {
        0
    } else if keys[inserts[count - 1].row_index as int] == key {
        inserts_of(keys, inserts, key, count - 1) + 1
    } else {
        inserts_of(keys, inserts, key, count - 1)
    }
}

/// How many of the first `count` deletions are of a row.
pub open spec fn deletes_of(
    keys: Seq<Seq<u8>>,
    deletes: Seq<Delete>,
    key: Seq<u8>,
    count: int,
) -> nat
    decreases count,
{
    if count <= 0 {
        0
    } else if keys[deletes[count - 1].row_index as int] == key {
        deletes_of(keys, deletes, key, count - 1) + 1
    } else {
        deletes_of(keys, deletes, key, count - 1)
    }
}

/// New IDs add one instance each.
proof fn lemma_instances_added(
    relation: Map<u64, Seq<u8>>,
    keys: Seq<Seq<u8>>,
    inserts: Seq<Insert>,
    next_id: u64,
    key: Seq<u8>,
    count: int,
)
    requires
        relation.dom().finite(),
        forall|id: u64| #[trigger] relation.contains_key(id) ==> id < next_id,
        0 <= count <= inserts.len(),
        forall|i: int|
            0 <= i < inserts.len() ==> (#[trigger] inserts[i]).technical_id == next_id + i,
    ensures
        ({
            let after = inserted(relation, keys, inserts, count);
            &&& after.dom().finite()
            &&& forall|id: u64| #[trigger] after.contains_key(id) ==> id < next_id + count
            &&& forall|i: int|
                0 <= i < count ==> after.contains_key((#[trigger] inserts[i]).technical_id)
                    && after[inserts[i].technical_id] == keys[inserts[i].row_index as int]
            &&& instances(after, key).finite()
            &&& instances(after, key).len() == instances(relation, key).len() + inserts_of(
                keys,
                inserts,
                key,
                count,
            )
        }),
    decreases count,
{
    if count > 0 {
        lemma_instances_added(relation, keys, inserts, next_id, key, count - 1);
        let before = inserted(relation, keys, inserts, count - 1);
        let after = inserted(relation, keys, inserts, count);
        let insert = inserts[count - 1];
        let id = insert.technical_id;
        assert(!before.contains_key(id));
        assert(after == before.insert(id, keys[insert.row_index as int]));
        if keys[insert.row_index as int] == key {
            assert(instances(after, key) =~= instances(before, key).insert(id));
        } else {
            assert(instances(after, key) =~= instances(before, key));
        }
    }
}

/// Each deletion of an ID that is there takes one instance away.
proof fn lemma_instances_taken(
    relation: Map<u64, Seq<u8>>,
    keys: Seq<Seq<u8>>,
    deletes: Seq<Delete>,
    key: Seq<u8>,
    count: int,
)
    requires
        relation.dom().finite(),
        0 <= count <= deletes.len(),
        forall|i: int|
            0 <= i < deletes.len() ==> relation.contains_key((#[trigger] deletes[i]).technical_id)
                && relation[deletes[i].technical_id] == keys[deletes[i].row_index as int],
        forall|i: int, j: int|
            0 <= i < j < deletes.len() ==> (#[trigger] deletes[i]).technical_id != (
            #[trigger] deletes[j]).technical_id,
    ensures
        ({
            let after = removed(relation, deletes, count);
            &&& after.dom().finite()
            &&& instances(after, key).finite()
            &&& instances(after, key).len() + deletes_of(keys, deletes, key, count) == instances(
                relation,
                key,
            ).len()
        }),
    decreases count,
{
    if count > 0 {
        lemma_instances_taken(relation, keys, deletes, key, count - 1);
        let before = removed(relation, deletes, count - 1);
        let after = removed(relation, deletes, count);
        let delete = deletes[count - 1];
        let id = delete.technical_id;
        lemma_removed_keys(relation, deletes, count - 1, id);
        if deletes_id(deletes, id, count - 1) {
            let i = choose|i: int| 0 <= i < count - 1 && (#[trigger] deletes[i]).technical_id == id;
            assert(deletes[i].technical_id != deletes[count - 1].technical_id);
        }
        assert(before.contains_key(id));
        assert(before[id] == keys[delete.row_index as int]);
        if keys[delete.row_index as int] == key {
            assert(instances(after, key) =~= instances(before, key).remove(id));
            assert(instances(before, key).contains(id));
        } else {
            assert(instances(after, key) =~= instances(before, key));
        }
    }
}

/// Insertions of one row behind others count for its key.
proof fn lemma_inserts_appended(
    keys: Seq<Seq<u8>>,
    before: Seq<Insert>,
    part: Seq<Insert>,
    row: int,
    key: Seq<u8>,
    count: int,
)
    requires
        0 <= count <= part.len(),
        forall|i: int| 0 <= i < part.len() ==> (#[trigger] part[i]).row_index == row,
    ensures
        inserts_of(keys, before + part, key, before.len() + count) == inserts_of(
            keys,
            before,
            key,
            before.len() as int,
        ) + (if keys[row] == key {
            count
        } else {
            0
        }),
    decreases count,
{
    if count > 0 {
        lemma_inserts_appended(keys, before, part, row, key, count - 1);
        assert((before + part)[before.len() + count - 1] == part[count - 1]);
    } else {
        lemma_inserts_kept(keys, before, part, key, before.len() as int);
    }
}

proof fn lemma_inserts_kept(
    keys: Seq<Seq<u8>>,
    before: Seq<Insert>,
    part: Seq<Insert>,
    key: Seq<u8>,
    count: int,
)
    requires
        0 <= count <= before.len(),
    ensures
        inserts_of(keys, before + part, key, count) == inserts_of(keys, before, key, count),
    decreases count,
{
    if count > 0 {
        lemma_inserts_kept(keys, before, part, key, count - 1);
        assert((before + part)[count - 1] == before[count - 1]);
    }
}

proof fn lemma_deletes_appended(
    keys: Seq<Seq<u8>>,
    before: Seq<Delete>,
    part: Seq<Delete>,
    row: int,
    key: Seq<u8>,
    count: int,
)
    requires
        0 <= count <= part.len(),
        forall|i: int| 0 <= i < part.len() ==> (#[trigger] part[i]).row_index == row,
    ensures
        deletes_of(keys, before + part, key, before.len() + count) == deletes_of(
            keys,
            before,
            key,
            before.len() as int,
        ) + (if keys[row] == key {
            count
        } else {
            0
        }),
    decreases count,
{
    if count > 0 {
        lemma_deletes_appended(keys, before, part, row, key, count - 1);
        assert((before + part)[before.len() + count - 1] == part[count - 1]);
    } else {
        lemma_deletes_kept(keys, before, part, key, before.len() as int);
    }
}

proof fn lemma_deletes_kept(
    keys: Seq<Seq<u8>>,
    before: Seq<Delete>,
    part: Seq<Delete>,
    key: Seq<u8>,
    count: int,
)
    requires
        0 <= count <= before.len(),
    ensures
        deletes_of(keys, before + part, key, count) == deletes_of(keys, before, key, count),
    decreases count,
{
    if count > 0 {
        lemma_deletes_kept(keys, before, part, key, count - 1);
        assert((before + part)[count - 1] == before[count - 1]);
    }
}

/// A plan inserts a row as often as the delivery adds it.
proof fn lemma_planned_added(
    keys: Seq<Seq<u8>>,
    diffs: Seq<i64>,
    next_id: u64,
    key: Seq<u8>,
    rows: int,
)
    requires
        0 <= rows <= diffs.len(),
        diffs.len() <= u64::MAX,
    ensures
        inserts_of(
            keys,
            planned_inserts(diffs, next_id, rows),
            key,
            planned_inserts(diffs, next_id, rows).len() as int,
        ) == added(keys, diffs, key, rows),
    decreases rows,
{
    if rows > 0 {
        lemma_planned_added(keys, diffs, next_id, key, rows - 1);
        let before = planned_inserts(diffs, next_id, rows - 1);
        let part = row_inserts(diffs, next_id, rows - 1);
        lemma_inserts_appended(keys, before, part, rows - 1, key, part.len() as int);
    }
}

/// A plan deletes a row as often as the delivery takes it away.
proof fn lemma_planned_taken(
    keys: Seq<Seq<u8>>,
    diffs: Seq<i64>,
    next_id: u64,
    group_of: Seq<usize>,
    found: Seq<Seq<u64>>,
    key: Seq<u8>,
    rows: int,
)
    requires
        0 <= rows <= diffs.len(),
        diffs.len() <= u64::MAX,
    ensures
        deletes_of(
            keys,
            planned_deletes(keys, diffs, next_id, group_of, found, rows),
            key,
            planned_deletes(keys, diffs, next_id, group_of, found, rows).len() as int,
        ) == taken(keys, diffs, key, rows),
    decreases rows,
{
    if rows > 0 {
        lemma_planned_taken(keys, diffs, next_id, group_of, found, key, rows - 1);
        let before = planned_deletes(keys, diffs, next_id, group_of, found, rows - 1);
        let part = row_deletes(
            keys,
            diffs,
            next_id,
            found[group_of[rows - 1] as int],
            rows - 1,
        );
        lemma_deletes_appended(keys, before, part, rows - 1, key, part.len() as int);
    }
}

/// The replies of a target are true of a relation: each offered ID is one of its row.
pub open spec fn truthful(
    relation: Map<u64, Seq<u8>>,
    keys: Seq<Seq<u8>>,
    groups: Seq<RowPlan>,
    matches: Seq<Matches>,
) -> bool {
    forall|g: int, a: int|
        #![trigger offered(groups, matches, g)[a]]
        0 <= g < groups.len() && 0 <= a < offered(groups, matches, g).len()
            ==> relation.contains_key(offered(groups, matches, g)[a])
            && relation[offered(groups, matches, g)[a]] == keys[groups[g].row_index as int]
}

/// True replies never offer an ID for two distinct rows.
pub proof fn lemma_truthful_disjoint(
    relation: Map<u64, Seq<u8>>,
    keys: Seq<Seq<u8>>,
    groups: Seq<RowPlan>,
    matches: Seq<Matches>,
)
    requires
        truthful(relation, keys, groups, matches),
        distinct_keys(keys, groups),
    ensures
        offers_disjoint(offers(groups, matches)),
{
    let found = offers(groups, matches);
    assert forall|g: int, h: int, a: int, b: int|
        #![trigger found[g][a], found[h][b]]
        0 <= g < found.len() && 0 <= h < found.len() && g != h && 0 <= a < found[g].len() && 0 <= b
            < found[h].len() implies found[g][a] != found[h][b] by {
        assert(found[g] == offered(groups, matches, g));
        assert(found[h] == offered(groups, matches, h));
        assert(relation[offered(groups, matches, g)[a]] == keys[groups[g].row_index as int]);
        assert(relation[offered(groups, matches, h)[b]] == keys[groups[h].row_index as int]);
        assert(keys[groups[g].row_index as int] != keys[groups[h].row_index as int]);
    }
}

/// Whatever `prepare` plans from true replies deletes an instance of the very row that is
/// taken away, and leaves each row with as many instances as it had, plus those that the
/// delivery adds, minus those that it takes away.
pub proof fn law_plan_is_exact(
    relation: Map<u64, Seq<u8>>,
    input: DeliveryBatch,
    next_id: u64,
    survey: Survey,
    matches: Seq<Matches>,
    batch: Batch,
    key: Seq<u8>,
)
    requires
        input.wf(),
        survey_fault(input, next_id) is None,
        survey.describes(input, next_id),
        distinct_keys(keys_of(input.change), survey.groups@),
        lookup_fault(survey.groups@, matches, next_id) is None,
        planned(batch, input, next_id, survey, matches),
        relation.dom().finite(),
        forall|id: u64| #[trigger] relation.contains_key(id) ==> id < next_id,
        truthful(relation, keys_of(input.change), survey.groups@, matches),
    ensures
        ({
            let keys = keys_of(input.change);
            let diffs = input.change.diffs@;
            let rows = input.change.records.rows as int;
            let grown = inserted(relation, keys, batch.inserts@, batch.inserts@.len() as int);
            let after = applied(relation, keys, batch);
            &&& forall|k: int|
                0 <= k < batch.deletes@.len() ==> grown.contains_key(
                    (#[trigger] batch.deletes@[k]).technical_id,
                ) && grown[batch.deletes@[k].technical_id]
                    == keys[batch.deletes@[k].row_index as int]
            &&& after.dom().finite()
            &&& forall|id: u64| #[trigger]
                after.contains_key(id) ==> id < next_id + positives(diffs, rows)
            &&& instances(after, key).len() + taken(keys, diffs, key, rows) == instances(
                relation,
                key,
            ).len() + added(keys, diffs, key, rows)
        }),
{
    let change = input.change;
    let keys = keys_of(change);
    let diffs = change.diffs@;
    let rows = change.records.rows as int;
    let next_id_after = (next_id + positives(diffs, rows)) as u64;
    let found = offers(survey.groups@, matches);
    let inserts = batch.inserts@;
    let deletes = batch.deletes@;
    lemma_truthful_disjoint(relation, keys, survey.groups@, matches);
    law_prepared_plan_is_valid(input, next_id, survey, matches, batch, next_id_after);
    lemma_planned_counts(diffs, next_id, rows);
    assert(first_id(batch, next_id_after) == next_id);
    assert(ids_fit(batch, next_id_after));
    assert forall|i: int| 0 <= i < inserts.len() implies (#[trigger] inserts[i]).technical_id
        == next_id + i by {}
    let grown = inserted(relation, keys, inserts, inserts.len() as int);
    lemma_instances_added(relation, keys, inserts, next_id, key, inserts.len() as int);
    lemma_planned_added(keys, diffs, next_id, key, rows);
    assert forall|k: int| 0 <= k < deletes.len() implies grown.contains_key(
        (#[trigger] deletes[k]).technical_id,
    ) && grown[deletes[k].technical_id] == keys[deletes[k].row_index as int] by {
        let id = deletes[k].technical_id;
        lemma_delete_source(input, next_id, survey, matches, batch, k);
        let row = deletes[k].row_index as int;
        let group = survey.group_of@[row] as int;
        let existing = offered(survey.groups@, matches, group);
        let place = source_place(keys, diffs, batch, k);
        assert(consumes_earlier(batch, next_id_after, keys, k));
        if id >= next_id {
            assert(inserts[id - next_id].technical_id == id);
        } else {
            if place >= existing.len() {
                lemma_counts_grow(diffs, row, rows);
                let source = lemma_inserted_id(
                    keys,
                    diffs,
                    next_id,
                    keys[row],
                    row,
                    place - existing.len(),
                );
            }
            assert(place < existing.len());
            assert(id == existing[place]);
            assert(relation.contains_key(offered(survey.groups@, matches, group)[place]));
            assert(keys[survey.groups@[group].row_index as int] == keys[row]);
            lemma_inserted_keys(relation, keys, inserts, inserts.len() as int, id);
        }
    }
    lemma_instances_taken(grown, keys, deletes, key, deletes.len() as int);
    lemma_planned_taken(keys, diffs, next_id, survey.group_of@, found, key, rows);
    let after = applied(relation, keys, batch);
    assert forall|id: u64| #[trigger] after.contains_key(id) implies id < next_id + positives(
        diffs,
        rows,
    ) by {
        lemma_removed_keys(grown, deletes, deletes.len() as int, id);
    }
}

} // verus!
