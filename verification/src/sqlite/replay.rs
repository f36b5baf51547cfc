//! What a planned batch does to a table, when it is applied once and when it is applied again.

use crate::change::{Change, RecordBatch};
use crate::relation::exact::instances;
use crate::relation::position::{
    deletes_too_early, inserts_among, last_insert, offset_of, stands_for, steps_through,
    Continuation, Mutation, MutationKind, Position,
};
use crate::relation::row::canonical_bytes;
use crate::relation::stepwise::{
    batch_fits, mutation_fits, own_rows, pending_by, takes_own, BatchPlanner,
};
use crate::sqlite::state::{
    apply_fault, deletes_id, lemma_sequence_fault_stays, mutation_fault, sequence_fault,
};
use crate::sqlite::write::must_write;
use vstd::prelude::*;

verus! {

/// Whether a table holds `row` under an ID, or another one, or none.
pub open spec fn held<R>(table: Map<u64, R>, id: u64, row: R) -> Option<bool> {
    if table.dom().contains(id) {
        Some(table[id] == row)
    } else {
        None
    }
}

/// A table once a mutation was applied to it, unless that is refused.
pub open spec fn with_mutation<R>(table: Map<u64, R>, mutation: Mutation, row: R) -> Option<
    Map<u64, R>,
> {
    match must_write(mutation.kind, held(table, mutation.technical_id, row)) {
        None => None,
        Some(false) => Some(table),
        Some(true) => Some(
            if mutation.kind is Insert {
                table.insert(mutation.technical_id, row)
            } else {
                table.remove(mutation.technical_id)
            },
        ),
    }
}

/// A table once the first `count` mutations were applied to it in order, unless one is
/// refused. The rows of the change are given by their places.
pub open spec fn with_mutations<R>(
    table: Map<u64, R>,
    mutations: Seq<Mutation>,
    rows: Map<u64, R>,
    count: int,
) -> Option<Map<u64, R>>
    decreases count,
{
    if count <= 0 {
        Some(table)
    } else {
        match with_mutations(table, mutations, rows, count - 1) {
            None => None,
            Some(before) => with_mutation(
                before,
                mutations[count - 1],
                rows[mutations[count - 1].row_index],
            ),
        }
    }
}

/// Each ID is inserted at most once, deleted at most once, and not inserted behind that.
pub open spec fn once_each(mutations: Seq<Mutation>) -> bool {
    forall|i: int, j: int|
        0 <= i < j < mutations.len() && (#[trigger] mutations[i]).technical_id == (
        #[trigger] mutations[j]).technical_id ==> mutations[i].kind is Insert
            && mutations[j].kind is Delete
}

proof fn lemma_earlier_succeeds<R>(
    table: Map<u64, R>,
    mutations: Seq<Mutation>,
    rows: Map<u64, R>,
    low: int,
    high: int,
)
    requires
        0 <= low <= high,
        with_mutations(table, mutations, rows, high) is Some,
    ensures
        with_mutations(table, mutations, rows, low) is Some,
    decreases high - low,
{
    if low < high {
        lemma_earlier_succeeds(table, mutations, rows, low, high - 1);
    }
}

/// An ID that no mutation from `low` to `high` is one of stays as it is.
proof fn lemma_untouched<R>(
    table: Map<u64, R>,
    mutations: Seq<Mutation>,
    rows: Map<u64, R>,
    low: int,
    high: int,
    id: u64,
)
    requires
        0 <= low <= high <= mutations.len(),
        with_mutations(table, mutations, rows, high) is Some,
        forall|i: int| low <= i < high ==> (#[trigger] mutations[i]).technical_id != id,
    ensures
        with_mutations(table, mutations, rows, low) is Some,
        ({
            let before = with_mutations(table, mutations, rows, low)->0;
            let after = with_mutations(table, mutations, rows, high)->0;
            &&& before.dom().contains(id) == after.dom().contains(id)
            &&& before.dom().contains(id) ==> before[id] == after[id]
        }),
    decreases high - low,
{
    lemma_earlier_succeeds(table, mutations, rows, low, high);
    if low < high {
        lemma_earlier_succeeds(table, mutations, rows, high - 1, high);
        lemma_untouched(table, mutations, rows, low, high - 1, id);
        assert(mutations[high - 1].technical_id != id);
    }
}

/// What a first run leaves under the ID of a mutation, and what it held under it before.
proof fn lemma_outcome<R>(
    table: Map<u64, R>,
    mutations: Seq<Mutation>,
    rows: Map<u64, R>,
    index: int,
)
    requires
        once_each(mutations),
        0 <= index < mutations.len(),
        with_mutations(table, mutations, rows, mutations.len() as int) is Some,
    ensures
        ({
            let after = with_mutations(table, mutations, rows, mutations.len() as int)->0;
            let mutation = mutations[index];
            let id = mutation.technical_id;
            &&& mutation.kind is Delete ==> !after.dom().contains(id)
            &&& mutation.kind is Insert && (forall|j: int|
                index < j < mutations.len() ==> (#[trigger] mutations[j]).technical_id != id)
                ==> after.dom().contains(id) && after[id] == rows[mutation.row_index]
            &&& forall|j: int|
                index < j < mutations.len() && (#[trigger] mutations[j]).technical_id == id
                    ==> rows[mutations[j].row_index] == rows[mutation.row_index]
        }),
{
    let size = mutations.len() as int;
    let mutation = mutations[index];
    let id = mutation.technical_id;
    lemma_earlier_succeeds(table, mutations, rows, index + 1, size);
    lemma_earlier_succeeds(table, mutations, rows, index, size);
    if mutation.kind is Delete {
        assert forall|i: int| index + 1 <= i < size implies (#[trigger] mutations[i]).technical_id
            != id by {
            if mutations[i].technical_id == id {
                assert(mutations[index].technical_id == mutations[i].technical_id);
            }
        }
        lemma_untouched(table, mutations, rows, index + 1, size, id);
    } else {
        if forall|j: int| index < j < size ==> (#[trigger] mutations[j]).technical_id != id {
            lemma_untouched(table, mutations, rows, index + 1, size, id);
        }
        assert forall|j: int|
            index < j < size && (#[trigger] mutations[j]).technical_id
                == id implies rows[mutations[j].row_index] == rows[mutation.row_index] by {
            assert(mutations[index].technical_id == mutations[j].technical_id);
            assert forall|i: int| index + 1 <= i < j implies (
            #[trigger] mutations[i]).technical_id != id by {
                if mutations[i].technical_id == id {
                    assert(mutations[index].technical_id == mutations[i].technical_id);
                    assert(mutations[i].technical_id == mutations[j].technical_id);
                }
            }
            lemma_earlier_succeeds(table, mutations, rows, j, size);
            lemma_earlier_succeeds(table, mutations, rows, j + 1, size);
            lemma_untouched(table, mutations, rows, index + 1, j, id);
        }
    }
}

/// Whether an ID is inserted before `count` and deleted at or behind it, at `first` and `last`.
spec fn open_at(mutations: Seq<Mutation>, count: int, first: int, last: int) -> bool {
    &&& 0 <= first < count <= last < mutations.len()
    &&& mutations[first].technical_id == mutations[last].technical_id
}

/// Whether no row under an ID is still to be deleted again behind `count`.
spec fn closed_at(mutations: Seq<Mutation>, count: int, id: u64) -> bool {
    forall|first: int, last: int| #[trigger]
        open_at(mutations, count, first, last) ==> mutations[first].technical_id != id
}

/// What a second run holds after `count` mutations: what the first run has left, and the rows
/// that are still to be deleted again.
spec fn between<R>(
    after: Map<u64, R>,
    again: Map<u64, R>,
    mutations: Seq<Mutation>,
    rows: Map<u64, R>,
    count: int,
) -> bool {
    &&& forall|first: int, last: int| #[trigger]
        open_at(mutations, count, first, last) ==> again.dom().contains(
            mutations[first].technical_id,
        ) && again[mutations[first].technical_id] == rows[mutations[first].row_index]
    &&& forall|id: u64| #[trigger]
        closed_at(mutations, count, id) ==> again.dom().contains(id) == after.dom().contains(id)
            && (after.dom().contains(id) ==> again[id] == after[id])
}

proof fn lemma_second_run<R>(
    table: Map<u64, R>,
    mutations: Seq<Mutation>,
    rows: Map<u64, R>,
    count: int,
)
    requires
        once_each(mutations),
        0 <= count <= mutations.len(),
        with_mutations(table, mutations, rows, mutations.len() as int) is Some,
    ensures
        ({
            let after = with_mutations(table, mutations, rows, mutations.len() as int)->0;
            let again = with_mutations(after, mutations, rows, count);
            again is Some && between(after, again->0, mutations, rows, count)
        }),
    decreases count,
{
    let after = with_mutations(table, mutations, rows, mutations.len() as int)->0;
    if count > 0 {
        lemma_second_run(table, mutations, rows, count - 1);
        let index = count - 1;
        let mutation = mutations[index];
        let id = mutation.technical_id;
        let row = rows[mutation.row_index];
        let before = with_mutations(after, mutations, rows, index)->0;
        lemma_outcome(table, mutations, rows, index);
        if exists|first: int| #[trigger] open_at(mutations, index, first, index) {
            let first = choose|first: int| #[trigger] open_at(mutations, index, first, index);
            assert(mutations[first].technical_id == mutations[index].technical_id);
            lemma_outcome(table, mutations, rows, first);
            assert(before.dom().contains(id) && before[id] == row);
        } else {
            assert forall|first: int, last: int| #[trigger]
                open_at(mutations, index, first, last) implies mutations[first].technical_id
                != id by {
                if mutations[first].technical_id == id {
                    if last == index {
                        assert(open_at(mutations, index, first, index));
                    } else {
                        assert(mutations[first].technical_id == mutations[index].technical_id);
                        assert(mutations[index].technical_id == mutations[last].technical_id);
                    }
                }
            }
            assert(closed_at(mutations, index, id));
        }
        let again = with_mutations(after, mutations, rows, count);
        if mutation.kind is Insert {
            if exists|last: int| index < last < mutations.len() && (
            #[trigger] mutations[last]).technical_id == id {
                let last = choose|last: int|
                    index < last < mutations.len() && (#[trigger] mutations[last]).technical_id
                        == id;
                lemma_outcome(table, mutations, rows, last);
                assert(open_at(mutations, count, index, last));
            }
        }
        assert(again is Some);
        assert forall|first: int, last: int| #[trigger]
            open_at(mutations, count, first, last) implies again->0.dom().contains(
            mutations[first].technical_id,
        ) && again->0[mutations[first].technical_id] == rows[mutations[first].row_index] by {
            if first < index {
                assert(open_at(mutations, index, first, last));
                if mutations[first].technical_id == id {
                    assert(mutations[first].technical_id == mutations[index].technical_id);
                    assert(mutations[index].technical_id == mutations[last].technical_id);
                }
            }
        }
        assert forall|other: u64| #[trigger]
            closed_at(mutations, count, other) implies again->0.dom().contains(other)
            == after.dom().contains(other) && (after.dom().contains(other) ==> again->0[other]
            == after[other]) by {
            if other != id {
                assert forall|first: int, last: int| #[trigger]
                    open_at(mutations, index, first, last) implies mutations[first].technical_id
                    != other by {
                    if mutations[first].technical_id == other {
                        assert(last != index);
                        assert(open_at(mutations, count, first, last));
                    }
                }
                assert(closed_at(mutations, index, other));
            } else if mutation.kind is Insert {
                assert forall|j: int| index < j < mutations.len() implies (
                #[trigger] mutations[j]).technical_id != id by {
                    if mutations[j].technical_id == id {
                        assert(open_at(mutations, count, index, j));
                    }
                }
            }
        }
        assert(between(after, again->0, mutations, rows, count));
    } else {
        assert forall|first: int, last: int| #[trigger]
            open_at(mutations, 0, first, last) implies false by {}
    }
}

/// Insertions that follow each other are consecutive: each lies as far below the last one as
/// there are insertions between them.
proof fn lemma_consecutive(mutations: Seq<Mutation>, count: int, index: int)
    requires
        sequence_fault(mutations, count) is None,
        0 <= index < count <= mutations.len(),
        mutations[index].kind is Insert,
    ensures
        last_insert(mutations, count) is Some,
        mutations[index].technical_id + inserts_among(mutations, count) == last_insert(
            mutations,
            count,
        )->0 + 1 + inserts_among(mutations, index),
    decreases count,
{
    if index < count - 1 {
        lemma_consecutive(mutations, count - 1, index);
        assert(mutation_fault(mutations, count - 1) is None);
    }
}

proof fn lemma_no_fault_before(mutations: Seq<Mutation>, index: int)
    requires
        sequence_fault(mutations, mutations.len() as int) is None,
        0 <= index < mutations.len(),
    ensures
        sequence_fault(mutations, index) is None,
        mutation_fault(mutations, index) is None,
{
    if sequence_fault(mutations, index) is Some {
        lemma_sequence_fault_stays(mutations, index, mutations.len() as int);
    } else if mutation_fault(mutations, index) is Some {
        lemma_sequence_fault_stays(mutations, index + 1, mutations.len() as int);
    }
}

/// The last ID that is inserted before `count` is that of one of the insertions there.
proof fn lemma_last_before(mutations: Seq<Mutation>, count: int)
    requires
        0 <= count <= mutations.len(),
    ensures
        last_insert(mutations, count) matches Some(last) ==> exists|i: int|
            0 <= i < count && (#[trigger] mutations[i]).kind is Insert && mutations[i].technical_id
                == last,
    decreases count,
{
    if count > 0 {
        if mutations[count - 1].kind is Insert {
            assert(mutations[count - 1].technical_id == last_insert(mutations, count)->0);
        } else {
            lemma_last_before(mutations, count - 1);
        }
    }
}

/// In a stored batch that steps through its change each ID has its own mutations: its
/// insertion, its deletion, or both in this order.
proof fn lemma_stored_once(
    diffs: Seq<i64>,
    next_id: u64,
    start_position: Position,
    continuation: Continuation,
    mutations: Seq<Mutation>,
)
    requires
        apply_fault(start_position, continuation, mutations) is None,
        steps_through(diffs, next_id, start_position, continuation, mutations),
    ensures
        once_each(mutations),
{
    let size = mutations.len() as int;
    assert forall|i: int, j: int|
        0 <= i < j < size && (#[trigger] mutations[i]).technical_id == (
        #[trigger] mutations[j]).technical_id implies mutations[i].kind is Insert
        && mutations[j].kind is Delete by {
        lemma_no_fault_before(mutations, j);
        if mutations[j].kind is Insert {
            lemma_consecutive(mutations, size, j);
            lemma_inserts_grow(mutations, i, j);
            lemma_inserts_grow(mutations, j, size);
            if mutations[i].kind is Insert {
                lemma_consecutive(mutations, size, i);
            } else {
                assert(stands_for(diffs, mutations, offset_of(diffs, start_position), next_id, i));
                assert(!deletes_too_early(mutations, next_id, i));
                lemma_last_before(mutations, i);
                let last = last_insert(mutations, i)->0;
                let place = choose|place: int|
                    0 <= place < i && (#[trigger] mutations[place]).kind is Insert
                        && mutations[place].technical_id == last;
                lemma_consecutive(mutations, size, place);
                lemma_inserts_grow(mutations, place, j);
            }
        } else if mutations[i].kind is Delete {
            assert(deletes_id(mutations, j, mutations[j].technical_id));
        }
    }
}

proof fn lemma_inserts_grow(mutations: Seq<Mutation>, low: int, high: int)
    requires
        0 <= low <= high <= mutations.len(),
    ensures
        inserts_among(mutations, low) <= inserts_among(mutations, high),
        low < high && mutations[low].kind is Insert ==> inserts_among(mutations, low)
            < inserts_among(mutations, high),
    decreases high - low,
{
    if low < high {
        lemma_inserts_grow(mutations, low, high - 1);
    }
}

/// A stored batch that belongs to its change and was applied may be applied again: nothing is
/// refused, and the table stays as the first time has left it.
pub proof fn law_applied_batch_is_applied_again<R>(
    diffs: Seq<i64>,
    next_id: u64,
    start_position: Position,
    continuation: Continuation,
    mutations: Seq<Mutation>,
    table: Map<u64, R>,
    rows: Map<u64, R>,
)
    requires
        apply_fault(start_position, continuation, mutations) is None,
        steps_through(diffs, next_id, start_position, continuation, mutations),
        with_mutations(table, mutations, rows, mutations.len() as int) is Some,
    ensures
        ({
            let count = mutations.len() as int;
            let after = with_mutations(table, mutations, rows, count)->0;
            with_mutations(after, mutations, rows, count) == Some(after)
        }),
{
    let count = mutations.len() as int;
    let after = with_mutations(table, mutations, rows, count)->0;
    lemma_stored_once(diffs, next_id, start_position, continuation, mutations);
    lemma_second_run(table, mutations, rows, count);
    let again = with_mutations(after, mutations, rows, count)->0;
    assert forall|id: u64| again.dom().contains(id) == #[trigger] after.dom().contains(id) && (
    after.dom().contains(id) ==> again[id] == after[id]) by {
        assert(closed_at(mutations, count, id));
    }
    assert(again =~= after);
}

/// How many of the first `count` mutations are of a kind and of a row.
pub open spec fn mutations_of(
    mutations: Seq<Mutation>,
    rows: Map<u64, Seq<u8>>,
    kind: MutationKind,
    key: Seq<u8>,
    count: int,
) -> nat
    decreases count,
{
    if count <= 0 {
        0
    } else {
        let before = mutations_of(mutations, rows, kind, key, count - 1);
        let mutation = mutations[count - 1];
        if mutation.kind == kind && rows[mutation.row_index] == key {
            before + 1
        } else {
            before
        }
    }
}

/// The rows are those of a batch, by their identities.
pub open spec fn identifies(rows: Map<u64, Seq<u8>>, records: RecordBatch) -> bool {
    forall|row: u64| #[trigger] rows[row] == canonical_bytes(records, row as int)
}

/// Every deletion of an ID below the frontier takes an instance of its own row.
pub open spec fn takes_instances(
    table: Map<u64, Seq<u8>>,
    mutations: Seq<Mutation>,
    rows: Map<u64, Seq<u8>>,
    next_id: u64,
) -> bool {
    forall|i: int|
        0 <= i < mutations.len() && (#[trigger] mutations[i]).kind is Delete
            && mutations[i].technical_id < next_id ==> table.contains_key(
            mutations[i].technical_id,
        ) && table[mutations[i].technical_id] == rows[mutations[i].row_index]
}

/// Whether one of the first `count` mutations deletes an ID.
spec fn deleted_by(mutations: Seq<Mutation>, count: int, id: u64) -> bool {
    exists|i: int|
        0 <= i < count && (#[trigger] mutations[i]).kind is Delete && mutations[i].technical_id
            == id
}

/// What a first run holds after `count` mutations.
spec fn running(
    table: Map<u64, Seq<u8>>,
    held: Map<u64, Seq<u8>>,
    mutations: Seq<Mutation>,
    records: RecordBatch,
    next_id: u64,
    count: int,
) -> bool {
    &&& held.dom().finite()
    &&& forall|id: u64| #[trigger]
        held.contains_key(id) ==> id < next_id + inserts_among(mutations, count)
    &&& forall|id: u64|
        id < next_id && !deleted_by(mutations, count, id) ==> #[trigger] held.contains_key(id)
            == table.contains_key(id) && (table.contains_key(id) ==> held[id] == table[id])
    &&& forall|key: Seq<u8>, a: int|
        #![trigger pending_by(records, next_id, mutations, key, count)[a]]
        0 <= a < pending_by(records, next_id, mutations, key, count).len() ==> {
            let id = pending_by(records, next_id, mutations, key, count)[a];
            &&& next_id <= id < next_id + inserts_among(mutations, count)
            &&& held.contains_key(id)
            &&& held[id] == key
        }
    &&& forall|key: Seq<u8>, a: int, b: int|
        0 <= a < b < pending_by(records, next_id, mutations, key, count).len() ==> (
        #[trigger] pending_by(records, next_id, mutations, key, count)[a]) < (
        #[trigger] pending_by(records, next_id, mutations, key, count)[b])
}

proof fn lemma_first_run(
    table: Map<u64, Seq<u8>>,
    mutations: Seq<Mutation>,
    rows: Map<u64, Seq<u8>>,
    records: RecordBatch,
    diffs: Seq<i64>,
    start: int,
    next_id: u64,
    count: int,
)
    requires
        batch_fits(diffs, start, next_id, mutations),
        own_rows(records, next_id, mutations),
        identifies(rows, records),
        takes_instances(table, mutations, rows, next_id),
        table.dom().finite(),
        forall|id: u64| #[trigger] table.contains_key(id) ==> id < next_id,
        0 <= count <= mutations.len(),
    ensures
        with_mutations(table, mutations, rows, count) is Some,
        running(
            table,
            with_mutations(table, mutations, rows, count)->0,
            mutations,
            records,
            next_id,
            count,
        ),
    decreases count,
{
    if count > 0 {
        let index = count - 1;
        lemma_first_run(table, mutations, rows, records, diffs, start, next_id, index);
        let before = with_mutations(table, mutations, rows, index)->0;
        let mutation = mutations[index];
        let id = mutation.technical_id;
        let own = rows[mutation.row_index];
        assert(own == canonical_bytes(records, mutation.row_index as int));
        assert(mutation_fits(diffs, start, next_id, mutations, index));
        assert(takes_own(records, next_id, mutations, index));
        let pending = pending_by(records, next_id, mutations, own, index);
        if mutation.kind is Insert {
            assert(!before.contains_key(id));
            assert(with_mutations(table, mutations, rows, count) == Some(before.insert(id, own)));
        } else if id < next_id {
            assert(!deleted_by(mutations, index, id)) by {
                if deleted_by(mutations, index, id) {
                    let i = choose|i: int|
                        0 <= i < index && (#[trigger] mutations[i]).kind is Delete
                            && mutations[i].technical_id == id;
                    assert(mutations[i].technical_id != mutations[index].technical_id);
                }
            }
            assert(table.contains_key(id) && table[id] == own);
            assert(before.contains_key(id) && before[id] == own);
        } else {
            assert(pending[0] == id);
            assert(before.contains_key(id) && before[id] == own);
        }
        let after = with_mutations(table, mutations, rows, count)->0;
        assert forall|other: u64|
            other < next_id && !deleted_by(mutations, count, other) implies
        #[trigger] after.contains_key(other) == table.contains_key(other) && (table.contains_key(other) ==> after[other]
            == table[other]) by {
            if deleted_by(mutations, index, other) {
                let i = choose|i: int|
                    0 <= i < index && (#[trigger] mutations[i]).kind is Delete
                        && mutations[i].technical_id == other;
                assert(0 <= i < count && mutations[i].kind is Delete);
            }
            if mutation.kind is Delete && id == other {
                assert(mutations[index].kind is Delete);
            }
            assert(before.contains_key(other) == table.contains_key(other));
        }
        assert forall|key: Seq<u8>, a: int|
            #![trigger pending_by(records, next_id, mutations, key, count)[a]]
            0 <= a < pending_by(records, next_id, mutations, key, count).len() implies ({
            let found = pending_by(records, next_id, mutations, key, count)[a];
            &&& next_id <= found < next_id + inserts_among(mutations, count)
            &&& after.contains_key(found)
            &&& after[found] == key
        }) by {
            let earlier = pending_by(records, next_id, mutations, key, index);
            let found = pending_by(records, next_id, mutations, key, count)[a];
            if mutation.kind is Insert {
                if key == own && a == earlier.len() {
                    assert(found == id);
                } else {
                    assert(found == earlier[a]);
                }
            } else if key == own && id >= next_id {
                assert(found == earlier[a + 1]);
                assert(earlier[0] < earlier[a + 1]);
            } else {
                assert(found == earlier[a]);
            }
        }
        assert forall|key: Seq<u8>, a: int, b: int|
            0 <= a < b < pending_by(records, next_id, mutations, key, count).len() implies (
        #[trigger] pending_by(records, next_id, mutations, key, count)[a]) < (
        #[trigger] pending_by(records, next_id, mutations, key, count)[b]) by {
            let earlier = pending_by(records, next_id, mutations, key, index);
            if mutation.kind is Insert {
                if key == own && b == earlier.len() {
                    assert(earlier[a] < id);
                } else {
                    assert(earlier[a] < earlier[b]);
                }
            } else if key == own && id >= next_id {
                assert(earlier[a + 1] < earlier[b + 1]);
            } else {
                assert(earlier[a] < earlier[b]);
            }
        }
    }
}

/// Each mutation of a first run that is not refused adds or takes one instance of its row.
proof fn lemma_run_counts(
    table: Map<u64, Seq<u8>>,
    mutations: Seq<Mutation>,
    rows: Map<u64, Seq<u8>>,
    records: RecordBatch,
    diffs: Seq<i64>,
    start: int,
    next_id: u64,
    key: Seq<u8>,
    count: int,
)
    requires
        batch_fits(diffs, start, next_id, mutations),
        own_rows(records, next_id, mutations),
        identifies(rows, records),
        takes_instances(table, mutations, rows, next_id),
        table.dom().finite(),
        forall|id: u64| #[trigger] table.contains_key(id) ==> id < next_id,
        0 <= count <= mutations.len(),
    ensures
        with_mutations(table, mutations, rows, count) is Some,
        instances(with_mutations(table, mutations, rows, count)->0, key).finite(),
        instances(with_mutations(table, mutations, rows, count)->0, key).len() + mutations_of(
            mutations,
            rows,
            MutationKind::Delete,
            key,
            count,
        ) == instances(table, key).len() + mutations_of(
            mutations,
            rows,
            MutationKind::Insert,
            key,
            count,
        ),
    decreases count,
{
    if count > 0 {
        let index = count - 1;
        lemma_run_counts(
            table,
            mutations,
            rows,
            records,
            diffs,
            start,
            next_id,
            key,
            index,
        );
        lemma_first_run(table, mutations, rows, records, diffs, start, next_id, index);
        lemma_first_run(table, mutations, rows, records, diffs, start, next_id, count);
        let before = with_mutations(table, mutations, rows, index)->0;
        let after = with_mutations(table, mutations, rows, count)->0;
        let mutation = mutations[index];
        let id = mutation.technical_id;
        let own = rows[mutation.row_index];
        assert(own == canonical_bytes(records, mutation.row_index as int));
        assert(mutation_fits(diffs, start, next_id, mutations, index));
        assert(takes_own(records, next_id, mutations, index));
        if mutation.kind is Insert {
            assert(!before.contains_key(id));
            assert(after == before.insert(id, own));
            if own == key {
                assert(instances(after, key) =~= instances(before, key).insert(id));
            } else {
                assert(instances(after, key) =~= instances(before, key));
            }
        } else {
            if id < next_id {
                assert(!deleted_by(mutations, index, id)) by {
                    if deleted_by(mutations, index, id) {
                        let i = choose|i: int|
                            0 <= i < index && (#[trigger] mutations[i]).kind is Delete
                                && mutations[i].technical_id == id;
                        assert(mutations[i].technical_id != mutations[index].technical_id);
                    }
                }
                assert(before.contains_key(id) == table.contains_key(id));
            } else {
                assert(pending_by(records, next_id, mutations, own, index)[0] == id);
            }
            assert(before.contains_key(id) && before[id] == own);
            assert(after == before.remove(id));
            if own == key {
                assert(instances(before, key).contains(id));
                assert(instances(after, key) =~= instances(before, key).remove(id));
            } else {
                assert(instances(after, key) =~= instances(before, key));
            }
        }
    } else {
        assert(instances(table, key).finite()) by {
            vstd::set_lib::lemma_len_subset(instances(table, key), table.dom());
        }
    }
}

/// A planned batch is exact: where its deletions take true instances of their rows, none of
/// its mutations is refused, and each row is left with as many instances as it had, plus those
/// that are inserted, minus those that are deleted.
pub proof fn law_planned_batch_is_exact(
    planner: BatchPlanner,
    change: Change,
    continuation: Continuation,
    table: Map<u64, Seq<u8>>,
    rows: Map<u64, Seq<u8>>,
    key: Seq<u8>,
)
    requires
        planner.finished(change, continuation),
        identifies(rows, change.records),
        takes_instances(table, planner.mutations@, rows, planner.next_id),
        table.dom().finite(),
        forall|id: u64| #[trigger] table.contains_key(id) ==> id < planner.next_id,
    ensures
        ({
            let mutations = planner.mutations@;
            let count = mutations.len() as int;
            let after = with_mutations(table, mutations, rows, count);
            &&& after is Some
            &&& after->0.dom().finite()
            &&& forall|id: u64| #[trigger]
                after->0.contains_key(id) ==> id < planner.next_id_after
            &&& instances(after->0, key).len() + mutations_of(
                mutations,
                rows,
                MutationKind::Delete,
                key,
                count,
            ) == instances(table, key).len() + mutations_of(
                mutations,
                rows,
                MutationKind::Insert,
                key,
                count,
            )
        }),
{
    let start = offset_of(change.diffs@, planner.start_position);
    let count = planner.mutations@.len() as int;
    lemma_first_run(
        table,
        planner.mutations@,
        rows,
        change.records,
        change.diffs@,
        start,
        planner.next_id,
        count,
    );
    lemma_run_counts(
        table,
        planner.mutations@,
        rows,
        change.records,
        change.diffs@,
        start,
        planner.next_id,
        key,
        count,
    );
}

} // verus!
