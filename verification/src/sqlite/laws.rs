//! What holds of the batches that are planned, stored and applied.

use crate::change::{lemma_row_events, Change};
use crate::relation::batch::EXHAUSTED_ID;
use crate::relation::position::{
    inserts_among, last_insert, lemma_events_grow, lemma_only_row, offset_of, reserved_start,
    row_holds, stands_for, stands_in, steps_through, Continuation, Mutation, Position,
};
use crate::relation::stepwise::{batch_fits, lemma_inserts_grow, mutation_fits, BatchPlanner};
use crate::sqlite::state::{apply_fault, count_in_row, deletes_id, mutation_fault, sequence_fault};
use vstd::prelude::*;

verus! {

/// The last inserted ID is the one before the next new one.
pub proof fn lemma_last_insert(
    diffs: Seq<i64>,
    start: int,
    next_id: u64,
    mutations: Seq<Mutation>,
    count: int,
)
    requires
        batch_fits(diffs, start, next_id, mutations),
        0 <= count <= mutations.len(),
    ensures
        inserts_among(mutations, count) == 0 ==> last_insert(mutations, count) is None,
        inserts_among(mutations, count) > 0 ==> {
            &&& last_insert(mutations, count) is Some
            &&& last_insert(mutations, count)->0 == next_id + inserts_among(mutations, count) - 1
        },
    decreases count,
{
    if count > 0 {
        lemma_last_insert(diffs, start, next_id, mutations, count - 1);
        assert(mutation_fits(diffs, start, next_id, mutations, count - 1));
    }
}

/// A planned batch is accepted when it is applied: it steps through its change from its start
/// to its continuation, and its insertions end at the new frontier.
pub proof fn law_planned_batch_is_accepted(
    planner: BatchPlanner,
    change: Change,
    continuation: Continuation,
)
    requires
        planner.finished(change, continuation),
    ensures
        steps_through(
            change.diffs@,
            planner.next_id_after,
            planner.start_position,
            continuation,
            planner.mutations@,
        ),
{
    let diffs = change.diffs@;
    let start = offset_of(diffs, planner.start_position);
    let mutations = planner.mutations@;
    let next_id = planner.next_id;
    let count = mutations.len() as int;
    lemma_last_insert(diffs, start, next_id, mutations, count);
    assert(reserved_start(mutations, planner.next_id_after) == next_id);
    assert forall|i: int| 0 <= i < count implies #[trigger] stands_for(
        diffs,
        mutations,
        start,
        planner.next_id_after,
        i,
    ) by {
        assert(mutation_fits(diffs, start, next_id, mutations, i));
        lemma_inserts_grow(mutations, i + 1, count);
        lemma_last_insert(diffs, start, next_id, mutations, i);
    }
}

/// Neighbouring events belong to the same row or to neighbouring rows.
proof fn lemma_next_row(diffs: Seq<i64>, row: int, other: int, offset: int)
    requires
        forall|i: int| 0 <= i < diffs.len() ==> #[trigger] diffs[i] != 0,
        row_holds(diffs, row, offset),
        row_holds(diffs, other, offset + 1),
    ensures
        other == row || other == row + 1,
{
    if other < row {
        lemma_events_grow(diffs, other + 1, row);
    }
    if other > row + 1 {
        lemma_row_events(diffs, row + 1);
        lemma_events_grow(diffs, row + 2, other);
        assert(diffs[row + 1] != 0);
    }
}

/// Of a batch, the events of its first row come first.
proof fn lemma_first_row_count(
    diffs: Seq<i64>,
    start_position: Position,
    next_id: u64,
    mutations: Seq<Mutation>,
    count: int,
)
    requires
        stands_in(diffs, start_position),
        batch_fits(diffs, offset_of(diffs, start_position), next_id, mutations),
        0 <= count <= mutations.len(),
    ensures
        count_in_row(mutations, start_position.row_index, count) == (if count
            <= start_position.remaining {
            count
        } else {
            start_position.remaining as int
        }),
    decreases count,
{
    if count > 0 {
        lemma_first_row_count(diffs, start_position, next_id, mutations, count - 1);
        let start = offset_of(diffs, start_position);
        let row = start_position.row_index as int;
        let index = count - 1;
        assert(mutation_fits(diffs, start, next_id, mutations, index));
        lemma_row_events(diffs, row);
        if index < start_position.remaining {
            assert(row_holds(diffs, row, start + index));
            lemma_only_row(diffs, row, mutations[index].row_index as int, start + index);
        } else if mutations[index].row_index == row {
            assert(!row_holds(diffs, row, start + index));
        }
    }
}

/// Each mutation of a batch can follow the ones before it.
proof fn lemma_mutation_follows(
    diffs: Seq<i64>,
    start: int,
    next_id: u64,
    mutations: Seq<Mutation>,
    index: int,
)
    requires
        forall|i: int| 0 <= i < diffs.len() ==> #[trigger] diffs[i] != 0,
        batch_fits(diffs, start, next_id, mutations),
        0 < next_id,
        next_id + inserts_among(mutations, mutations.len() as int) <= EXHAUSTED_ID,
        0 <= index < mutations.len(),
    ensures
        mutation_fault(mutations, index) is None,
{
    let mutation = mutations[index];
    assert(mutation_fits(diffs, start, next_id, mutations, index));
    lemma_inserts_grow(mutations, index + 1, mutations.len() as int);
    lemma_last_insert(diffs, start, next_id, mutations, index);
    if index > 0 {
        let previous = mutations[index - 1];
        assert(mutation_fits(diffs, start, next_id, mutations, index - 1));
        lemma_next_row(
            diffs,
            previous.row_index as int,
            mutation.row_index as int,
            start + index - 1,
        );
    }
    if mutation.kind is Delete && deletes_id(mutations, index, mutation.technical_id) {
        let i = choose|i: int|
            0 <= i < index && (#[trigger] mutations[i]).kind is Delete && mutations[i].technical_id
                == mutation.technical_id;
        assert(mutations[i].technical_id != mutations[index].technical_id);
    }
}

proof fn lemma_sequence_follows(
    diffs: Seq<i64>,
    start: int,
    next_id: u64,
    mutations: Seq<Mutation>,
    count: int,
)
    requires
        forall|i: int| 0 <= i < diffs.len() ==> #[trigger] diffs[i] != 0,
        batch_fits(diffs, start, next_id, mutations),
        0 < next_id,
        next_id + inserts_among(mutations, mutations.len() as int) <= EXHAUSTED_ID,
        0 <= count <= mutations.len(),
    ensures
        sequence_fault(mutations, count) is None,
    decreases count,
{
    if count > 0 {
        lemma_sequence_follows(diffs, start, next_id, mutations, count - 1);
        lemma_mutation_follows(diffs, start, next_id, mutations, count - 1);
    }
}

/// A planned batch can be stored: it is in its canonical form.
pub proof fn law_planned_batch_is_canonical(
    planner: BatchPlanner,
    change: Change,
    continuation: Continuation,
)
    requires
        planner.finished(change, continuation),
    ensures
        apply_fault(planner.start_position, continuation, planner.mutations@) is None,
{
    let diffs = change.diffs@;
    let first = planner.start_position;
    let start = offset_of(diffs, first);
    let mutations = planner.mutations@;
    let next_id = planner.next_id;
    let count = mutations.len() as int;
    let row = first.row_index as int;
    lemma_row_events(diffs, row);
    assert(mutation_fits(diffs, start, next_id, mutations, 0));
    lemma_only_row(diffs, row, mutations[0].row_index as int, start);
    lemma_sequence_follows(diffs, start, next_id, mutations, count);
    lemma_first_row_count(diffs, first, next_id, mutations, count);
    assert(mutation_fits(diffs, start, next_id, mutations, count - 1));
    let last_row = mutations[count - 1].row_index as int;
    lemma_row_events(diffs, last_row);
    match continuation {
        Continuation::Done => {
            lemma_events_grow(diffs, row + 1, diffs.len() as int);
        },
        Continuation::Position(position) => {
            let next = position.row_index as int;
            lemma_row_events(diffs, next);
            assert(row_holds(diffs, next, start + count));
            lemma_next_row(diffs, last_row, next, start + count - 1);
            if count < first.remaining {
                lemma_only_row(diffs, row, last_row, start + count - 1);
                lemma_only_row(diffs, row, next, start + count);
            } else {
                if next == row {
                    assert(!row_holds(diffs, row, start + count));
                }
            }
        },
    }
}

} // verus!
