//! The batches that carry one change to its end.

use crate::change::{events, lemma_counts_grow, lemma_row_events, Change};
use crate::relation::batch::Insert;
use crate::relation::position::{inserts_among, lies_at, offset_of, row_holds, Continuation};
use crate::relation::runtime::{lemma_split_at, phase_after, splits, work_of, Phase, SinkWork};
use crate::relation::state::{State, StepBatch};
use crate::relation::stepwise::{mutation_fits, BatchPlanner};
use vstd::prelude::*;

verus! {

/// A planned batch, and what is stored of it.
pub ghost struct Carried {
    pub planner: BatchPlanner,
    pub continuation: Continuation,
    pub batch: StepBatch,
}

impl Carried {
    /// The batch is complete, and is the one that was planned.
    pub open spec fn complete(self, change: Change) -> bool {
        &&& self.planner.finished(change, self.continuation)
        &&& splits(self.batch, self.planner.mutations@)
        &&& self.batch.continuation == self.continuation
    }

    /// What a sink does once the batch has reached the target.
    pub open spec fn settlement(self, change: Change) -> SinkWork {
        work_of(
            phase_after(
                State::Prepared { next_id: self.planner.next_id_after, batch: self.batch },
            ),
            change,
        )
    }

    /// The batch is the one that a sink has to plan.
    pub open spec fn planned_by(self, work: SinkWork) -> bool {
        match work {
            SinkWork::Plan { next_id, position } => self.planner.next_id == next_id
                && self.planner.start_position == position,
            _ => false,
        }
    }

    /// How many events lie before the batch.
    pub open spec fn begins_at(self, change: Change) -> int {
        offset_of(change.diffs@, self.planner.start_position)
    }

    /// How many events lie before the end of the batch.
    pub open spec fn ends_at(self, change: Change) -> int {
        self.begins_at(change) + self.planner.mutations@.len()
    }

    /// The event at `offset` is the one at `index` of the batch, which inserts an instance of its
    /// row, or deletes one.
    pub open spec fn carries_event(self, change: Change, index: int, offset: int) -> bool {
        let mutation = self.planner.mutations@[index];
        let row = mutation.row_index as int;
        &&& 0 <= index < self.planner.mutations@.len()
        &&& self.begins_at(change) + index == offset
        &&& row_holds(change.diffs@, row, offset)
        &&& if change.diffs@[row] > 0 {
            exists|i: int|
                0 <= i < self.batch.inserts@.len() && #[trigger] self.batch.inserts@[i] == (
                Insert { row_index: mutation.row_index, technical_id: mutation.technical_id })
        } else {
            self.batch.deletes@.contains(mutation.technical_id)
        }
    }
}

/// The batches of one change: each is what the sink has to plan once the one before it is
/// settled, and only the last one completes the input.
pub open spec fn carries(change: Change, next_id: u64, batches: Seq<Carried>) -> bool {
    &&& batches.len() > 0
    &&& forall|k: int| 0 <= k < batches.len() ==> (#[trigger] batches[k]).complete(change)
    &&& batches[0].planned_by(work_of(Phase::Ready { next_id, position: None }, change))
    &&& forall|k: int|
        0 <= k < batches.len() ==> (match (#[trigger] batches[k]).settlement(change) {
            SinkWork::Persist { state, complete } => {
                &&& complete == (k == batches.len() - 1)
                &&& !complete ==> batches[k + 1].planned_by(work_of(phase_after(state), change))
            },
            _ => false,
        })
}

/// What settles a batch stands exactly behind it: the input is complete where the last event was
/// carried, and else the next batch begins at the first event that was not, with the next ID.
pub proof fn law_settled_batch_stands_behind(batch: Carried, next: Carried, change: Change)
    requires
        batch.complete(change),
    ensures
        match batch.settlement(change) {
            SinkWork::Persist { state, complete } => {
                &&& complete <==> batch.ends_at(change) == events(
                    change.diffs@,
                    change.diffs@.len() as int,
                )
                &&& !complete && next.planned_by(work_of(phase_after(state), change)) ==> {
                    &&& next.begins_at(change) == batch.ends_at(change)
                    &&& next.planner.next_id == batch.planner.next_id_after
                }
            },
            _ => false,
        },
{
    let diffs = change.diffs@;
    assert(lies_at(diffs, batch.continuation, batch.ends_at(change)));
    if let Continuation::Position(position) = batch.continuation {
        lemma_counts_grow(diffs, position.row_index + 1, diffs.len() as int);
    }
}

#[verifier::rlimit(40)]
proof fn lemma_place(change: Change, next_id: u64, batches: Seq<Carried>, k: int)
    requires
        change.wf(),
        carries(change, next_id, batches),
        0 <= k < batches.len(),
    ensures
        k == 0 ==> batches[k].begins_at(change) == 0 && batches[k].planner.next_id == next_id,
        k > 0 ==> batches[k].begins_at(change) == batches[k - 1].ends_at(change)
            && batches[k].planner.next_id == batches[k - 1].planner.next_id_after,
        k == batches.len() - 1 ==> batches[k].ends_at(change) == events(
            change.diffs@,
            change.diffs@.len() as int,
        ),
        batches[k].planner.mutations@.len() > 0,
        batches[k].begins_at(change) < batches[k].ends_at(change),
{
    let diffs = change.diffs@;
    let batch = batches[k];
    assert(batch.complete(change));
    law_settled_batch_stands_behind(batch, batch, change);
    assert(batches[k].settlement(change) is Persist);
    if k == 0 {
        lemma_row_events(diffs, 0);
        assert(diffs[0] != 0);
    } else {
        let before = batches[k - 1];
        assert(before.complete(change));
        law_settled_batch_stands_behind(before, batch, change);
        assert(batches[k - 1].settlement(change) is Persist);
        assert(batches[k - 1 + 1] == batch);
    }
}

proof fn lemma_carries(batch: Carried, change: Change, i: int)
    requires
        batch.complete(change),
        0 <= i < batch.planner.mutations@.len(),
    ensures
        batch.carries_event(change, i, batch.begins_at(change) + i),
{
    let start = batch.begins_at(change);
    let mutations = batch.planner.mutations@;
    let total = mutations.len() as int;
    assert(mutation_fits(change.diffs@, start, batch.planner.next_id, mutations, i));
    lemma_split_at(mutations, i, total);
    let place = inserts_among(mutations, i) as int;
    if mutations[i].kind is Insert {
        assert(batch.batch.inserts@[place] == (Insert {
            row_index: mutations[i].row_index,
            technical_id: mutations[i].technical_id,
        }));
    } else {
        assert(batch.batch.deletes@[i - place] == mutations[i].technical_id);
    }
}

#[verifier::rlimit(40)]
proof fn lemma_ends_grow(change: Change, next_id: u64, batches: Seq<Carried>, low: int, high: int)
    requires
        change.wf(),
        carries(change, next_id, batches),
        0 <= low < high < batches.len(),
    ensures
        batches[low].ends_at(change) <= batches[high].begins_at(change),
    decreases high - low,
{
    lemma_place(change, next_id, batches, high);
    if low < high - 1 {
        lemma_ends_grow(change, next_id, batches, low, high - 1);
        lemma_place(change, next_id, batches, high - 1);
    }
}

#[verifier::rlimit(40)]
proof fn lemma_carried(
    change: Change,
    next_id: u64,
    batches: Seq<Carried>,
    k: int,
    offset: int,
) -> (place: (int, int))
    requires
        change.wf(),
        carries(change, next_id, batches),
        0 <= k < batches.len(),
        0 <= offset < batches[k].ends_at(change),
    ensures
        0 <= place.0 <= k,
        batches[place.0].carries_event(change, place.1, offset),
    decreases k,
{
    lemma_place(change, next_id, batches, k);
    let start = batches[k].begins_at(change);
    if offset < start {
        lemma_carried(change, next_id, batches, k - 1, offset)
    } else {
        assert(batches[k].complete(change));
        lemma_carries(batches[k], change, offset - start);
        (k, offset - start)
    }
}

/// The batches of one change carry every event of it, and each event once: for each there is one
/// batch, which inserts an instance of the row of the event where the row enters, and deletes one
/// where it leaves.
#[verifier::rlimit(40)]
pub proof fn law_batches_carry_each_event_once(
    change: Change,
    next_id: u64,
    batches: Seq<Carried>,
    offset: int,
)
    requires
        change.wf(),
        carries(change, next_id, batches),
        0 <= offset < events(change.diffs@, change.diffs@.len() as int),
    ensures
        exists|k: int, i: int|
            0 <= k < batches.len() && #[trigger] batches[k].carries_event(change, i, offset),
        forall|k: int, i: int, l: int, j: int|
            0 <= k < batches.len() && 0 <= l < batches.len() && #[trigger] batches[k].carries_event(
                change,
                i,
                offset,
            ) && #[trigger] batches[l].carries_event(change, j, offset) ==> k == l && i == j,
{
    let last = batches.len() - 1;
    lemma_place(change, next_id, batches, last);
    let place = lemma_carried(change, next_id, batches, last, offset);
    assert(batches[place.0].carries_event(change, place.1, offset));
    assert forall|k: int, i: int, l: int, j: int|
        0 <= k < batches.len() && 0 <= l < batches.len() && #[trigger] batches[k].carries_event(
            change,
            i,
            offset,
        ) && #[trigger] batches[l].carries_event(change, j, offset) implies k == l && i == j by {
        if k < l {
            lemma_ends_grow(change, next_id, batches, k, l);
        } else if l < k {
            lemma_ends_grow(change, next_id, batches, l, k);
        }
    }
}

} // verus!
