//! The turns of a relation sink that splits one change into batches.

use crate::change::{lemma_row_events, same_schema, Change, RecordBatch, Schema};
use crate::relation::batch::{Insert, FIRST_TECHNICAL_ID};
use crate::relation::position::{
    first_position, inserts_among, lemma_events_grow, offset_of, on_boundary, Continuation,
    Mutation, MutationKind, Position,
};
use crate::relation::row::canonical_bytes;
use crate::relation::state::{
    decodes, end_of, events_fault, first_insert, followed_by, ids_fit, inserting, lemma_event_row,
    row_at, state_fits, FaultModel, State, StateFault, StepBatch,
};
use crate::relation::stepwise::{
    lemma_inserts_grow, mutation_fits, pending_by, takes_own, BatchPlanner,
};
use crate::text::abs;
use vstd::prelude::*;

verus! {

/// What a sink knows of its durable state. Each phase is entered only once what it rests on
/// is stored.
#[derive(Clone, Copy, Debug, PartialEq, Eq, Structural)]
pub enum Phase {
    Restore,
    New,
    Initialized,
    Ready { next_id: u64, position: Option<Position> },
    Delivered { next_id: u64, continuation: Continuation },
}

/// What a turn has to do.
#[derive(Debug, PartialEq, Eq)]
pub enum SinkWork {
    /// Read the durable state and go on from it.
    Restore,
    /// Require that the target is absent, then store the intent to create it.
    Begin,
    /// Store a state, and complete the change or not.
    Persist { state: State, complete: bool },
    /// Plan the next batch from a position, then store it.
    Plan { next_id: u64, position: Position },
}

/// Why an input is refused.
#[derive(Clone, Copy, Debug, PartialEq, Eq, Structural)]
pub enum InputFault {
    Missing,
    Port,
    Schema,
}

/// A relation sink that is bound to an exact schema.
#[derive(Debug)]
pub struct RelationalSink {
    pub schema: Schema,
    pub phase: Phase,
}

/// What a state asks of the target once it is stored.
#[derive(Debug, PartialEq, Eq)]
pub enum Effect {
    Initialize,
    Nothing,
    Write(StepBatch),
}

/// The phase that follows once a stored state took effect.
pub open spec fn phase_after(state: State) -> Phase {
    match state {
        State::Initialize => Phase::Initialized,
        State::Ready { next_id, position } => Phase::Ready { next_id, position },
        State::Prepared { next_id, batch } => Phase::Delivered {
            next_id,
            continuation: batch.continuation,
        },
    }
}

/// Says what a stored state asks of the target, and which phase follows.
pub fn deliver(state: State) -> (delivery: (Effect, Phase))
    ensures
        delivery.1 == phase_after(state),
        match state {
            State::Initialize => delivery.0 == Effect::Initialize,
            State::Ready { next_id, position } => delivery.0 == Effect::Nothing,
            State::Prepared { next_id, batch } => delivery.0 == Effect::Write(batch),
        },
{
    match state {
        State::Initialize => (Effect::Initialize, Phase::Initialized),
        State::Ready { next_id, position } => (Effect::Nothing, Phase::Ready { next_id, position }),
        State::Prepared { next_id, batch } => {
            let continuation: Continuation = batch.continuation;
            (Effect::Write(batch), Phase::Delivered { next_id, continuation })
        },
    }
}

/// Reads the durable state, if there is one, and checks that it belongs to the change.
pub fn restore(stored: Option<&[u8]>, change: &Change) -> (result: Result<Option<State>, StateFault>)
    requires
        change.wf(),
    ensures
        match stored {
            None => result == Ok::<Option<State>, StateFault>(None),
            Some(bytes) => match result {
                Ok(state) => state is Some && decodes(
                    bytes@,
                    *change,
                    Ok::<State, FaultModel>(state->0),
                ),
                Err(fault) => decodes(bytes@, *change, Err::<State, FaultModel>(fault@)),
            },
        },
{
    match stored {
        None => Ok(None),
        Some(bytes) => match State::decode(bytes, change) {
            Ok(state) => Ok(Some(state)),
            Err(fault) => Err(fault),
        },
    }
}

/// What a phase asks for.
pub open spec fn work_of(phase: Phase, change: Change) -> SinkWork {
    match phase {
        Phase::Restore => SinkWork::Restore,
        Phase::New => SinkWork::Begin,
        Phase::Initialized => SinkWork::Persist {
            state: State::Ready { next_id: FIRST_TECHNICAL_ID, position: None },
            complete: false,
        },
        Phase::Ready { next_id, position } => SinkWork::Plan {
            next_id,
            position: match position {
                Some(position) => position,
                None => Position {
                    row_index: 0,
                    remaining: abs(change.diffs@[0] as int) as u64,
                },
            },
        },
        Phase::Delivered { next_id, continuation } => SinkWork::Persist {
            state: State::Ready { next_id, position: followed_by(continuation) },
            complete: continuation is Done,
        },
    }
}

impl RelationalSink {
    pub fn new(schema: Schema) -> (sink: RelationalSink)
        ensures
            sink.schema == schema,
            sink.phase == Phase::Restore,
    {
        RelationalSink { schema, phase: Phase::Restore }
    }

    /// Decides what a turn has to do.
    pub fn turn(&self, input: Option<(u64, &Change)>) -> (result: Result<SinkWork, InputFault>)
        requires
            input is Some ==> (input->0).1.wf(),
        ensures
            result == (match input {
                None => Err::<SinkWork, InputFault>(InputFault::Missing),
                Some((port, change)) => if port != 0 {
                    Err(InputFault::Port)
                } else if change.records.schema@ != self.schema@ {
                    Err(InputFault::Schema)
                } else {
                    Ok(work_of(self.phase, *change))
                },
            }),
    {
        let (port, change): (u64, &Change) = match input {
            Some((port, change)) => (port, change),
            None => {
                return Err(InputFault::Missing);
            },
        };
        if port != 0 {
            return Err(InputFault::Port);
        }
        if !same_schema(&change.records.schema, &self.schema) {
            return Err(InputFault::Schema);
        }
        Ok(
            match self.phase {
                Phase::Restore => SinkWork::Restore,
                Phase::New => SinkWork::Begin,
                Phase::Initialized => SinkWork::Persist {
                    state: State::Ready { next_id: FIRST_TECHNICAL_ID, position: None },
                    complete: false,
                },
                Phase::Ready { next_id, position } => SinkWork::Plan {
                    next_id,
                    position: match position {
                        Some(position) => position,
                        None => first_position(change),
                    },
                },
                Phase::Delivered { next_id, continuation } => {
                    let position: Option<Position> = match continuation {
                        Continuation::Done => None,
                        Continuation::Position(position) => Some(position),
                    };
                    let complete: bool = position.is_none();
                    SinkWork::Persist { state: State::Ready { next_id, position }, complete }
                },
            },
        )
    }
}

/// The insertions among the first `count` mutations.
pub open spec fn inserts_of(mutations: Seq<Mutation>, count: int) -> Seq<Insert>
    decreases count,
{
    if count <= 0 {
        Seq::empty()
    } else if mutations[count - 1].kind is Insert {
        inserts_of(mutations, count - 1).push(
            Insert {
                row_index: mutations[count - 1].row_index,
                technical_id: mutations[count - 1].technical_id,
            },
        )
    } else {
        inserts_of(mutations, count - 1)
    }
}

/// The IDs that the first `count` mutations delete.
pub open spec fn deletes_of(mutations: Seq<Mutation>, count: int) -> Seq<u64>
    decreases count,
{
    if count <= 0 {
        Seq::empty()
    } else if mutations[count - 1].kind is Delete {
        deletes_of(mutations, count - 1).push(mutations[count - 1].technical_id)
    } else {
        deletes_of(mutations, count - 1)
    }
}

/// A planned sequence of mutations as a batch: what it inserts and what it deletes.
pub fn batch_of(mutations: &Vec<Mutation>, continuation: Continuation) -> (batch: StepBatch)
    ensures
        batch.inserts@ == inserts_of(mutations@, mutations@.len() as int),
        batch.deletes@ == deletes_of(mutations@, mutations@.len() as int),
        batch.continuation == continuation,
{
    let mut inserts: Vec<Insert> = Vec::new();
    let mut deletes: Vec<u64> = Vec::new();
    let mut index: usize = 0;
    while index < mutations.len()
        invariant
            index <= mutations@.len(),
            inserts@ == inserts_of(mutations@, index as int),
            deletes@ == deletes_of(mutations@, index as int),
        decreases mutations@.len() - index,
    {
        let mutation: Mutation = mutations[index];
        match mutation.kind {
            MutationKind::Insert => {
                inserts.push(
                    Insert { row_index: mutation.row_index, technical_id: mutation.technical_id },
                );
            },
            MutationKind::Delete => {
                deletes.push(mutation.technical_id);
            },
        }
        index += 1;
    }
    StepBatch { inserts, deletes, continuation }
}

/// The place of a mutation among the insertions, or among the deletions.
pub proof fn lemma_split(mutations: Seq<Mutation>, count: int)
    requires
        0 <= count <= mutations.len(),
    ensures
        inserts_of(mutations, count).len() == inserts_among(mutations, count),
        deletes_of(mutations, count).len() == count - inserts_among(mutations, count),
        inserts_among(mutations, count) <= count,
    decreases count,
{
    if count > 0 {
        lemma_split(mutations, count - 1);
    }
}

pub proof fn lemma_split_at(mutations: Seq<Mutation>, index: int, count: int)
    requires
        0 <= index < count <= mutations.len(),
    ensures
        ({
            let mutation = mutations[index];
            let place = inserts_among(mutations, index) as int;
            &&& mutation.kind is Insert ==> {
                &&& place < inserts_of(mutations, count).len()
                &&& inserts_of(mutations, count)[place].row_index == mutation.row_index
                &&& inserts_of(mutations, count)[place].technical_id == mutation.technical_id
            }
            &&& mutation.kind is Delete ==> {
                &&& 0 <= index - place < deletes_of(mutations, count).len()
                &&& deletes_of(mutations, count)[index - place] == mutation.technical_id
            }
        }),
    decreases count,
{
    lemma_split(mutations, count - 1);
    lemma_split(mutations, index);
    if index < count - 1 {
        lemma_split_at(mutations, index, count - 1);
    }
}

/// The insertion at a place is one of the mutations.
proof fn lemma_insert_source(mutations: Seq<Mutation>, place: int, count: int) -> (index: int)
    requires
        0 <= count <= mutations.len(),
        0 <= place < inserts_of(mutations, count).len(),
    ensures
        0 <= index < count,
        mutations[index].kind is Insert,
        inserts_among(mutations, index) == place,
    decreases count,
{
    lemma_split(mutations, count - 1);
    if place < inserts_of(mutations, count - 1).len() {
        lemma_insert_source(mutations, place, count - 1)
    } else {
        count - 1
    }
}

/// The deletion at a place is one of the mutations.
proof fn lemma_delete_source(mutations: Seq<Mutation>, place: int, count: int) -> (index: int)
    requires
        0 <= count <= mutations.len(),
        0 <= place < deletes_of(mutations, count).len(),
    ensures
        0 <= index < count,
        mutations[index].kind is Delete,
        index - inserts_among(mutations, index) == place,
    decreases count,
{
    lemma_split(mutations, count - 1);
    if place < deletes_of(mutations, count - 1).len() {
        lemma_delete_source(mutations, place, count - 1)
    } else {
        count - 1
    }
}

/// A pending ID was inserted by an earlier mutation for the same row.
proof fn lemma_pending_source(
    records: RecordBatch,
    next_id: u64,
    mutations: Seq<Mutation>,
    key: Seq<u8>,
    count: int,
    place: int,
) -> (index: int)
    requires
        0 <= count <= mutations.len(),
        0 <= place < pending_by(records, next_id, mutations, key, count).len(),
    ensures
        0 <= index < count,
        mutations[index].kind is Insert,
        mutations[index].technical_id == pending_by(records, next_id, mutations, key, count)[place],
        canonical_bytes(records, mutations[index].row_index as int) == key,
    decreases count,
{
    let before = pending_by(records, next_id, mutations, key, count - 1);
    let now = pending_by(records, next_id, mutations, key, count);
    let mutation = mutations[count - 1];
    if canonical_bytes(records, mutation.row_index as int) == key && mutation.kind is Insert {
        if place < before.len() {
            lemma_pending_source(records, next_id, mutations, key, count - 1, place)
        } else {
            count - 1
        }
    } else if canonical_bytes(records, mutation.row_index as int) == key && mutation.technical_id
        >= next_id && before.len() > 0 {
        assert(now[place] == before[place + 1]);
        lemma_pending_source(records, next_id, mutations, key, count - 1, place + 1)
    } else {
        lemma_pending_source(records, next_id, mutations, key, count - 1, place)
    }
}

/// A batch of planned mutations.
pub open spec fn splits(batch: StepBatch, mutations: Seq<Mutation>) -> bool {
    &&& batch.inserts@ == inserts_of(mutations, mutations.len() as int)
    &&& batch.deletes@ == deletes_of(mutations, mutations.len() as int)
}

proof fn lemma_planned_ids(
    planner: BatchPlanner,
    change: Change,
    continuation: Continuation,
    batch: StepBatch,
)
    requires
        planner.finished(change, continuation),
        splits(batch, planner.mutations@),
    ensures
        first_insert(batch, planner.next_id_after) == planner.next_id,
        ids_fit(batch, planner.next_id_after),
{
    let diffs = change.diffs@;
    let start = offset_of(diffs, planner.start_position);
    let mutations = planner.mutations@;
    let count = mutations.len() as int;
    lemma_split(mutations, count);
    assert forall|k: int| 0 <= k < batch.inserts@.len() implies (
    #[trigger] batch.inserts@[k]).technical_id == first_insert(batch, planner.next_id_after) + k by {
        let index = lemma_insert_source(mutations, k, count);
        lemma_split_at(mutations, index, count);
        assert(mutation_fits(diffs, start, planner.next_id, mutations, index));
    }
    assert forall|k: int| 0 <= k < batch.deletes@.len() implies 0 < #[trigger] batch.deletes@[k]
        < planner.next_id_after by {
        let index = lemma_delete_source(mutations, k, count);
        lemma_split_at(mutations, index, count);
        assert(mutation_fits(diffs, start, planner.next_id, mutations, index));
        lemma_inserts_grow(mutations, index, count);
    }
    assert forall|j: int, k: int| 0 <= j < k < batch.deletes@.len() implies #[trigger] batch.deletes@[j]
        != #[trigger] batch.deletes@[k] by {
        let first = lemma_delete_source(mutations, j, count);
        let second = lemma_delete_source(mutations, k, count);
        lemma_split_at(mutations, first, count);
        lemma_split_at(mutations, second, count);
        if first > second {
            lemma_split(mutations, first);
            lemma_inserts_between(mutations, second, first);
        }
        assert(mutations[first].technical_id != mutations[second].technical_id);
    }
}

/// Between two places lie at most as many insertions as mutations.
proof fn lemma_inserts_between(mutations: Seq<Mutation>, low: int, high: int)
    requires
        0 <= low <= high,
    ensures
        inserts_among(mutations, low) <= inserts_among(mutations, high) <= inserts_among(
            mutations,
            low,
        ) + (high - low),
    decreases high - low,
{
    if low < high {
        lemma_inserts_between(mutations, low, high - 1);
    }
}

/// The events before the end of a batch insert as its last mutations do.
proof fn lemma_inserting(
    planner: BatchPlanner,
    change: Change,
    continuation: Continuation,
    count: int,
)
    requires
        planner.finished(change, continuation),
        0 <= count <= planner.mutations@.len(),
    ensures
        ({
            let diffs = change.diffs@;
            let mutations = planner.mutations@;
            let total = mutations.len() as int;
            let end = end_of(diffs, continuation);
            &&& end == offset_of(diffs, planner.start_position) + total
            &&& inserting(diffs, end, count) == inserts_among(mutations, total) - inserts_among(
                mutations,
                total - count,
            )
            &&& count > 0 ==> row_at(diffs, end - count) == mutations[total - count].row_index
        }),
    decreases count,
{
    let diffs = change.diffs@;
    let mutations = planner.mutations@;
    let total = mutations.len() as int;
    let start = offset_of(diffs, planner.start_position);
    if count > 0 {
        lemma_inserting(planner, change, continuation, count - 1);
        let index = total - count;
        assert(mutation_fits(diffs, start, planner.next_id, mutations, index));
        lemma_event_row(
            diffs,
            start + index,
            mutations[index].row_index as int,
            diffs.len() as int,
        );
    }
}

/// The events of a planned batch match it.
proof fn lemma_planned_events(
    planner: BatchPlanner,
    change: Change,
    continuation: Continuation,
    batch: StepBatch,
    count: int,
)
    requires
        planner.finished(change, continuation),
        splits(batch, planner.mutations@),
        batch.continuation == continuation,
        0 <= count <= planner.mutations@.len(),
    ensures
        events_fault(batch, planner.next_id_after, change, count) is None,
    decreases count,
{
    if count > 0 {
        lemma_planned_events(planner, change, continuation, batch, count - 1);
        let diffs = change.diffs@;
        let records = change.records;
        let mutations = planner.mutations@;
        let total = mutations.len() as int;
        let start = offset_of(diffs, planner.start_position);
        let index = total - count;
        let mutation = mutations[index];
        let row = mutation.row_index as int;
        lemma_row_events(diffs, planner.start_position.row_index as int);
        lemma_planned_ids(planner, change, continuation, batch);
        lemma_inserting(planner, change, continuation, count);
        lemma_inserting(planner, change, continuation, count - 1);
        lemma_split(mutations, total);
        lemma_split(mutations, index);
        lemma_split_at(mutations, index, total);
        assert(mutation_fits(diffs, start, planner.next_id, mutations, index));
        assert(takes_own(records, planner.next_id, mutations, index));
        if mutation.kind is Delete && mutation.technical_id >= planner.next_id {
            let key = canonical_bytes(records, row);
            let source = lemma_pending_source(
                records,
                planner.next_id,
                mutations,
                key,
                index,
                0,
            );
            lemma_split_at(mutations, source, total);
            assert(mutation_fits(diffs, start, planner.next_id, mutations, source));
            assert(takes_own(records, planner.next_id, mutations, source));
            let other = mutations[source].row_index as int;
            if other > row {
                lemma_events_grow(diffs, row + 1, other);
            }
            assert(other < row);
        }
    }
}

/// A planned batch can be stored and found again: it is one that a sink can have while it
/// works on the change.
pub proof fn law_planned_batch_is_recoverable(
    planner: BatchPlanner,
    change: Change,
    continuation: Continuation,
    batch: StepBatch,
)
    requires
        planner.finished(change, continuation),
        splits(batch, planner.mutations@),
        batch.continuation == continuation,
    ensures
        state_fits(State::Prepared { next_id: planner.next_id_after, batch }, change),
{
    let diffs = change.diffs@;
    let mutations = planner.mutations@;
    let total = mutations.len() as int;
    let start = offset_of(diffs, planner.start_position);
    lemma_split(mutations, total);
    lemma_planned_ids(planner, change, continuation, batch);
    lemma_planned_events(planner, change, continuation, batch, total);
    lemma_row_events(diffs, planner.start_position.row_index as int);
    vstd::arithmetic::div_mod::lemma_add_mod_noop(start, total, 1024);
    match continuation {
        Continuation::Done => {},
        Continuation::Position(position) => {
            assert(on_boundary(diffs, position));
        },
    }
}

} // verus!
