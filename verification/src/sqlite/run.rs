//! The turns of a whole change: what they make of the table, and what happens when one of them
//! is repeated.

use crate::change::{events, lemma_row_events, positives, Change};
use crate::relation::batch::MAX_MUTATIONS_PER_BATCH;
use crate::relation::exact::instances;
use crate::relation::plan::{added, keys_of, taken};
use crate::relation::position::{
    inserts_among, lemma_only_row, lies_at, offset_of, row_holds, stands_in, steps_through,
    Continuation, Mutation, MutationKind, Position,
};
use crate::relation::row::canonical_bytes;
use crate::relation::stepwise::{
    answered, batch_fits, begun, id_range, mutation_fits, overlay_at, pending_fits, pending_of,
    reply_fits, retracted, row_mutations, stepped, BatchPlanner, MatchingIds, OverlayRow, PlanStep,
};
use crate::sqlite::laws::law_planned_batch_is_canonical;
use crate::sqlite::replay::{
    identifies, law_applied_batch_is_applied_again, law_planned_batch_is_exact, mutations_of,
    takes_instances, with_mutations,
};
use crate::sqlite::runtime::{
    applied_as, batch_state, stored_as, turn_asks, Action, Applied, PlannedBatch, Work,
};
use crate::sqlite::state::{law_pending_round_trip, pending_bytes, PendingState};
use crate::text::abs;
use vstd::prelude::*;

verus! {

/// What the store holds for a sink, and the rows of its table by their identities.
pub ghost struct SinkState {
    pub next_id: u64,
    pub pending: Option<Seq<u8>>,
    pub table: Map<u64, Seq<u8>>,
}

/// The state asks for some work.
pub open spec fn state_asks(change: Change, state: SinkState, work: Work) -> bool {
    turn_asks(change, Some(state.next_id), state.pending, work)
}

/// A planned batch is the one that a state asks for, and its deletions take instances of their
/// rows.
pub open spec fn goes_on(
    planner: BatchPlanner,
    change: Change,
    rows: Map<u64, Seq<u8>>,
    before: SinkState,
) -> bool {
    &&& state_asks(
        change,
        before,
        Work::PrepareBatch { next_id: planner.next_id, start_position: planner.start_position },
    )
    &&& takes_instances(before.table, planner.mutations@, rows, planner.next_id)
}

/// A state holds a planned batch and the frontier behind it.
pub open spec fn stores(
    state: SinkState,
    planner: BatchPlanner,
    continuation: Continuation,
) -> bool {
    &&& state.next_id == planner.next_id_after
    &&& state.pending == Some(pending_bytes(batch_state(planner, continuation)))
}

/// A turn that plans the next batch and stores it.
pub open spec fn turn_prepares(
    change: Change,
    rows: Map<u64, Seq<u8>>,
    before: SinkState,
    after: SinkState,
) -> bool {
    &&& after.table == before.table
    &&& exists|planner: BatchPlanner, continuation: Continuation|
        {
            &&& #[trigger] planner.finished(change, continuation)
            &&& goes_on(planner, change, rows, before)
            &&& stores(after, planner, continuation)
        }
}

/// A batch that a state asks to apply belongs to its change, and leads to another state.
pub open spec fn batch_applies(
    change: Change,
    rows: Map<u64, Seq<u8>>,
    before: SinkState,
    after: SinkState,
    action: Action,
    start_position: Position,
    continuation: Continuation,
    mutations: Vec<Mutation>,
) -> bool {
    let next_id = before.next_id;
    &&& state_asks(
        change,
        before,
        Work::ApplyBatch { next_id, start_position, continuation, mutations },
    )
    &&& steps_through(change.diffs@, next_id, start_position, continuation, mutations@)
    &&& with_mutations(before.table, mutations@, rows, mutations@.len() as int) == Some(after.table)
    &&& after.next_id == before.next_id
    &&& match continuation {
        Continuation::Done => after.pending is None && action == Action::Complete,
        Continuation::Position(position) => {
            &&& after.pending == Some(pending_bytes(PendingState::Prepare { position }))
            &&& action == Action::Commit
        },
    }
}

/// A turn that applies the stored batch.
pub open spec fn turn_applies(
    change: Change,
    rows: Map<u64, Seq<u8>>,
    before: SinkState,
    after: SinkState,
    action: Action,
) -> bool {
    exists|start_position: Position, continuation: Continuation, mutations: Vec<Mutation>|
        #[trigger]
        batch_applies(
            change,
            rows,
            before,
            after,
            action,
            start_position,
            continuation,
            mutations,
        )
}

/// The states that committed turns lead through until one of them completes the change.
pub open spec fn runs_through(
    change: Change,
    rows: Map<u64, Seq<u8>>,
    states: Seq<SinkState>,
) -> bool {
    &&& states.len() >= 2
    &&& forall|k: int|
        0 < k < states.len() - 1 ==> turn_prepares(
            change,
            rows,
            states[k - 1],
            #[trigger] states[k],
        ) || turn_applies(change, rows, states[k - 1], states[k], Action::Commit)
    &&& turn_applies(
        change,
        rows,
        states[states.len() - 2],
        states[states.len() - 1],
        Action::Complete,
    )
}

/// A reply is true of a table: the IDs that it selects are those of instances of the row that
/// was asked for.
pub open spec fn replies_truly(
    table: Map<u64, Seq<u8>>,
    planner: BatchPlanner,
    change: Change,
    matching: MatchingIds,
) -> bool {
    forall|a: int|
        0 <= a < matching.selected@.len() ==> table.contains_key(#[trigger] matching.selected@[a])
            && table[matching.selected@[a]] == planner.key(change)
}

/// One move of a planner: a step, or the answer to a true reply that keeps to its query.
pub open spec fn plan_moves(
    change: Change,
    table: Map<u64, Seq<u8>>,
    before: BatchPlanner,
    after: BatchPlanner,
    step: PlanStep,
) -> bool {
    ||| stepped(before, after, change, step)
    ||| exists|matching: MatchingIds|
        {
            &&& #[trigger] answered(before, after, change, matching, step)
            &&& reply_fits(matching, before.room(), before.next_id, before.mutations@)
            &&& replies_truly(table, before, change, matching)
        }
}

/// The moves of a planner, from its beginning until it is done.
pub open spec fn plans_through(
    change: Change,
    table: Map<u64, Seq<u8>>,
    next_id: u64,
    start_position: Position,
    planners: Seq<BatchPlanner>,
    steps: Seq<PlanStep>,
    continuation: Continuation,
) -> bool {
    &&& planners.len() == steps.len() + 1
    &&& steps.len() > 0
    &&& begun(planners[0], change, next_id, start_position)
    &&& forall|k: int|
        0 <= k < steps.len() ==> plan_moves(
            change,
            table,
            planners[k],
            planners[k + 1],
            #[trigger] steps[k],
        )
    &&& forall|k: int| 0 <= k < steps.len() - 1 ==> !((#[trigger] steps[k]) is Done)
    &&& steps.last() == PlanStep::Done(continuation)
}

/// The row whose event stands at `offset`.
pub open spec fn row_at(diffs: Seq<i64>, offset: int) -> int {
    choose|row: int| row_holds(diffs, row, offset)
}

/// How many of the first `offset` events insert, or delete, an instance of a row.
pub open spec fn units(
    change: Change,
    kind: MutationKind,
    key: Seq<u8>,
    offset: int,
) -> nat
    decreases offset,
{
    if offset <= 0 {
        0
    } else {
        let row = row_at(change.diffs@, offset - 1);
        let before = units(change, kind, key, offset - 1);
        if (kind is Insert) == (change.diffs@[row] > 0) && canonical_bytes(change.records, row)
            == key {
            before + 1
        } else {
            before
        }
    }
}

/// How many of the first `offset` events insert.
pub open spec fn entered(diffs: Seq<i64>, offset: int) -> nat
    decreases offset,
{
    if offset <= 0 {
        0
    } else if diffs[row_at(diffs, offset - 1)] > 0 {
        entered(diffs, offset - 1) + 1
    } else {
        entered(diffs, offset - 1)
    }
}

/// The events of one row are all of its kind.
proof fn lemma_within_row(change: Change, kind: MutationKind, key: Seq<u8>, row: int, count: int)
    requires
        0 <= row < change.diffs@.len(),
        0 <= count <= abs(change.diffs@[row] as int),
    ensures
        ({
            let base = events(change.diffs@, row) as int;
            let fits = (kind is Insert) == (change.diffs@[row] > 0) && canonical_bytes(
                change.records,
                row,
            ) == key;
            let same = if fits {
                count
            } else {
                0
            };
            let entering = if change.diffs@[row] > 0 {
                count
            } else {
                0
            };
            &&& units(change, kind, key, base + count) == units(change, kind, key, base) + same
            &&& entered(change.diffs@, base + count) == entered(change.diffs@, base) + entering
        }),
    decreases count,
{
    if count > 0 {
        let base = events(change.diffs@, row) as int;
        let offset = base + count - 1;
        lemma_within_row(change, kind, key, row, count - 1);
        lemma_row_events(change.diffs@, row);
        assert(row_holds(change.diffs@, row, offset));
        lemma_only_row(change.diffs@, row, row_at(change.diffs@, offset), offset);
    }
}

/// The events of the first rows add and take what their differences say.
proof fn lemma_rows_units(change: Change, key: Seq<u8>, rows: int)
    requires
        change.wf(),
        0 <= rows <= change.diffs@.len(),
    ensures
        ({
            let offset = events(change.diffs@, rows) as int;
            &&& units(change, MutationKind::Insert, key, offset) == added(
                keys_of(change),
                change.diffs@,
                key,
                rows,
            )
            &&& units(change, MutationKind::Delete, key, offset) == taken(
                keys_of(change),
                change.diffs@,
                key,
                rows,
            )
            &&& entered(change.diffs@, offset) == positives(change.diffs@, rows)
        }),
    decreases rows,
{
    if rows > 0 {
        let row = rows - 1;
        let size = abs(change.diffs@[row] as int) as int;
        lemma_rows_units(change, key, row);
        lemma_row_events(change.diffs@, row);
        lemma_within_row(change, MutationKind::Insert, key, row, size);
        lemma_within_row(change, MutationKind::Delete, key, row, size);
        assert(change.diffs@[row] != 0);
        assert(keys_of(change)[row] == canonical_bytes(change.records, row));
    }
}

/// The mutations of a batch are the events that it stands for.
proof fn lemma_batch_units(
    change: Change,
    rows: Map<u64, Seq<u8>>,
    start: int,
    next_id: u64,
    mutations: Seq<Mutation>,
    key: Seq<u8>,
    count: int,
)
    requires
        batch_fits(change.diffs@, start, next_id, mutations),
        identifies(rows, change.records),
        0 <= start,
        0 <= count <= mutations.len(),
    ensures
        units(change, MutationKind::Insert, key, start + count) == units(
            change,
            MutationKind::Insert,
            key,
            start,
        ) + mutations_of(mutations, rows, MutationKind::Insert, key, count),
        units(change, MutationKind::Delete, key, start + count) == units(
            change,
            MutationKind::Delete,
            key,
            start,
        ) + mutations_of(mutations, rows, MutationKind::Delete, key, count),
        entered(change.diffs@, start + count) == entered(change.diffs@, start) + inserts_among(
            mutations,
            count,
        ),
    decreases count,
{
    if count > 0 {
        let index = count - 1;
        let mutation = mutations[index];
        lemma_batch_units(change, rows, start, next_id, mutations, key, index);
        assert(mutation_fits(change.diffs@, start, next_id, mutations, index));
        lemma_only_row(
            change.diffs@,
            mutation.row_index as int,
            row_at(change.diffs@, start + index),
            start + index,
        );
        assert(row_holds(
            change.diffs@,
            row_at(change.diffs@, start + index),
            start + index,
        ));
        assert(rows[mutation.row_index] == canonical_bytes(
            change.records,
            mutation.row_index as int,
        ));
    }
}

/// The table holds what the first `offset` events have made of it.
spec fn reached(change: Change, first: SinkState, table: Map<u64, Seq<u8>>, offset: int) -> bool {
    &&& table.dom().finite()
    &&& forall|id: u64| #[trigger]
        table.contains_key(id) ==> id < first.next_id + entered(change.diffs@, offset)
    &&& forall|key: Seq<u8>| #[trigger]
        instances(table, key).len() + units(change, MutationKind::Delete, key, offset) == instances(
            first.table,
            key,
        ).len() + units(change, MutationKind::Insert, key, offset)
}

/// A planned batch stands behind what is stored.
spec fn planned_from(
    planner: BatchPlanner,
    continuation: Continuation,
    change: Change,
    rows: Map<u64, Seq<u8>>,
    first: SinkState,
    state: SinkState,
) -> bool {
    let offset = offset_of(change.diffs@, planner.start_position);
    &&& planner.finished(change, continuation)
    &&& stores(state, planner, continuation)
    &&& planner.next_id == first.next_id + entered(change.diffs@, offset)
    &&& takes_instances(state.table, planner.mutations@, rows, planner.next_id)
    &&& reached(change, first, state.table, offset)
}

/// A stored position stands behind what is stored.
spec fn goes_on_at(
    position: Position,
    change: Change,
    first: SinkState,
    state: SinkState,
) -> bool {
    let offset = offset_of(change.diffs@, position);
    &&& state.pending == Some(pending_bytes(PendingState::Prepare { position }))
    &&& stands_in(change.diffs@, position)
    &&& state.next_id == first.next_id + entered(change.diffs@, offset)
    &&& reached(change, first, state.table, offset)
}

/// What holds of each state on the way.
spec fn on_the_way(
    change: Change,
    rows: Map<u64, Seq<u8>>,
    first: SinkState,
    state: SinkState,
) -> bool {
    ||| state == first
    ||| exists|position: Position| #[trigger] goes_on_at(position, change, first, state)
    ||| exists|planner: BatchPlanner, continuation: Continuation| #[trigger]
        planned_from(planner, continuation, change, rows, first, state)
}

/// A first state with no work pending and a table whose IDs lie below its frontier.
pub open spec fn begins(state: SinkState) -> bool {
    &&& state.pending is None
    &&& state.table.dom().finite()
    &&& forall|id: u64| #[trigger] state.table.contains_key(id) ==> id < state.next_id
}

/// A stored position asks to plan from there.
proof fn lemma_position_asks(position: Position, change: Change, state: SinkState, work: Work)
    requires
        position.remaining > 0,
        state.pending == Some(pending_bytes(PendingState::Prepare { position })),
        state_asks(change, state, work),
    ensures
        work == (Work::PrepareBatch { next_id: state.next_id, start_position: position }),
{
    law_pending_round_trip(PendingState::Prepare { position });
}

/// A stored batch asks to apply it.
proof fn lemma_batch_asks(
    planner: BatchPlanner,
    continuation: Continuation,
    change: Change,
    state: SinkState,
    work: Work,
)
    requires
        planner.finished(change, continuation),
        stores(state, planner, continuation),
        state_asks(change, state, work),
    ensures
        match work {
            Work::ApplyBatch { next_id, start_position, continuation: stored, mutations } => {
                &&& next_id == state.next_id
                &&& start_position == planner.start_position
                &&& stored == continuation
                &&& mutations@ == planner.mutations@
            },
            _ => false,
        },
{
    law_planned_batch_is_canonical(planner, change, continuation);
    law_pending_round_trip(batch_state(planner, continuation));
}

/// A state with no work pending asks to plan from the first event.
proof fn lemma_start_asks(change: Change, state: SinkState, work: Work)
    requires
        state.pending is None,
        state_asks(change, state, work),
    ensures
        work == (Work::PrepareBatch {
            next_id: state.next_id,
            start_position: Position {
                row_index: 0,
                remaining: abs(change.diffs@[0] as int) as u64,
            },
        }),
{
}

proof fn lemma_turn_prepares(
    change: Change,
    rows: Map<u64, Seq<u8>>,
    first: SinkState,
    before: SinkState,
    after: SinkState,
)
    requires
        change.wf(),
        begins(first),
        on_the_way(change, rows, first, before),
        turn_prepares(change, rows, before, after),
    ensures
        on_the_way(change, rows, first, after),
{
    let diffs = change.diffs@;
    let (planner, continuation) = choose|planner: BatchPlanner, continuation: Continuation|
        {
            &&& #[trigger] planner.finished(change, continuation)
            &&& goes_on(planner, change, rows, before)
            &&& stores(after, planner, continuation)
        };
    let work = Work::PrepareBatch {
        next_id: planner.next_id,
        start_position: planner.start_position,
    };
    let offset = offset_of(diffs, planner.start_position);
    if before == first {
        lemma_start_asks(change, before, work);
        lemma_row_events(diffs, 0);
        assert(diffs[0] != 0);
        assert(offset == 0);
        assert forall|key: Seq<u8>| #[trigger]
            instances(before.table, key).len() + units(change, MutationKind::Delete, key, 0)
            == instances(first.table, key).len() + units(
            change,
            MutationKind::Insert,
            key,
            0,
        ) by {}
        assert(reached(change, first, before.table, offset));
    } else if exists|position: Position| #[trigger] goes_on_at(position, change, first, before) {
        let position = choose|position: Position| #[trigger]
            goes_on_at(position, change, first, before);
        lemma_position_asks(position, change, before, work);
    } else {
        let (stored, next) = choose|stored: BatchPlanner, next: Continuation| #[trigger]
            planned_from(stored, next, change, rows, first, before);
        lemma_batch_asks(stored, next, change, before, work);
    }
    assert(planned_from(planner, continuation, change, rows, first, after));
}

/// A state that asks to apply a batch holds a planned one.
proof fn lemma_applies_planned(
    change: Change,
    rows: Map<u64, Seq<u8>>,
    first: SinkState,
    state: SinkState,
    work: Work,
) -> (planner: BatchPlanner)
    requires
        begins(first),
        on_the_way(change, rows, first, state),
        state_asks(change, state, work),
        work is ApplyBatch,
    ensures
        planned_from(planner, work->ApplyBatch_continuation, change, rows, first, state),
        work->ApplyBatch_next_id == state.next_id,
        work->ApplyBatch_start_position == planner.start_position,
        work->ApplyBatch_mutations@ == planner.mutations@,
{
    if state == first {
        lemma_start_asks(change, state, work);
    } else if exists|position: Position| #[trigger] goes_on_at(position, change, first, state) {
        let position = choose|position: Position| #[trigger]
            goes_on_at(position, change, first, state);
        lemma_position_asks(position, change, state, work);
    }
    let (stored, next) = choose|stored: BatchPlanner, next: Continuation| #[trigger]
        planned_from(stored, next, change, rows, first, state);
    lemma_batch_asks(stored, next, change, state, work);
    stored
}

proof fn lemma_turn_applies(
    change: Change,
    rows: Map<u64, Seq<u8>>,
    first: SinkState,
    before: SinkState,
    after: SinkState,
    action: Action,
)
    requires
        change.wf(),
        identifies(rows, change.records),
        begins(first),
        on_the_way(change, rows, first, before),
        turn_applies(change, rows, before, after, action),
    ensures
        action is Commit ==> on_the_way(change, rows, first, after),
        action is Complete ==> {
            let offset = events(change.diffs@, change.diffs@.len() as int) as int;
            &&& after.pending is None
            &&& reached(change, first, after.table, offset)
            &&& after.next_id == first.next_id + entered(change.diffs@, offset)
        },
{
    let diffs = change.diffs@;
    let (start_position, continuation, stored) = choose|
        start_position: Position,
        continuation: Continuation,
        mutations: Vec<Mutation>,
    | #[trigger]
        batch_applies(
            change,
            rows,
            before,
            after,
            action,
            start_position,
            continuation,
            mutations,
        );
    let mutations = stored@;
    let planner = lemma_applies_planned(
        change,
        rows,
        first,
        before,
        Work::ApplyBatch {
            next_id: before.next_id,
            start_position,
            continuation,
            mutations: stored,
        },
    );
    let start = offset_of(diffs, planner.start_position);
    let count = mutations.len() as int;
    assert(start >= 0) by {
        lemma_row_events(diffs, planner.start_position.row_index as int);
    }
    assert forall|id: u64| #[trigger] before.table.contains_key(id) implies id
        < planner.next_id by {}
    assert forall|key: Seq<u8>| #[trigger]
        instances(after.table, key).len() + units(change, MutationKind::Delete, key, start + count)
        == instances(first.table, key).len() + units(
        change,
        MutationKind::Insert,
        key,
        start + count,
    ) by {
        law_planned_batch_is_exact(planner, change, continuation, before.table, rows, key);
        lemma_batch_units(change, rows, start, planner.next_id, mutations, key, count);
        assert(instances(before.table, key).len() + units(change, MutationKind::Delete, key, start)
            == instances(first.table, key).len() + units(
            change,
            MutationKind::Insert,
            key,
            start,
        ));
    }
    let key = Seq::<u8>::empty();
    law_planned_batch_is_exact(planner, change, continuation, before.table, rows, key);
    lemma_batch_units(change, rows, start, planner.next_id, mutations, key, count);
    assert(reached(change, first, after.table, start + count));
    assert(lies_at(diffs, continuation, start + count));
    if let Continuation::Position(position) = continuation {
        assert(goes_on_at(position, change, first, after));
    }
}

/// Each state before the last one is on the way.
proof fn lemma_all_on_the_way(
    change: Change,
    rows: Map<u64, Seq<u8>>,
    states: Seq<SinkState>,
    index: int,
)
    requires
        change.wf(),
        identifies(rows, change.records),
        runs_through(change, rows, states),
        begins(states[0]),
        0 <= index < states.len() - 1,
    ensures
        on_the_way(change, rows, states[0], states[index]),
    decreases index,
{
    if index > 0 {
        lemma_all_on_the_way(change, rows, states, index - 1);
        assert(0 < index < states.len() - 1);
        let before = states[index - 1];
        let after = states[index];
        if turn_prepares(change, rows, before, after) {
            lemma_turn_prepares(change, rows, states[0], before, after);
        } else {
            lemma_turn_applies(change, rows, states[0], before, after, Action::Commit);
        }
    }
}

/// The turns of one change leave the table with its rows and the differences of the change:
/// each row has as many instances as it had, plus those that the change adds, minus those that
/// it takes away. The frontier has moved by the number of inserting events, and no work is left.
pub proof fn law_change_is_exact(
    change: Change,
    rows: Map<u64, Seq<u8>>,
    states: Seq<SinkState>,
    key: Seq<u8>,
)
    requires
        change.wf(),
        identifies(rows, change.records),
        runs_through(change, rows, states),
        begins(states[0]),
    ensures
        ({
            let first = states[0];
            let last = states.last();
            let size = change.diffs@.len() as int;
            &&& instances(last.table, key).len() + taken(keys_of(change), change.diffs@, key, size)
                == instances(first.table, key).len() + added(
                keys_of(change),
                change.diffs@,
                key,
                size,
            )
            &&& last.pending is None
            &&& last.next_id == first.next_id + positives(change.diffs@, size)
            &&& last.table.dom().finite()
            &&& forall|id: u64| #[trigger] last.table.contains_key(id) ==> id < last.next_id
        }),
{
    let index = states.len() - 1;
    let first = states[0];
    lemma_all_on_the_way(change, rows, states, index - 1);
    lemma_turn_applies(
        change,
        rows,
        first,
        states[index - 1],
        states[index],
        Action::Complete,
    );
    lemma_rows_units(change, key, change.diffs@.len() as int);
    let offset = events(change.diffs@, change.diffs@.len() as int) as int;
    assert(instances(states[index].table, key).len() + units(
        change,
        MutationKind::Delete,
        key,
        offset,
    ) == instances(first.table, key).len() + units(change, MutationKind::Insert, key, offset));
}

/// On the way every batch that a state asks to apply is bounded, and its insertions get the IDs
/// that follow the first frontier in the order of the events: the one behind `n` others gets
/// the `n`-th.
pub proof fn law_ids_follow_events(
    change: Change,
    rows: Map<u64, Seq<u8>>,
    states: Seq<SinkState>,
    k: int,
    work: Work,
    i: int,
)
    requires
        change.wf(),
        identifies(rows, change.records),
        runs_through(change, rows, states),
        begins(states[0]),
        0 <= k < states.len() - 1,
        state_asks(change, states[k], work),
        work is ApplyBatch,
        0 <= i < work->ApplyBatch_mutations@.len(),
    ensures
        ({
            let mutations = work->ApplyBatch_mutations@;
            let start = offset_of(change.diffs@, work->ApplyBatch_start_position);
            &&& mutations.len() <= MAX_MUTATIONS_PER_BATCH
            &&& mutations[i].row_index == row_at(change.diffs@, start + i)
            &&& mutations[i].kind is Insert <==> change.diffs@[row_at(change.diffs@, start + i)] > 0
            &&& mutations[i].kind is Insert ==> mutations[i].technical_id == states[0].next_id
                + entered(change.diffs@, start + i)
        }),
{
    lemma_all_on_the_way(change, rows, states, k);
    let planner = lemma_applies_planned(change, rows, states[0], states[k], work);
    let diffs = change.diffs@;
    let start = offset_of(diffs, planner.start_position);
    assert(start >= 0) by {
        lemma_row_events(diffs, planner.start_position.row_index as int);
    }
    lemma_batch_units(
        change,
        rows,
        start,
        planner.next_id,
        planner.mutations@,
        Seq::empty(),
        i,
    );
    assert(mutation_fits(diffs, start, planner.next_id, planner.mutations@, i));
    let row = planner.mutations@[i].row_index as int;
    assert(row_holds(diffs, row_at(diffs, start + i), start + i));
    lemma_only_row(diffs, row, row_at(diffs, start + i), start + i);
}

/// Rows that enter add no deletion.
proof fn lemma_entering_takes_instances(
    planner: BatchPlanner,
    rows: Map<u64, Seq<u8>>,
    table: Map<u64, Seq<u8>>,
    count: nat,
)
    requires
        takes_instances(table, planner.mutations@, rows, planner.next_id),
    ensures
        takes_instances(
            table,
            planner.mutations@ + row_mutations(
                MutationKind::Insert,
                planner.position.row_index,
                id_range(planner.next_id_after, count),
            ),
            rows,
            planner.next_id,
        ),
{
    let before = planner.mutations@;
    let entering = before + row_mutations(
        MutationKind::Insert,
        planner.position.row_index,
        id_range(planner.next_id_after, count),
    );
    assert forall|i: int|
        0 <= i < entering.len() && (#[trigger] entering[i]).kind is Delete
            && entering[i].technical_id < planner.next_id implies table.contains_key(
        entering[i].technical_id,
    ) && table[entering[i].technical_id] == rows[entering[i].row_index] by {
        assert(entering[i] == before[i]);
    }
}

/// The deletions of a planner take instances of their rows as long as the replies are true:
/// rows that enter add no deletion, and for a row that leaves, a reply whose IDs are those of
/// instances of the row adds only deletions of such instances and of new IDs.
pub proof fn law_true_replies_take_instances(
    planner: BatchPlanner,
    change: Change,
    rows: Map<u64, Seq<u8>>,
    table: Map<u64, Seq<u8>>,
    matching: MatchingIds,
    count: nat,
)
    requires
        planner.wf(change),
        identifies(rows, change.records),
        takes_instances(table, planner.mutations@, rows, planner.next_id),
        replies_truly(table, planner, change, matching),
        matching.selected@.len() <= count <= matching.selected@.len() + pending_of(
            planner.overlay@,
            planner.key(change),
        ).len(),
    ensures
        takes_instances(
            table,
            planner.mutations@ + row_mutations(
                MutationKind::Insert,
                planner.position.row_index,
                id_range(planner.next_id_after, count),
            ),
            rows,
            planner.next_id,
        ),
        takes_instances(
            table,
            planner.mutations@ + row_mutations(
                MutationKind::Delete,
                planner.position.row_index,
                retracted(matching, pending_of(planner.overlay@, planner.key(change)), count),
            ),
            rows,
            planner.next_id,
        ),
{
    let before = planner.mutations@;
    let row = planner.position.row_index;
    let key = planner.key(change);
    let pending = pending_of(planner.overlay@, key);
    let ids = retracted(matching, pending, count);
    assert(rows[row] == key);
    lemma_pending_is_new(planner, change, key);
    lemma_entering_takes_instances(planner, rows, table, count);
    let leaving = before + row_mutations(MutationKind::Delete, row, ids);
    assert forall|i: int|
        0 <= i < leaving.len() && (#[trigger] leaving[i]).kind is Delete
            && leaving[i].technical_id < planner.next_id implies table.contains_key(
        leaving[i].technical_id,
    ) && table[leaving[i].technical_id] == rows[leaving[i].row_index] by {
        if i < before.len() {
            assert(leaving[i] == before[i]);
        } else {
            let a = i - before.len();
            assert(leaving[i].technical_id == ids[a]);
            if a < matching.selected@.len() {
                assert(ids[a] == matching.selected@[a]);
            } else {
                assert(ids[a] == pending[a - matching.selected@.len()]);
            }
        }
    }
}

/// The IDs that are pending for a row are new ones.
proof fn lemma_pending_is_new(planner: BatchPlanner, change: Change, key: Seq<u8>)
    requires
        planner.wf(change),
    ensures
        forall|a: int|
            0 <= a < pending_of(planner.overlay@, key).len() ==> #[trigger] pending_of(
                planner.overlay@,
                key,
            )[a] >= planner.next_id,
{
    let overlay = planner.overlay@;
    lemma_overlay_place(overlay, key, overlay.len() as int);
    if overlay_at(overlay, key, overlay.len() as int) is Some {
        let e = overlay_at(overlay, key, overlay.len() as int)->0;
        assert(pending_fits(
            overlay[e].pending_inserts@,
            planner.next_id,
            planner.next_id_after,
            planner.mutations@,
        ));
    }
}

proof fn lemma_overlay_place(overlay: Seq<OverlayRow>, key: Seq<u8>, count: int)
    requires
        0 <= count <= overlay.len(),
    ensures
        overlay_at(overlay, key, count) matches Some(place) ==> 0 <= place < count,
    decreases count,
{
    if count > 0 {
        lemma_overlay_place(overlay, key, count - 1);
    }
}

/// The moves of a planner keep to its plan: while the replies are true, its deletions take
/// instances of their rows.
proof fn lemma_plan_kept(
    change: Change,
    rows: Map<u64, Seq<u8>>,
    table: Map<u64, Seq<u8>>,
    next_id: u64,
    start_position: Position,
    planners: Seq<BatchPlanner>,
    steps: Seq<PlanStep>,
    continuation: Continuation,
    k: int,
)
    requires
        identifies(rows, change.records),
        plans_through(change, table, next_id, start_position, planners, steps, continuation),
        0 <= k <= steps.len(),
    ensures
        planners[k].start_position == start_position,
        planners[k].next_id == next_id,
        takes_instances(table, planners[k].mutations@, rows, next_id),
        if k < steps.len() {
            planners[k].wf(change)
        } else {
            planners[k].finished(change, continuation)
        },
    decreases k,
{
    if k > 0 {
        let before = planners[k - 1];
        let after = planners[k];
        let step = steps[k - 1];
        lemma_plan_kept(
            change,
            rows,
            table,
            next_id,
            start_position,
            planners,
            steps,
            continuation,
            k - 1,
        );
        assert(plan_moves(change, table, before, planners[k - 1 + 1], step));
        if stepped(before, after, change, step) {
            if change.diffs@[before.position.row_index as int] > 0 {
                lemma_entering_takes_instances(before, rows, table, before.room());
            }
        } else {
            let matching = choose|matching: MatchingIds|
                {
                    &&& #[trigger] answered(before, after, change, matching, step)
                    &&& reply_fits(matching, before.room(), before.next_id, before.mutations@)
                    &&& replies_truly(table, before, change, matching)
                };
            law_true_replies_take_instances(before, change, rows, table, matching, before.room());
        }
    }
}

/// The turn that plans a batch: what the store holds asks for it, the planner goes from its
/// beginning to its end with true replies, and what is stored of it then stands in the store,
/// with the table unchanged. Such a turn prepares its batch.
pub proof fn law_planning_turn_prepares(
    change: Change,
    rows: Map<u64, Seq<u8>>,
    before: SinkState,
    after: SinkState,
    next_id: u64,
    start_position: Position,
    planners: Seq<BatchPlanner>,
    steps: Seq<PlanStep>,
    continuation: Continuation,
    planned: PlannedBatch,
)
    requires
        identifies(rows, change.records),
        turn_asks(
            change,
            Some(before.next_id),
            before.pending,
            Work::PrepareBatch { next_id, start_position },
        ),
        plans_through(change, before.table, next_id, start_position, planners, steps, continuation),
        stored_as(planners.last(), continuation, planned),
        after.next_id == planned.next_id,
        after.pending == Some(planned.pending@),
        after.table == before.table,
    ensures
        turn_prepares(change, rows, before, after),
{
    let planner = planners.last();
    lemma_plan_kept(
        change,
        rows,
        before.table,
        next_id,
        start_position,
        planners,
        steps,
        continuation,
        steps.len() as int,
    );
    assert(planner.finished(change, continuation));
    assert(goes_on(planner, change, rows, before));
    assert(stores(after, planner, continuation));
}

/// The turn that applies a batch: what the store holds asks for it, it belongs to its change,
/// its mutations are written to the table one after the other, and what is stored once it was
/// applied then stands in the store. Such a turn applies its batch, with the action that was
/// decided.
pub proof fn law_applying_turn_applies(
    change: Change,
    rows: Map<u64, Seq<u8>>,
    before: SinkState,
    after: SinkState,
    next_id: u64,
    start_position: Position,
    continuation: Continuation,
    mutations: Vec<Mutation>,
    applied: Applied,
)
    requires
        turn_asks(
            change,
            Some(before.next_id),
            before.pending,
            Work::ApplyBatch { next_id, start_position, continuation, mutations },
        ),
        applied_as(change, next_id, start_position, continuation, mutations@, applied),
        with_mutations(before.table, mutations@, rows, mutations@.len() as int) == Some(
            after.table,
        ),
        after.next_id == before.next_id,
        after.pending == (match applied.pending {
            None => None,
            Some(pending) => Some(pending@),
        }),
    ensures
        turn_applies(change, rows, before, after, applied.action),
{
    assert(next_id == before.next_id);
    assert(batch_applies(
        change,
        rows,
        before,
        after,
        applied.action,
        start_position,
        continuation,
        mutations,
    ));
}

/// A turn that applied a stored batch, but whose store was rolled back, may be repeated: it
/// comes to the same action again, and leads to the same state.
pub proof fn law_rolled_back_turn_is_repeated(
    change: Change,
    rows: Map<u64, Seq<u8>>,
    before: SinkState,
    after: SinkState,
    action: Action,
)
    requires
        turn_applies(change, rows, before, after, action),
    ensures
        turn_applies(change, rows, (SinkState { table: after.table, ..before }), after, action),
{
    let (start_position, continuation, mutations) = choose|
        start_position: Position,
        continuation: Continuation,
        mutations: Vec<Mutation>,
    | #[trigger]
        batch_applies(
            change,
            rows,
            before,
            after,
            action,
            start_position,
            continuation,
            mutations,
        );
    law_applied_batch_is_applied_again(
        change.diffs@,
        before.next_id,
        start_position,
        continuation,
        mutations@,
        before.table,
        rows,
    );
    assert(batch_applies(
        change,
        rows,
        SinkState { table: after.table, ..before },
        after,
        action,
        start_position,
        continuation,
        mutations,
    ));
}

} // verus!
