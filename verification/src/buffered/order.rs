//! The order of deliveries: the events of a buffer are delivered one after the other, each once.

use crate::buffered::entry::StoredEntry;
use crate::buffered::laws::{
    entries_wf, law_load_conserves_events, law_load_keeps_limits, lemma_slice_moves,
};
use crate::buffered::load::{
    entry_slice, entry_step, entry_waits, find_entry, least, lemma_charge_fits,
    lemma_found_is_there, opened, load_from, load_outcome, load_start, row_model, signed, slice,
    slice_admissions, slice_diffs, slice_rows, standing, state_after, LoadLimits, LoadModel,
};
use crate::buffered::state::{empty_buffer, BufferState, Position};
use crate::change::{events, lemma_counts_grow, lemma_row_events, Change, Schema, ValueModel};
use crate::text::abs;
use vstd::prelude::*;

verus! {

/// One pending event: the cells of its row, whether it enters, how many events its row has in
/// all, and how many of them are left, itself included.
pub ghost struct PendingEvent {
    pub row: Seq<ValueModel>,
    pub enters: bool,
    pub whole: nat,
    pub left: nat,
}

/// The last `remaining` events of a row.
pub open spec fn row_events(change: Change, row: int, remaining: nat) -> Seq<PendingEvent> {
    Seq::new(
        remaining,
        |k: int|
            PendingEvent {
                row: row_model(change.records, row),
                enters: change.diffs@[row] > 0,
                whole: abs(change.diffs@[row] as int),
                left: (remaining - k) as nat,
            },
    )
}

/// The events of a change from the last `remaining` ones of a row on.
pub open spec fn change_events(change: Change, row: int, remaining: nat) -> Seq<PendingEvent>
    decreases change.diffs@.len() - row,
{
    if row < 0 || row >= change.diffs@.len() {
        Seq::empty()
    } else {
        row_events(change, row, remaining) + change_events(
            change,
            row + 1,
            abs(change.diffs@[row + 1] as int),
        )
    }
}

/// The events from a position in the entry at `sequence` up to the tail of a buffer. A position
/// without a remainder is the start of its entry.
pub open spec fn events_from(
    entries: Seq<StoredEntry>,
    sequence: int,
    row: int,
    remaining: nat,
    tail: int,
) -> Seq<PendingEvent>
    decreases tail - sequence,
{
    if sequence >= tail {
        Seq::empty()
    } else {
        match find_entry(entries, sequence, entries.len() as int) {
            None => Seq::empty(),
            Some(index) => {
                let change = entries[index].change->0;
                let left = if remaining == 0 {
                    abs(change.diffs@[0] as int)
                } else {
                    remaining
                };
                change_events(change, row, left) + events_from(entries, sequence + 1, 0, 0, tail)
            },
        }
    }
}

/// The events of a buffer behind its head.
pub open spec fn behind(entries: Seq<StoredEntry>, head: Option<Position>, tail: int) -> Seq<
    PendingEvent,
> {
    match head {
        None => Seq::empty(),
        Some(head) => events_from(
            entries,
            head.sequence as int,
            head.row_index as int,
            head.remaining as nat,
            tail,
        ),
    }
}

/// The pending events of a buffer, from its head to its tail.
pub open spec fn pending(entries: Seq<StoredEntry>, state: BufferState) -> Seq<PendingEvent> {
    behind(entries, state.head, state.tail as int)
}

/// What must be admitted for a row of a delivery that begins with `event`: all events of its
/// row where it is the first of them, and else those that are delivered.
pub open spec fn admission_for(event: PendingEvent, diff: i64) -> nat {
    if event.left == event.whole {
        event.whole
    } else {
        abs(diff as int)
    }
}

/// A delivery carries the first of the pending events, row by row.
pub open spec fn delivers(
    pending: Seq<PendingEvent>,
    rows: Seq<Seq<ValueModel>>,
    diffs: Seq<i64>,
    admissions: Seq<u64>,
) -> bool {
    &&& rows.len() == diffs.len()
    &&& admissions.len() == diffs.len()
    &&& events(diffs, diffs.len() as int) <= pending.len()
    &&& forall|j: int, e: int|
        #![trigger rows[j], pending[e]]
        0 <= j < diffs.len() && events(diffs, j) <= e < events(diffs, j + 1) ==> pending[e].row
            == rows[j] && pending[e].enters == (diffs[j] > 0)
    &&& forall|j: int|
        0 <= j < diffs.len() ==> #[trigger] admissions[j] == admission_for(
            pending[events(diffs, j) as int],
            diffs[j],
        )
    &&& forall|j: int| 0 <= j < diffs.len() ==> #[trigger] diffs[j] != 0
}

proof fn lemma_events_joined(left: Seq<i64>, right: Seq<i64>, count: int)
    requires
        0 <= count <= right.len(),
    ensures
        events(left + right, left.len() + count) == events(left, left.len() as int) + events(
            right,
            count,
        ),
    decreases count,
{
    if count > 0 {
        lemma_events_joined(left, right, count - 1);
        lemma_row_events(left + right, left.len() + count - 1);
        lemma_row_events(right, count - 1);
    } else {
        lemma_events_same(left, left + right, left.len() as int);
    }
}

proof fn lemma_events_same(left: Seq<i64>, right: Seq<i64>, count: int)
    requires
        0 <= count <= left.len(),
        count <= right.len(),
        forall|i: int| 0 <= i < count ==> left[i] == #[trigger] right[i],
    ensures
        events(left, count) == events(right, count),
    decreases count,
{
    if count > 0 {
        lemma_events_same(left, right, count - 1);
        lemma_row_events(left, count - 1);
        lemma_row_events(right, count - 1);
    }
}

proof fn lemma_events_ascend(diffs: Seq<i64>, low: int, high: int)
    requires
        0 <= low <= high <= diffs.len(),
    ensures
        events(diffs, low) <= events(diffs, high),
{
    lemma_counts_grow(diffs, low, high);
}

/// More pending events behind those that are delivered change nothing.
proof fn lemma_delivers_more(
    pending: Seq<PendingEvent>,
    more: Seq<PendingEvent>,
    rows: Seq<Seq<ValueModel>>,
    diffs: Seq<i64>,
    admissions: Seq<u64>,
)
    requires
        delivers(pending, rows, diffs, admissions),
    ensures
        delivers(pending + more, rows, diffs, admissions),
{
    let all = pending + more;
    assert forall|j: int, e: int|
        #![trigger rows[j], all[e]]
        0 <= j < diffs.len() && events(diffs, j) <= e < events(
            diffs,
            j + 1,
        ) implies all[e].row == rows[j] && all[e].enters == (diffs[j] > 0) by {
        lemma_events_ascend(diffs, j + 1, diffs.len() as int);
        lemma_events_ascend(diffs, 0, j);
        assert(all[e] == pending[e]);
        assert(pending[e].row == rows[j]);
    }
    assert forall|j: int| 0 <= j < diffs.len() implies #[trigger] admissions[j] == admission_for(
        all[events(diffs, j) as int],
        diffs[j],
    ) by {
        lemma_row_events(diffs, j);
        lemma_events_ascend(diffs, j + 1, diffs.len() as int);
        assert(diffs[j] != 0);
        assert(all[events(diffs, j) as int] == pending[events(diffs, j) as int]);
    }
}

/// Two deliveries, one behind the other, are one delivery.
proof fn lemma_delivers_joined(
    pending: Seq<PendingEvent>,
    rows: Seq<Seq<ValueModel>>,
    diffs: Seq<i64>,
    admissions: Seq<u64>,
    next_rows: Seq<Seq<ValueModel>>,
    next_diffs: Seq<i64>,
    next_admissions: Seq<u64>,
)
    requires
        delivers(pending, rows, diffs, admissions),
        delivers(
            pending.skip(events(diffs, diffs.len() as int) as int),
            next_rows,
            next_diffs,
            next_admissions,
        ),
    ensures
        delivers(pending, rows + next_rows, diffs + next_diffs, admissions + next_admissions),
        events(diffs + next_diffs, (diffs + next_diffs).len() as int) == events(
            diffs,
            diffs.len() as int,
        ) + events(next_diffs, next_diffs.len() as int),
{
    let size = diffs.len() as int;
    let start = events(diffs, size) as int;
    let later = pending.skip(start);
    let all_rows = rows + next_rows;
    let all_diffs = diffs + next_diffs;
    let all_admissions = admissions + next_admissions;
    lemma_events_joined(diffs, next_diffs, next_diffs.len() as int);
    assert forall|j: int, e: int|
        #![trigger all_rows[j], pending[e]]
        0 <= j < all_diffs.len() && events(all_diffs, j) <= e < events(
            all_diffs,
            j + 1,
        ) implies pending[e].row == all_rows[j] && pending[e].enters == (all_diffs[j] > 0) by {
        if j < size {
            lemma_events_same(diffs, all_diffs, j);
            lemma_events_same(diffs, all_diffs, j + 1);
            assert(all_rows[j] == rows[j]);
        } else {
            lemma_events_joined(diffs, next_diffs, j - size);
            lemma_events_joined(diffs, next_diffs, j - size + 1);
            lemma_events_ascend(next_diffs, j - size + 1, next_diffs.len() as int);
            assert(later[e - start] == pending[e]);
            assert(all_rows[j] == next_rows[j - size]);
        }
    }
    assert forall|j: int| 0 <= j < all_diffs.len() implies #[trigger] all_admissions[j]
        == admission_for(pending[events(all_diffs, j) as int], all_diffs[j]) by {
        if j < size {
            lemma_events_same(diffs, all_diffs, j);
            assert(all_admissions[j] == admissions[j]);
        } else {
            lemma_events_joined(diffs, next_diffs, j - size);
            lemma_row_events(next_diffs, j - size);
            lemma_events_ascend(next_diffs, j - size + 1, next_diffs.len() as int);
            assert(next_diffs[j - size] != 0);
            assert(all_admissions[j] == next_admissions[j - size]);
            assert(later[events(next_diffs, j - size) as int] == pending[events(
                all_diffs,
                j,
            ) as int]);
        }
    }
    assert forall|j: int| 0 <= j < all_diffs.len() implies #[trigger] all_diffs[j] != 0 by {
        if j < size {
            assert(diffs[j] != 0);
        } else {
            assert(next_diffs[j - size] != 0);
        }
    }
}

/// A row of which some events are taken.
proof fn lemma_row_taken(change: Change, row: int, remaining: nat, take: nat)
    requires
        change.wf(),
        0 <= row < change.diffs@.len(),
        0 < take <= remaining <= abs(change.diffs@[row] as int),
    ensures
        ({
            let all = change_events(change, row, remaining);
            let diff = signed(change.diffs@[row], take);
            let admission = if remaining != abs(change.diffs@[row] as int) {
                take as u64
            } else {
                abs(change.diffs@[row] as int) as u64
            };
            &&& delivers(
                all,
                seq![row_model(change.records, row)],
                seq![diff],
                seq![admission],
            )
            &&& events(seq![diff], 1) == take
            &&& take < remaining ==> all.skip(take as int) == change_events(
                change,
                row,
                (remaining - take) as nat,
            )
            &&& take == remaining ==> all.skip(take as int) == change_events(
                change,
                row + 1,
                abs(change.diffs@[row + 1] as int),
            )
        }),
{
    let all = change_events(change, row, remaining);
    let own = row_events(change, row, remaining);
    let later = change_events(change, row + 1, abs(change.diffs@[row + 1] as int));
    let diff = signed(change.diffs@[row], take);
    let diffs = seq![diff];
    assert(diff != 0 && abs(diff as int) == take && (diff > 0) == (change.diffs@[row] > 0));
    lemma_row_events(diffs, 0);
    assert(events(diffs, 0) == 0);
    assert(all == own + later);
    assert(all[0] == own[0]);
    if take < remaining {
        assert(all.skip(take as int) =~= row_events(change, row, (remaining - take) as nat)
            + later);
    } else {
        assert(all.skip(take as int) =~= later);
    }
    let rows = seq![row_model(change.records, row)];
    assert forall|j: int, e: int|
        #![trigger rows[j], all[e]]
        0 <= j < 1 && events(diffs, j) <= e < events(diffs, j + 1) implies all[e].row == rows[j]
        && all[e].enters == (diffs[j] > 0) by {
        assert(all[e] == own[e]);
    }
}

/// A slice delivers the first events of its entry, and leaves the others.
proof fn lemma_slice_order(
    change: Change,
    sizes: Seq<u64>,
    row: int,
    remaining: nat,
    budget: nat,
    bytes: nat,
    fresh: bool,
)
    requires
        change.wf(),
        0 <= row < change.diffs@.len(),
        0 < remaining <= abs(change.diffs@[row] as int),
        budget > 0,
        !(slice(change.diffs@, sizes, row, remaining, budget, bytes, fresh).end is Fault),
    ensures
        ({
            let diffs = change.diffs@;
            let part = slice(diffs, sizes, row, remaining, budget, bytes, fresh);
            let all = change_events(change, row, remaining);
            let taken = slice_diffs(diffs, row, part.takes);
            &&& delivers(
                all,
                slice_rows(change.records, row, part.takes),
                taken,
                slice_admissions(diffs, row, remaining, part.takes),
            )
            &&& all.skip(events(taken, taken.len() as int) as int) == change_events(
                change,
                part.row,
                part.remaining,
            )
        }),
    decreases change.diffs@.len() - row,
{
    let diffs = change.diffs@;
    let size = sizes[row] as nat;
    let fit = bytes / size;
    let take = least(remaining, budget, fit);
    let part = slice(diffs, sizes, row, remaining, budget, bytes, fresh);
    let all = change_events(change, row, remaining);
    let records = change.records;
    if size == 0 || fit == 0 {
        assert(slice_diffs(diffs, row, part.takes) =~= Seq::empty());
        assert(all.skip(0) =~= all);
    } else {
        lemma_charge_fits(bytes, size, take);
        lemma_row_taken(change, row, remaining, take);
        let rows = seq![row_model(records, row)];
        let first = seq![signed(diffs[row], take)];
        let admissions = seq![
            if remaining != abs(diffs[row] as int) {
                take as u64
            } else {
                abs(diffs[row] as int) as u64
            },
        ];
        if take == remaining && row + 1 < diffs.len() && budget > take {
            assert(diffs[row + 1] != 0);
            let next = abs(diffs[row + 1] as int);
            let left = (budget - take) as nat;
            let charged = (bytes - take * size) as nat;
            let rest = slice(diffs, sizes, row + 1, next, left, charged, false);
            lemma_slice_order(change, sizes, row + 1, next, left, charged, false);
            assert(part.takes == seq![take] + rest.takes);
            let later = all.skip(take as int);
            let next_rows = slice_rows(records, row + 1, rest.takes);
            let next_diffs = slice_diffs(diffs, row + 1, rest.takes);
            let next_admissions = slice_admissions(diffs, row + 1, next, rest.takes);
            lemma_delivers_joined(
                all,
                rows,
                first,
                admissions,
                next_rows,
                next_diffs,
                next_admissions,
            );
            assert(slice_rows(records, row, part.takes) =~= rows + next_rows);
            assert(slice_diffs(diffs, row, part.takes) =~= first + next_diffs);
            assert(slice_admissions(diffs, row, remaining, part.takes) =~= admissions
                + next_admissions);
            let count = events(next_diffs, next_diffs.len() as int) as int;
            assert(all.skip(take + count) =~= later.skip(count));
        } else {
            assert(part.takes == seq![take]);
            assert(slice_rows(records, row, part.takes) =~= rows);
            assert(slice_diffs(diffs, row, part.takes) =~= first);
            assert(slice_admissions(diffs, row, remaining, part.takes) =~= admissions);
            if take == remaining && row + 1 == diffs.len() {
                assert(change_events(change, row + 1, part.remaining) =~= Seq::empty());
                assert(change_events(
                    change,
                    row + 1,
                    abs(diffs[row + 1] as int),
                ) =~= Seq::empty());
            }
        }
    }
}

/// How a load stands to the pending events that it began with.
spec fn on_course(
    entries: Seq<StoredEntry>,
    model: LoadModel,
    tail: int,
    all: Seq<PendingEvent>,
) -> bool {
    &&& delivers(all, model.rows, model.diffs, model.admissions)
    &&& all.skip(events(model.diffs, model.diffs.len() as int) as int) == events_from(
        entries,
        model.sequence,
        model.row,
        model.remaining,
        tail,
    )
}

proof fn lemma_load_order(
    entries: Seq<StoredEntry>,
    model: LoadModel,
    tail: int,
    limits: LoadLimits,
    schema: Schema,
    all: Seq<PendingEvent>,
)
    requires
        entries_wf(entries),
        model.row >= 0,
        model.sequence >= 0,
        tail <= u64::MAX,
        model.events > 0,
        model.encoded != 0 ==> model.row == 0 && model.remaining == 0,
        on_course(entries, model, tail, all),
        load_from(entries, model, tail, limits, schema) is Ok,
    ensures
        ({
            let (end, head) = load_from(entries, model, tail, limits, schema)->Ok_0;
            &&& delivers(all, end.rows, end.diffs, end.admissions)
            &&& all.skip(events(end.diffs, end.diffs.len() as int) as int) == behind(
                entries,
                head,
                tail,
            )
        }),
    decreases tail - model.sequence,
{
    let found = find_entry(entries, model.sequence, entries.len() as int);
    lemma_found_is_there(entries, model.sequence, entries.len() as int);
    let entry = opened(entries[found->0]);
    let change = entry.change;
    let diffs = change.diffs@;
    let (next, progress) = entry_step(model, entry, tail, limits)->Ok_0;
    if !entry_waits(model, entry, limits) {
        assert(diffs[0] != 0);
        let remaining = standing(model, diffs);
        let fresh = model.delivered == 0;
        let part = entry_slice(model, entry);
        let start = events(model.diffs, model.diffs.len() as int) as int;
        let here = change_events(change, model.row, remaining);
        let later = events_from(entries, model.sequence + 1, 0, 0, tail);
        let rows = slice_rows(change.records, model.row, part.takes);
        let taken = slice_diffs(diffs, model.row, part.takes);
        let admissions = slice_admissions(diffs, model.row, remaining, part.takes);
        lemma_slice_moves(
            diffs,
            entry.event_bytes@,
            model.row,
            remaining,
            model.events,
            model.bytes,
            fresh,
        );
        lemma_slice_order(
            change,
            entry.event_bytes@,
            model.row,
            remaining,
            model.events,
            model.bytes,
            fresh,
        );
        assert(all.skip(start) == here + later);
        lemma_delivers_more(here, later, rows, taken, admissions);
        lemma_delivers_joined(
            all,
            model.rows,
            model.diffs,
            model.admissions,
            rows,
            taken,
            admissions,
        );
        let count = events(taken, taken.len() as int) as int;
        let rest = change_events(change, part.row, part.remaining);
        assert(all.skip(start + count) =~= all.skip(start).skip(count));
        assert(all.skip(start).skip(count) =~= here.skip(count) + later);
        assert(all.skip(start + count) == rest + later);
        assert(next.diffs == model.diffs + taken);
        if part.end is Entry {
            assert(rest =~= Seq::empty());
            assert(rest + later =~= later);
            if next.sequence == tail {
                assert(later =~= Seq::empty());
            }
        }
        if progress is Continue {
            lemma_load_order(entries, next, tail, limits, schema, all);
        }
    }
}

/// Every load delivers the first pending events, in their order, and leaves the others pending.
/// A row whose first event is delivered has to be admitted whole, and a row that is gone on with
/// only as far as it is delivered.
pub proof fn law_load_is_in_order(
    entries: Seq<StoredEntry>,
    before: BufferState,
    limits: LoadLimits,
    schema: Schema,
)
    requires
        entries_wf(entries),
        load_outcome(entries, before, limits, schema) is Ok,
    ensures
        ({
            let (model, head) = load_outcome(entries, before, limits, schema)->Ok_0;
            &&& delivers(pending(entries, before), model.rows, model.diffs, model.admissions)
            &&& events(model.diffs, model.diffs.len() as int) == model.delivered
            &&& pending(entries, state_after(before, model, head)) == pending(
                entries,
                before,
            ).skip(model.delivered as int)
        }),
{
    let all = pending(entries, before);
    let model = load_start(before, limits);
    assert(all.skip(0) =~= all);
    lemma_load_order(entries, model, before.tail as int, limits, schema, all);
    law_load_conserves_events(entries, before, limits, schema);
}

/// One load after the other: each begins with the buffer that the one before it has left, and
/// the last one leaves nothing.
pub open spec fn drains(
    entries: Seq<StoredEntry>,
    states: Seq<BufferState>,
    limits: Seq<LoadLimits>,
    schema: Schema,
) -> bool {
    &&& states.len() == limits.len() + 1
    &&& states.last() == empty_buffer()
    &&& forall|k: int|
        0 <= k < limits.len() ==> {
            let outcome = load_outcome(entries, states[k], #[trigger] limits[k], schema);
            &&& outcome is Ok
            &&& states[k + 1] == state_after(states[k], outcome->Ok_0.0, outcome->Ok_0.1)
        }
}

/// How many events the first `count` loads deliver.
pub open spec fn delivered_by(
    entries: Seq<StoredEntry>,
    states: Seq<BufferState>,
    limits: Seq<LoadLimits>,
    schema: Schema,
    count: int,
) -> nat
    decreases count,
{
    if count <= 0 {
        0
    } else {
        delivered_by(entries, states, limits, schema, count - 1) + load_outcome(
            entries,
            states[count - 1],
            limits[count - 1],
            schema,
        )->Ok_0.0.delivered
    }
}

proof fn lemma_drained(
    entries: Seq<StoredEntry>,
    states: Seq<BufferState>,
    limits: Seq<LoadLimits>,
    schema: Schema,
    count: int,
)
    requires
        entries_wf(entries),
        drains(entries, states, limits, schema),
        pending(entries, states[0]).len() == states[0].pending_events,
        0 <= count <= limits.len(),
    ensures
        ({
            let done = delivered_by(entries, states, limits, schema, count);
            &&& done <= pending(entries, states[0]).len()
            &&& pending(entries, states[count]) == pending(entries, states[0]).skip(done as int)
            &&& states[count].pending_events + done == states[0].pending_events
        }),
    decreases count,
{
    let all = pending(entries, states[0]);
    if count > 0 {
        let k = count - 1;
        lemma_drained(entries, states, limits, schema, k);
        let before = delivered_by(entries, states, limits, schema, k);
        let (model, head) = load_outcome(entries, states[k], limits[k], schema)->Ok_0;
        law_load_is_in_order(entries, states[k], limits[k], schema);
        law_load_conserves_events(entries, states[k], limits[k], schema);
        assert(states[k + 1] == state_after(states[k], model, head));
        assert(all.skip(before as int).skip(model.delivered as int) =~= all.skip(
            (before + model.delivered) as int,
        ));
        if head is None {
            assert(pending(entries, states[k + 1]).len() == 0);
        }
    } else {
        assert(all.skip(0) =~= all);
    }
}

/// Successive loads deliver the pending events from head to tail, each once and in order: each
/// load carries those that follow what the loads before it have delivered, at least one and no
/// more than its limit, and the last load ends with the last event. The count of pending events
/// goes down by what is delivered.
pub proof fn law_loads_drain_in_order(
    entries: Seq<StoredEntry>,
    states: Seq<BufferState>,
    limits: Seq<LoadLimits>,
    schema: Schema,
    k: int,
)
    requires
        entries_wf(entries),
        drains(entries, states, limits, schema),
        pending(entries, states[0]).len() == states[0].pending_events,
        0 <= k < limits.len(),
    ensures
        ({
            let all = pending(entries, states[0]);
            let (model, head) = load_outcome(entries, states[k], limits[k], schema)->Ok_0;
            let done = delivered_by(entries, states, limits, schema, k);
            &&& delivers(all.skip(done as int), model.rows, model.diffs, model.admissions)
            &&& events(model.diffs, model.diffs.len() as int) == model.delivered
            &&& 0 < model.delivered <= limits[k].events
            &&& states[k + 1].pending_events + model.delivered == states[k].pending_events
            &&& delivered_by(entries, states, limits, schema, limits.len() as int) == all.len()
        }),
{
    let last = limits.len() as int;
    lemma_drained(entries, states, limits, schema, k);
    lemma_drained(entries, states, limits, schema, k + 1);
    lemma_drained(entries, states, limits, schema, last);
    law_load_is_in_order(entries, states[k], limits[k], schema);
    law_load_keeps_limits(entries, states[k], limits[k], schema);
    assert(states[last] == empty_buffer());
}

} // verus!
