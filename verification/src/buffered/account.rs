//! The account of a buffer: admissions and settlements keep its control state in agreement
//! with its entries.

use crate::buffered::audit::{
    audit, entry_position, events_from, lies_outside, place_fault, positives_from, sizes_fault,
    tally_of, Tally,
};
use crate::buffered::entry::{content_fault, MAX_DELIVERY_BYTES, StoredEntry};
use crate::buffered::laws::{entries_wf, lemma_slice_moves};
use crate::buffered::load::{
    entry_slice, entry_step, entry_waits, find_entry, least, lemma_charge_fits,
    lemma_found_is_there, load_from, load_outcome, load_start, open_fault, opened, position_in,
    signed, slice, slice_diffs, standing, state_after, Entry, LoadLimits, LoadModel, LoadProgress,
};
use crate::buffered::runtime::{
    admission_of, admission_refusal, admit_fault, first_kept, grown, settled, Delivered,
};
use crate::buffered::state::{buffer_valid, BufferFault, BufferState, Position, Ready};
use crate::change::{events, lemma_counts_grow, lemma_row_events, positives, Schema};
use crate::text::abs;
use vstd::prelude::*;

verus! {

/// The multiplicities in an entry.
pub open spec fn entry_diffs(entry: StoredEntry) -> Seq<i64> {
    entry.change->0.diffs@
}

/// Whether an entry is one of a buffer that begins at `head`, with the sequence number
/// `expected`.
pub open spec fn sound(entry: StoredEntry, head: Position, schema: Schema, expected: int) -> bool {
    &&& entry.sequence == expected
    &&& content_fault(entry, MAX_DELIVERY_BYTES, schema) is None
    &&& entry.event_bytes is Some
    &&& sizes_fault(entry.event_bytes->0@, entry.event_bytes->0@.len() as int) is None
    &&& place_fault(entry_diffs(entry), entry_position(head, entry.sequence)) is None
}

/// The entries are those of a buffer that begins at `head`.
pub open spec fn all_sound(entries: Seq<StoredEntry>, head: Position, schema: Schema) -> bool {
    forall|i: int|
        0 <= i < entries.len() ==> sound(#[trigger] entries[i], head, schema, head.sequence + i)
}

/// The events that the entries from `low` to before `high` still hold.
pub open spec fn pending_sum(
    entries: Seq<StoredEntry>,
    head: Position,
    low: int,
    high: int,
) -> int
    decreases high - low,
{
    if low >= high {
        0
    } else {
        let entry = entries[high - 1];
        pending_sum(entries, head, low, high - 1) + events_from(
            entry_diffs(entry),
            entry_position(head, entry.sequence),
        )
    }
}

/// Those of them with a positive multiplicity.
pub open spec fn positive_sum(
    entries: Seq<StoredEntry>,
    head: Position,
    low: int,
    high: int,
) -> int
    decreases high - low,
{
    if low >= high {
        0
    } else {
        let entry = entries[high - 1];
        positive_sum(entries, head, low, high - 1) + positives_from(
            entry_diffs(entry),
            entry_position(head, entry.sequence),
        )
    }
}

/// The bytes that the entries from `low` to before `high` take up.
pub open spec fn retained_sum(entries: Seq<StoredEntry>, low: int, high: int) -> int
    decreases high - low,
{
    if low >= high {
        0
    } else {
        retained_sum(entries, low, high - 1) + entries[high - 1].encoded_length + 8
    }
}

/// The events with a positive multiplicity are among all events.
proof fn lemma_positives_from(diffs: Seq<i64>, position: Position)
    requires
        place_fault(diffs, position) is None,
    ensures
        0 <= positives_from(diffs, position) <= events_from(diffs, position),
{
    let row = position.row_index as int;
    lemma_counts_grow(diffs, row + 1, diffs.len() as int);
}

/// What a tally says of the entries that it has visited.
proof fn lemma_tally_says(
    entries: Seq<StoredEntry>,
    state: BufferState,
    head: Position,
    schema: Schema,
    count: int,
)
    requires
        0 <= count <= entries.len(),
        tally_of(entries, state, head, schema, count) is Ok,
    ensures
        ({
            let tally = tally_of(entries, state, head, schema, count)->Ok_0;
            &&& tally.expected_sequence == head.sequence + count
            &&& tally.pending_events == pending_sum(entries, head, 0, count)
            &&& tally.positive_events == positive_sum(entries, head, 0, count)
            &&& tally.retained_bytes == retained_sum(entries, 0, count)
            &&& forall|i: int|
                0 <= i < count ==> sound(#[trigger] entries[i], head, schema, head.sequence + i)
        }),
    decreases count,
{
    if count > 0 {
        lemma_tally_says(entries, state, head, schema, count - 1);
        let entry = entries[count - 1];
        let position = entry_position(head, entry.sequence);
        if place_fault(entry_diffs(entry), position) is None {
            lemma_positives_from(entry_diffs(entry), position);
        }
    }
}

/// Sound entries add up, as long as that keeps within the control state.
proof fn lemma_sound_tallies(
    entries: Seq<StoredEntry>,
    state: BufferState,
    head: Position,
    schema: Schema,
    count: int,
)
    requires
        0 <= count <= entries.len(),
        all_sound(entries, head, schema),
        pending_sum(entries, head, 0, entries.len() as int) <= state.pending_events,
        retained_sum(entries, 0, entries.len() as int) <= state.retained_bytes,
        head.sequence + entries.len() <= u64::MAX,
    ensures
        tally_of(entries, state, head, schema, count) == Ok::<Tally, BufferFault>(
            Tally {
                expected_sequence: (head.sequence + count) as u64,
                pending_events: pending_sum(entries, head, 0, count) as u64,
                positive_events: positive_sum(entries, head, 0, count) as u64,
                retained_bytes: retained_sum(entries, 0, count) as u64,
            },
        ),
        0 <= positive_sum(entries, head, 0, count) <= pending_sum(entries, head, 0, count),
        pending_sum(entries, head, 0, count) <= state.pending_events,
        0 <= retained_sum(entries, 0, count) <= state.retained_bytes,
    decreases count,
{
    lemma_sums_grow(entries, head, schema, count, entries.len() as int);
    if count > 0 {
        lemma_sound_tallies(entries, state, head, schema, count - 1);
        let entry = entries[count - 1];
        assert(sound(entry, head, schema, head.sequence + count - 1));
        lemma_positives_from(entry_diffs(entry), entry_position(head, entry.sequence));
    }
}

proof fn lemma_sums_grow(
    entries: Seq<StoredEntry>,
    head: Position,
    schema: Schema,
    low: int,
    high: int,
)
    requires
        0 <= low <= high <= entries.len(),
        all_sound(entries, head, schema),
    ensures
        pending_sum(entries, head, 0, low) <= pending_sum(entries, head, 0, high),
        retained_sum(entries, 0, low) <= retained_sum(entries, 0, high),
    decreases high - low,
{
    if low < high {
        lemma_sums_grow(entries, head, schema, low, high - 1);
        let entry = entries[high - 1];
        assert(sound(entry, head, schema, head.sequence + high - 1));
        lemma_positives_from(entry_diffs(entry), entry_position(head, entry.sequence));
    }
}

/// The audit of sound entries that add up to the control state succeeds.
proof fn lemma_sound_audit(entries: Seq<StoredEntry>, state: BufferState, schema: Schema)
    requires
        state.head is Some,
        all_sound(entries, state.head->0, schema),
        state.head->0.sequence + entries.len() == state.tail,
        pending_sum(entries, state.head->0, 0, entries.len() as int) == state.pending_events,
        retained_sum(entries, 0, entries.len() as int) == state.retained_bytes,
    ensures
        audit(entries, state, schema) == Ok::<u64, BufferFault>(
            positive_sum(entries, state.head->0, 0, entries.len() as int) as u64,
        ),
        0 <= positive_sum(entries, state.head->0, 0, entries.len() as int)
            <= state.pending_events,
{
    let head = state.head->0;
    assert forall|i: int| 0 <= i < entries.len() implies !#[trigger] lies_outside(
        state,
        entries[i],
    ) by {
        assert(sound(entries[i], head, schema, head.sequence + i));
    }
    lemma_sound_tallies(entries, state, head, schema, entries.len() as int);
}

/// The entries of a buffer that was audited are sound and add up to its control state.
proof fn lemma_audited(entries: Seq<StoredEntry>, state: BufferState, schema: Schema)
    requires
        state.head is Some,
        audit(entries, state, schema) is Ok,
    ensures
        all_sound(entries, state.head->0, schema),
        state.head->0.sequence + entries.len() == state.tail,
        pending_sum(entries, state.head->0, 0, entries.len() as int) == state.pending_events,
        retained_sum(entries, 0, entries.len() as int) == state.retained_bytes,
        audit(entries, state, schema)->Ok_0 == positive_sum(
            entries,
            state.head->0,
            0,
            entries.len() as int,
        ),
{
    lemma_tally_says(entries, state, state.head->0, schema, entries.len() as int);
}

/// Sums over a prefix do not depend on what comes behind it.
proof fn lemma_sums_prefix(
    left: Seq<StoredEntry>,
    right: Seq<StoredEntry>,
    head: Position,
    count: int,
)
    requires
        0 <= count <= left.len(),
        count <= right.len(),
        forall|i: int| 0 <= i < count ==> left[i] == #[trigger] right[i],
    ensures
        pending_sum(left, head, 0, count) == pending_sum(right, head, 0, count),
        positive_sum(left, head, 0, count) == positive_sum(right, head, 0, count),
        retained_sum(left, 0, count) == retained_sum(right, 0, count),
    decreases count,
{
    if count > 0 {
        lemma_sums_prefix(left, right, head, count - 1);
    }
}

/// The events of a whole change.
proof fn lemma_whole_change(diffs: Seq<i64>, position: Position)
    requires
        diffs.len() > 0,
        position.row_index == 0,
        position.remaining == 0 || position.remaining == abs(diffs[0] as int),
        events(diffs, diffs.len() as int) <= u64::MAX,
        diffs[0] != 0,
    ensures
        events_from(diffs, position) == events(diffs, diffs.len() as int),
        positives_from(diffs, position) == positives(diffs, diffs.len() as int),
        place_fault(diffs, position) is None,
{
    assert(events(diffs, 1) == abs(diffs[0] as int)) by {
        lemma_row_events(diffs, 0);
    }
    assert(positives(diffs, 1) == (if diffs[0] > 0 {
        diffs[0] as int
    } else {
        0
    })) by {
        reveal_with_fuel(positives, 2);
    }
}

/// A change that is admitted keeps the account: where a buffer was audited, it can be audited
/// again with the entry of the change behind the others, and it holds the events of the change
/// on top of what it held.
pub proof fn law_admission_keeps_account(
    entries: Seq<StoredEntry>,
    ready: Ready,
    schema: Schema,
    entry: StoredEntry,
    target_admits: bool,
)
    requires
        entry.wf(),
        buffer_valid(ready.buffer),
        audit(entries, ready.buffer, schema) is Ok,
        entry.sequence == ready.buffer.tail,
        content_fault(entry, MAX_DELIVERY_BYTES, schema) is None,
        admission_refusal(
            entry.change->0,
            target_admits,
            entry.event_bytes,
            entry.encoded_length,
        ) is None,
        admit_fault(ready, admission_of(entry.change->0, entry.encoded_length)) is None,
    ensures
        ({
            let admission = admission_of(entry.change->0, entry.encoded_length);
            let after = grown(ready.buffer, admission);
            let diffs = entry_diffs(entry);
            &&& audit(entries.push(entry), after, schema) is Ok
            &&& audit(entries.push(entry), after, schema)->Ok_0 == audit(
                entries,
                ready.buffer,
                schema,
            )->Ok_0 + positives(diffs, diffs.len() as int)
            &&& after.pending_events == ready.buffer.pending_events + events(
                diffs,
                diffs.len() as int,
            )
        }),
{
    let change = entry.change->0;
    let diffs = change.diffs@;
    let buffer = ready.buffer;
    let admission = admission_of(change, entry.encoded_length);
    let after = grown(buffer, admission);
    let longer = entries.push(entry);
    let head = after.head->0;
    let count = entries.len() as int;
    assert(diffs[0] != 0);
    lemma_whole_change(diffs, entry_position(head, entry.sequence));
    if buffer.head is None {
        if entries.len() > 0 {
            assert(lies_outside(buffer, entries[0]));
        }
        assert(positive_sum(entries, head, 0, count) == 0);
    } else {
        lemma_audited(entries, buffer, schema);
    }
    lemma_sums_prefix(longer, entries, head, count);
    assert(longer[count] == entry);
    assert forall|i: int| 0 <= i < longer.len() implies sound(
        #[trigger] longer[i],
        head,
        schema,
        head.sequence + i,
    ) by {
        if i < count {
            assert(longer[i] == entries[i]);
            assert(sound(entries[i], head, schema, head.sequence + i));
        }
    }
    lemma_sound_audit(longer, after, schema);
}

/// The events that are left at a row with a remainder, and in the rows behind it.
pub open spec fn left_from(diffs: Seq<i64>, row: int, remaining: int) -> int {
    events(diffs, diffs.len() as int) - events(diffs, row + 1) + remaining
}

/// Those of them with a positive multiplicity.
pub open spec fn positive_from(diffs: Seq<i64>, row: int, remaining: int) -> int {
    positives(diffs, diffs.len() as int) - positives(diffs, row + 1) + (if diffs[row] > 0 {
        remaining
    } else {
        0
    })
}

proof fn lemma_positives_kept(base: Seq<i64>, part: Seq<i64>, count: int)
    requires
        0 <= count <= base.len(),
    ensures
        positives(base + part, count) == positives(base, count),
    decreases count,
{
    if count > 0 {
        lemma_positives_kept(base, part, count - 1);
    }
}

/// Multiplicities one behind the other hold the positive events of both.
proof fn lemma_positives_joined(base: Seq<i64>, part: Seq<i64>, count: int)
    requires
        0 <= count <= part.len(),
    ensures
        positives(base + part, base.len() + count) == positives(base, base.len() as int)
            + positives(part, count),
    decreases count,
{
    if count > 0 {
        lemma_positives_joined(base, part, count - 1);
        assert((base + part)[base.len() + count - 1] == part[count - 1]);
    } else {
        lemma_positives_kept(base, part, base.len() as int);
    }
}

/// What a slice takes and what it leaves make up what was there.
proof fn lemma_slice_conserves(
    diffs: Seq<i64>,
    sizes: Seq<u64>,
    row: int,
    remaining: nat,
    budget: nat,
    bytes: nat,
    fresh: bool,
)
    requires
        0 <= row < diffs.len(),
        0 < remaining <= abs(diffs[row] as int),
        budget > 0,
        forall|i: int| 0 <= i < diffs.len() ==> #[trigger] diffs[i] != 0,
        !(slice(diffs, sizes, row, remaining, budget, bytes, fresh).end is Fault),
    ensures
        ({
            let part = slice(diffs, sizes, row, remaining, budget, bytes, fresh);
            let taken = slice_diffs(diffs, row, part.takes);
            &&& part.end is Entry ==> {
                &&& budget - part.events == left_from(diffs, row, remaining as int)
                &&& positives(taken, taken.len() as int) == positive_from(
                    diffs,
                    row,
                    remaining as int,
                )
            }
            &&& part.end is Partial ==> {
                &&& budget - part.events + left_from(diffs, part.row, part.remaining as int)
                    == left_from(diffs, row, remaining as int)
                &&& positives(taken, taken.len() as int) + positive_from(
                    diffs,
                    part.row,
                    part.remaining as int,
                ) == positive_from(diffs, row, remaining as int)
            }
        }),
    decreases diffs.len() - row,
{
    lemma_slice_moves(diffs, sizes, row, remaining, budget, bytes, fresh);
    let size = sizes[row] as nat;
    let fit = bytes / size;
    let take = least(remaining, budget, fit);
    let part = slice(diffs, sizes, row, remaining, budget, bytes, fresh);
    let taken = slice_diffs(diffs, row, part.takes);
    if size > 0 && fit > 0 {
        lemma_charge_fits(bytes, size, take);
        let own = slice_diffs(diffs, row, seq![take]);
        assert(own =~= seq![signed(diffs[row], take)]);
        assert(positives(own, 1) == (if diffs[row] > 0 {
            take as int
        } else {
            0
        })) by {
            reveal_with_fuel(positives, 2);
        }
        if row + 1 < diffs.len() {
            assert(diffs[row + 1] != 0);
            lemma_row_events(diffs, row + 1);
        }
        if take == remaining && row + 1 < diffs.len() && budget > take {
            let next = abs(diffs[row + 1] as int);
            let left = (budget - take) as nat;
            let charged = (bytes - take * size) as nat;
            lemma_slice_conserves(diffs, sizes, row + 1, next, left, charged, false);
            let rest = slice(diffs, sizes, row + 1, next, left, charged, false);
            let behind = slice_diffs(diffs, row + 1, rest.takes);
            assert(part.takes == seq![take] + rest.takes);
            assert(taken =~= own + behind);
            lemma_positives_joined(own, behind, behind.len() as int);
        } else {
            assert(part.takes =~= seq![take]);
        }
    } else {
        assert(part.takes.len() == 0);
        assert(taken.len() == 0);
    }
}

/// Among sound entries, the one with a sequence number stands in its place.
proof fn lemma_entry_in_place(
    entries: Seq<StoredEntry>,
    head: Position,
    schema: Schema,
    sequence: int,
)
    requires
        all_sound(entries, head, schema),
        find_entry(entries, sequence, entries.len() as int) is Some,
    ensures
        find_entry(entries, sequence, entries.len() as int)->0 == sequence - head.sequence,
        0 <= sequence - head.sequence < entries.len(),
{
    let index = find_entry(entries, sequence, entries.len() as int)->0;
    lemma_found_is_there(entries, sequence, entries.len() as int);
    assert(sound(entries[index], head, schema, head.sequence + index));
}

/// How far loading has come agrees with the entries: what was delivered and what is left make
/// up what was pending.
pub open spec fn on_account(
    entries: Seq<StoredEntry>,
    before: BufferState,
    model: LoadModel,
) -> bool {
    let head = before.head->0;
    let count = entries.len() as int;
    let place = model.sequence - head.sequence;
    &&& 0 <= place <= count
    &&& model.delivered == pending_sum(entries, head, 0, place)
    &&& positives(model.diffs, model.diffs.len() as int) == positive_sum(entries, head, 0, place)
    &&& model.retained == before.retained_bytes - retained_sum(entries, 0, place)
    &&& if place == 0 {
        model.row == head.row_index && model.remaining == head.remaining && model.encoded == 0
    } else {
        model.row == 0 && model.remaining == 0
    }
}

/// Whether a buffer begins where the entries from `place` on begin, and holds what they hold.
pub open spec fn left_behind(
    entries: Seq<StoredEntry>,
    before: BufferState,
    model: LoadModel,
    end: Position,
) -> bool {
    let head = before.head->0;
    let count = entries.len() as int;
    let place = end.sequence - head.sequence;
    let diffs = entry_diffs(entries[place]);
    let own = entry_position(head, entries[place].sequence);
    &&& 0 <= place < count
    &&& place_fault(diffs, end) is None
    &&& model.delivered + events_from(diffs, end) == pending_sum(entries, head, 0, place)
        + events_from(diffs, own)
    &&& positives(model.diffs, model.diffs.len() as int) + positives_from(diffs, end)
        == positive_sum(entries, head, 0, place) + positives_from(diffs, own)
    &&& model.retained == before.retained_bytes - retained_sum(entries, 0, place)
}

/// One entry keeps loading on account.
proof fn lemma_step_on_account(
    entries: Seq<StoredEntry>,
    before: BufferState,
    model: LoadModel,
    limits: LoadLimits,
    schema: Schema,
)
    requires
        entries_wf(entries),
        before.head is Some,
        all_sound(entries, before.head->0, schema),
        retained_sum(entries, 0, entries.len() as int) == before.retained_bytes,
        before.head->0.sequence + entries.len() == before.tail,
        on_account(entries, before, model),
        model.sequence < before.tail,
        model.events > 0,
        open_fault(entries[model.sequence - before.head->0.sequence], limits, schema) is None,
        entry_step(
            model,
            opened(entries[model.sequence - before.head->0.sequence]),
            before.tail as int,
            limits,
        ) is Ok,
    ensures
        ({
            let entry = entries[model.sequence - before.head->0.sequence];
            let (next, progress) = entry_step(
                model,
                opened(entry),
                before.tail as int,
                limits,
            )->Ok_0;
            match progress {
                LoadProgress::Continue => on_account(entries, before, next) && next.events > 0
                    && next.sequence == model.sequence + 1 && next.sequence < before.tail,
                LoadProgress::Stop(None) => on_account(entries, before, next) && next.sequence
                    == before.tail,
                LoadProgress::Stop(Some(end)) => left_behind(entries, before, next, end),
            }
        }),
{
    let head = before.head->0;
    let place = model.sequence - head.sequence;
    let entry = entries[place];
    let diffs = entry_diffs(entry);
    let own = entry_position(head, entry.sequence);
    let open = opened(entry);
    assert(sound(entry, head, schema, head.sequence + place));
    assert(entry.wf());
    assert(diffs[0] != 0);
    lemma_row_events(diffs, 0);
    let (next, progress) = entry_step(model, open, before.tail as int, limits)->Ok_0;
    if !entry_waits(model, open, limits) {
        let part = entry_slice(model, open);
        let remaining = standing(model, diffs);
        lemma_slice_moves(
            diffs,
            open.event_bytes@,
            model.row,
            remaining,
            model.events,
            model.bytes,
            model.delivered == 0,
        );
        lemma_slice_conserves(
            diffs,
            open.event_bytes@,
            model.row,
            remaining,
            model.events,
            model.bytes,
            model.delivered == 0,
        );
        assert(events_from(diffs, own) == left_from(diffs, model.row, remaining as int));
        assert(positives_from(diffs, own) == positive_from(diffs, model.row, remaining as int));
        let taken = slice_diffs(diffs, model.row, part.takes);
        lemma_positives_joined(model.diffs, taken, taken.len() as int);
        if part.end is Partial {
            let end = position_in(model.sequence, part.row, part.remaining, diffs);
            lemma_counts_grow(diffs, part.row + 1, diffs.len() as int);
            assert(events_from(diffs, end) == left_from(diffs, part.row, part.remaining as int));
            assert(positives_from(diffs, end) == positive_from(
                diffs,
                part.row,
                part.remaining as int,
            ));
        } else if progress is Stop && progress->Stop_0 is Some {
            let end = progress->Stop_0->0;
            let other = entries[place + 1];
            assert(sound(other, head, schema, head.sequence + place + 1));
            assert(end == entry_position(head, other.sequence));
        }
    }
}

/// Loading stays on account to its end.
proof fn lemma_load_on_account(
    entries: Seq<StoredEntry>,
    before: BufferState,
    model: LoadModel,
    limits: LoadLimits,
    schema: Schema,
)
    requires
        entries_wf(entries),
        before.head is Some,
        all_sound(entries, before.head->0, schema),
        retained_sum(entries, 0, entries.len() as int) == before.retained_bytes,
        before.head->0.sequence + entries.len() == before.tail,
        on_account(entries, before, model),
        model.events > 0,
        load_from(entries, model, before.tail as int, limits, schema) is Ok,
    ensures
        ({
            let (end, head) = load_from(
                entries,
                model,
                before.tail as int,
                limits,
                schema,
            )->Ok_0;
            match head {
                None => on_account(entries, before, end) && end.sequence == before.tail,
                Some(head) => left_behind(entries, before, end, head),
            }
        }),
    decreases before.tail - model.sequence,
{
    let start = before.head->0;
    lemma_entry_in_place(entries, start, schema, model.sequence);
    lemma_step_on_account(entries, before, model, limits, schema);
    let entry = entries[model.sequence - start.sequence];
    let (next, progress) = entry_step(model, opened(entry), before.tail as int, limits)->Ok_0;
    if progress is Continue {
        lemma_load_on_account(entries, before, next, limits, schema);
    }
}

/// Sums from one place to another add up.
proof fn lemma_sums_split(entries: Seq<StoredEntry>, head: Position, low: int, high: int)
    requires
        0 <= low <= high,
    ensures
        pending_sum(entries, head, 0, high) == pending_sum(entries, head, 0, low) + pending_sum(
            entries,
            head,
            low,
            high,
        ),
        positive_sum(entries, head, 0, high) == positive_sum(entries, head, 0, low)
            + positive_sum(entries, head, low, high),
        retained_sum(entries, 0, high) == retained_sum(entries, 0, low) + retained_sum(
            entries,
            low,
            high,
        ),
    decreases high - low,
{
    if low < high {
        lemma_sums_split(entries, head, low, high - 1);
    }
}

/// The entries behind the one where a buffer now begins still hold what they held.
proof fn lemma_sums_behind(
    entries: Seq<StoredEntry>,
    old: Position,
    new: Position,
    schema: Schema,
    place: int,
    count: int,
)
    requires
        all_sound(entries, old, schema),
        0 <= place < count <= entries.len(),
        new.sequence == old.sequence + place,
        place == 0 || count > 0,
    ensures
        ({
            let rest = entries.skip(place);
            let first = entry_diffs(entries[place]);
            let own = entry_position(old, entries[place].sequence);
            &&& pending_sum(rest, new, 0, count - place) == pending_sum(entries, old, place, count)
                - events_from(first, own) + events_from(first, new)
            &&& positive_sum(rest, new, 0, count - place) == positive_sum(
                entries,
                old,
                place,
                count,
            ) - positives_from(first, own) + positives_from(first, new)
            &&& retained_sum(rest, 0, count - place) == retained_sum(entries, place, count)
        }),
    decreases count - place,
{
    let rest = entries.skip(place);
    assert(rest[count - place - 1] == entries[count - 1]);
    assert(sound(entries[count - 1], old, schema, old.sequence + count - 1));
    if count - 1 > place {
        lemma_sums_behind(entries, old, new, schema, place, count - 1);
    }
    assert(pending_sum(rest, new, 0, 0) == 0);
    assert(positive_sum(rest, new, 0, 0) == 0);
    assert(retained_sum(rest, 0, 0) == 0);
    assert(pending_sum(entries, old, place, place) == 0);
    assert(positive_sum(entries, old, place, place) == 0);
    assert(retained_sum(entries, place, place) == 0);
}

/// A settled delivery keeps the account: where a buffer was audited, what a load leaves of it
/// can be audited again once the used-up entries are removed, and the events of the delivery
/// are exactly those that it holds no longer.
pub proof fn law_settlement_keeps_account(
    entries: Seq<StoredEntry>,
    before: BufferState,
    limits: LoadLimits,
    schema: Schema,
)
    requires
        entries_wf(entries),
        audit(entries, before, schema) is Ok,
        load_outcome(entries, before, limits, schema) is Ok,
    ensures
        ({
            let (model, head) = load_outcome(entries, before, limits, schema)->Ok_0;
            let after = state_after(before, model, head);
            let used = match head {
                None => entries.len() as int,
                Some(head) => head.sequence - before.head->0.sequence,
            };
            let rest = entries.skip(used);
            &&& 0 <= used <= entries.len()
            &&& audit(rest, after, schema) is Ok
            &&& audit(rest, after, schema)->Ok_0 + positives(
                model.diffs,
                model.diffs.len() as int,
            ) == audit(entries, before, schema)->Ok_0
            &&& after.pending_events + model.delivered == before.pending_events
        }),
{
    let start = before.head->0;
    let count = entries.len() as int;
    lemma_audited(entries, before, schema);
    let first = load_start(before, limits);
    assert(on_account(entries, before, first));
    lemma_load_on_account(entries, before, first, limits, schema);
    let (model, head) = load_outcome(entries, before, limits, schema)->Ok_0;
    let after = state_after(before, model, head);
    match head {
        None => {
            assert(entries.skip(count).len() == 0);
        },
        Some(end) => {
            let place = end.sequence - start.sequence;
            let rest = entries.skip(place);
            lemma_sums_split(entries, start, place, count);
            lemma_sums_grow(entries, start, schema, 0, place);
            lemma_sums_behind(entries, start, end, schema, place, count);
            assert forall|i: int| 0 <= i < rest.len() implies sound(
                #[trigger] rest[i],
                end,
                schema,
                end.sequence + i,
            ) by {
                assert(rest[i] == entries[place + i]);
                assert(sound(entries[place + i], start, schema, start.sequence + place + i));
            }
            lemma_sound_audit(rest, after, schema);
        },
    }
}

/// A settled delivery removes exactly the entries that it has used up: what is stored then can be
/// audited with the entries that are left, and holds the events that were not delivered.
pub proof fn law_settlement_removes_used_entries(
    entries: Seq<StoredEntry>,
    done: Delivered,
    limits: LoadLimits,
    schema: Schema,
)
    requires
        entries_wf(entries),
        audit(entries, done.before, schema) is Ok,
        load_outcome(entries, done.before, limits, schema) is Ok,
        ({
            let (model, head) = load_outcome(entries, done.before, limits, schema)->Ok_0;
            done.after == state_after(done.before, model, head)
        }),
        done.batch_id < u64::MAX,
    ensures
        ({
            let (model, head) = load_outcome(entries, done.before, limits, schema)->Ok_0;
            let used = first_kept(done) - done.before.head->0.sequence;
            &&& 0 <= used <= entries.len()
            &&& audit(entries.skip(used), settled(done).buffer, schema) is Ok
            &&& settled(done).buffer.pending_events + model.delivered == done.before.pending_events
            &&& settled(done).next_batch_id == done.batch_id + 1
            &&& settled(done).checkpoint == done.checkpoint
        }),
{
    lemma_audited(entries, done.before, schema);
    law_settlement_keeps_account(entries, done.before, limits, schema);
}

} // verus!
