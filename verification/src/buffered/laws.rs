//! What holds of every load of a buffer.

use crate::buffered::entry::StoredEntry;
use crate::buffered::load::{
    after_slice, entry_slice, entry_step, entry_waits, find_entry, least, lemma_charge_fits,
    lemma_found_is_there, opened, load_from, load_outcome, load_start, signed, slice, slice_diffs,
    standing, state_after, Entry, LoadLimits, LoadModel, LoadProgress, Slice,
};
use crate::buffered::state::{boundary, empty_buffer, head_moves, settles, BufferState, Position};
use crate::change::{events, negatives, positives, Schema};
use crate::text::abs;
use vstd::prelude::*;

verus! {

/// All entries are well formed.
pub open spec fn entries_wf(entries: Seq<StoredEntry>) -> bool {
    forall|i: int| 0 <= i < entries.len() ==> (#[trigger] entries[i]).wf()
}

/// A slice moves forward within its budgets.
pub proof fn lemma_slice_moves(
    diffs: Seq<i64>,
    sizes: Seq<u64>,
    row: int,
    remaining: nat,
    budget: nat,
    bytes: nat,
    fresh: bool,
)
    requires
        0 <= row < diffs.len(),
        0 < remaining <= abs(diffs[row] as int),
        budget > 0,
        forall|i: int| 0 <= i < diffs.len() ==> #[trigger] diffs[i] != 0,
        !(slice(diffs, sizes, row, remaining, budget, bytes, fresh).end is Fault),
    ensures
        ({
            let part = slice(diffs, sizes, row, remaining, budget, bytes, fresh);
            &&& part.events <= budget
            &&& part.bytes <= bytes
            &&& part.end is Entry ==> part.events < budget && part.row == diffs.len()
                && part.remaining == 0
            &&& part.end is Partial ==> row <= part.row < diffs.len() && 0 < part.remaining
                <= abs(diffs[part.row] as int)
            &&& part.end is Partial && part.row == row ==> part.remaining <= remaining
            &&& fresh || part.takes.len() > 0 ==> part.events < budget
            &&& part.end is Partial && part.events < budget && part.row == row
                ==> part.remaining < remaining
            &&& part.events < budget ==> part.takes.len() > 0
            &&& part.takes.len() <= diffs.len() - row
        }),
    decreases diffs.len() - row,
{
    let size = sizes[row] as nat;
    let fit = bytes / size;
    let take = least(remaining, budget, fit);
    if size > 0 && fit > 0 {
        lemma_charge_fits(bytes, size, take);
        if take == remaining && row + 1 < diffs.len() && budget > take {
            assert(diffs[row + 1] != 0);
            lemma_slice_moves(
                diffs,
                sizes,
                row + 1,
                abs(diffs[row + 1] as int),
                (budget - take) as nat,
                (bytes - take * size) as nat,
                false,
            );
        } else if row + 1 < diffs.len() {
            assert(diffs[row + 1] != 0);
        }
    }
}

/// A smaller budget of events that still covers what a slice takes gives the same slice.
proof fn lemma_slice_less(
    diffs: Seq<i64>,
    sizes: Seq<u64>,
    row: int,
    remaining: nat,
    budget: nat,
    bytes: nat,
    fresh: bool,
    slack: nat,
)
    requires
        0 <= row < diffs.len(),
        0 < remaining <= abs(diffs[row] as int),
        forall|i: int| 0 <= i < diffs.len() ==> #[trigger] diffs[i] != 0,
        !(slice(diffs, sizes, row, remaining, budget, bytes, fresh).end is Fault),
        slack <= slice(diffs, sizes, row, remaining, budget, bytes, fresh).events,
        slack < budget,
    ensures
        ({
            let part = slice(diffs, sizes, row, remaining, budget, bytes, fresh);
            slice(diffs, sizes, row, remaining, (budget - slack) as nat, bytes, fresh) == (Slice {
                events: (part.events - slack) as nat,
                ..part
            })
        }),
    decreases diffs.len() - row,
{
    lemma_slice_moves(diffs, sizes, row, remaining, budget, bytes, fresh);
    let part = slice(diffs, sizes, row, remaining, budget, bytes, fresh);
    let less = slice(diffs, sizes, row, remaining, (budget - slack) as nat, bytes, fresh);
    let size = sizes[row] as nat;
    let fit = bytes / size;
    let take = least(remaining, budget, fit);
    if size > 0 && fit > 0 {
        lemma_charge_fits(bytes, size, take);
        assert(take <= budget - slack) by {
            if take == remaining && row + 1 < diffs.len() && budget > take {
                assert(diffs[row + 1] != 0);
                lemma_slice_moves(
                    diffs,
                    sizes,
                    row + 1,
                    abs(diffs[row + 1] as int),
                    (budget - take) as nat,
                    (bytes - take * size) as nat,
                    false,
                );
            }
        }
        assert(least(remaining, (budget - slack) as nat, fit) == take);
        if take == remaining && row + 1 < diffs.len() {
            assert(diffs[row + 1] != 0);
            let next = abs(diffs[row + 1] as int);
            let left = (budget - take) as nat;
            let charged = (bytes - take * size) as nat;
            if budget > take {
                let rest = slice(diffs, sizes, row + 1, next, left, charged, false);
                lemma_slice_moves(diffs, sizes, row + 1, next, left, charged, false);
                if left > slack {
                    lemma_slice_less(
                        diffs,
                        sizes,
                        row + 1,
                        next,
                        left,
                        charged,
                        false,
                        slack,
                    );
                    assert((left - slack) as nat == (budget - slack - take) as nat);
                } else {
                    assert(rest.events == left);
                    assert(rest.takes =~= Seq::empty());
                    assert(part.takes =~= seq![take]);
                }
            }
        }
    }
}

/// What a step keeps, and how it moves forward.
proof fn lemma_step_moves(model: LoadModel, entry: Entry, tail: int, limits: LoadLimits)
    requires
        entry.wf(),
        model.row >= 0,
        model.events > 0,
        model.delivered + model.events == limits.events,
        entry_step(model, entry, tail, limits) is Ok,
    ensures
        ({
            let (next, progress) = entry_step(model, entry, tail, limits)->Ok_0;
            &&& next.delivered + next.events == limits.events
            &&& next.retained <= model.retained
            &&& next.events <= model.events
            &&& next.bytes <= model.bytes
            &&& model.encoded <= limits.encoded_bytes ==> next.encoded <= limits.encoded_bytes
            &&& !entry_waits(model, entry, limits) ==> next.encoded == model.encoded
                + entry.item_bytes
            &&& progress is Continue ==> {
                &&& next.sequence == model.sequence + 1
                &&& next.row == 0
                &&& next.remaining == 0
                &&& next.events > 0
                &&& next.events < model.events
            }
            &&& entry_waits(model, entry, limits) ==> next == model && progress
                == LoadProgress::Stop(Some(boundary(model.sequence as u64)))
            &&& !entry_waits(model, entry, limits) && (model.delivered == 0) ==> next.events
                < model.events
        }),
{
    let diffs = entry.change.diffs@;
    if !entry_waits(model, entry, limits) {
        assert(diffs[0] != 0);
        lemma_slice_moves(
            diffs,
            entry.event_bytes@,
            model.row,
            standing(model, diffs),
            model.events,
            model.bytes,
            model.delivered == 0,
        );
    }
}

/// A load that goes on but delivers nothing more ends where it stands.
proof fn lemma_idle_load(
    entries: Seq<StoredEntry>,
    model: LoadModel,
    tail: int,
    limits: LoadLimits,
    schema: Schema,
)
    requires
        entries_wf(entries),
        model.row == 0,
        model.remaining == 0,
        model.events > 0,
        model.delivered > 0,
        model.delivered + model.events == limits.events,
        load_from(entries, model, tail, limits, schema) is Ok,
        load_from(entries, model, tail, limits, schema)->Ok_0.0.events == model.events,
    ensures
        ({
            let (end, head) = load_from(entries, model, tail, limits, schema)->Ok_0;
            &&& head == Some(boundary(model.sequence as u64))
            &&& end.diffs == model.diffs
            &&& end.admissions == model.admissions
            &&& end.rows == model.rows
            &&& end.delivered == model.delivered
            &&& end.retained == model.retained
        }),
{
    let found = find_entry(entries, model.sequence, entries.len() as int);
    lemma_found_is_there(entries, model.sequence, entries.len() as int);
    let entry = opened(entries[found->0]);
    let diffs = entry.change.diffs@;
    lemma_step_moves(model, entry, tail, limits);
    let (next, progress) = entry_step(model, entry, tail, limits)->Ok_0;
    if progress is Continue {
        lemma_load_moves(entries, next, tail, limits, schema);
    } else if !entry_waits(model, entry, limits) {
        assert(diffs[0] != 0);
        lemma_slice_moves(
            diffs,
            entry.event_bytes@,
            model.row,
            standing(model, diffs),
            model.events,
            model.bytes,
            false,
        );
        let part = entry_slice(model, entry);
        assert(part.takes =~= Seq::empty());
        assert(next.diffs =~= model.diffs);
        assert(next.admissions =~= model.admissions);
        assert(next.rows =~= model.rows);
        assert(part.row == 0 && part.remaining == abs(diffs[0] as int)) by {
            lemma_no_takes(
                diffs,
                entry.event_bytes@,
                model.row,
                standing(model, diffs),
                model.events,
                model.bytes,
            );
        }
    }
}

/// A slice that takes nothing stays where it is.
proof fn lemma_no_takes(
    diffs: Seq<i64>,
    sizes: Seq<u64>,
    row: int,
    remaining: nat,
    budget: nat,
    bytes: nat,
)
    requires
        0 <= row < diffs.len(),
        slice(diffs, sizes, row, remaining, budget, bytes, false).takes.len() == 0,
        !(slice(diffs, sizes, row, remaining, budget, bytes, false).end is Fault),
    ensures
        slice(diffs, sizes, row, remaining, budget, bytes, false).row == row,
        slice(diffs, sizes, row, remaining, budget, bytes, false).remaining == remaining,
{
}

/// What every load keeps.
proof fn lemma_load_moves(
    entries: Seq<StoredEntry>,
    model: LoadModel,
    tail: int,
    limits: LoadLimits,
    schema: Schema,
)
    requires
        entries_wf(entries),
        model.row >= 0,
        model.events > 0,
        model.delivered + model.events == limits.events,
        load_from(entries, model, tail, limits, schema) is Ok,
    ensures
        ({
            let (end, head) = load_from(entries, model, tail, limits, schema)->Ok_0;
            &&& end.delivered + end.events == limits.events
            &&& end.retained <= model.retained
            &&& end.events <= model.events
            &&& end.bytes <= model.bytes
            &&& model.encoded <= limits.encoded_bytes ==> end.encoded <= limits.encoded_bytes
            &&& model.delivered == 0 && model.encoded == 0 ==> end.delivered > 0
        }),
    decreases tail - model.sequence,
{
    let found = find_entry(entries, model.sequence, entries.len() as int);
    lemma_found_is_there(entries, model.sequence, entries.len() as int);
    let entry = opened(entries[found->0]);
    lemma_step_moves(model, entry, tail, limits);
    let (next, progress) = entry_step(model, entry, tail, limits)->Ok_0;
    if progress is Continue {
        lemma_load_moves(entries, next, tail, limits, schema);
    }
}

/// The same load, with a smaller budget of events that covers what it delivers.
proof fn lemma_reload(
    entries: Seq<StoredEntry>,
    model: LoadModel,
    tail: int,
    limits: LoadLimits,
    less: LoadLimits,
    schema: Schema,
    slack: nat,
)
    requires
        entries_wf(entries),
        model.row >= 0,
        model.sequence >= 0,
        tail <= u64::MAX,
        model.delivered + model.events == limits.events,
        load_from(entries, model, tail, limits, schema) is Ok,
        slack == load_from(entries, model, tail, limits, schema)->Ok_0.0.events,
        model.events > slack,
        less == (LoadLimits { events: (limits.events - slack) as u64, ..limits }),
    ensures
        ({
            let (end, head) = load_from(entries, model, tail, limits, schema)->Ok_0;
            let shorter = LoadModel { events: (model.events - slack) as nat, ..model };
            let again = load_from(entries, shorter, tail, less, schema);
            &&& again is Ok
            &&& again->Ok_0.1 == head
            &&& again->Ok_0.0.diffs == end.diffs
            &&& again->Ok_0.0.admissions == end.admissions
            &&& again->Ok_0.0.rows == end.rows
            &&& again->Ok_0.0.delivered == end.delivered
            &&& again->Ok_0.0.retained == end.retained
        }),
    decreases tail - model.sequence,
{
    let shorter = LoadModel { events: (model.events - slack) as nat, ..model };
    let found = find_entry(entries, model.sequence, entries.len() as int);
    lemma_found_is_there(entries, model.sequence, entries.len() as int);
    let entry = opened(entries[found->0]);
    let diffs = entry.change.diffs@;
    lemma_step_moves(model, entry, tail, limits);
    let (next, progress) = entry_step(model, entry, tail, limits)->Ok_0;
    assert(!entry_waits(model, entry, limits));
    assert(diffs[0] != 0);
    let part = entry_slice(model, entry);
    lemma_slice_moves(
        diffs,
        entry.event_bytes@,
        model.row,
        standing(model, diffs),
        model.events,
        model.bytes,
        model.delivered == 0,
    );
    if progress is Continue {
        lemma_load_moves(entries, next, tail, limits, schema);
    }
    assert(slack <= part.events);
    lemma_slice_less(
        diffs,
        entry.event_bytes@,
        model.row,
        standing(model, diffs),
        model.events,
        model.bytes,
        model.delivered == 0,
        slack,
    );
    assert(entry_slice(shorter, entry) == (Slice { events: (part.events - slack) as nat, ..part }));
    let step = entry_step(shorter, entry, tail, less);
    assert(after_slice(shorter, entry) == (LoadModel {
        events: (part.events - slack) as nat,
        ..after_slice(model, entry)
    }));
    if progress is Continue {
        if part.events > slack {
            assert(step->Ok_0.0 == (LoadModel { events: (next.events - slack) as nat, ..next }));
            lemma_reload(entries, next, tail, limits, less, schema, slack);
        } else {
            lemma_idle_load(entries, next, tail, limits, schema);
        }
    }
}

/// Every delivery moves its buffer forward: what a load leaves can be stored as the
/// settlement of what it found.
pub proof fn law_load_settles(
    entries: Seq<StoredEntry>,
    before: BufferState,
    limits: LoadLimits,
    schema: Schema,
)
    requires
        entries_wf(entries),
        load_outcome(entries, before, limits, schema) is Ok,
    ensures
        settles(
            before,
            state_after(
                before,
                load_outcome(entries, before, limits, schema)->Ok_0.0,
                load_outcome(entries, before, limits, schema)->Ok_0.1,
            ),
        ),
{
    let model = load_start(before, limits);
    let tail = before.tail as int;
    let (end, head) = load_outcome(entries, before, limits, schema)->Ok_0;
    lemma_load_moves(entries, model, tail, limits, schema);
    lemma_head_moves(entries, model, tail, limits, schema, before.head->0);
}

/// The head after a load lies behind the head before it.
proof fn lemma_head_moves(
    entries: Seq<StoredEntry>,
    model: LoadModel,
    tail: int,
    limits: LoadLimits,
    schema: Schema,
    start: Position,
)
    requires
        entries_wf(entries),
        model.row >= 0,
        model.sequence >= 0,
        tail <= u64::MAX,
        model.events > 0,
        model.delivered + model.events == limits.events,
        load_from(entries, model, tail, limits, schema) is Ok,
        model.row <= u64::MAX,
        model.delivered == 0 ==> {
            &&& model.encoded == 0
            &&& model.sequence == start.sequence
            &&& model.row == start.row_index
            &&& model.remaining == start.remaining
        },
        model.delivered > 0 ==> model.sequence > start.sequence && model.row == 0
            && model.remaining == 0,
    ensures
        load_from(entries, model, tail, limits, schema)->Ok_0.1 is Some ==> head_moves(
            start,
            load_from(entries, model, tail, limits, schema)->Ok_0.1->0,
        ),
    decreases tail - model.sequence,
{
    let found = find_entry(entries, model.sequence, entries.len() as int);
    lemma_found_is_there(entries, model.sequence, entries.len() as int);
    let entry = opened(entries[found->0]);
    let diffs = entry.change.diffs@;
    lemma_step_moves(model, entry, tail, limits);
    let (next, progress) = entry_step(model, entry, tail, limits)->Ok_0;
    if !entry_waits(model, entry, limits) {
        assert(diffs[0] != 0);
        lemma_slice_moves(
            diffs,
            entry.event_bytes@,
            model.row,
            standing(model, diffs),
            model.events,
            model.bytes,
            model.delivered == 0,
        );
        if progress is Continue {
            lemma_head_moves(entries, next, tail, limits, schema, start);
        }
    }
}

/// A prepared delivery can be rebuilt: loading again with no more events than it delivered
/// gives the same delivery and leaves the same buffer.
pub proof fn law_delivery_is_rebuilt(
    entries: Seq<StoredEntry>,
    before: BufferState,
    limits: LoadLimits,
    schema: Schema,
)
    requires
        entries_wf(entries),
        load_outcome(entries, before, limits, schema) is Ok,
    ensures
        ({
            let (model, head) = load_outcome(entries, before, limits, schema)->Ok_0;
            let less = LoadLimits { events: model.delivered as u64, ..limits };
            let again = load_outcome(entries, before, less, schema);
            &&& again is Ok
            &&& again->Ok_0.1 == head
            &&& again->Ok_0.0.diffs == model.diffs
            &&& again->Ok_0.0.admissions == model.admissions
            &&& again->Ok_0.0.rows == model.rows
            &&& again->Ok_0.0.delivered == model.delivered
            &&& state_after(before, again->Ok_0.0, again->Ok_0.1) == state_after(
                before,
                model,
                head,
            )
        }),
{
    let start = load_start(before, limits);
    let tail = before.tail as int;
    let (model, head) = load_outcome(entries, before, limits, schema)->Ok_0;
    lemma_load_moves(entries, start, tail, limits, schema);
    let slack = model.events;
    let less = LoadLimits { events: (limits.events - slack) as u64, ..limits };
    lemma_reload(entries, start, tail, limits, less, schema, slack);
    assert(load_start(before, less) == (LoadModel { events: (start.events - slack) as nat, ..start }));
}

/// A delivery keeps within its limits of events, of encoded bytes and of target bytes.
pub proof fn law_load_keeps_limits(
    entries: Seq<StoredEntry>,
    before: BufferState,
    limits: LoadLimits,
    schema: Schema,
)
    requires
        entries_wf(entries),
        load_outcome(entries, before, limits, schema) is Ok,
    ensures
        0 < load_outcome(entries, before, limits, schema)->Ok_0.0.delivered <= limits.events,
        load_outcome(entries, before, limits, schema)->Ok_0.0.encoded <= limits.encoded_bytes,
        load_outcome(entries, before, limits, schema)->Ok_0.0.bytes <= limits.target_bytes,
{
    lemma_load_moves(entries, load_start(before, limits), before.tail as int, limits, schema);
}

/// The bytes that a slice is charged with.
pub open spec fn charge(sizes: Seq<u64>, row: int, takes: Seq<nat>) -> nat
    decreases takes.len(),
{
    if takes.len() == 0 {
        0
    } else {
        takes[0] * (sizes[row] as nat) + charge(sizes, row + 1, takes.drop_first())
    }
}

/// The events that a slice takes.
pub open spec fn total(takes: Seq<nat>) -> nat
    decreases takes.len(),
{
    if takes.len() == 0 {
        0
    } else {
        takes[0] + total(takes.drop_first())
    }
}

/// What a slice takes comes out of its budgets, event for event and byte for byte.
pub proof fn law_slice_is_charged(
    diffs: Seq<i64>,
    sizes: Seq<u64>,
    row: int,
    remaining: nat,
    budget: nat,
    bytes: nat,
    fresh: bool,
)
    requires
        0 <= row < diffs.len(),
        !(slice(diffs, sizes, row, remaining, budget, bytes, fresh).end is Fault),
    ensures
        ({
            let part = slice(diffs, sizes, row, remaining, budget, bytes, fresh);
            &&& total(part.takes) + part.events == budget
            &&& charge(sizes, row, part.takes) + part.bytes == bytes
        }),
    decreases diffs.len() - row,
{
    let size = sizes[row] as nat;
    let fit = bytes / size;
    let take = least(remaining, budget, fit);
    let part = slice(diffs, sizes, row, remaining, budget, bytes, fresh);
    reveal_with_fuel(total, 2);
    reveal_with_fuel(charge, 2);
    if size > 0 && fit > 0 {
        lemma_charge_fits(bytes, size, take);
        assert(seq![take].drop_first() =~= Seq::empty());
        if take == remaining && row + 1 < diffs.len() && budget > take {
            let next = abs(diffs[row + 1] as int);
            let left = (budget - take) as nat;
            let charged = (bytes - take * size) as nat;
            law_slice_is_charged(diffs, sizes, row + 1, next, left, charged, false);
            let rest = slice(diffs, sizes, row + 1, next, left, charged, false);
            assert(part.takes == seq![take] + rest.takes);
            assert(part.takes.drop_first() =~= rest.takes);
        }
    }
}

proof fn lemma_total_last(takes: Seq<nat>)
    requires
        takes.len() > 0,
    ensures
        total(takes) == total(takes.drop_last()) + takes.last(),
    decreases takes.len(),
{
    reveal_with_fuel(total, 2);
    if takes.len() > 1 {
        lemma_total_last(takes.drop_first());
        assert(takes.drop_first().drop_last() =~= takes.drop_last().drop_first());
    } else {
        assert(takes.drop_last() =~= Seq::empty());
        assert(takes.drop_first() =~= Seq::empty());
    }
}

/// Multiplicities of the given sizes hold that many events.
proof fn lemma_events_total(base: Seq<i64>, part: Seq<i64>, takes: Seq<nat>)
    requires
        part.len() == takes.len(),
        forall|k: int| 0 <= k < takes.len() ==> #[trigger] takes[k] == abs(part[k] as int),
    ensures
        events(base + part, (base + part).len() as int) == events(base, base.len() as int) + total(
            takes,
        ),
    decreases takes.len(),
{
    if takes.len() == 0 {
        assert(base + part =~= base);
    } else {
        lemma_total_last(takes);
        lemma_events_total(base, part.drop_last(), takes.drop_last());
        let whole = base + part;
        let shorter = base + part.drop_last();
        assert(whole.drop_last() =~= shorter);
        lemma_events_prefix(whole, shorter.len() as int);
        assert(takes.last() == abs(part.last() as int));
    }
}

proof fn lemma_events_prefix(diffs: Seq<i64>, rows: int)
    requires
        0 <= rows <= diffs.len(),
    ensures
        events(diffs, rows) == events(diffs.take(rows), rows),
    decreases rows,
{
    lemma_counts_prefix(diffs, diffs.take(rows), rows);
}

proof fn lemma_counts_prefix(left: Seq<i64>, right: Seq<i64>, rows: int)
    requires
        0 <= rows <= left.len(),
        rows <= right.len(),
        forall|i: int| 0 <= i < rows ==> left[i] == #[trigger] right[i],
    ensures
        positives(left, rows) == positives(right, rows),
        negatives(left, rows) == negatives(right, rows),
    decreases rows,
{
    if rows > 0 {
        lemma_counts_prefix(left, right, rows - 1);
    }
}

/// A slice takes at least one event of each of its rows, and no more than the row has.
proof fn lemma_slice_takes(
    diffs: Seq<i64>,
    sizes: Seq<u64>,
    row: int,
    remaining: nat,
    budget: nat,
    bytes: nat,
    fresh: bool,
    k: int,
)
    requires
        0 <= row < diffs.len(),
        0 < remaining <= abs(diffs[row] as int),
        budget > 0,
        forall|i: int| 0 <= i < diffs.len() ==> #[trigger] diffs[i] != 0,
        0 <= k < slice(diffs, sizes, row, remaining, budget, bytes, fresh).takes.len(),
    ensures
        row + k < diffs.len(),
        0 < slice(diffs, sizes, row, remaining, budget, bytes, fresh).takes[k] <= abs(
            diffs[row + k] as int,
        ),
    decreases diffs.len() - row,
{
    let size = sizes[row] as nat;
    let fit = bytes / size;
    let take = least(remaining, budget, fit);
    if k > 0 {
        assert(diffs[row + 1] != 0);
        lemma_slice_takes(
            diffs,
            sizes,
            row + 1,
            abs(diffs[row + 1] as int),
            (budget - take) as nat,
            (bytes - take * size) as nat,
            false,
            k - 1,
        );
    }
}

proof fn lemma_load_conserves(
    entries: Seq<StoredEntry>,
    model: LoadModel,
    tail: int,
    limits: LoadLimits,
    schema: Schema,
)
    requires
        entries_wf(entries),
        model.row >= 0,
        model.events > 0,
        model.delivered + model.events == limits.events,
        events(model.diffs, model.diffs.len() as int) == model.delivered,
        load_from(entries, model, tail, limits, schema) is Ok,
    ensures
        ({
            let (end, head) = load_from(entries, model, tail, limits, schema)->Ok_0;
            events(end.diffs, end.diffs.len() as int) == end.delivered
        }),
    decreases tail - model.sequence,
{
    let found = find_entry(entries, model.sequence, entries.len() as int);
    lemma_found_is_there(entries, model.sequence, entries.len() as int);
    let entry = opened(entries[found->0]);
    let diffs = entry.change.diffs@;
    lemma_step_moves(model, entry, tail, limits);
    let (next, progress) = entry_step(model, entry, tail, limits)->Ok_0;
    if !entry_waits(model, entry, limits) {
        assert(diffs[0] != 0);
        let remaining = standing(model, diffs);
        let fresh = model.delivered == 0;
        let part = entry_slice(model, entry);
        law_slice_is_charged(
            diffs,
            entry.event_bytes@,
            model.row,
            remaining,
            model.events,
            model.bytes,
            fresh,
        );
        let delivered = slice_diffs(diffs, model.row, part.takes);
        assert forall|k: int| 0 <= k < part.takes.len() implies #[trigger] part.takes[k] == abs(
            delivered[k] as int,
        ) by {
            lemma_slice_takes(
                diffs,
                entry.event_bytes@,
                model.row,
                remaining,
                model.events,
                model.bytes,
                fresh,
                k,
            );
            assert(delivered[k] == signed(diffs[model.row + k], part.takes[k]));
        }
        lemma_events_total(model.diffs, delivered, part.takes);
        if progress is Continue {
            lemma_load_conserves(entries, next, tail, limits, schema);
        }
    }
}

/// No event is lost or added: what a delivery carries and what the buffer keeps pending make
/// up what was pending, unless the buffer is used up.
pub proof fn law_load_conserves_events(
    entries: Seq<StoredEntry>,
    before: BufferState,
    limits: LoadLimits,
    schema: Schema,
)
    requires
        entries_wf(entries),
        load_outcome(entries, before, limits, schema) is Ok,
    ensures
        ({
            let (model, head) = load_outcome(entries, before, limits, schema)->Ok_0;
            let after = state_after(before, model, head);
            &&& events(model.diffs, model.diffs.len() as int) == model.delivered
            &&& head is Some ==> after.pending_events + model.delivered == before.pending_events
            &&& head is None ==> after == empty_buffer() && model.delivered
                <= before.pending_events
        }),
{
    lemma_load_conserves(entries, load_start(before, limits), before.tail as int, limits, schema);
}

} // verus!
