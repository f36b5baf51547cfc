//! Loading: which events of the buffer the next delivery carries.

use crate::buffered::delivery::{admissions_fit, DeliveryBatch};
use crate::buffered::entry::{content_fault, decode_entry, StoredEntry};
use crate::buffered::state::{
    boundary, buffer_valid, empty_buffer, BufferFault, BufferState, Position,
};
use crate::change::{
    copy_type, copy_value, field_models, Change, Column, RecordBatch, Schema, Value, ValueModel,
};
use crate::text::{abs, magnitude};
use vstd::prelude::*;

verus! {

/// What one delivery may hold: events, encoded bytes of the entries it touches, encoded bytes
/// of one entry, and bytes that the target is charged with.
#[derive(Clone, Copy, Debug, PartialEq, Eq, Structural)]
pub struct LoadLimits {
    pub events: u64,
    pub encoded_bytes: u64,
    pub item_bytes: u64,
    pub target_bytes: u64,
}

/// Why limits cannot be used, if they cannot: none may be zero.
pub open spec fn limits_fault(limits: LoadLimits) -> Option<BufferFault> {
    if limits.events == 0 {
        Some(BufferFault::EventLimitZero)
    } else if limits.encoded_bytes == 0 {
        Some(BufferFault::EncodedLimitZero)
    } else if limits.item_bytes == 0 {
        Some(BufferFault::ItemLimitZero)
    } else if limits.target_bytes == 0 {
        Some(BufferFault::TargetLimitZero)
    } else {
        None
    }
}

impl LoadLimits {
    pub fn new(
        max_events: u64,
        max_encoded_bytes: u64,
        max_item_bytes: u64,
        max_target_bytes: u64,
    ) -> (limits: LoadLimits)
        ensures
            limits.events == max_events,
            limits.encoded_bytes == max_encoded_bytes,
            limits.item_bytes == max_item_bytes,
            limits.target_bytes == max_target_bytes,
    {
        LoadLimits {
            events: max_events,
            encoded_bytes: max_encoded_bytes,
            item_bytes: max_item_bytes,
            target_bytes: max_target_bytes,
        }
    }

    pub fn validate(self) -> (result: Result<(), BufferFault>)
        ensures
            match result {
                Ok(_) => limits_fault(self) is None,
                Err(fault) => limits_fault(self) == Some(fault),
            },
    {
        if self.events == 0 {
            return Err(BufferFault::EventLimitZero);
        }
        if self.encoded_bytes == 0 {
            return Err(BufferFault::EncodedLimitZero);
        }
        if self.item_bytes == 0 {
            return Err(BufferFault::ItemLimitZero);
        }
        if self.target_bytes == 0 {
            return Err(BufferFault::TargetLimitZero);
        }
        Ok(())
    }
}

/// An entry that was opened: the bytes it takes up, its change, and for each row what an event
/// of it is charged.
pub ghost struct Entry {
    pub item_bytes: u64,
    pub change: Change,
    pub event_bytes: Vec<u64>,
}

impl Entry {
    pub open spec fn wf(&self) -> bool {
        &&& self.change.wf()
        &&& self.event_bytes@.len() == self.change.records.rows
    }

    /// The entry holds rows of `schema`.
    pub open spec fn fits(&self, schema: Schema) -> bool {
        self.wf() && self.change.records.schema@ == schema@
    }
}

/// A stored entry, opened.
pub open spec fn opened(entry: StoredEntry) -> Entry {
    Entry {
        item_bytes: (entry.encoded_length + 8) as u64,
        change: entry.change->0,
        event_bytes: entry.event_bytes->0,
    }
}

/// Why a stored entry cannot be opened, if it cannot.
pub open spec fn open_fault(entry: StoredEntry, limits: LoadLimits, schema: Schema) -> Option<
    BufferFault,
> {
    if content_fault(entry, limits.item_bytes, schema) is Some {
        content_fault(entry, limits.item_bytes, schema)
    } else if entry.event_bytes is None {
        Some(BufferFault::Target)
    } else {
        None
    }
}

/// How the rows of an entry come to an end: within it, at its end, or not at all.
pub ghost enum SliceEnd {
    Partial,
    Entry,
    Fault(BufferFault),
}

/// How many events of each row are taken, and where and with what budget that ends.
pub ghost struct Slice {
    pub takes: Seq<nat>,
    pub row: int,
    pub remaining: nat,
    pub events: nat,
    pub bytes: nat,
    pub end: SliceEnd,
}

/// The smallest of three numbers.
pub open spec fn least(a: nat, b: nat, c: nat) -> nat {
    let ab = if a <= b {
        a
    } else {
        b
    };
    if ab <= c {
        ab
    } else {
        c
    }
}

/// Takes events row by row, as many of each row as the budgets of events and bytes allow. A
/// row that is not taken whole is the last one.
pub open spec fn slice(
    diffs: Seq<i64>,
    sizes: Seq<u64>,
    row: int,
    remaining: nat,
    events: nat,
    bytes: nat,
    fresh: bool,
) -> Slice
    decreases diffs.len() - row,
{
    let stop = Slice { takes: Seq::empty(), row, remaining, events, bytes, end: SliceEnd::Partial };
    if row < 0 || row >= diffs.len() {
        Slice { end: SliceEnd::Entry, ..stop }
    } else if sizes[row] == 0 {
        Slice { end: SliceEnd::Fault(BufferFault::ZeroCharge), ..stop }
    } else {
        let fit = bytes / (sizes[row] as nat);
        let take = least(remaining, events, fit);
        let taken = Slice {
            takes: seq![take],
            row,
            remaining: (remaining - take) as nat,
            events: (events - take) as nat,
            bytes: (bytes - take * sizes[row]) as nat,
            end: SliceEnd::Partial,
        };
        if fit == 0 {
            if fresh {
                Slice { end: SliceEnd::Fault(BufferFault::OversizedMutation), ..stop }
            } else {
                stop
            }
        } else if take < remaining {
            taken
        } else if row + 1 == diffs.len() {
            Slice { row: row + 1, end: SliceEnd::Entry, ..taken }
        } else {
            let next = abs(diffs[row + 1] as int);
            if events == take {
                Slice { row: row + 1, remaining: next, ..taken }
            } else {
                prefixed(
                    seq![take],
                    slice(diffs, sizes, row + 1, next, taken.events, taken.bytes, false),
                )
            }
        }
    }
}

/// A slice behind some rows that were taken before it.
pub open spec fn prefixed(takes: Seq<nat>, rest: Slice) -> Slice {
    Slice { takes: takes + rest.takes, ..rest }
}

/// `count` events with the sign of `diff`.
pub open spec fn signed(diff: i64, count: nat) -> i64 {
    if diff > 0 {
        count as i64
    } else {
        (-(count as int)) as i64
    }
}

/// The multiplicities that a slice delivers.
pub open spec fn slice_diffs(diffs: Seq<i64>, row: int, takes: Seq<nat>) -> Seq<i64> {
    Seq::new(takes.len(), |k: int| signed(diffs[row + k], takes[k]))
}

/// What the target must admit for each row of a slice: all of the row where none of it was
/// delivered before, and else what the slice takes.
pub open spec fn slice_admissions(
    diffs: Seq<i64>,
    row: int,
    remaining: nat,
    takes: Seq<nat>,
) -> Seq<u64> {
    Seq::new(
        takes.len(),
        |k: int|
            if k == 0 && remaining != abs(diffs[row] as int) {
                takes[0] as u64
            } else {
                abs(diffs[row + k] as int) as u64
            },
    )
}

/// The cells of a row.
pub open spec fn row_model(records: RecordBatch, row: int) -> Seq<ValueModel> {
    Seq::new(records.columns@.len(), |c: int| records.columns@[c].values@[row]@)
}

/// The rows that a slice delivers.
pub open spec fn slice_rows(records: RecordBatch, row: int, takes: Seq<nat>) -> Seq<
    Seq<ValueModel>,
> {
    Seq::new(takes.len(), |k: int| row_model(records, row + k))
}

/// How far loading has come.
pub ghost struct LoadModel {
    pub sequence: int,
    pub row: int,
    pub remaining: nat,
    pub events: nat,
    pub bytes: nat,
    pub encoded: nat,
    pub delivered: nat,
    pub retained: nat,
    pub diffs: Seq<i64>,
    pub admissions: Seq<u64>,
    pub rows: Seq<Seq<ValueModel>>,
}

/// Whether loading goes on with the next entry, or where the buffer begins after it.
#[derive(Clone, Copy, Debug, PartialEq, Eq, Structural)]
pub enum LoadProgress {
    Continue,
    Stop(Option<Position>),
}

/// The position in the entry at `sequence`, which is its boundary where nothing is delivered.
pub open spec fn position_in(sequence: int, row: int, remaining: nat, diffs: Seq<i64>) -> Position {
    if row == 0 && remaining == abs(diffs[0] as int) {
        boundary(sequence as u64)
    } else {
        Position { sequence: sequence as u64, row_index: row as u64, remaining: remaining as u64 }
    }
}

/// The remainder of the row at which loading stands.
pub open spec fn standing(model: LoadModel, diffs: Seq<i64>) -> nat {
    if model.remaining == 0 {
        abs(diffs[0] as int)
    } else {
        model.remaining
    }
}

/// The slice that is taken from an entry.
pub open spec fn entry_slice(model: LoadModel, entry: Entry) -> Slice {
    slice(
        entry.change.diffs@,
        entry.event_bytes@,
        model.row,
        standing(model, entry.change.diffs@),
        model.events,
        model.bytes,
        model.delivered == 0,
    )
}

/// How far loading has come once a slice was taken from an entry.
pub open spec fn after_slice(model: LoadModel, entry: Entry) -> LoadModel {
    let diffs = entry.change.diffs@;
    let part = entry_slice(model, entry);
    LoadModel {
        sequence: model.sequence,
        row: part.row,
        remaining: part.remaining,
        events: part.events,
        bytes: part.bytes,
        encoded: model.encoded + entry.item_bytes as nat,
        delivered: (model.delivered + model.events - part.events) as nat,
        retained: model.retained,
        diffs: model.diffs + slice_diffs(diffs, model.row, part.takes),
        admissions: model.admissions + slice_admissions(
            diffs,
            model.row,
            standing(model, diffs),
            part.takes,
        ),
        rows: model.rows + slice_rows(entry.change.records, model.row, part.takes),
    }
}

/// Why an entry cannot be loaded, before any of its rows is looked at.
pub open spec fn entry_fault(model: LoadModel, entry: Entry, limits: LoadLimits) -> Option<
    BufferFault,
> {
    if entry.item_bytes > limits.encoded_bytes {
        Some(BufferFault::EntryTooLarge { sequence: model.sequence as u64 })
    } else if model.encoded + entry.item_bytes > u64::MAX {
        Some(BufferFault::EncodedOverflow)
    } else {
        None
    }
}

/// Why loading cannot stand where it does in an entry, if it cannot.
pub open spec fn position_fault(model: LoadModel, diffs: Seq<i64>) -> Option<BufferFault> {
    if model.remaining == 0 && model.row != 0 {
        Some(BufferFault::EntryBoundary)
    } else if model.row >= diffs.len() || standing(model, diffs) > abs(diffs[model.row] as int) {
        Some(BufferFault::PositionMismatch)
    } else {
        None
    }
}

/// Whether an entry has to wait for the next delivery, so that its bytes do not exceed the limit.
pub open spec fn entry_waits(model: LoadModel, entry: Entry, limits: LoadLimits) -> bool {
    model.encoded != 0 && model.encoded + entry.item_bytes > limits.encoded_bytes
}

/// What one entry adds to a delivery.
pub open spec fn entry_step(
    model: LoadModel,
    entry: Entry,
    tail: int,
    limits: LoadLimits,
) -> Result<(LoadModel, LoadProgress), BufferFault> {
    let diffs = entry.change.diffs@;
    let part = entry_slice(model, entry);
    let after = after_slice(model, entry);
    if entry_fault(model, entry, limits) is Some {
        Err(entry_fault(model, entry, limits)->0)
    } else if entry_waits(model, entry, limits) {
        Ok((model, LoadProgress::Stop(Some(boundary(model.sequence as u64)))))
    } else if position_fault(model, diffs) is Some {
        Err(position_fault(model, diffs)->0)
    } else {
        match part.end {
            SliceEnd::Fault(fault) => Err(fault),
            SliceEnd::Partial => Ok(
                (
                    after,
                    LoadProgress::Stop(
                        Some(position_in(model.sequence, part.row, part.remaining, diffs)),
                    ),
                ),
            ),
            SliceEnd::Entry => if model.retained < entry.item_bytes {
                Err(BufferFault::RetainedUnderflow)
            } else {
                let next = LoadModel {
                    sequence: model.sequence + 1,
                    row: 0,
                    remaining: 0,
                    retained: (model.retained - entry.item_bytes) as nat,
                    ..after
                };
                if next.sequence == tail {
                    Ok((next, LoadProgress::Stop(None)))
                } else if part.events == 0 {
                    Ok((next, LoadProgress::Stop(Some(boundary(next.sequence as u64)))))
                } else {
                    Ok((next, LoadProgress::Continue))
                }
            },
        }
    }
}

/// The entry at `sequence` among the first `count` entries.
pub open spec fn find_entry(entries: Seq<StoredEntry>, sequence: int, count: int) -> Option<int>
    decreases count,
{
    if count <= 0 {
        None
    } else {
        match find_entry(entries, sequence, count - 1) {
            Some(index) => Some(index),
            None => if entries[count - 1].sequence == sequence {
                Some(count - 1)
            } else {
                None
            },
        }
    }
}

/// Loads entry by entry until a limit or the end of the buffer is reached.
pub open spec fn load_from(
    entries: Seq<StoredEntry>,
    model: LoadModel,
    tail: int,
    limits: LoadLimits,
    schema: Schema,
) -> Result<(LoadModel, Option<Position>), BufferFault>
    decreases tail - model.sequence,
{
    if model.sequence >= tail {
        Err(BufferFault::HeadReachesTail)
    } else {
        match find_entry(entries, model.sequence, entries.len() as int) {
            None => Err(BufferFault::EntryMissing { sequence: model.sequence as u64 }),
            Some(index) => match open_fault(entries[index], limits, schema) {
                Some(fault) => Err(fault),
                None => match entry_step(model, opened(entries[index]), tail, limits) {
                    Err(fault) => Err(fault),
                    Ok((next, LoadProgress::Stop(head))) => Ok((next, head)),
                    Ok((next, LoadProgress::Continue)) => if next.sequence > model.sequence {
                        load_from(entries, next, tail, limits, schema)
                    } else {
                        Err(BufferFault::HeadReachesTail)
                    },
                },
            },
        }
    }
}

/// Where loading begins.
pub open spec fn load_start(before: BufferState, limits: LoadLimits) -> LoadModel {
    LoadModel {
        sequence: before.head->0.sequence as int,
        row: before.head->0.row_index as int,
        remaining: before.head->0.remaining as nat,
        events: limits.events as nat,
        bytes: limits.target_bytes as nat,
        encoded: 0,
        delivered: 0,
        retained: before.retained_bytes as nat,
        diffs: Seq::empty(),
        admissions: Seq::empty(),
        rows: Seq::empty(),
    }
}

/// What the buffer holds once a delivery is settled.
pub open spec fn state_after(
    before: BufferState,
    model: LoadModel,
    head: Option<Position>,
) -> BufferState {
    match head {
        None => empty_buffer(),
        Some(head) => BufferState {
            head: Some(head),
            tail: before.tail,
            pending_events: (before.pending_events - model.delivered) as u64,
            retained_bytes: model.retained as u64,
        },
    }
}

/// Why a delivery cannot be settled, if it cannot.
pub open spec fn finish_fault(
    before: BufferState,
    model: LoadModel,
    head: Option<Position>,
) -> Option<BufferFault> {
    if before.pending_events < model.delivered {
        Some(BufferFault::PendingUnderflow)
    } else if !buffer_valid(state_after(before, model, head)) {
        Some(BufferFault::InvalidState)
    } else {
        None
    }
}

/// Why nothing can be loaded at all, if nothing can.
pub open spec fn start_fault(before: BufferState, limits: LoadLimits) -> Option<BufferFault> {
    if !buffer_valid(before) {
        Some(BufferFault::InvalidState)
    } else if limits_fault(limits) is Some {
        limits_fault(limits)
    } else if before.head is None {
        Some(BufferFault::EmptyBuffer)
    } else if before.head->0.row_index > usize::MAX {
        Some(BufferFault::RowIndexOutside)
    } else {
        None
    }
}

/// What a load of the buffer gives: how far it came, and where the buffer then begins.
pub open spec fn load_outcome(
    entries: Seq<StoredEntry>,
    before: BufferState,
    limits: LoadLimits,
    schema: Schema,
) -> Result<(LoadModel, Option<Position>), BufferFault> {
    if start_fault(before, limits) is Some {
        Err(start_fault(before, limits)->0)
    } else {
        match load_from(entries, load_start(before, limits), before.tail as int, limits, schema) {
            Err(fault) => Err(fault),
            Ok((model, head)) => match finish_fault(before, model, head) {
                Some(fault) => Err(fault),
                None => Ok((model, head)),
            },
        }
    }
}

/// One bounded delivery, and the buffer that it leaves.
#[derive(Debug)]
pub struct LoadedBatch {
    pub delivery: DeliveryBatch,
    pub after: BufferState,
}

/// The batch carries what was loaded, under `schema`.
pub open spec fn carries(
    batch: LoadedBatch,
    before: BufferState,
    model: LoadModel,
    head: Option<Position>,
    schema: Schema,
) -> bool {
    let change = batch.delivery.change;
    &&& batch.delivery.wf()
    &&& change.records.schema@ == schema@
    &&& change.diffs@ == model.diffs
    &&& batch.delivery.admissions@ == model.admissions
    &&& change.records.rows == model.rows.len()
    &&& forall|j: int|
        0 <= j < model.rows.len() ==> row_model(change.records, j) == #[trigger] model.rows[j]
    &&& forall|c: int|
        0 <= c < change.records.columns@.len() ==> (#[trigger] change.records.columns@[c]).data_type@
            == schema@.fields[c].data_type
    &&& batch.after == state_after(before, model, head)
}

/// The part of a buffer that has been taken over for the next delivery.
pub struct Loader {
    pub before: BufferState,
    pub limits: LoadLimits,
    pub sequence: u64,
    pub row_index: usize,
    pub remaining: u64,
    pub event_budget: u64,
    pub target_byte_budget: u64,
    pub encoded_bytes: u64,
    pub delivered_events: u64,
    pub retained_bytes: u64,
    pub rows: Vec<Vec<Value>>,
    pub diffs: Vec<i64>,
    pub admissions: Vec<u64>,
}

/// The cells of some rows.
pub open spec fn row_models(rows: Seq<Vec<Value>>) -> Seq<Seq<ValueModel>> {
    rows.map_values(|row: Vec<Value>| cells_model(row))
}

/// The cells of one row.
pub open spec fn cells_model(row: Vec<Value>) -> Seq<ValueModel> {
    Seq::new(row@.len(), |c: int| row@[c]@)
}

impl Loader {
    pub open spec fn model(&self) -> LoadModel {
        LoadModel {
            sequence: self.sequence as int,
            row: self.row_index as int,
            remaining: self.remaining as nat,
            events: self.event_budget as nat,
            bytes: self.target_byte_budget as nat,
            encoded: self.encoded_bytes as nat,
            delivered: self.delivered_events as nat,
            retained: self.retained_bytes as nat,
            diffs: self.diffs@,
            admissions: self.admissions@,
            rows: row_models(self.rows@),
        }
    }

    /// What holds at all times: the budgets are what is left of the limits, and each row that
    /// was taken over has events and an admission for them.
    pub open spec fn wf(&self, schema: Schema) -> bool {
        &&& self.delivered_events + self.event_budget == self.limits.events
        &&& self.sequence <= self.before.tail
        &&& self.rows@.len() == self.diffs@.len()
        &&& admissions_fit(self.diffs@, self.admissions@)
        &&& forall|j: int| 0 <= j < self.diffs@.len() ==> #[trigger] self.diffs@[j] != 0
        &&& forall|j: int|
            0 <= j < self.rows@.len() ==> (#[trigger] self.rows@[j])@.len()
                == schema.fields@.len()
        &&& self.delivered_events > 0 ==> self.diffs@.len() > 0
        &&& self.encoded_bytes > 0 ==> self.delivered_events > 0
    }

    /// Begins to load at the head of a buffer.
    pub fn start(before: BufferState, limits: LoadLimits, schema: &Schema) -> (result: Result<
        Loader,
        BufferFault,
    >)
        ensures
            match result {
                Ok(loader) => {
                    &&& start_fault(before, limits) is None
                    &&& loader.before == before
                    &&& loader.limits == limits
                    &&& loader.model() == load_start(before, limits)
                    &&& loader.event_budget > 0
                    &&& loader.wf(*schema)
                },
                Err(fault) => start_fault(before, limits) == Some(fault),
            },
    {
        before.validate()?;
        limits.validate()?;
        let start: Position = match before.head {
            Some(start) => start,
            None => {
                return Err(BufferFault::EmptyBuffer);
            },
        };
        if start.row_index > usize::MAX as u64 {
            return Err(BufferFault::RowIndexOutside);
        }
        let loader: Loader = Loader {
            before,
            limits,
            sequence: start.sequence,
            row_index: start.row_index as usize,
            remaining: start.remaining,
            event_budget: limits.events,
            target_byte_budget: limits.target_bytes,
            encoded_bytes: 0,
            delivered_events: 0,
            retained_bytes: before.retained_bytes,
            rows: Vec::new(),
            diffs: Vec::new(),
            admissions: Vec::new(),
        };
        assert(loader.model().rows =~= Seq::empty());
        assert(loader.model().diffs =~= Seq::empty());
        assert(loader.model().admissions =~= Seq::empty());
        Ok(loader)
    }
}

/// A copy of the cells of a row.
fn copy_row(records: &RecordBatch, row: usize) -> (cells: Vec<Value>)
    requires
        records.wf(),
        row < records.rows,
    ensures
        cells_model(cells) == row_model(*records, row as int),
        cells@.len() == records.columns@.len(),
{
    let mut cells: Vec<Value> = Vec::new();
    let mut column: usize = 0;
    while column < records.columns.len()
        invariant
            records.wf(),
            row < records.rows,
            column <= records.columns@.len(),
            cells@.len() == column,
            forall|c: int|
                0 <= c < column ==> (#[trigger] cells@[c])@
                    == records.columns@[c].values@[row as int]@,
        decreases records.columns@.len() - column,
    {
        let cell: Value = copy_value(&records.columns[column].values[row]);
        cells.push(cell);
        column += 1;
    }
    assert(cells_model(cells) =~= row_model(*records, row as int));
    cells
}

/// `count` events with the sign of `original`.
pub fn signed_count(original: i64, count: u64) -> (result: i64)
    requires
        original != 0,
        count <= abs(original as int),
    ensures
        result == signed(original, count as nat),
        abs(result as int) == count,
        count > 0 ==> (result > 0 <==> original > 0) && result != 0,
{
    if original > 0 {
        count as i64
    } else if count == 0x8000_0000_0000_0000 {
        i64::MIN
    } else {
        -(count as i64)
    }
}

/// How the rows of an entry came to an end.
#[derive(Clone, Copy, Debug, PartialEq, Eq, Structural)]
enum RowsEnd {
    Partial,
    Entry,
}

pub proof fn lemma_charge_fits(bytes: nat, size: nat, take: nat)
    requires
        size > 0,
        take <= bytes / size,
    ensures
        take * size <= bytes,
{
    assert(take * size <= (bytes / size) * size) by (nonlinear_arith)
        requires
            take <= bytes / size,
    ;
    assert((bytes / size) * size <= bytes) by (nonlinear_arith)
        requires
            size > 0,
    ;
}

impl Loader {
    /// Takes over one row and charges for it.
    fn take_row(
        &mut self,
        change: &Change,
        take: u64,
        size: u64,
        Ghost(entry): Ghost<Entry>,
        Ghost(schema): Ghost<Schema>,
    )
        requires
            old(self).wf(schema),
            entry.fits(schema),
            *change == entry.change,
            old(self).row_index < entry.change.records.rows,
            0 < take <= old(self).remaining,
            take <= old(self).event_budget,
            take * size <= old(self).target_byte_budget,
            old(self).remaining <= abs(entry.change.diffs@[old(self).row_index as int] as int),
        ensures
            final(self).wf(schema),
            final(self).before == old(self).before,
            final(self).limits == old(self).limits,
            final(self).delivered_events > 0,
            ({
                let m = old(self).model();
                let diff = entry.change.diffs@[m.row];
                final(self).model() == (LoadModel {
                    remaining: (m.remaining - take) as nat,
                    events: (m.events - take) as nat,
                    bytes: (m.bytes - take * size) as nat,
                    delivered: m.delivered + take as nat,
                    diffs: m.diffs.push(signed(diff, take as nat)),
                    admissions: m.admissions.push(
                        if m.remaining == abs(diff as int) {
                            m.remaining as u64
                        } else {
                            take
                        },
                    ),
                    rows: m.rows.push(row_model(entry.change.records, m.row)),
                    ..m
                })
            }),
    {
        let original: i64 = change.diffs[self.row_index];
        let admission: u64 = if self.remaining == magnitude(original) {
            self.remaining
        } else {
            take
        };
        let ghost m = self.model();
        let ghost rows_before = self.rows@;
        let ghost diffs_before = self.diffs@;
        let ghost admissions_before = self.admissions@;
        let cells: Vec<Value> = copy_row(&change.records, self.row_index);
        let diff: i64 = signed_count(original, take);
        proof {
            assert(field_models(entry.change.records.schema.fields).len() == field_models(
                schema.fields,
            ).len());
        }
        self.rows.push(cells);
        self.diffs.push(diff);
        self.admissions.push(admission);
        self.delivered_events = self.delivered_events + take;
        self.event_budget = self.event_budget - take;
        self.target_byte_budget = self.target_byte_budget - take * size;
        self.remaining = self.remaining - take;
        proof {
            assert(row_models(self.rows@) =~= row_models(rows_before).push(cells_model(cells)));
            assert forall|j: int| 0 <= j < self.diffs@.len() implies #[trigger] self.diffs@[j]
                != 0 by {
                if j < diffs_before.len() {
                    assert(diffs_before[j] != 0);
                }
            }
            assert forall|j: int| 0 <= j < self.admissions@.len() implies #[trigger] self.admissions@[j]
                >= abs(self.diffs@[j] as int) by {
                if j < admissions_before.len() {
                    assert(admissions_before[j] >= abs(diffs_before[j] as int));
                }
            }
            assert forall|j: int| 0 <= j < self.rows@.len() implies (
            #[trigger] self.rows@[j])@.len() == schema.fields@.len() by {
                if j < rows_before.len() {
                    assert(rows_before[j]@.len() == schema.fields@.len());
                }
            }
        }
    }

    /// Takes over rows of an entry until its end or the end of a budget.
    fn consume_rows(
        &mut self,
        change: &Change,
        event_bytes: &Vec<u64>,
        Ghost(entry): Ghost<Entry>,
        Ghost(schema): Ghost<Schema>,
    ) -> (result: Result<RowsEnd, BufferFault>)
        requires
            old(self).wf(schema),
            entry.fits(schema),
            *change == entry.change,
            *event_bytes == entry.event_bytes,
            old(self).row_index < entry.change.records.rows,
            old(self).event_budget > 0,
            0 < old(self).remaining <= abs(
                entry.change.diffs@[old(self).row_index as int] as int,
            ),
        ensures
            ({
                let m = old(self).model();
                let part = entry_slice(m, entry);
                match result {
                    Ok(end) => {
                        &&& end == RowsEnd::Partial ==> part.end is Partial
                        &&& end == RowsEnd::Entry ==> part.end is Entry
                        &&& final(self).model() == (LoadModel {
                            encoded: m.encoded,
                            ..after_slice(m, entry)
                        })
                        &&& final(self).wf(schema)
                        &&& final(self).before == old(self).before
                        &&& final(self).limits == old(self).limits
                        &&& final(self).delivered_events > 0
                        &&& end == RowsEnd::Partial ==> final(self).row_index
                            < entry.change.records.rows
                    },
                    Err(fault) => part.end == SliceEnd::Fault(fault),
                }
            }),
    {
        let ghost m = self.model();
        let ghost diffs = entry.change.diffs@;
        let ghost sizes = entry.event_bytes@;
        let ghost records = entry.change.records;
        let ghost part = entry_slice(m, entry);
        let ghost takes: Seq<nat> = Seq::empty();
        let total: usize = change.diffs.len();
        proof {
            assert(part == prefixed(
                takes,
                slice(diffs, sizes, m.row, m.remaining, m.events, m.bytes, m.delivered == 0),
            )) by {
                assert(takes + part.takes =~= part.takes);
            }
            assert(m.diffs + slice_diffs(diffs, m.row, takes) =~= m.diffs);
            assert(m.admissions + slice_admissions(diffs, m.row, m.remaining, takes)
                =~= m.admissions);
            assert(m.rows + slice_rows(records, m.row, takes) =~= m.rows);
        }
        loop
            invariant
                self.wf(schema),
                self.before == old(self).before,
                self.limits == old(self).limits,
                entry.fits(schema),
                diffs == entry.change.diffs@,
                sizes == entry.event_bytes@,
                records == entry.change.records,
                total == diffs.len(),
                m == old(self).model(),
                m.row >= 0,
                part == entry_slice(m, entry),
                *change == entry.change,
                *event_bytes == entry.event_bytes,
                part == prefixed(
                    takes,
                    slice(
                        diffs,
                        sizes,
                        self.row_index as int,
                        self.remaining as nat,
                        self.event_budget as nat,
                        self.target_byte_budget as nat,
                        self.delivered_events == 0,
                    ),
                ),
                m.remaining > 0,
                self.row_index == m.row + takes.len(),
                self.row_index < total,
                self.event_budget > 0,
                0 < self.remaining <= abs(diffs[self.row_index as int] as int),
                takes.len() == 0 ==> self.remaining == m.remaining,
                takes.len() > 0 ==> self.remaining == abs(diffs[self.row_index as int] as int)
                    && self.delivered_events > 0,
                self.sequence == m.sequence,
                self.encoded_bytes == m.encoded,
                self.retained_bytes == m.retained,
                self.delivered_events == m.delivered + m.events - self.event_budget,
                self.diffs@ == m.diffs + slice_diffs(diffs, m.row, takes),
                self.admissions@ == m.admissions + slice_admissions(
                    diffs,
                    m.row,
                    m.remaining,
                    takes,
                ),
                row_models(self.rows@) == m.rows + slice_rows(records, m.row, takes),
            decreases total - self.row_index,
        {
            let size: u64 = event_bytes[self.row_index];
            if size == 0 {
                return Err(BufferFault::ZeroCharge);
            }
            let fit: u64 = self.target_byte_budget / size;
            if fit == 0 {
                if self.delivered_events == 0 {
                    return Err(BufferFault::OversizedMutation);
                }
                proof {
                    assert(part.takes =~= takes);
                }
                return Ok(RowsEnd::Partial);
            }
            let mut take: u64 = self.remaining;
            if self.event_budget < take {
                take = self.event_budget;
            }
            if fit < take {
                take = fit;
            }
            let ghost whole = self.remaining;
            let ghost events_before = self.event_budget;
            let ghost row = self.row_index as int;
            proof {
                lemma_charge_fits(self.target_byte_budget as nat, size as nat, take as nat);
            }
            self.take_row(change, take, size, Ghost(entry), Ghost(schema));
            let ghost grown = takes.push(take as nat);
            proof {
                assert(m.diffs + slice_diffs(diffs, m.row, grown) =~= (m.diffs + slice_diffs(
                    diffs,
                    m.row,
                    takes,
                )).push(signed(diffs[row], take as nat)));
                assert(m.admissions + slice_admissions(diffs, m.row, m.remaining, grown) =~= (
                m.admissions + slice_admissions(diffs, m.row, m.remaining, takes)).push(
                    if whole == abs(diffs[row] as int) {
                        whole as u64
                    } else {
                        take
                    },
                ));
                assert(m.rows + slice_rows(records, m.row, grown) =~= (m.rows + slice_rows(
                    records,
                    m.row,
                    takes,
                )).push(row_model(records, row)));
                assert(takes + seq![take as nat] =~= grown);
            }
            if self.remaining != 0 {
                return Ok(RowsEnd::Partial);
            }
            self.row_index = self.row_index + 1;
            if self.row_index == total {
                return Ok(RowsEnd::Entry);
            }
            self.remaining = magnitude(change.diffs[self.row_index]);
            if self.event_budget == 0 {
                return Ok(RowsEnd::Partial);
            }
            proof {
                let rest = slice(
                    diffs,
                    sizes,
                    row + 1,
                    self.remaining as nat,
                    self.event_budget as nat,
                    self.target_byte_budget as nat,
                    false,
                );
                assert(takes + (seq![take as nat] + rest.takes) =~= grown + rest.takes);
                takes = grown;
            }
        }
    }
}

impl Loader {
    /// The position at which loading stands in the current entry.
    fn current_position(&self, first: i64) -> (position: Position)
        requires
            first != 0,
        ensures
            position == (if self.row_index == 0 && self.remaining == abs(first as int) {
                boundary(self.sequence)
            } else {
                Position {
                    sequence: self.sequence,
                    row_index: self.row_index as u64,
                    remaining: self.remaining,
                }
            }),
    {
        if self.row_index == 0 && self.remaining == magnitude(first) {
            Position::entry_start(self.sequence)
        } else {
            Position {
                sequence: self.sequence,
                row_index: self.row_index as u64,
                remaining: self.remaining,
            }
        }
    }

    /// Takes over what the budgets allow of the entry at which loading stands.
    pub fn consume_entry(
        &mut self,
        item_bytes: u64,
        change: &Change,
        event_bytes: &Vec<u64>,
        schema: &Schema,
    ) -> (result: Result<LoadProgress, BufferFault>)
        requires
            old(self).wf(*schema),
            (Entry { item_bytes, change: *change, event_bytes: *event_bytes }).fits(*schema),
            old(self).event_budget > 0,
            old(self).sequence < old(self).before.tail,
        ensures
            match result {
                Ok(progress) => {
                    &&& entry_step(
                        old(self).model(),
                        (Entry { item_bytes, change: *change, event_bytes: *event_bytes }),
                        old(self).before.tail as int,
                        old(self).limits,
                    ) == Ok::<(LoadModel, LoadProgress), BufferFault>(
                        (final(self).model(), progress),
                    )
                    &&& final(self).wf(*schema)
                    &&& final(self).before == old(self).before
                    &&& final(self).limits == old(self).limits
                    &&& progress is Stop ==> final(self).delivered_events > 0
                    &&& progress is Continue ==> final(self).event_budget > 0
                        && final(self).sequence == old(self).sequence + 1 && final(self).sequence
                        < final(self).before.tail
                },
                Err(fault) => entry_step(
                    old(self).model(),
                    (Entry { item_bytes, change: *change, event_bytes: *event_bytes }),
                    old(self).before.tail as int,
                    old(self).limits,
                ) == Err::<(LoadModel, LoadProgress), BufferFault>(fault),
            },
    {
        let ghost m = self.model();
        let ghost entry = Entry { item_bytes, change: *change, event_bytes: *event_bytes };
        if item_bytes > self.limits.encoded_bytes {
            return Err(BufferFault::EntryTooLarge { sequence: self.sequence });
        }
        let encoded: u64 = match self.encoded_bytes.checked_add(item_bytes) {
            Some(encoded) => encoded,
            None => {
                return Err(BufferFault::EncodedOverflow);
            },
        };
        if self.encoded_bytes != 0 && encoded > self.limits.encoded_bytes {
            return Ok(LoadProgress::Stop(Some(Position::entry_start(self.sequence))));
        }
        let first: i64 = change.diffs[0];
        if self.remaining == 0 {
            if self.row_index != 0 {
                return Err(BufferFault::EntryBoundary);
            }
            self.remaining = magnitude(first);
        }
        if self.row_index >= change.diffs.len() || self.remaining > magnitude(
            change.diffs[self.row_index],
        ) {
            return Err(BufferFault::PositionMismatch);
        }
        let ghost stood = self.model();
        assert(entry_slice(stood, entry) == entry_slice(m, entry));
        let end: RowsEnd = self.consume_rows(
            change,
            event_bytes,
            Ghost(entry),
            Ghost(*schema),
        )?;
        self.encoded_bytes = encoded;
        assert(self.model() == after_slice(m, entry));
        if end == RowsEnd::Partial {
            return Ok(LoadProgress::Stop(Some(self.current_position(first))));
        }
        match self.retained_bytes.checked_sub(item_bytes) {
            Some(retained) => {
                self.retained_bytes = retained;
            },
            None => {
                return Err(BufferFault::RetainedUnderflow);
            },
        }
        self.sequence = self.sequence + 1;
        self.row_index = 0;
        self.remaining = 0;
        if self.sequence == self.before.tail {
            return Ok(LoadProgress::Stop(None));
        }
        if self.event_budget == 0 {
            return Ok(LoadProgress::Stop(Some(Position::entry_start(self.sequence))));
        }
        Ok(LoadProgress::Continue)
    }

    /// Turns the rows that were taken over into columns.
    fn into_columns(rows: &Vec<Vec<Value>>, schema: &Schema) -> (columns: Vec<Column>)
        requires
            forall|j: int|
                0 <= j < rows@.len() ==> (#[trigger] rows@[j])@.len() == schema.fields@.len(),
        ensures
            columns@.len() == schema.fields@.len(),
            forall|c: int|
                0 <= c < columns@.len() ==> {
                    &&& (#[trigger] columns@[c]).data_type@ == schema@.fields[c].data_type
                    &&& columns@[c].values@.len() == rows@.len()
                    &&& forall|j: int|
                        0 <= j < rows@.len() ==> (#[trigger] columns@[c].values@[j])@
                            == rows@[j]@[c]@
                },
    {
        let mut columns: Vec<Column> = Vec::new();
        let mut column: usize = 0;
        while column < schema.fields.len()
            invariant
                column <= schema.fields@.len(),
                columns@.len() == column,
                forall|j: int|
                    0 <= j < rows@.len() ==> (#[trigger] rows@[j])@.len() == schema.fields@.len(),
                forall|c: int|
                    0 <= c < columns@.len() ==> {
                        &&& (#[trigger] columns@[c]).data_type@ == schema@.fields[c].data_type
                        &&& columns@[c].values@.len() == rows@.len()
                        &&& forall|j: int|
                            0 <= j < rows@.len() ==> (#[trigger] columns@[c].values@[j])@
                                == rows@[j]@[c]@
                    },
            decreases schema.fields@.len() - column,
        {
            let mut values: Vec<Value> = Vec::new();
            let mut row: usize = 0;
            while row < rows.len()
                invariant
                    row <= rows@.len(),
                    column < schema.fields@.len(),
                    values@.len() == row,
                    forall|j: int|
                        0 <= j < rows@.len() ==> (#[trigger] rows@[j])@.len()
                            == schema.fields@.len(),
                    forall|j: int|
                        0 <= j < row ==> (#[trigger] values@[j])@ == rows@[j]@[column as int]@,
                decreases rows@.len() - row,
            {
                let cells: &Vec<Value> = &rows[row];
                let value: Value = copy_value(&cells[column]);
                values.push(value);
                row += 1;
            }
            assert(schema@.fields[column as int] == schema.fields@[column as int]@);
            columns.push(
                Column { data_type: copy_type(&schema.fields[column].data_type), values },
            );
            column += 1;
        }
        columns
    }

    /// Ends loading: the rows become a change, and the buffer begins at `after_head`.
    pub fn finish(self, after_head: Option<Position>, schema: &Schema) -> (result: Result<
        LoadedBatch,
        BufferFault,
    >)
        requires
            self.wf(*schema),
            self.delivered_events > 0,
        ensures
            match result {
                Ok(batch) => {
                    &&& finish_fault(self.before, self.model(), after_head) is None
                    &&& carries(batch, self.before, self.model(), after_head, *schema)
                },
                Err(fault) => finish_fault(self.before, self.model(), after_head) == Some(fault),
            },
    {
        let ghost model = self.model();
        let pending_events: u64 = match self.before.pending_events.checked_sub(
            self.delivered_events,
        ) {
            Some(pending) => pending,
            None => {
                return Err(BufferFault::PendingUnderflow);
            },
        };
        let after: BufferState = match after_head {
            None => BufferState::empty(),
            Some(head) => BufferState {
                head: Some(head),
                tail: self.before.tail,
                pending_events,
                retained_bytes: self.retained_bytes,
            },
        };
        after.validate()?;
        let rows: usize = self.rows.len();
        let columns: Vec<Column> = Loader::into_columns(&self.rows, schema);
        let records: RecordBatch = RecordBatch { schema: schema.copy(), columns, rows };
        proof {
            assert(field_models(records.schema.fields).len() == field_models(schema.fields).len());
            assert forall|j: int| 0 <= j < model.rows.len() implies row_model(records, j)
                == #[trigger] model.rows[j] by {
                assert(model.rows[j] == cells_model(self.rows@[j]));
                assert(row_model(records, j) =~= cells_model(self.rows@[j]));
            }
        }
        let delivery: DeliveryBatch = DeliveryBatch {
            change: Change { records, diffs: self.diffs },
            admissions: self.admissions,
        };
        Ok(LoadedBatch { delivery, after })
    }
}

/// The place of the entry at `sequence`, if it is there.
pub fn entry_place(entries: &Vec<StoredEntry>, sequence: u64) -> (place: Option<usize>)
    ensures
        match place {
            Some(index) => {
                &&& index < entries@.len()
                &&& find_entry(entries@, sequence as int, entries@.len() as int) == Some(
                    index as int,
                )
            },
            None => find_entry(entries@, sequence as int, entries@.len() as int) is None,
        },
{
    let mut index: usize = 0;
    while index < entries.len()
        invariant
            index <= entries@.len(),
            find_entry(entries@, sequence as int, index as int) is None,
        decreases entries@.len() - index,
    {
        if entries[index].sequence == sequence {
            proof {
                lemma_found_stays(entries@, sequence as int, index + 1, entries@.len() as int);
            }
            return Some(index);
        }
        index += 1;
    }
    None
}

proof fn lemma_found_stays(entries: Seq<StoredEntry>, sequence: int, low: int, high: int)
    requires
        low <= high,
        find_entry(entries, sequence, low) is Some,
    ensures
        find_entry(entries, sequence, high) == find_entry(entries, sequence, low),
    decreases high - low,
{
    if low < high {
        lemma_found_stays(entries, sequence, low, high - 1);
    }
}

/// The entry at which loading stands is there once it was found.
pub proof fn lemma_found_is_there(entries: Seq<StoredEntry>, sequence: int, count: int)
    requires
        count <= entries.len(),
        find_entry(entries, sequence, count) is Some,
    ensures
        0 <= find_entry(entries, sequence, count)->0 < count,
        entries[find_entry(entries, sequence, count)->0].sequence == sequence,
    decreases count,
{
    if count > 0 && find_entry(entries, sequence, count - 1) is Some {
        lemma_found_is_there(entries, sequence, count - 1);
    }
}

impl Loader {
    /// Opens the stored entry at which loading stands, and takes over what the budgets allow.
    pub fn load_entry(&mut self, entry: &StoredEntry, schema: &Schema) -> (result: Result<
        LoadProgress,
        BufferFault,
    >)
        requires
            old(self).wf(*schema),
            entry.wf(),
            old(self).event_budget > 0,
            old(self).sequence < old(self).before.tail,
        ensures
            match result {
                Ok(progress) => {
                    &&& open_fault(*entry, old(self).limits, *schema) is None
                    &&& entry_step(
                        old(self).model(),
                        opened(*entry),
                        old(self).before.tail as int,
                        old(self).limits,
                    ) == Ok::<(LoadModel, LoadProgress), BufferFault>(
                        (final(self).model(), progress),
                    )
                    &&& final(self).wf(*schema)
                    &&& final(self).before == old(self).before
                    &&& final(self).limits == old(self).limits
                    &&& progress is Stop ==> final(self).delivered_events > 0
                    &&& progress is Continue ==> final(self).event_budget > 0
                        && final(self).sequence == old(self).sequence + 1 && final(self).sequence
                        < final(self).before.tail
                },
                Err(fault) => match open_fault(*entry, old(self).limits, *schema) {
                    Some(refused) => fault == refused,
                    None => entry_step(
                        old(self).model(),
                        opened(*entry),
                        old(self).before.tail as int,
                        old(self).limits,
                    ) == Err::<(LoadModel, LoadProgress), BufferFault>(fault),
                },
            },
    {
        let item_bytes: u64 = decode_entry(entry, self.limits.item_bytes, schema)?;
        match (&entry.change, &entry.event_bytes) {
            (Some(change), Some(event_bytes)) => self.consume_entry(
                item_bytes,
                change,
                event_bytes,
                schema,
            ),
            _ => Err(BufferFault::Target),
        }
    }
}

/// Loads the next delivery from the entries of a buffer.
pub fn load(
    entries: &Vec<StoredEntry>,
    before: BufferState,
    limits: LoadLimits,
    schema: &Schema,
) -> (result: Result<LoadedBatch, BufferFault>)
    requires
        forall|i: int| 0 <= i < entries@.len() ==> (#[trigger] entries@[i]).wf(),
    ensures
        match result {
            Ok(batch) => {
                &&& load_outcome(entries@, before, limits, *schema) is Ok
                &&& carries(
                    batch,
                    before,
                    load_outcome(entries@, before, limits, *schema)->Ok_0.0,
                    load_outcome(entries@, before, limits, *schema)->Ok_0.1,
                    *schema,
                )
            },
            Err(fault) => load_outcome(entries@, before, limits, *schema) == Err::<
                (LoadModel, Option<Position>),
                BufferFault,
            >(fault),
        },
{
    let mut loader: Loader = Loader::start(before, limits, schema)?;
    let ghost outcome = load_from(
        entries@,
        load_start(before, limits),
        before.tail as int,
        limits,
        *schema,
    );
    while loader.sequence < before.tail
        invariant
            forall|i: int| 0 <= i < entries@.len() ==> (#[trigger] entries@[i]).wf(),
            start_fault(before, limits) is None,
            outcome == load_from(
                entries@,
                load_start(before, limits),
                before.tail as int,
                limits,
                *schema,
            ),
            outcome == load_from(entries@, loader.model(), before.tail as int, limits, *schema),
            loader.wf(*schema),
            loader.before == before,
            loader.limits == limits,
            loader.event_budget > 0,
        decreases before.tail - loader.sequence,
    {
        let place: usize = match entry_place(entries, loader.sequence) {
            Some(place) => place,
            None => {
                return Err(BufferFault::EntryMissing { sequence: loader.sequence });
            },
        };
        let progress: LoadProgress = loader.load_entry(&entries[place], schema)?;
        match progress {
            LoadProgress::Continue => {},
            LoadProgress::Stop(after_head) => {
                return loader.finish(after_head, schema);
            },
        }
    }
    Err(BufferFault::HeadReachesTail)
}

} // verus!
