//! Whether the entries of a buffer are those that its control state accounts for.

use crate::buffered::entry::{
    content_fault, decode_entry, StoredEntry, MAX_DELIVERY_BYTES, MAX_TARGET_BATCH_BYTES,
};
use crate::buffered::state::{boundary, BufferFault, BufferState, Position};
use crate::change::{events, lemma_counts_grow, lemma_row_events, positives, Change, Schema};
use crate::text::{abs, magnitude};
use vstd::prelude::*;

verus! {

/// The events of a change from `position` on.
pub open spec fn events_from(diffs: Seq<i64>, position: Position) -> int {
    let row = position.row_index as int;
    let all = events(diffs, diffs.len() as int) - events(diffs, row + 1);
    all + (if position.remaining == 0 {
        abs(diffs[row] as int) as int
    } else {
        position.remaining as int
    })
}

/// The events with a positive multiplicity from `position` on.
pub open spec fn positives_from(diffs: Seq<i64>, position: Position) -> int {
    let row = position.row_index as int;
    let later = positives(diffs, diffs.len() as int) - positives(diffs, row + 1);
    later + (if diffs[row] < 0 {
        0
    } else if position.remaining == 0 {
        diffs[row] as int
    } else {
        position.remaining as int
    })
}

/// Why a position does not stand in a change, if it does not.
pub open spec fn place_fault(diffs: Seq<i64>, position: Position) -> Option<BufferFault> {
    if position.row_index >= diffs.len() {
        Some(BufferFault::RowIndexOutside)
    } else if position.remaining == 0 && position.row_index != 0 {
        Some(BufferFault::EntryBoundary)
    } else if position.remaining > abs(diffs[position.row_index as int] as int) {
        Some(BufferFault::PositionMismatch)
    } else if events_from(diffs, position) > u64::MAX {
        Some(BufferFault::CountOverflow)
    } else {
        None
    }
}

/// How many events, and how many with a positive multiplicity, remain from `position` on.
pub fn remaining_event_counts(change: &Change, position: Position) -> (result: Result<
    (u64, u64),
    BufferFault,
>)
    requires
        change.wf(),
    ensures
        match result {
            Ok((total, positive)) => {
                &&& place_fault(change.diffs@, position) is None
                &&& total == events_from(change.diffs@, position)
                &&& positive == positives_from(change.diffs@, position)
            },
            Err(fault) => place_fault(change.diffs@, position) == Some(fault),
        },
{
    let ghost diffs = change.diffs@;
    let rows: usize = change.diffs.len();
    if position.row_index >= rows as u64 {
        return Err(BufferFault::RowIndexOutside);
    }
    let row: usize = position.row_index as usize;
    let first: i64 = change.diffs[row];
    let original: u64 = magnitude(first);
    if position.remaining == 0 && row != 0 {
        return Err(BufferFault::EntryBoundary);
    }
    if position.remaining > original {
        return Err(BufferFault::PositionMismatch);
    }
    let current: u64 = if position.remaining == 0 {
        original
    } else {
        position.remaining
    };
    let mut total: u64 = current;
    let mut positive: u64 = if first > 0 {
        current
    } else {
        0
    };
    let mut index: usize = row + 1;
    proof {
        assert(diffs[row as int] != 0);
    }
    while index < rows
        invariant
            change.wf(),
            diffs == change.diffs@,
            rows == diffs.len(),
            row < index <= rows,
            position.row_index == row,
            position.remaining <= abs(diffs[row as int] as int),
            position.remaining == 0 ==> row == 0,
            first == diffs[row as int],
            current == (if position.remaining == 0 {
                abs(first as int)
            } else {
                position.remaining as nat
            }),
            total == current + events(diffs, index as int) - events(diffs, row + 1),
            positive == (if first > 0 {
                current as int
            } else {
                0
            }) + positives(diffs, index as int) - positives(diffs, row + 1),
            positive <= total,
        decreases rows - index,
    {
        let diff: i64 = change.diffs[index];
        let amount: u64 = magnitude(diff);
        proof {
            lemma_row_events(diffs, index as int);
            lemma_counts_grow(diffs, index + 1, rows as int);
        }
        match total.checked_add(amount) {
            Some(sum) => {
                total = sum;
            },
            None => {
                return Err(BufferFault::CountOverflow);
            },
        }
        if diff > 0 {
            positive = positive + amount;
        }
        index += 1;
    }
    Ok((total, positive))
}

/// Why the charges of a target cannot be used, if they cannot: the first of them in order.
pub open spec fn sizes_fault(sizes: Seq<u64>, count: int) -> Option<BufferFault>
    decreases count,
{
    if count <= 0 {
        None
    } else {
        match sizes_fault(sizes, count - 1) {
            Some(fault) => Some(fault),
            None => if sizes[count - 1] == 0 {
                Some(BufferFault::ZeroCharge)
            } else if sizes[count - 1] > MAX_TARGET_BATCH_BYTES {
                Some(BufferFault::OversizedMutation)
            } else {
                None
            },
        }
    }
}

proof fn lemma_sizes_fault_stays(sizes: Seq<u64>, low: int, high: int)
    requires
        low <= high,
        sizes_fault(sizes, low) is Some,
    ensures
        sizes_fault(sizes, high) == sizes_fault(sizes, low),
    decreases high - low,
{
    if low < high {
        lemma_sizes_fault_stays(sizes, low, high - 1);
    }
}

/// Where no charge is refused, each one can be met by a batch.
pub proof fn lemma_sizes_fit(sizes: Seq<u64>, count: int, index: int)
    requires
        0 <= index < count <= sizes.len(),
        sizes_fault(sizes, count) is None,
    ensures
        0 < sizes[index] <= MAX_TARGET_BATCH_BYTES,
    decreases count,
{
    if index < count - 1 {
        lemma_sizes_fit(sizes, count - 1, index);
    }
}

/// Each event must be charged something, and no more than one batch may hold.
pub fn validate_event_sizes(sizes: &Vec<u64>) -> (result: Result<(), BufferFault>)
    ensures
        match result {
            Ok(_) => sizes_fault(sizes@, sizes@.len() as int) is None,
            Err(fault) => sizes_fault(sizes@, sizes@.len() as int) == Some(fault),
        },
{
    let mut index: usize = 0;
    while index < sizes.len()
        invariant
            index <= sizes@.len(),
            sizes_fault(sizes@, index as int) is None,
        decreases sizes@.len() - index,
    {
        let bytes: u64 = sizes[index];
        if bytes == 0 {
            proof {
                lemma_sizes_fault_stays(sizes@, index + 1, sizes@.len() as int);
            }
            return Err(BufferFault::ZeroCharge);
        }
        if bytes > MAX_TARGET_BATCH_BYTES {
            proof {
                lemma_sizes_fault_stays(sizes@, index + 1, sizes@.len() as int);
            }
            return Err(BufferFault::OversizedMutation);
        }
        index += 1;
    }
    Ok(())
}

/// What the entries of a buffer have added up to so far.
#[derive(Clone, Copy, Debug, PartialEq, Eq, Structural)]
pub struct Tally {
    pub expected_sequence: u64,
    pub pending_events: u64,
    pub positive_events: u64,
    pub retained_bytes: u64,
}

/// Where the events of an entry begin: at the head of the buffer, or at their own boundary.
pub open spec fn entry_position(head: Position, sequence: u64) -> Position {
    if sequence == head.sequence {
        head
    } else {
        boundary(sequence)
    }
}

/// Why an entry does not continue a tally, if it does not.
pub open spec fn visit_fault(
    tally: Tally,
    state: BufferState,
    head: Position,
    entry: StoredEntry,
    schema: Schema,
) -> Option<BufferFault> {
    let diffs = entry.change->0.diffs@;
    let position = entry_position(head, entry.sequence);
    let item_bytes = entry.encoded_length + 8;
    if entry.sequence != tally.expected_sequence {
        Some(BufferFault::EntryMissing { sequence: tally.expected_sequence })
    } else if content_fault(entry, MAX_DELIVERY_BYTES, schema) is Some {
        content_fault(entry, MAX_DELIVERY_BYTES, schema)
    } else if entry.event_bytes is None {
        Some(BufferFault::Target)
    } else if sizes_fault(entry.event_bytes->0@, entry.event_bytes->0@.len() as int) is Some {
        sizes_fault(entry.event_bytes->0@, entry.event_bytes->0@.len() as int)
    } else if place_fault(diffs, position) is Some {
        place_fault(diffs, position)
    } else if tally.pending_events + events_from(diffs, position) > u64::MAX {
        Some(BufferFault::PendingOverflow)
    } else if tally.positive_events + positives_from(diffs, position) > u64::MAX {
        Some(BufferFault::PositiveOverflow)
    } else if tally.retained_bytes + item_bytes > u64::MAX {
        Some(BufferFault::RetainedOverflow)
    } else if tally.pending_events + events_from(diffs, position) > state.pending_events
        || tally.retained_bytes + item_bytes > state.retained_bytes {
        Some(BufferFault::AccountingExceeded)
    } else if tally.expected_sequence == u64::MAX {
        Some(BufferFault::SequenceExhausted)
    } else {
        None
    }
}

/// A tally with one more entry.
pub open spec fn visited(tally: Tally, head: Position, entry: StoredEntry) -> Tally {
    let diffs = entry.change->0.diffs@;
    let position = entry_position(head, entry.sequence);
    Tally {
        expected_sequence: (tally.expected_sequence + 1) as u64,
        pending_events: (tally.pending_events + events_from(diffs, position)) as u64,
        positive_events: (tally.positive_events + positives_from(diffs, position)) as u64,
        retained_bytes: (tally.retained_bytes + entry.encoded_length + 8) as u64,
    }
}

/// The tally before any entry was visited.
pub open spec fn no_tally(head: Position) -> Tally {
    Tally {
        expected_sequence: head.sequence,
        pending_events: 0,
        positive_events: 0,
        retained_bytes: 0,
    }
}

impl Tally {
    pub fn new(head: Position) -> (tally: Tally)
        ensures
            tally == no_tally(head),
    {
        Tally {
            expected_sequence: head.sequence,
            pending_events: 0,
            positive_events: 0,
            retained_bytes: 0,
        }
    }

    /// Adds the next entry of the buffer.
    pub fn visit(
        self,
        state: BufferState,
        head: Position,
        entry: &StoredEntry,
        schema: &Schema,
    ) -> (result: Result<Tally, BufferFault>)
        requires
            entry.wf(),
        ensures
            match result {
                Ok(tally) => {
                    &&& visit_fault(self, state, head, *entry, *schema) is None
                    &&& tally == visited(self, head, *entry)
                },
                Err(fault) => visit_fault(self, state, head, *entry, *schema) == Some(fault),
            },
    {
        if entry.sequence != self.expected_sequence {
            return Err(BufferFault::EntryMissing { sequence: self.expected_sequence });
        }
        let item_bytes: u64 = decode_entry(entry, MAX_DELIVERY_BYTES, schema)?;
        match &entry.event_bytes {
            None => {
                return Err(BufferFault::Target);
            },
            Some(sizes) => {
                validate_event_sizes(sizes)?;
            },
        }
        let position: Position = if entry.sequence == head.sequence {
            head
        } else {
            Position::entry_start(entry.sequence)
        };
        let counts: (u64, u64) = match &entry.change {
            None => {
                return Err(BufferFault::EntryUndecodable { sequence: entry.sequence });
            },
            Some(change) => remaining_event_counts(change, position)?,
        };
        let pending_events: u64 = match self.pending_events.checked_add(counts.0) {
            Some(sum) => sum,
            None => {
                return Err(BufferFault::PendingOverflow);
            },
        };
        let positive_events: u64 = match self.positive_events.checked_add(counts.1) {
            Some(sum) => sum,
            None => {
                return Err(BufferFault::PositiveOverflow);
            },
        };
        let retained_bytes: u64 = match self.retained_bytes.checked_add(item_bytes) {
            Some(sum) => sum,
            None => {
                return Err(BufferFault::RetainedOverflow);
            },
        };
        if pending_events > state.pending_events || retained_bytes > state.retained_bytes {
            return Err(BufferFault::AccountingExceeded);
        }
        if self.expected_sequence == u64::MAX {
            return Err(BufferFault::SequenceExhausted);
        }
        Ok(
            Tally {
                expected_sequence: self.expected_sequence + 1,
                pending_events,
                positive_events,
                retained_bytes,
            },
        )
    }

    /// Compares what the entries add up to with what the control state says.
    pub fn close(self, state: BufferState) -> (result: Result<u64, BufferFault>)
        ensures
            match result {
                Ok(positive) => {
                    &&& close_fault(self, state) is None
                    &&& positive == self.positive_events
                },
                Err(fault) => close_fault(self, state) == Some(fault),
            },
    {
        if self.expected_sequence != state.tail {
            return Err(BufferFault::EntryMissing { sequence: self.expected_sequence });
        }
        if self.pending_events != state.pending_events || self.retained_bytes
            != state.retained_bytes {
            return Err(BufferFault::AccountingMismatch);
        }
        Ok(self.positive_events)
    }
}

/// Why a tally is not what the control state says, if it is not.
pub open spec fn close_fault(tally: Tally, state: BufferState) -> Option<BufferFault> {
    if tally.expected_sequence != state.tail {
        Some(BufferFault::EntryMissing { sequence: tally.expected_sequence })
    } else if tally.pending_events != state.pending_events || tally.retained_bytes
        != state.retained_bytes {
        Some(BufferFault::AccountingMismatch)
    } else {
        None
    }
}

/// What the first `count` entries add up to, or the first reason why they do not.
pub open spec fn tally_of(
    entries: Seq<StoredEntry>,
    state: BufferState,
    head: Position,
    schema: Schema,
    count: int,
) -> Result<Tally, BufferFault>
    decreases count,
{
    if count <= 0 {
        Ok(no_tally(head))
    } else {
        match tally_of(entries, state, head, schema, count - 1) {
            Err(fault) => Err(fault),
            Ok(tally) => match visit_fault(tally, state, head, entries[count - 1], schema) {
                Some(fault) => Err(fault),
                None => Ok(visited(tally, head, entries[count - 1])),
            },
        }
    }
}

/// Whether an entry lies outside what the control state says the buffer holds.
pub open spec fn lies_outside(state: BufferState, entry: StoredEntry) -> bool {
    match state.head {
        None => true,
        Some(head) => entry.sequence < head.sequence || entry.sequence >= state.tail,
    }
}

/// What the audit of a buffer gives: the events with a positive multiplicity that it holds,
/// or why it is not the buffer that the control state describes.
pub open spec fn audit(entries: Seq<StoredEntry>, state: BufferState, schema: Schema) -> Result<
    u64,
    BufferFault,
> {
    if exists|i: int| 0 <= i < entries.len() && #[trigger] lies_outside(state, entries[i]) {
        Err(BufferFault::OutsideRange)
    } else if state.head is None {
        Ok(0)
    } else {
        match tally_of(entries, state, state.head->0, schema, entries.len() as int) {
            Err(fault) => Err(fault),
            Ok(tally) => match close_fault(tally, state) {
                Some(fault) => Err(fault),
                None => Ok(tally.positive_events),
            },
        }
    }
}

proof fn lemma_tally_fault_stays(
    entries: Seq<StoredEntry>,
    state: BufferState,
    head: Position,
    schema: Schema,
    low: int,
    high: int,
)
    requires
        low <= high,
        tally_of(entries, state, head, schema, low) is Err,
    ensures
        tally_of(entries, state, head, schema, high) == tally_of(
            entries,
            state,
            head,
            schema,
            low,
        ),
    decreases high - low,
{
    if low < high {
        lemma_tally_fault_stays(entries, state, head, schema, low, high - 1);
    }
}

/// Audits a buffer, whose entries are given in ascending order of their sequence.
pub fn validate_buffer(state: BufferState, entries: &Vec<StoredEntry>, schema: &Schema) -> (result:
    Result<u64, BufferFault>)
    requires
        forall|i: int| 0 <= i < entries@.len() ==> (#[trigger] entries@[i]).wf(),
    ensures
        result == audit(entries@, state, *schema),
{
    let mut index: usize = 0;
    while index < entries.len()
        invariant
            index <= entries@.len(),
            forall|i: int| 0 <= i < index ==> !#[trigger] lies_outside(state, entries@[i]),
        decreases entries@.len() - index,
    {
        let sequence: u64 = entries[index].sequence;
        let outside = match state.head {
            None => true,
            Some(head) => sequence < head.sequence || sequence >= state.tail,
        };
        if outside {
            assert(lies_outside(state, entries@[index as int]));
            return Err(BufferFault::OutsideRange);
        }
        index += 1;
    }
    let head: Position = match state.head {
        None => {
            return Ok(0);
        },
        Some(head) => head,
    };
    let mut tally: Tally = Tally::new(head);
    let mut next: usize = 0;
    while next < entries.len()
        invariant
            next <= entries@.len(),
            state.head == Some(head),
            forall|i: int| 0 <= i < entries@.len() ==> (#[trigger] entries@[i]).wf(),
            forall|i: int| 0 <= i < entries@.len() ==> !#[trigger] lies_outside(state, entries@[i]),
            tally_of(entries@, state, head, *schema, next as int) == Ok::<Tally, BufferFault>(
                tally,
            ),
        decreases entries@.len() - next,
    {
        match tally.visit(state, head, &entries[next], schema) {
            Ok(more) => {
                tally = more;
            },
            Err(fault) => {
                proof {
                    lemma_tally_fault_stays(
                        entries@,
                        state,
                        head,
                        *schema,
                        next + 1,
                        entries@.len() as int,
                    );
                }
                return Err(fault);
            },
        }
        next += 1;
    }
    tally.close(state)
}

} // verus!
