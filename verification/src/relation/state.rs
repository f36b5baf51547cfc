//! The durable state of a relation sink that splits one change into batches.

use crate::bytes::{be_bytes, be_value, number_at, push_be, Cursor};
use crate::bytes::{
    lemma_be_bytes_len, lemma_be_round_trip, lemma_byte_ranges, lemma_number_after, same_bytes,
};
use crate::change::{events, lemma_row_events, Change};
use crate::relation::batch::{insert_pairs, Insert, MAX_MUTATIONS_PER_BATCH};
use crate::relation::position::{
    id_in_range, lemma_events_grow, offset_of, on_boundary, row_holds, stands_in,
    validate_batch_boundary, validate_next_id, validate_position_for_change, Continuation, Position,
};
use crate::relation::row::{
    canonical_bytes, canonical_fault, canonical_row, RowError, RowErrorModel,
};
use crate::relation::target::{pair_bytes, pairs_at, push_pair, read_pairs};
use crate::sqlite::state::{
    decode_position, encode_position, holds_id, lemma_position_read_back, position_at,
    position_bytes,
};
use crate::text::{abs, magnitude};
use vstd::arithmetic::div_mod::lemma_add_mod_noop;
use vstd::prelude::*;

verus! {

/// A fixed batch: what it inserts, what it deletes, and what follows it.
#[derive(Debug, PartialEq, Eq)]
pub struct StepBatch {
    pub inserts: Vec<Insert>,
    pub deletes: Vec<u64>,
    pub continuation: Continuation,
}

/// The durable state of a sink.
#[derive(Debug, PartialEq, Eq)]
pub enum State {
    /// The target is to be created.
    Initialize,
    /// The next batch can be prepared.
    Ready { next_id: u64, position: Option<Position> },
    /// A fixed batch that may have reached the target or not.
    Prepared { next_id: u64, batch: StepBatch },
}

/// Why stored bytes are not the state of a sink that works on a change.
#[derive(Debug)]
pub enum StateFault {
    Truncated,
    Version,
    Phase,
    Trailing,
    NextId,
    PositionTag,
    Position,
    Boundary,
    BatchSize,
    InsertFrontier,
    Ids,
    BeforeInput,
    Inserts,
    MissingDeletion,
    InsertRow,
    Consumption,
    Row(RowError),
}

/// What a `StateFault` says.
pub ghost enum FaultModel {
    Truncated,
    Version,
    Phase,
    Trailing,
    NextId,
    PositionTag,
    Position,
    Boundary,
    BatchSize,
    InsertFrontier,
    Ids,
    BeforeInput,
    Inserts,
    MissingDeletion,
    InsertRow,
    Consumption,
    Row(RowErrorModel),
}

impl View for StateFault {
    type V = FaultModel;

    open spec fn view(&self) -> FaultModel {
        match *self {
            StateFault::Truncated => FaultModel::Truncated,
            StateFault::Version => FaultModel::Version,
            StateFault::Phase => FaultModel::Phase,
            StateFault::Trailing => FaultModel::Trailing,
            StateFault::NextId => FaultModel::NextId,
            StateFault::PositionTag => FaultModel::PositionTag,
            StateFault::Position => FaultModel::Position,
            StateFault::Boundary => FaultModel::Boundary,
            StateFault::BatchSize => FaultModel::BatchSize,
            StateFault::InsertFrontier => FaultModel::InsertFrontier,
            StateFault::Ids => FaultModel::Ids,
            StateFault::BeforeInput => FaultModel::BeforeInput,
            StateFault::Inserts => FaultModel::Inserts,
            StateFault::MissingDeletion => FaultModel::MissingDeletion,
            StateFault::InsertRow => FaultModel::InsertRow,
            StateFault::Consumption => FaultModel::Consumption,
            StateFault::Row(error) => FaultModel::Row(error@),
        }
    }
}

/// The row of the event at `offset`, among the first `rows` rows.
pub open spec fn event_row(diffs: Seq<i64>, offset: int, rows: int) -> int
    decreases rows,
{
    if rows <= 0 {
        -1
    } else if events(diffs, rows - 1) <= offset {
        rows - 1
    } else {
        event_row(diffs, offset, rows - 1)
    }
}

/// The row that holds an event is the one that it belongs to.
pub proof fn lemma_event_row(diffs: Seq<i64>, offset: int, row: int, rows: int)
    requires
        row_holds(diffs, row, offset),
        row < rows <= diffs.len(),
    ensures
        event_row(diffs, offset, rows) == row,
    decreases rows,
{
    if row < rows - 1 {
        lemma_events_grow(diffs, row + 1, rows - 1);
        lemma_event_row(diffs, offset, row, rows - 1);
    }
}

/// The row of an event of a change.
pub open spec fn row_at(diffs: Seq<i64>, offset: int) -> int {
    event_row(diffs, offset, diffs.len() as int)
}

/// How many of the `count` events before `end` insert.
pub open spec fn inserting(diffs: Seq<i64>, end: int, count: int) -> nat
    decreases count,
{
    if count <= 0 {
        0
    } else if diffs[row_at(diffs, end - count)] > 0 {
        inserting(diffs, end, count - 1) + 1
    } else {
        inserting(diffs, end, count - 1)
    }
}

/// How many of the `count` events before `end` delete.
pub open spec fn deleting(diffs: Seq<i64>, end: int, count: int) -> nat {
    (count - inserting(diffs, end, count)) as nat
}

/// Where a batch ends.
pub open spec fn end_of(diffs: Seq<i64>, continuation: Continuation) -> int {
    match continuation {
        Continuation::Done => events(diffs, diffs.len() as int) as int,
        Continuation::Position(position) => offset_of(diffs, position),
    }
}

/// The first ID that a batch inserts, where `next_id` follows its last one.
pub open spec fn first_insert(batch: StepBatch, next_id: u64) -> int {
    next_id - batch.inserts@.len()
}

/// The inserted IDs end at the frontier, and the deleted ones lie below it, each once.
pub open spec fn ids_fit(batch: StepBatch, next_id: u64) -> bool {
    &&& forall|k: int|
        0 <= k < batch.inserts@.len() ==> (#[trigger] batch.inserts@[k]).technical_id
            == first_insert(batch, next_id) + k
    &&& forall|k: int| 0 <= k < batch.deletes@.len() ==> 0 < #[trigger] batch.deletes@[k] < next_id
    &&& forall|j: int, k: int|
        0 <= j < k < batch.deletes@.len() ==> #[trigger] batch.deletes@[j]
            != #[trigger] batch.deletes@[k]
}

/// Why a deletion of `row` cannot take an ID, if it cannot: one that the batch itself inserts
/// must be that of an earlier row with the same values.
pub open spec fn deletion_fault(
    batch: StepBatch,
    next_id: u64,
    change: Change,
    id: u64,
    row: int,
) -> Option<FaultModel> {
    let first = first_insert(batch, next_id);
    let source = batch.inserts@[id - first].row_index;
    if id < first {
        None
    } else if source > usize::MAX {
        Some(FaultModel::InsertRow)
    } else if source >= row {
        Some(FaultModel::Consumption)
    } else if canonical_fault(change.records, source as int) is Some {
        Some(FaultModel::Row(canonical_fault(change.records, source as int)->0))
    } else if canonical_fault(change.records, row) is Some {
        Some(FaultModel::Row(canonical_fault(change.records, row)->0))
    } else if canonical_bytes(change.records, source as int) != canonical_bytes(
        change.records,
        row,
    ) {
        Some(FaultModel::Consumption)
    } else {
        None
    }
}

/// Why the event that is the `count`-th before the end of a batch does not match it, if it
/// does not.
pub open spec fn event_fault(batch: StepBatch, next_id: u64, change: Change, count: int) -> Option<
    FaultModel,
> {
    let diffs = change.diffs@;
    let end = end_of(diffs, batch.continuation);
    let row = row_at(diffs, end - count);
    let insert = batch.inserts@.len() - 1 - inserting(diffs, end, count - 1);
    let delete = batch.deletes@.len() - 1 - deleting(diffs, end, count - 1);
    if end - count < 0 {
        Some(FaultModel::BeforeInput)
    } else if diffs[row] > 0 {
        if insert < 0 || batch.inserts@[insert].row_index != row {
            Some(FaultModel::Inserts)
        } else {
            None
        }
    } else if delete < 0 {
        Some(FaultModel::MissingDeletion)
    } else {
        deletion_fault(batch, next_id, change, batch.deletes@[delete], row)
    }
}

/// The first reason, going backwards from the end of a batch.
pub open spec fn events_fault(batch: StepBatch, next_id: u64, change: Change, count: int) -> Option<
    FaultModel,
>
    decreases count,
{
    if count <= 0 {
        None
    } else {
        match events_fault(batch, next_id, change, count - 1) {
            Some(fault) => Some(fault),
            None => event_fault(batch, next_id, change, count),
        }
    }
}

proof fn lemma_events_fault_stays(
    batch: StepBatch,
    next_id: u64,
    change: Change,
    low: int,
    high: int,
)
    requires
        low <= high,
        events_fault(batch, next_id, change, low) is Some,
    ensures
        events_fault(batch, next_id, change, high) == events_fault(batch, next_id, change, low),
    decreases high - low,
{
    if low < high {
        lemma_events_fault_stays(batch, next_id, change, low, high - 1);
    }
}

/// Why a batch is not one of the change, if it is not.
pub open spec fn batch_fault(batch: StepBatch, next_id: u64, change: Change) -> Option<FaultModel> {
    if first_insert(batch, next_id) <= 0 {
        Some(FaultModel::InsertFrontier)
    } else if !ids_fit(batch, next_id) {
        Some(FaultModel::Ids)
    } else {
        events_fault(
            batch,
            next_id,
            change,
            (batch.inserts@.len() + batch.deletes@.len()) as int,
        )
    }
}

fn check_ids(batch: &StepBatch, next_id: u64, first: u64) -> (fits: bool)
    requires
        first == first_insert(*batch, next_id),
    ensures
        fits == ids_fit(*batch, next_id),
{
    let mut index: usize = 0;
    while index < batch.inserts.len()
        invariant
            first == first_insert(*batch, next_id),
            index <= batch.inserts@.len(),
            forall|k: int|
                0 <= k < index ==> (#[trigger] batch.inserts@[k]).technical_id == first_insert(
                    *batch,
                    next_id,
                ) + k,
        decreases batch.inserts@.len() - index,
    {
        if batch.inserts[index].technical_id != first + index as u64 {
            assert(batch.inserts@[index as int].technical_id != first_insert(*batch, next_id)
                + index);
            return false;
        }
        index += 1;
    }
    let mut seen: Vec<u64> = Vec::new();
    let mut place: usize = 0;
    while place < batch.deletes.len()
        invariant
            place <= batch.deletes@.len(),
            seen@ == batch.deletes@.take(place as int),
            forall|k: int| 0 <= k < place ==> 0 < #[trigger] batch.deletes@[k] < next_id,
            forall|j: int, k: int|
                0 <= j < k < place ==> #[trigger] batch.deletes@[j]
                    != #[trigger] batch.deletes@[k],
        decreases batch.deletes@.len() - place,
    {
        let id: u64 = batch.deletes[place];
        if id == 0 || id >= next_id {
            assert(!(0 < batch.deletes@[place as int] < next_id));
            return false;
        }
        if holds_id(&seen, id) {
            let ghost j = choose|j: int| 0 <= j < seen@.len() && seen@[j] == id;
            assert(batch.deletes@[j] == batch.deletes@[place as int]);
            return false;
        }
        proof {
            assert forall|j: int| 0 <= j < place implies #[trigger] batch.deletes@[j] != id by {
                assert(seen@[j] == batch.deletes@[j]);
            }
        }
        seen.push(id);
        place += 1;
        assert(seen@ =~= batch.deletes@.take(place as int));
    }
    true
}

/// Checks that a deletion of a row can take an ID.
fn check_deletion(batch: &StepBatch, next_id: u64, first: u64, change: &Change, id: u64, row: usize) -> (result:
    Result<(), StateFault>)
    requires
        change.wf(),
        first == first_insert(*batch, next_id),
        id < next_id,
        row < change.diffs@.len(),
    ensures
        match result {
            Ok(_) => deletion_fault(*batch, next_id, *change, id, row as int) is None,
            Err(fault) => deletion_fault(*batch, next_id, *change, id, row as int) == Some(fault@),
        },
{
    if id < first {
        return Ok(());
    }
    let total: usize = batch.inserts.len();
    assert(id - first < total);
    let source: u64 = batch.inserts[(id - first) as usize].row_index;
    if source > usize::MAX as u64 {
        return Err(StateFault::InsertRow);
    }
    let source: usize = source as usize;
    if source >= row {
        return Err(StateFault::Consumption);
    }
    let earlier: Vec<u8> = match canonical_row(&change.records, source) {
        Ok(bytes) => bytes,
        Err(error) => {
            return Err(StateFault::Row(error));
        },
    };
    let own: Vec<u8> = match canonical_row(&change.records, row) {
        Ok(bytes) => bytes,
        Err(error) => {
            return Err(StateFault::Row(error));
        },
    };
    if same_bytes(earlier.as_slice(), own.as_slice()) {
        Ok(())
    } else {
        Err(StateFault::Consumption)
    }
}

/// Where a batch ends: a row, and how many of its events lie before that.
fn batch_end(change: &Change, continuation: Continuation) -> (end: (usize, u64))
    requires
        change.wf(),
        continuation is Position ==> stands_in(change.diffs@, continuation->Position_0),
    ensures
        end.0 < change.diffs@.len(),
        end.1 <= abs(change.diffs@[end.0 as int] as int),
        events(change.diffs@, end.0 as int) + end.1 == end_of(change.diffs@, continuation),
{
    match continuation {
        Continuation::Done => {
            let row: usize = change.diffs.len() - 1;
            proof {
                lemma_row_events(change.diffs@, row as int);
            }
            (row, magnitude(change.diffs[row]))
        },
        Continuation::Position(position) => {
            let row: usize = position.row_index as usize;
            proof {
                lemma_row_events(change.diffs@, row as int);
            }
            (row, magnitude(change.diffs[row]) - position.remaining)
        },
    }
}

/// Checks that a stored batch is one of the change: walks backwards from its end, event by
/// event.
pub fn validate_batch(batch: &StepBatch, next_id: u64, change: &Change) -> (result: Result<
    (),
    StateFault,
>)
    requires
        change.wf(),
        batch.continuation is Position ==> stands_in(
            change.diffs@,
            batch.continuation->Position_0,
        ),
        batch.inserts@.len() + batch.deletes@.len() <= MAX_MUTATIONS_PER_BATCH,
    ensures
        match result {
            Ok(_) => batch_fault(*batch, next_id, *change) is None,
            Err(fault) => batch_fault(*batch, next_id, *change) == Some(fault@),
        },
{
    let ghost diffs = change.diffs@;
    let ghost end = end_of(diffs, batch.continuation);
    let insert_count: u64 = batch.inserts.len() as u64;
    if next_id <= insert_count {
        return Err(StateFault::InsertFrontier);
    }
    let first: u64 = next_id - insert_count;
    if !check_ids(batch, next_id, first) {
        return Err(StateFault::Ids);
    }
    let (start_row, start_remaining): (usize, u64) = batch_end(change, batch.continuation);
    let mut row: usize = start_row;
    let mut remaining: u64 = start_remaining;
    let mut inserts: usize = batch.inserts.len();
    let mut deletes: usize = batch.deletes.len();
    let total: usize = batch.inserts.len() + batch.deletes.len();
    let mut count: usize = 0;
    while count < total
        invariant
            change.wf(),
            diffs == change.diffs@,
            end == end_of(diffs, batch.continuation),
            total == batch.inserts@.len() + batch.deletes@.len(),
            first == first_insert(*batch, next_id),
            first > 0,
            ids_fit(*batch, next_id),
            count <= total,
            row < diffs.len(),
            remaining <= abs(diffs[row as int] as int),
            events(diffs, row as int) + remaining == end - count,
            inserts + inserting(diffs, end, count as int) == batch.inserts@.len(),
            deletes + deleting(diffs, end, count as int) == batch.deletes@.len(),
            inserting(diffs, end, count as int) <= count,
            events_fault(*batch, next_id, *change, count as int) is None,
        decreases total - count,
    {
        let ghost place = count + 1;
        if remaining == 0 {
            if row == 0 {
                proof {
                    assert(events(diffs, 0) == 0);
                    lemma_events_fault_stays(*batch, next_id, *change, place, total as int);
                }
                return Err(StateFault::BeforeInput);
            }
            row = row - 1;
            remaining = magnitude(change.diffs[row]);
            proof {
                assert(diffs[row as int] != 0);
                lemma_row_events(diffs, row as int);
            }
        }
        proof {
            lemma_row_events(diffs, row as int);
            assert(row_holds(diffs, row as int, end - place));
            lemma_event_row(diffs, end - place, row as int, diffs.len() as int);
            if event_fault(*batch, next_id, *change, place) is Some {
                lemma_events_fault_stays(*batch, next_id, *change, place, total as int);
            }
        }
        if change.diffs[row] > 0 {
            if inserts == 0 || batch.inserts[inserts - 1].row_index != row as u64 {
                return Err(StateFault::Inserts);
            }
            inserts -= 1;
        } else {
            if deletes == 0 {
                return Err(StateFault::MissingDeletion);
            }
            let id: u64 = batch.deletes[deletes - 1];
            check_deletion(batch, next_id, first, change, id, row)?;
            deletes -= 1;
        }
        remaining -= 1;
        count += 1;
    }
    Ok(())
}

/// How many events of a change are left over from full batches.
pub fn processed_modulo(change: &Change) -> (modulo: usize)
    requires
        change.wf(),
    ensures
        modulo == events(change.diffs@, change.diffs@.len() as int) % 1024,
{
    let ghost diffs = change.diffs@;
    let mut modulo: u64 = 0;
    let mut index: usize = 0;
    while index < change.diffs.len()
        invariant
            diffs == change.diffs@,
            index <= diffs.len(),
            modulo < 1024,
            modulo == events(diffs, index as int) % 1024,
        decreases diffs.len() - index,
    {
        let amount: u64 = magnitude(change.diffs[index]);
        proof {
            lemma_row_events(diffs, index as int);
            lemma_add_mod_noop(events(diffs, index as int) as int, amount as int, 1024);
        }
        modulo = (modulo + amount % 1024) % 1024;
        index += 1;
    }
    modulo as usize
}

/// How an optional position is stored.
pub open spec fn optional_bytes(position: Option<Position>) -> Seq<u8> {
    match position {
        None => seq![0u8],
        Some(position) => seq![1u8] + position_bytes(position),
    }
}

/// What follows a batch, as an optional position.
pub open spec fn followed_by(continuation: Continuation) -> Option<Position> {
    match continuation {
        Continuation::Done => None,
        Continuation::Position(position) => Some(position),
    }
}

/// Numbers in eight bytes each.
pub open spec fn number_bytes(numbers: Seq<u64>) -> Seq<u8>
    decreases numbers.len(),
{
    if numbers.len() == 0 {
        Seq::empty()
    } else {
        number_bytes(numbers.drop_last()) + be_bytes(numbers.last() as nat, 8)
    }
}

/// How a state is stored: a version, a tag, and what the tag stands for.
pub open spec fn state_bytes(state: State) -> Seq<u8> {
    match state {
        State::Initialize => seq![1u8, 0u8],
        State::Ready { next_id, position } => seq![1u8, 1u8] + be_bytes(next_id as nat, 8)
            + optional_bytes(position),
        State::Prepared { next_id, batch } => seq![1u8, 2u8] + be_bytes(next_id as nat, 8)
            + optional_bytes(followed_by(batch.continuation)) + be_bytes(batch.inserts@.len(), 2)
            + be_bytes(batch.deletes@.len(), 2) + pair_bytes(insert_pairs(batch.inserts@))
            + number_bytes(batch.deletes@),
    }
}

fn push_optional(position: Option<Position>, output: &mut Vec<u8>)
    ensures
        final(output)@ == old(output)@ + optional_bytes(position),
{
    let ghost start = output@;
    match position {
        None => {
            output.push(0);
        },
        Some(position) => {
            output.push(1);
            encode_position(position, output);
        },
    }
    assert(output@ =~= start + optional_bytes(position));
}

/// Why bytes do not hold an optional position, if they do not.
pub open spec fn optional_fault(bytes: Seq<u8>) -> Option<FaultModel> {
    if bytes.len() < 1 {
        Some(FaultModel::Truncated)
    } else if bytes[0] > 1 {
        Some(FaultModel::PositionTag)
    } else if bytes[0] == 1 && bytes.len() < 17 {
        Some(FaultModel::Truncated)
    } else {
        None
    }
}

/// The optional position at the beginning of bytes.
pub open spec fn optional_at(bytes: Seq<u8>) -> Option<Position> {
    if bytes[0] == 0 {
        None
    } else {
        Some(position_at(bytes.skip(1)))
    }
}

/// The length of an optional position, going by its tag.
pub open spec fn optional_length(bytes: Seq<u8>) -> int {
    if bytes[0] == 0 {
        1
    } else {
        17
    }
}

/// Why a position is not one at which a batch of the change can end, if it is not.
pub open spec fn place_fault(position: Option<Position>, diffs: Seq<i64>) -> Option<FaultModel> {
    match position {
        None => None,
        Some(position) => if !stands_in(diffs, position) {
            Some(FaultModel::Position)
        } else if !on_boundary(diffs, position) {
            Some(FaultModel::Boundary)
        } else {
            None
        },
    }
}

/// Whether a batch can have this many mutations: it is full, unless it is the last one, which
/// takes what full batches leave over.
pub open spec fn size_fits(count: nat, position: Option<Position>, diffs: Seq<i64>) -> bool {
    &&& 0 < count <= MAX_MUTATIONS_PER_BATCH
    &&& position is Some ==> count == MAX_MUTATIONS_PER_BATCH
    &&& position is None ==> count % 1024 == events(diffs, diffs.len() as int) % 1024
}

/// The numbers at the beginning of bytes.
pub open spec fn numbers_at(bytes: Seq<u8>, count: nat) -> Seq<u64> {
    Seq::new(count, |k: int| number_at(bytes, 8 * k))
}

/// The number of insertions that a stored batch announces.
pub open spec fn stored_inserts(body: Seq<u8>) -> nat {
    be_value(body.subrange(0, 2))
}

/// The number of deletions that a stored batch announces.
pub open spec fn stored_deletes(body: Seq<u8>) -> nat {
    be_value(body.subrange(2, 4))
}

/// The length of a stored batch.
pub open spec fn stored_length(body: Seq<u8>) -> int {
    (4 + 16 * stored_inserts(body) + 8 * stored_deletes(body)) as int
}

/// Whether a batch is the stored one.
pub open spec fn batch_at(body: Seq<u8>, batch: StepBatch) -> bool {
    &&& insert_pairs(batch.inserts@) == pairs_at(body.skip(4), stored_inserts(body))
    &&& batch.deletes@ == numbers_at(
        body.skip(4 + 16 * stored_inserts(body) as int),
        stored_deletes(body),
    )
}

/// Why bytes do not hold a batch, its form aside.
pub open spec fn body_fault(body: Seq<u8>, position: Option<Position>, diffs: Seq<i64>) -> Option<
    FaultModel,
> {
    if body.len() < 4 {
        Some(FaultModel::Truncated)
    } else if !size_fits(stored_inserts(body) + stored_deletes(body), position, diffs) {
        Some(FaultModel::BatchSize)
    } else if body.len() < stored_length(body) {
        Some(FaultModel::Truncated)
    } else {
        None
    }
}

/// What is wrong with the head of a stored state that is not the first one: its next ID and
/// its position.
pub open spec fn head_fault(rest: Seq<u8>, diffs: Seq<i64>) -> Option<FaultModel> {
    if rest.len() < 8 {
        Some(FaultModel::Truncated)
    } else if !id_in_range(number_at(rest, 0)) {
        Some(FaultModel::NextId)
    } else if optional_fault(rest.skip(8)) is Some {
        optional_fault(rest.skip(8))
    } else {
        place_fault(optional_at(rest.skip(8)), diffs)
    }
}

/// What bytes are stored, and what is wrong with them, if anything is.
pub open spec fn decodes(bytes: Seq<u8>, change: Change, result: Result<State, FaultModel>) -> bool {
    let diffs = change.diffs@;
    let rest = bytes.skip(2);
    let next_id = number_at(rest, 0);
    let optional = rest.skip(8);
    let position = optional_at(optional);
    let body = optional.skip(optional_length(optional));
    if bytes.len() < 1 {
        result == Err::<State, FaultModel>(FaultModel::Truncated)
    } else if bytes[0] != 1 {
        result == Err::<State, FaultModel>(FaultModel::Version)
    } else if bytes.len() < 2 {
        result == Err::<State, FaultModel>(FaultModel::Truncated)
    } else if bytes[1] == 0 {
        if bytes.len() > 2 {
            result == Err::<State, FaultModel>(FaultModel::Trailing)
        } else {
            result == Ok::<State, FaultModel>(State::Initialize)
        }
    } else if head_fault(rest, diffs) is Some {
        result == Err::<State, FaultModel>(head_fault(rest, diffs)->0)
    } else if bytes[1] == 1 {
        if body.len() > 0 {
            result == Err::<State, FaultModel>(FaultModel::Trailing)
        } else {
            result == Ok::<State, FaultModel>(State::Ready { next_id, position })
        }
    } else if bytes[1] == 2 {
        if body_fault(body, position, diffs) is Some {
            result == Err::<State, FaultModel>(body_fault(body, position, diffs)->0)
        } else {
            exists|batch: StepBatch|
                {
                    &&& #[trigger] batch_at(body, batch)
                    &&& followed_by(batch.continuation) == position
                    &&& if batch_fault(batch, next_id, change) is Some {
                        result == Err::<State, FaultModel>(batch_fault(batch, next_id, change)->0)
                    } else if body.len() > stored_length(body) {
                        result == Err::<State, FaultModel>(FaultModel::Trailing)
                    } else {
                        result == Ok::<State, FaultModel>(State::Prepared { next_id, batch })
                    }
                }
        }
    } else {
        result == Err::<State, FaultModel>(FaultModel::Phase)
    }
}

/// The result with the fault by its view.
pub open spec fn result_view(result: Result<State, StateFault>) -> Result<State, FaultModel> {
    match result {
        Ok(state) => Ok(state),
        Err(fault) => Err(fault@),
    }
}

fn read_head(cursor: &mut Cursor<'_>, change: &Change) -> (result: Result<
    (u64, Option<Position>),
    StateFault,
>)
    requires
        change.wf(),
        old(cursor).wf(),
    ensures
        final(cursor).wf(),
        final(cursor).bytes == old(cursor).bytes,
        ({
            let rest = old(cursor).rest();
            let optional = rest.skip(8);
            match result {
                Ok((next_id, position)) => {
                    &&& head_fault(rest, change.diffs@) is None
                    &&& rest.len() >= 8
                    &&& next_id == number_at(rest, 0)
                    &&& position == optional_at(optional)
                    &&& final(cursor).rest() == optional.skip(optional_length(optional))
                },
                Err(fault) => head_fault(rest, change.diffs@) == Some(fault@),
            }
        }),
{
    let ghost rest = cursor.rest();
    let next_id: u64 = match cursor.read_u64() {
        Some(value) => value,
        None => {
            return Err(StateFault::Truncated);
        },
    };
    if validate_next_id(next_id).is_err() {
        return Err(StateFault::NextId);
    }
    let ghost optional = rest.skip(8);
    let tag: u8 = match cursor.read_u8() {
        Some(tag) => tag,
        None => {
            return Err(StateFault::Truncated);
        },
    };
    let position: Option<Position> = if tag == 0 {
        None
    } else if tag == 1 {
        match decode_position(cursor) {
            Ok(position) => {
                assert(optional.skip(1).skip(16) =~= optional.skip(17));
                Some(position)
            },
            Err(_) => {
                return Err(StateFault::Truncated);
            },
        }
    } else {
        return Err(StateFault::PositionTag);
    };
    if let Some(found) = position {
        if validate_position_for_change(change, found).is_err() {
            return Err(StateFault::Position);
        }
        if validate_batch_boundary(change, found).is_err() {
            return Err(StateFault::Boundary);
        }
    }
    Ok((next_id, position))
}

fn read_numbers(cursor: &mut Cursor<'_>, count: usize) -> (numbers: Option<Vec<u64>>)
    requires
        old(cursor).wf(),
        count <= 65535,
    ensures
        final(cursor).wf(),
        final(cursor).bytes == old(cursor).bytes,
        numbers is Some <==> old(cursor).rest().len() >= 8 * count,
        numbers is Some ==> {
            &&& numbers->0@ == numbers_at(old(cursor).rest(), count as nat)
            &&& final(cursor).rest() == old(cursor).rest().skip(8 * count)
        },
{
    let ghost rest = cursor.rest();
    let mut numbers: Vec<u64> = Vec::new();
    let mut index: usize = 0;
    assert(rest.skip(0) =~= rest);
    while index < count
        invariant
            index <= count <= 65535,
            cursor.wf(),
            cursor.bytes == old(cursor).bytes,
            rest == old(cursor).rest(),
            rest.len() >= 8 * index,
            cursor.rest() == rest.skip(8 * index),
            numbers@ == numbers_at(rest, index as nat),
        decreases count - index,
    {
        let ghost part = cursor.rest();
        match cursor.read_u64() {
            Some(number) => {
                proof {
                    lemma_number_after(rest, 8 * index, 0);
                    assert(part.skip(8) =~= rest.skip(8 * (index + 1)));
                }
                numbers.push(number);
                assert(numbers@ =~= numbers_at(rest, (index + 1) as nat));
            },
            None => {
                return None;
            },
        }
        index += 1;
    }
    Some(numbers)
}

fn read_batch(cursor: &mut Cursor<'_>, position: Option<Position>, change: &Change) -> (result:
    Result<StepBatch, StateFault>)
    requires
        change.wf(),
        old(cursor).wf(),
    ensures
        final(cursor).wf(),
        final(cursor).bytes == old(cursor).bytes,
        ({
            let body = old(cursor).rest();
            match result {
                Ok(batch) => {
                    &&& body_fault(body, position, change.diffs@) is None
                    &&& batch_at(body, batch)
                    &&& followed_by(batch.continuation) == position
                    &&& batch.inserts@.len() == stored_inserts(body)
                    &&& batch.deletes@.len() == stored_deletes(body)
                    &&& final(cursor).rest() == body.skip(stored_length(body))
                },
                Err(fault) => body_fault(body, position, change.diffs@) == Some(fault@),
            }
        }),
{
    let ghost body = cursor.rest();
    let insert_count: u16 = match cursor.read_u16() {
        Some(count) => count,
        None => {
            return Err(StateFault::Truncated);
        },
    };
    let delete_count: u16 = match cursor.read_u16() {
        Some(count) => count,
        None => {
            return Err(StateFault::Truncated);
        },
    };
    proof {
        assert(body.skip(2).subrange(0, 2) =~= body.subrange(2, 4));
        assert(body.skip(2).skip(2) =~= body.skip(4));
    }
    let insert_count: usize = insert_count as usize;
    let delete_count: usize = delete_count as usize;
    let count: usize = insert_count + delete_count;
    let fits: bool = count > 0 && count <= MAX_MUTATIONS_PER_BATCH && (match position {
        Some(_) => count == MAX_MUTATIONS_PER_BATCH,
        None => count % 1024 == processed_modulo(change),
    });
    if !fits {
        return Err(StateFault::BatchSize);
    }
    let ghost after = body.skip(4);
    let pairs: Vec<(u64, u64)> = match read_pairs(cursor, insert_count) {
        Some(pairs) => pairs,
        None => {
            return Err(StateFault::Truncated);
        },
    };
    assert(after.skip(16 * insert_count) =~= body.skip(4 + 16 * insert_count));
    let deletes: Vec<u64> = match read_numbers(cursor, delete_count) {
        Some(deletes) => deletes,
        None => {
            return Err(StateFault::Truncated);
        },
    };
    assert(body.skip(4 + 16 * insert_count).skip(8 * delete_count) =~= body.skip(
        stored_length(body),
    ));
    let mut inserts: Vec<Insert> = Vec::new();
    let mut index: usize = 0;
    assert(insert_pairs(inserts@) =~= pairs@.take(0));
    while index < pairs.len()
        invariant
            index <= pairs@.len(),
            inserts@.len() == index,
            insert_pairs(inserts@) == pairs@.take(index as int),
        decreases pairs@.len() - index,
    {
        let pair: (u64, u64) = pairs[index];
        inserts.push(Insert { row_index: pair.0, technical_id: pair.1 });
        index += 1;
        assert(insert_pairs(inserts@) =~= pairs@.take(index as int));
    }
    assert(pairs@.take(index as int) =~= pairs@);
    let continuation: Continuation = match position {
        Some(position) => Continuation::Position(position),
        None => Continuation::Done,
    };
    Ok(StepBatch { inserts, deletes, continuation })
}

impl State {
    /// Encodes a state. A batch has at most as many mutations as two bytes can count.
    pub fn encode(&self) -> (bytes: Vec<u8>)
        requires
            self matches State::Prepared { next_id, batch } ==> batch.inserts@.len() <= 65535
                && batch.deletes@.len() <= 65535,
        ensures
            bytes@ == state_bytes(*self),
    {
        let mut bytes: Vec<u8> = Vec::new();
        bytes.push(1);
        match self {
            State::Initialize => {
                bytes.push(0);
            },
            State::Ready { next_id, position } => {
                bytes.push(1);
                assert(bytes@ =~= seq![1u8, 1u8]);
                push_be(&mut bytes, *next_id as u128, 8);
                push_optional(*position, &mut bytes);
            },
            State::Prepared { next_id, batch } => {
                bytes.push(2);
                assert(bytes@ =~= seq![1u8, 2u8]);
                push_be(&mut bytes, *next_id as u128, 8);
                let position: Option<Position> = match batch.continuation {
                    Continuation::Done => None,
                    Continuation::Position(position) => Some(position),
                };
                push_optional(position, &mut bytes);
                push_be(&mut bytes, batch.inserts.len() as u128, 2);
                push_be(&mut bytes, batch.deletes.len() as u128, 2);
                let ghost front = bytes@;
                let ghost pairs = insert_pairs(batch.inserts@);
                let mut index: usize = 0;
                assert(pairs.take(0) =~= Seq::empty());
                assert(bytes@ =~= front + pair_bytes(pairs.take(0)));
                while index < batch.inserts.len()
                    invariant
                        pairs == insert_pairs(batch.inserts@),
                        index <= batch.inserts@.len(),
                        bytes@ == front + pair_bytes(pairs.take(index as int)),
                    decreases batch.inserts@.len() - index,
                {
                    push_pair(
                        &mut bytes,
                        batch.inserts[index].row_index,
                        batch.inserts[index].technical_id,
                    );
                    proof {
                        assert(pairs.take(index + 1).drop_last() =~= pairs.take(index as int));
                        assert(pairs.take(index + 1).last() == pairs[index as int]);
                    }
                    index += 1;
                    assert(bytes@ =~= front + pair_bytes(pairs.take(index as int)));
                }
                assert(pairs.take(index as int) =~= pairs);
                let ghost middle = bytes@;
                let mut place: usize = 0;
                assert(batch.deletes@.take(0) =~= Seq::empty());
                assert(bytes@ =~= middle + number_bytes(batch.deletes@.take(0)));
                while place < batch.deletes.len()
                    invariant
                        place <= batch.deletes@.len(),
                        bytes@ == middle + number_bytes(batch.deletes@.take(place as int)),
                    decreases batch.deletes@.len() - place,
                {
                    push_be(&mut bytes, batch.deletes[place] as u128, 8);
                    proof {
                        assert(batch.deletes@.take(place + 1).drop_last() =~= batch.deletes@.take(
                            place as int,
                        ));
                    }
                    place += 1;
                    assert(bytes@ =~= middle + number_bytes(batch.deletes@.take(place as int)));
                }
                assert(batch.deletes@.take(place as int) =~= batch.deletes@);
            },
        }
        assert(bytes@ =~= state_bytes(*self));
        bytes
    }

    /// Decodes a stored state, and checks that it belongs to the change.
    pub fn decode(bytes: &[u8], change: &Change) -> (result: Result<State, StateFault>)
        requires
            change.wf(),
        ensures
            decodes(bytes@, *change, result_view(result)),
    {
        let mut cursor: Cursor<'_> = Cursor::new(bytes);
        let version: u8 = match cursor.read_u8() {
            Some(version) => version,
            None => {
                return Err(StateFault::Truncated);
            },
        };
        if version != 1 {
            return Err(StateFault::Version);
        }
        let tag: u8 = match cursor.read_u8() {
            Some(tag) => tag,
            None => {
                return Err(StateFault::Truncated);
            },
        };
        assert(bytes@.skip(1).skip(1) =~= bytes@.skip(2));
        if tag == 0 {
            if !cursor.at_end() {
                return Err(StateFault::Trailing);
            }
            return Ok(State::Initialize);
        }
        let (next_id, position): (u64, Option<Position>) = read_head(&mut cursor, change)?;
        if tag == 1 {
            if !cursor.at_end() {
                return Err(StateFault::Trailing);
            }
            return Ok(State::Ready { next_id, position });
        }
        if tag != 2 {
            return Err(StateFault::Phase);
        }
        let ghost body = cursor.rest();
        let batch: StepBatch = read_batch(&mut cursor, position, change)?;
        assert(batch_at(body, batch));
        validate_batch(&batch, next_id, change)?;
        if !cursor.at_end() {
            return Err(StateFault::Trailing);
        }
        Ok(State::Prepared { next_id, batch })
    }
}

/// Whether a state is one that a sink can have while it works on a change.
pub open spec fn state_fits(state: State, change: Change) -> bool {
    let diffs = change.diffs@;
    match state {
        State::Initialize => true,
        State::Ready { next_id, position } => id_in_range(next_id) && place_fault(position, diffs)
            is None,
        State::Prepared { next_id, batch } => {
            &&& id_in_range(next_id)
            &&& place_fault(followed_by(batch.continuation), diffs) is None
            &&& size_fits(
                batch.inserts@.len() + batch.deletes@.len(),
                followed_by(batch.continuation),
                diffs,
            )
            &&& batch_fault(batch, next_id, change) is None
        },
    }
}

proof fn lemma_number_bytes(numbers: Seq<u64>)
    ensures
        number_bytes(numbers).len() == 8 * numbers.len(),
        numbers_at(number_bytes(numbers), numbers.len()) == numbers,
    decreases numbers.len(),
{
    broadcast use lemma_be_bytes_len;

    let bytes = number_bytes(numbers);
    if numbers.len() > 0 {
        let before = number_bytes(numbers.drop_last());
        let last = be_bytes(numbers.last() as nat, 8);
        let count = numbers.len() - 1;
        lemma_number_bytes(numbers.drop_last());
        lemma_byte_ranges();
        lemma_be_round_trip(numbers.last() as nat, 8);
        assert(bytes.subrange(8 * count, 8 * count + 8) =~= last);
        assert forall|i: int| 0 <= i < count implies number_at(bytes, 8 * i) == numbers[i] by {
            assert(bytes.subrange(8 * i, 8 * i + 8) =~= before.subrange(8 * i, 8 * i + 8));
            assert(numbers_at(before, numbers.drop_last().len())[i] == numbers.drop_last()[i]);
        }
        assert(numbers_at(bytes, numbers.len()) =~= numbers);
    } else {
        assert(numbers_at(bytes, numbers.len()) =~= numbers);
    }
}

proof fn lemma_optional_read_back(position: Option<Position>, tail: Seq<u8>)
    ensures
        ({
            let bytes = optional_bytes(position) + tail;
            &&& optional_fault(bytes) is None
            &&& optional_at(bytes) == position
            &&& bytes.skip(optional_length(bytes)) == tail
        }),
{
    let bytes = optional_bytes(position) + tail;
    match position {
        None => {
            assert(bytes.skip(1) =~= tail);
        },
        Some(found) => {
            lemma_position_read_back(found, tail);
            assert(bytes.skip(1) =~= position_bytes(found) + tail);
            assert(bytes.skip(17) =~= tail);
        },
    }
}

/// The head of a stored state reads back as it was written.
proof fn lemma_head_read_back(
    tag: u8,
    next_id: u64,
    position: Option<Position>,
    body: Seq<u8>,
    bytes: Seq<u8>,
)
    requires
        bytes == seq![1u8, tag] + (be_bytes(next_id as nat, 8) + (optional_bytes(position) + body)),
    ensures
        bytes.len() >= 10,
        bytes[0] == 1,
        bytes[1] == tag,
        ({
            let rest = bytes.skip(2);
            let optional = rest.skip(8);
            &&& rest.len() >= 8
            &&& number_at(rest, 0) == next_id
            &&& optional_fault(optional) is None
            &&& optional_at(optional) == position
            &&& optional.skip(optional_length(optional)) == body
        }),
{
    broadcast use lemma_be_bytes_len;

    lemma_byte_ranges();
    lemma_be_round_trip(next_id as nat, 8);
    lemma_optional_read_back(position, body);
    let rest = bytes.skip(2);
    assert(rest =~= be_bytes(next_id as nat, 8) + (optional_bytes(position) + body));
    assert(rest.subrange(0, 8) =~= be_bytes(next_id as nat, 8));
    assert(rest.skip(8) =~= optional_bytes(position) + body);
}

/// A stored batch reads back as it was written.
proof fn lemma_body_read_back(batch: StepBatch)
    requires
        batch.inserts@.len() + batch.deletes@.len() <= MAX_MUTATIONS_PER_BATCH,
    ensures
        ({
            let body = be_bytes(batch.inserts@.len(), 2) + (be_bytes(batch.deletes@.len(), 2) + (
            pair_bytes(insert_pairs(batch.inserts@)) + number_bytes(batch.deletes@)));
            &&& stored_inserts(body) == batch.inserts@.len()
            &&& stored_deletes(body) == batch.deletes@.len()
            &&& body.len() == stored_length(body)
            &&& batch_at(body, batch)
        }),
{
    broadcast use lemma_be_bytes_len;

    let pairs = insert_pairs(batch.inserts@);
    let deletes = number_bytes(batch.deletes@);
    let body = be_bytes(batch.inserts@.len(), 2) + (be_bytes(batch.deletes@.len(), 2) + (
    pair_bytes(pairs) + deletes));
    lemma_byte_ranges();
    lemma_be_round_trip(batch.inserts@.len(), 2);
    lemma_be_round_trip(batch.deletes@.len(), 2);
    crate::relation::target::lemma_pair_bytes(pairs, deletes);
    lemma_number_bytes(batch.deletes@);
    assert(pairs.len() == batch.inserts@.len());
    assert(body.subrange(0, 2) =~= be_bytes(batch.inserts@.len(), 2));
    assert(body.subrange(2, 4) =~= be_bytes(batch.deletes@.len(), 2));
    assert(body.skip(4) =~= pair_bytes(pairs) + deletes);
    assert(body.skip(4 + 16 * stored_inserts(body) as int) =~= deletes);
}

/// Parts that are written one behind the other, put together from behind.
proof fn lemma_regroup(
    tags: Seq<u8>,
    a: Seq<u8>,
    b: Seq<u8>,
    c: Seq<u8>,
    d: Seq<u8>,
    e: Seq<u8>,
    f: Seq<u8>,
)
    ensures
        tags + a + b == tags + (a + (b + Seq::<u8>::empty())),
        tags + a + b + c + d + e + f == tags + (a + (b + (c + (d + (e + f))))),
{
    assert(tags + a + b =~= tags + (a + (b + Seq::<u8>::empty())));
    assert(tags + a + b + c + d + e + f =~= tags + (a + (b + (c + (d + (e + f))))));
}

/// A state that a sink can have while it works on a change reads back as it was written.
pub proof fn law_state_round_trip(state: State, change: Change)
    requires
        state_fits(state, change),
    ensures
        decodes(state_bytes(state), change, Ok(state)),
{
    let bytes = state_bytes(state);
    match state {
        State::Initialize => {},
        State::Ready { next_id, position } => {
            lemma_regroup(
                seq![1u8, 1u8],
                be_bytes(next_id as nat, 8),
                optional_bytes(position),
                Seq::empty(),
                Seq::empty(),
                Seq::empty(),
                Seq::empty(),
            );
            lemma_head_read_back(1, next_id, position, Seq::empty(), bytes);
        },
        State::Prepared { next_id, batch } => {
            let position = followed_by(batch.continuation);
            let body = be_bytes(batch.inserts@.len(), 2) + (be_bytes(batch.deletes@.len(), 2) + (
            pair_bytes(insert_pairs(batch.inserts@)) + number_bytes(batch.deletes@)));
            lemma_regroup(
                seq![1u8, 2u8],
                be_bytes(next_id as nat, 8),
                optional_bytes(position),
                be_bytes(batch.inserts@.len(), 2),
                be_bytes(batch.deletes@.len(), 2),
                pair_bytes(insert_pairs(batch.inserts@)),
                number_bytes(batch.deletes@),
            );
            lemma_head_read_back(2, next_id, position, body, bytes);
            lemma_body_read_back(batch);
            assert(batch_at(body, batch));
        },
    }
}

} // verus!
