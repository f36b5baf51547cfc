//! The control state of a buffer, and how it is stored.

use crate::bytes::{be_bytes, number_at, push_all, push_be, Cursor};
use crate::bytes::{lemma_be_bytes_len, lemma_be_round_trip, lemma_byte_ranges, lemma_number_after};
use vstd::prelude::*;

verus! {

/// A rule of the buffer that was broken.
#[derive(Clone, Copy, Debug, PartialEq, Eq, Structural)]
pub enum BufferFault {
    Truncated,
    Version,
    Phase,
    TrailingBytes,
    HeadTag,
    InvalidState,
    InvalidSettlement,
    NextBatchIdZero,
    BatchIdRange,
    BatchIdCapacity,
    EventLimitZero,
    EncodedLimitZero,
    ItemLimitZero,
    TargetLimitZero,
    EmptyBuffer,
    HeadReachesTail,
    EntryMissing { sequence: u64 },
    EntryTooLarge { sequence: u64 },
    EntryUndecodable { sequence: u64 },
    SchemaMismatch,
    EncodedOverflow,
    EntryBoundary,
    PositionMismatch,
    RowIndexOutside,
    ZeroCharge,
    OversizedMutation,
    RetainedUnderflow,
    PendingUnderflow,
    CountOverflow,
    PendingOverflow,
    PositiveOverflow,
    RetainedOverflow,
    SequenceExhausted,
    AccountingExceeded,
    AccountingMismatch,
    OutsideRange,
    CapacityExceeded,
    RetainedCapacity,
    EventCapacity,
    ChangeTooManyEvents,
    ItemCapacity,
    EntryExists { sequence: u64 },
    SettledEntryMissing { sequence: u64 },
    EventSettlement,
    DeliveryLimit,
    SettlementMismatch,
    PositiveSettlement,
    ControlTooLarge,
    InputPort,
    InputSchema,
    Failed,
    Target,
    PreparedInput,
}

/// Where the next event to deliver stands. A remainder of zero denotes the boundary of an
/// entry whose first multiplicity has not been read.
#[derive(Clone, Copy, Debug, PartialEq, Eq, Structural)]
pub struct Position {
    pub sequence: u64,
    pub row_index: u64,
    pub remaining: u64,
}

/// The boundary of the entry at `sequence`.
pub open spec fn boundary(sequence: u64) -> Position {
    Position { sequence, row_index: 0, remaining: 0 }
}

impl Position {
    pub fn entry_start(sequence: u64) -> (position: Position)
        ensures
            position == boundary(sequence),
    {
        Position { sequence, row_index: 0, remaining: 0 }
    }
}

/// What the buffer holds: entries from the head to before the tail.
#[derive(Clone, Copy, Debug, PartialEq, Eq, Structural)]
pub struct BufferState {
    pub head: Option<Position>,
    pub tail: u64,
    pub pending_events: u64,
    pub retained_bytes: u64,
}

/// The state of a buffer that holds nothing.
pub open spec fn empty_buffer() -> BufferState {
    BufferState { head: None, tail: 0, pending_events: 0, retained_bytes: 0 }
}

/// Whether a state can be that of a buffer: an empty one holds nothing, and in another one
/// each entry holds at least one event and the size of its key.
pub open spec fn buffer_valid(state: BufferState) -> bool {
    match state.head {
        None => state == empty_buffer(),
        Some(head) => {
            &&& head.sequence < state.tail
            &&& (head.remaining != 0 || head.row_index == 0)
            &&& state.pending_events != 0
            &&& state.pending_events >= head.remaining
            &&& state.tail - head.sequence <= state.pending_events
            &&& state.retained_bytes >= 8
        },
    }
}

impl BufferState {
    pub fn empty() -> (state: BufferState)
        ensures
            state == empty_buffer(),
    {
        BufferState { head: None, tail: 0, pending_events: 0, retained_bytes: 0 }
    }

    pub fn is_empty(self) -> (empty: bool)
        ensures
            empty == (self.head is None),
    {
        self.head.is_none()
    }

    pub fn validate(self) -> (result: Result<(), BufferFault>)
        ensures
            match result {
                Ok(_) => buffer_valid(self),
                Err(fault) => !buffer_valid(self) && fault == BufferFault::InvalidState,
            },
    {
        let valid = match self.head {
            None => self.tail == 0 && self.pending_events == 0 && self.retained_bytes == 0,
            Some(head) => head.sequence < self.tail && (head.remaining != 0 || head.row_index == 0)
                && self.pending_events != 0 && self.pending_events >= head.remaining && self.tail
                - head.sequence <= self.pending_events && self.retained_bytes >= 8,
        };
        if valid {
            Ok(())
        } else {
            Err(BufferFault::InvalidState)
        }
    }
}

/// Whether enough batch IDs are left to deliver each buffered event in a batch of its own.
pub open spec fn ids_last(buffer: BufferState, next_batch_id: u64) -> bool {
    next_batch_id != 0 && buffer.pending_events + next_batch_id <= u64::MAX
}

pub fn has_batch_id_capacity(buffer: BufferState, next_batch_id: u64) -> (capacity: bool)
    ensures
        capacity == ids_last(buffer, next_batch_id),
{
    next_batch_id != 0 && buffer.pending_events <= u64::MAX - next_batch_id
}

/// A buffer between deliveries, with what the target has confirmed.
#[derive(Clone, Copy, Debug, PartialEq, Eq, Structural)]
pub struct Ready {
    pub buffer: BufferState,
    pub next_batch_id: u64,
    pub checkpoint: u64,
}

/// A delivery that may have reached the target, with the stored plan of it.
#[derive(Debug, PartialEq, Eq)]
pub struct Prepared {
    pub before: BufferState,
    pub after: BufferState,
    pub batch_id: u64,
    pub checkpoint: u64,
    pub plan: Vec<u8>,
}

/// The durable phase of a buffered sink.
#[derive(Debug, PartialEq, Eq)]
pub enum State {
    Initialize,
    Ready(Ready),
    Prepared(Prepared),
}

/// Whether the head moves forward from `start` to `end`.
pub open spec fn head_moves(start: Position, end: Position) -> bool {
    ||| end.sequence > start.sequence
    ||| end.sequence == start.sequence && end.row_index > start.row_index
    ||| end.sequence == start.sequence && end.row_index == start.row_index && (
    if start.remaining == 0 {
        end.remaining != 0
    } else {
        end.remaining < start.remaining
    })
}

/// Whether one delivery can lead from `before` to `after`: the head moves forward, fewer
/// events remain, and no bytes are added.
pub open spec fn settles(before: BufferState, after: BufferState) -> bool {
    &&& buffer_valid(before)
    &&& buffer_valid(after)
    &&& before.head is Some
    &&& after.head is Some ==> before.tail == after.tail && head_moves(
        before.head->0,
        after.head->0,
    )
    &&& after.pending_events < before.pending_events
    &&& after.retained_bytes <= before.retained_bytes
}

pub fn validate_settlement(before: BufferState, after: BufferState) -> (result: Result<
    (),
    BufferFault,
>)
    ensures
        match result {
            Ok(_) => settles(before, after),
            Err(fault) => !settles(before, after) && fault == (if buffer_valid(before)
                && buffer_valid(after) {
                BufferFault::InvalidSettlement
            } else {
                BufferFault::InvalidState
            }),
        },
{
    before.validate()?;
    after.validate()?;
    let progress = match (before.head, after.head) {
        (Some(_), None) => true,
        (Some(start), Some(end)) => before.tail == after.tail && (end.sequence > start.sequence || (
        end.sequence == start.sequence && (end.row_index > start.row_index || (end.row_index
            == start.row_index && if start.remaining == 0 {
            end.remaining != 0
        } else {
            end.remaining < start.remaining
        })))),
        (None, _) => false,
    };
    if !progress || after.pending_events >= before.pending_events || after.retained_bytes
        > before.retained_bytes {
        return Err(BufferFault::InvalidSettlement);
    }
    Ok(())
}

/// Why a state cannot be stored, if it cannot.
pub open spec fn state_fault(state: State) -> Option<BufferFault> {
    match state {
        State::Initialize => None,
        State::Ready(ready) => if !buffer_valid(ready.buffer) {
            Some(BufferFault::InvalidState)
        } else if ready.next_batch_id == 0 {
            Some(BufferFault::NextBatchIdZero)
        } else if !ids_last(ready.buffer, ready.next_batch_id) {
            Some(BufferFault::BatchIdCapacity)
        } else {
            None
        },
        State::Prepared(prepared) => if !buffer_valid(prepared.before) || !buffer_valid(
            prepared.after,
        ) {
            Some(BufferFault::InvalidState)
        } else if !settles(prepared.before, prepared.after) {
            Some(BufferFault::InvalidSettlement)
        } else if prepared.batch_id == 0 || prepared.batch_id == u64::MAX {
            Some(BufferFault::BatchIdRange)
        } else if !ids_last(prepared.after, (prepared.batch_id + 1) as u64) {
            Some(BufferFault::BatchIdCapacity)
        } else {
            None
        },
    }
}

/// How a buffer state is stored: a tag for its head, then its numbers.
#[verifier::opaque]
pub open spec fn buffer_bytes(buffer: BufferState) -> Seq<u8> {
    (match buffer.head {
        None => seq![0u8],
        Some(head) => seq![1u8] + be_bytes(head.sequence as nat, 8) + be_bytes(
            head.row_index as nat,
            8,
        ) + be_bytes(head.remaining as nat, 8),
    }) + be_bytes(buffer.tail as nat, 8) + be_bytes(buffer.pending_events as nat, 8) + be_bytes(
        buffer.retained_bytes as nat,
        8,
    )
}

/// How a state is stored: a version, a phase, and what the phase holds.
pub open spec fn state_bytes(state: State) -> Seq<u8> {
    match state {
        State::Initialize => seq![1u8, 0u8],
        State::Ready(ready) => seq![1u8, 1u8] + buffer_bytes(ready.buffer) + be_bytes(
            ready.next_batch_id as nat,
            8,
        ) + be_bytes(ready.checkpoint as nat, 8),
        State::Prepared(prepared) => seq![1u8, 2u8] + buffer_bytes(prepared.before) + buffer_bytes(
            prepared.after,
        ) + be_bytes(prepared.batch_id as nat, 8) + be_bytes(prepared.checkpoint as nat, 8)
            + prepared.plan@,
    }
}

fn encode_buffer(buffer: BufferState, output: &mut Vec<u8>)
    ensures
        final(output)@ == old(output)@ + buffer_bytes(buffer),
{
    proof {
        reveal(buffer_bytes);
    }
    match buffer.head {
        None => output.push(0),
        Some(head) => {
            output.push(1);
            push_be(output, head.sequence as u128, 8);
            push_be(output, head.row_index as u128, 8);
            push_be(output, head.remaining as u128, 8);
        },
    }
    push_be(output, buffer.tail as u128, 8);
    push_be(output, buffer.pending_events as u128, 8);
    push_be(output, buffer.retained_bytes as u128, 8);
    assert(output@ =~= old(output)@ + buffer_bytes(buffer));
}

impl State {
    pub fn validate(&self) -> (result: Result<(), BufferFault>)
        ensures
            match result {
                Ok(_) => state_fault(*self) is None,
                Err(fault) => state_fault(*self) == Some(fault),
            },
    {
        match self {
            State::Initialize => Ok(()),
            State::Ready(ready) => {
                ready.buffer.validate()?;
                if ready.next_batch_id == 0 {
                    Err(BufferFault::NextBatchIdZero)
                } else if !has_batch_id_capacity(ready.buffer, ready.next_batch_id) {
                    Err(BufferFault::BatchIdCapacity)
                } else {
                    Ok(())
                }
            },
            State::Prepared(prepared) => {
                validate_settlement(prepared.before, prepared.after)?;
                if prepared.batch_id == 0 || prepared.batch_id == u64::MAX {
                    Err(BufferFault::BatchIdRange)
                } else if !has_batch_id_capacity(prepared.after, prepared.batch_id + 1) {
                    Err(BufferFault::BatchIdCapacity)
                } else {
                    Ok(())
                }
            },
        }
    }

    pub fn encode(&self) -> (output: Vec<u8>)
        ensures
            output@ == state_bytes(*self),
    {
        let mut output: Vec<u8> = Vec::new();
        output.push(1);
        match self {
            State::Initialize => output.push(0),
            State::Ready(ready) => {
                output.push(1);
                encode_buffer(ready.buffer, &mut output);
                push_be(&mut output, ready.next_batch_id as u128, 8);
                push_be(&mut output, ready.checkpoint as u128, 8);
            },
            State::Prepared(prepared) => {
                output.push(2);
                encode_buffer(prepared.before, &mut output);
                encode_buffer(prepared.after, &mut output);
                push_be(&mut output, prepared.batch_id as u128, 8);
                push_be(&mut output, prepared.checkpoint as u128, 8);
                push_all(&mut output, prepared.plan.as_slice());
            },
        }
        assert(output@ =~= state_bytes(*self));
        output
    }
}

/// The length of the buffer state that bytes begin with, going by its tag.
pub open spec fn buffer_length(bytes: Seq<u8>) -> int {
    if bytes[0] == 0 {
        25
    } else {
        49
    }
}

/// The buffer state that bytes begin with.
#[verifier::opaque]
pub open spec fn buffer_at(bytes: Seq<u8>) -> BufferState {
    let fixed = buffer_length(bytes) - 24;
    BufferState {
        head: if bytes[0] == 0 {
            None
        } else {
            Some(
                Position {
                    sequence: number_at(bytes, 1),
                    row_index: number_at(bytes, 9),
                    remaining: number_at(bytes, 17),
                },
            )
        },
        tail: number_at(bytes, fixed),
        pending_events: number_at(bytes, fixed + 8),
        retained_bytes: number_at(bytes, fixed + 16),
    }
}

/// Why bytes do not begin with a buffer state, if they do not.
pub open spec fn buffer_fault(bytes: Seq<u8>) -> Option<BufferFault> {
    if bytes.len() == 0 {
        Some(BufferFault::Truncated)
    } else if bytes[0] > 1 {
        Some(BufferFault::HeadTag)
    } else if bytes.len() < buffer_length(bytes) {
        Some(BufferFault::Truncated)
    } else if !buffer_valid(buffer_at(bytes)) {
        Some(BufferFault::InvalidState)
    } else {
        None
    }
}

/// What stored bytes say, where the plan of a delivery is all that follows the rest of it.
pub open spec fn decoded(bytes: Seq<u8>, state: State) -> bool {
    let rest = bytes.skip(2);
    match state {
        State::Initialize => bytes[1] == 0,
        State::Ready(ready) => {
            let end = buffer_length(rest);
            &&& bytes[1] == 1
            &&& ready.buffer == buffer_at(rest)
            &&& ready.next_batch_id == number_at(rest, end)
            &&& ready.checkpoint == number_at(rest, end + 8)
        },
        State::Prepared(prepared) => {
            let middle = rest.skip(buffer_length(rest));
            let end = buffer_length(middle);
            &&& bytes[1] == 2
            &&& prepared.before == buffer_at(rest)
            &&& prepared.after == buffer_at(middle)
            &&& prepared.batch_id == number_at(middle, end)
            &&& prepared.checkpoint == number_at(middle, end + 8)
            &&& prepared.plan@ == middle.skip(end + 16)
        },
    }
}

/// Why the bytes of a buffer between deliveries cannot be read, if they cannot.
pub open spec fn ready_fault(rest: Seq<u8>) -> Option<BufferFault> {
    let end = buffer_length(rest);
    if buffer_fault(rest) is Some {
        buffer_fault(rest)
    } else if rest.len() < end + 8 {
        Some(BufferFault::Truncated)
    } else if number_at(rest, end) == 0 {
        Some(BufferFault::NextBatchIdZero)
    } else if !ids_last(buffer_at(rest), number_at(rest, end)) {
        Some(BufferFault::BatchIdCapacity)
    } else if rest.len() < end + 16 {
        Some(BufferFault::Truncated)
    } else if rest.len() > end + 16 {
        Some(BufferFault::TrailingBytes)
    } else {
        None
    }
}

/// Why the bytes of a prepared delivery cannot be read, if they cannot.
pub open spec fn prepared_fault(rest: Seq<u8>) -> Option<BufferFault> {
    let middle = rest.skip(buffer_length(rest));
    let end = buffer_length(middle);
    if buffer_fault(rest) is Some {
        buffer_fault(rest)
    } else if buffer_fault(middle) is Some {
        buffer_fault(middle)
    } else if !settles(buffer_at(rest), buffer_at(middle)) {
        Some(BufferFault::InvalidSettlement)
    } else if middle.len() < end + 8 {
        Some(BufferFault::Truncated)
    } else if number_at(middle, end) == 0 || number_at(middle, end) == u64::MAX {
        Some(BufferFault::BatchIdRange)
    } else if !ids_last(buffer_at(middle), (number_at(middle, end) + 1) as u64) {
        Some(BufferFault::BatchIdCapacity)
    } else if middle.len() < end + 16 {
        Some(BufferFault::Truncated)
    } else {
        None
    }
}

/// Why stored bytes cannot be read, if they cannot.
pub open spec fn decode_fault(bytes: Seq<u8>) -> Option<BufferFault> {
    if bytes.len() == 0 {
        Some(BufferFault::Truncated)
    } else if bytes[0] != 1 {
        Some(BufferFault::Version)
    } else if bytes.len() == 1 {
        Some(BufferFault::Truncated)
    } else if bytes[1] == 0 {
        if bytes.len() > 2 {
            Some(BufferFault::TrailingBytes)
        } else {
            None
        }
    } else if bytes[1] == 1 {
        ready_fault(bytes.skip(2))
    } else if bytes[1] == 2 {
        prepared_fault(bytes.skip(2))
    } else {
        Some(BufferFault::Phase)
    }
}

/// Reads one byte.
fn read_byte(input: &mut Cursor<'_>) -> (result: Result<u8, BufferFault>)
    requires
        old(input).wf(),
    ensures
        final(input).wf(),
        final(input).bytes == old(input).bytes,
        match result {
            Ok(value) => {
                &&& old(input).rest().len() >= 1
                &&& value == old(input).rest()[0]
                &&& final(input).rest() == old(input).rest().skip(1)
            },
            Err(fault) => old(input).rest().len() < 1 && fault == BufferFault::Truncated,
        },
{
    match input.read_u8() {
        Some(value) => Ok(value),
        None => Err(BufferFault::Truncated),
    }
}

/// Reads a number of eight bytes.
fn read_number(input: &mut Cursor<'_>) -> (result: Result<u64, BufferFault>)
    requires
        old(input).wf(),
    ensures
        final(input).wf(),
        final(input).bytes == old(input).bytes,
        match result {
            Ok(value) => {
                &&& old(input).rest().len() >= 8
                &&& value == number_at(old(input).rest(), 0)
                &&& final(input).rest() == old(input).rest().skip(8)
            },
            Err(fault) => old(input).rest().len() < 8 && fault == BufferFault::Truncated,
        },
{
    match input.read_u64() {
        Some(value) => Ok(value),
        None => Err(BufferFault::Truncated),
    }
}

fn decode_buffer(input: &mut Cursor<'_>) -> (result: Result<BufferState, BufferFault>)
    requires
        old(input).wf(),
    ensures
        final(input).wf(),
        final(input).bytes == old(input).bytes,
        match result {
            Ok(buffer) => {
                &&& buffer_fault(old(input).rest()) is None
                &&& buffer == buffer_at(old(input).rest())
                &&& final(input).rest() == old(input).rest().skip(buffer_length(old(input).rest()))
            },
            Err(fault) => buffer_fault(old(input).rest()) == Some(fault),
        },
{
    let ghost rest = input.rest();
    proof {
        reveal(buffer_at);
    }
    let tag: u8 = read_byte(input)?;
    let head: Option<Position> = if tag == 0 {
        None
    } else if tag == 1 {
        let sequence: u64 = read_number(input)?;
        assert(rest.skip(1).skip(8) =~= rest.skip(9));
        let row_index: u64 = read_number(input)?;
        assert(rest.skip(9).skip(8) =~= rest.skip(17));
        let remaining: u64 = read_number(input)?;
        assert(rest.skip(17).skip(8) =~= rest.skip(25));
        proof {
            lemma_number_after(rest, 1, 0);
            lemma_number_after(rest, 9, 0);
            lemma_number_after(rest, 17, 0);
        }
        Some(Position { sequence, row_index, remaining })
    } else {
        return Err(BufferFault::HeadTag);
    };
    let ghost fixed = buffer_length(rest) - 24;
    assert(input.rest() == rest.skip(fixed));
    let tail: u64 = read_number(input)?;
    assert(rest.skip(fixed).skip(8) =~= rest.skip(fixed + 8));
    let pending_events: u64 = read_number(input)?;
    assert(rest.skip(fixed + 8).skip(8) =~= rest.skip(fixed + 16));
    let retained_bytes: u64 = read_number(input)?;
    assert(rest.skip(fixed + 16).skip(8) =~= rest.skip(fixed + 24));
    proof {
        lemma_number_after(rest, fixed, 0);
        lemma_number_after(rest, fixed + 8, 0);
        lemma_number_after(rest, fixed + 16, 0);
    }
    let state: BufferState = BufferState { head, tail, pending_events, retained_bytes };
    state.validate()?;
    Ok(state)
}

/// Reads a stored state. The plan of a prepared delivery is taken as it is.
pub fn decode_header(bytes: &[u8]) -> (result: Result<State, BufferFault>)
    ensures
        match result {
            Ok(state) => decode_fault(bytes@) is None && decoded(bytes@, state),
            Err(fault) => decode_fault(bytes@) == Some(fault),
        },
{
    let mut input: Cursor<'_> = Cursor::new(bytes);
    let version: u8 = read_byte(&mut input)?;
    if version != 1 {
        return Err(BufferFault::Version);
    }
    let phase: u8 = read_byte(&mut input)?;
    let ghost rest = input.rest();
    assert(bytes@.skip(1).skip(1) =~= bytes@.skip(2));
    if phase == 0 {
        if !input.at_end() {
            return Err(BufferFault::TrailingBytes);
        }
        Ok(State::Initialize)
    } else if phase == 1 {
        let buffer: BufferState = decode_buffer(&mut input)?;
        let ghost end = buffer_length(rest);
        let next_batch_id: u64 = read_number(&mut input)?;
        proof {
            lemma_number_after(rest, end, 0);
            assert(rest.skip(end).skip(8) =~= rest.skip(end + 8));
        }
        if next_batch_id == 0 {
            return Err(BufferFault::NextBatchIdZero);
        }
        if !has_batch_id_capacity(buffer, next_batch_id) {
            return Err(BufferFault::BatchIdCapacity);
        }
        let checkpoint: u64 = read_number(&mut input)?;
        proof {
            lemma_number_after(rest, end + 8, 0);
        }
        if !input.at_end() {
            return Err(BufferFault::TrailingBytes);
        }
        Ok(State::Ready(Ready { buffer, next_batch_id, checkpoint }))
    } else if phase == 2 {
        let before: BufferState = decode_buffer(&mut input)?;
        let ghost middle = input.rest();
        let after: BufferState = decode_buffer(&mut input)?;
        let ghost end = buffer_length(middle);
        validate_settlement(before, after)?;
        let batch_id: u64 = read_number(&mut input)?;
        proof {
            lemma_number_after(middle, end, 0);
            assert(middle.skip(end).skip(8) =~= middle.skip(end + 8));
        }
        if batch_id == 0 || batch_id == u64::MAX {
            return Err(BufferFault::BatchIdRange);
        }
        if !has_batch_id_capacity(after, batch_id + 1) {
            return Err(BufferFault::BatchIdCapacity);
        }
        let checkpoint: u64 = read_number(&mut input)?;
        proof {
            lemma_number_after(middle, end + 8, 0);
            assert(middle.skip(end + 8).skip(8) =~= middle.skip(end + 16));
        }
        let length: usize = input.bytes.len() - input.offset;
        let plan: Vec<u8> = match input.read_bytes(length) {
            Some(plan) => plan,
            None => {
                return Err(BufferFault::Truncated);
            },
        };
        assert(plan@ =~= middle.skip(end + 16));
        Ok(State::Prepared(Prepared { before, after, batch_id, checkpoint, plan }))
    } else {
        Err(BufferFault::Phase)
    }
}

proof fn lemma_buffer_round_trip(buffer: BufferState, tail: Seq<u8>)
    requires
        buffer_valid(buffer),
    ensures
        buffer_fault(buffer_bytes(buffer) + tail) is None,
        buffer_at(buffer_bytes(buffer) + tail) == buffer,
        buffer_length(buffer_bytes(buffer) + tail) == buffer_bytes(buffer).len(),
        (buffer_bytes(buffer) + tail).skip(buffer_bytes(buffer).len() as int) == tail,
{
    broadcast use lemma_be_bytes_len;

    reveal(buffer_bytes);
    reveal(buffer_at);
    lemma_byte_ranges();
    let bytes = buffer_bytes(buffer) + tail;
    let fixed = if buffer.head is None {
        1
    } else {
        25
    };
    if buffer.head is Some {
        let head = buffer.head->0;
        assert(bytes.subrange(1, 9) =~= be_bytes(head.sequence as nat, 8));
        assert(bytes.subrange(9, 17) =~= be_bytes(head.row_index as nat, 8));
        assert(bytes.subrange(17, 25) =~= be_bytes(head.remaining as nat, 8));
        lemma_be_round_trip(head.sequence as nat, 8);
        lemma_be_round_trip(head.row_index as nat, 8);
        lemma_be_round_trip(head.remaining as nat, 8);
    }
    assert(bytes.subrange(fixed, fixed + 8) =~= be_bytes(buffer.tail as nat, 8));
    assert(bytes.subrange(fixed + 8, fixed + 16) =~= be_bytes(buffer.pending_events as nat, 8));
    assert(bytes.subrange(fixed + 16, fixed + 24) =~= be_bytes(buffer.retained_bytes as nat, 8));
    lemma_be_round_trip(buffer.tail as nat, 8);
    lemma_be_round_trip(buffer.pending_events as nat, 8);
    lemma_be_round_trip(buffer.retained_bytes as nat, 8);
    assert(bytes.skip(buffer_bytes(buffer).len() as int) =~= tail);
}

proof fn lemma_ready_round_trip(ready: Ready)
    requires
        state_fault(State::Ready(ready)) is None,
    ensures
        ({
            let rest = buffer_bytes(ready.buffer) + (be_bytes(ready.next_batch_id as nat, 8)
                + be_bytes(ready.checkpoint as nat, 8));
            let end = buffer_length(rest);
            &&& ready_fault(rest) is None
            &&& ready.buffer == buffer_at(rest)
            &&& ready.next_batch_id == number_at(rest, end)
            &&& ready.checkpoint == number_at(rest, end + 8)
        }),
{
    broadcast use lemma_be_bytes_len;

    lemma_byte_ranges();
    let next = be_bytes(ready.next_batch_id as nat, 8);
    let checkpoint = be_bytes(ready.checkpoint as nat, 8);
    let rest = buffer_bytes(ready.buffer) + (next + checkpoint);
    lemma_buffer_round_trip(ready.buffer, next + checkpoint);
    let end = buffer_length(rest);
    assert(rest.subrange(end, end + 8) =~= next);
    assert(rest.subrange(end + 8, end + 16) =~= checkpoint);
    lemma_be_round_trip(ready.next_batch_id as nat, 8);
    lemma_be_round_trip(ready.checkpoint as nat, 8);
}

proof fn lemma_prepared_round_trip(prepared: Prepared)
    requires
        state_fault(State::Prepared(prepared)) is None,
    ensures
        ({
            let tail = be_bytes(prepared.batch_id as nat, 8) + be_bytes(
                prepared.checkpoint as nat,
                8,
            ) + prepared.plan@;
            let rest = buffer_bytes(prepared.before) + (buffer_bytes(prepared.after) + tail);
            let middle = rest.skip(buffer_length(rest));
            let end = buffer_length(middle);
            &&& prepared_fault(rest) is None
            &&& prepared.before == buffer_at(rest)
            &&& prepared.after == buffer_at(middle)
            &&& prepared.batch_id == number_at(middle, end)
            &&& prepared.checkpoint == number_at(middle, end + 8)
            &&& prepared.plan@ == middle.skip(end + 16)
        }),
{
    broadcast use lemma_be_bytes_len;

    lemma_byte_ranges();
    let id = be_bytes(prepared.batch_id as nat, 8);
    let checkpoint = be_bytes(prepared.checkpoint as nat, 8);
    let tail = id + checkpoint + prepared.plan@;
    let middle = buffer_bytes(prepared.after) + tail;
    lemma_buffer_round_trip(prepared.before, middle);
    lemma_buffer_round_trip(prepared.after, tail);
    let end = buffer_length(middle);
    assert(middle.subrange(end, end + 8) =~= id);
    assert(middle.subrange(end + 8, end + 16) =~= checkpoint);
    assert(middle.skip(end + 16) =~= prepared.plan@);
    lemma_be_round_trip(prepared.batch_id as nat, 8);
    lemma_be_round_trip(prepared.checkpoint as nat, 8);
}

proof fn lemma_behind_tags(tags: Seq<u8>, a: Seq<u8>, b: Seq<u8>, c: Seq<u8>, d: Seq<u8>, e: Seq<u8>)
    requires
        tags.len() == 2,
    ensures
        (tags + a + b + c).skip(2) == a + (b + c),
        (tags + a + b + c + d + e).skip(2) == a + (b + (c + d + e)),
{
    assert((tags + a + b + c).skip(2) =~= a + (b + c));
    assert((tags + a + b + c + d + e).skip(2) =~= a + (b + (c + d + e)));
}

/// A state that may be stored reads back as it was written.
pub proof fn law_state_round_trip(state: State)
    requires
        state_fault(state) is None,
    ensures
        decode_fault(state_bytes(state)) is None,
        decoded(state_bytes(state), state),
{
    let bytes = state_bytes(state);
    let rest = bytes.skip(2);
    match state {
        State::Initialize => {},
        State::Ready(ready) => {
            lemma_ready_round_trip(ready);
            lemma_behind_tags(
                seq![1u8, 1u8],
                buffer_bytes(ready.buffer),
                be_bytes(ready.next_batch_id as nat, 8),
                be_bytes(ready.checkpoint as nat, 8),
                Seq::empty(),
                Seq::empty(),
            );
            assert(bytes[0] == 1 && bytes[1] == 1 && bytes.len() >= 2);
        },
        State::Prepared(prepared) => {
            lemma_prepared_round_trip(prepared);
            lemma_behind_tags(
                seq![1u8, 2u8],
                buffer_bytes(prepared.before),
                buffer_bytes(prepared.after),
                be_bytes(prepared.batch_id as nat, 8),
                be_bytes(prepared.checkpoint as nat, 8),
                prepared.plan@,
            );
            assert(bytes[0] == 1 && bytes[1] == 2 && bytes.len() >= 2);
        },
    }
}

/// What is read may be stored: a state that was read keeps all rules of stored states.
pub proof fn law_decoded_state_is_valid(bytes: Seq<u8>, state: State)
    requires
        decode_fault(bytes) is None,
        decoded(bytes, state),
    ensures
        state_fault(state) is None,
{
}

} // verus!
