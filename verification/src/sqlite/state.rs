//! The durable continuation of a SQLite sink.

use crate::bytes::{be_bytes, be_value, number_at, push_be, Cursor};
use crate::bytes::{lemma_be_bytes_len, lemma_be_round_trip, lemma_byte_ranges, lemma_number_after};
use crate::relation::batch::{MAX_MUTATIONS_PER_BATCH, MAX_TECHNICAL_ID};
use crate::relation::position::{last_insert, Continuation, Mutation, MutationKind, Position};
use crate::text::{decimal, push_decimal};
use vstd::prelude::*;

verus! {

/// What a sink has begun and not finished.
#[derive(Clone, Debug, PartialEq, Eq)]
pub enum PendingState {
    Initialize,
    Prepare { position: Position },
    Apply { start_position: Position, continuation: Continuation, mutations: Vec<Mutation> },
}

/// Why a continuation cannot be encoded or decoded.
#[derive(Clone, Copy, Debug, PartialEq, Eq, Structural)]
pub enum PendingStateCodecError {
    Truncated,
    UnsupportedVersion(u16),
    UnknownStateTag(u8),
    UnknownContinuationTag(u8),
    UnknownMutationKindTag(u8),
    TrailingBytes,
    ZeroRemaining,
    EmptyMutationBatch,
    TooManyMutations(usize),
    InvalidTechnicalId(u64),
    FirstMutationRowMismatch,
    NonContiguousMutationRows,
    MixedMutationKinds,
    NonConsecutiveInsertIds,
    NonIncreasingDeleteIds,
    DuplicateDeleteId,
    StartRemainderExceeded,
    InvalidContinuation,
}

/// Whether one of the first `count` mutations deletes `id`.
pub open spec fn deletes_id(mutations: Seq<Mutation>, count: int, id: u64) -> bool {
    exists|i: int|
        0 <= i < count && (#[trigger] mutations[i]).kind is Delete && mutations[i].technical_id
            == id
}

/// How many of the first `count` mutations belong to `row`.
pub open spec fn count_in_row(mutations: Seq<Mutation>, row: u64, count: int) -> nat
    decreases count,
{
    if count <= 0 {
        0
    } else if mutations[count - 1].row_index == row {
        count_in_row(mutations, row, count - 1) + 1
    } else {
        count_in_row(mutations, row, count - 1)
    }
}

/// Why a mutation cannot follow the ones before it, if it cannot.
pub open spec fn mutation_fault(mutations: Seq<Mutation>, index: int) -> Option<
    PendingStateCodecError,
> {
    let mutation = mutations[index];
    let previous = mutations[index - 1];
    if mutation.technical_id == 0 || mutation.technical_id > MAX_TECHNICAL_ID {
        Some(PendingStateCodecError::InvalidTechnicalId(mutation.technical_id))
    } else if index > 0 && mutation.row_index == previous.row_index && mutation.kind
        != previous.kind {
        Some(PendingStateCodecError::MixedMutationKinds)
    } else if index > 0 && mutation.row_index == previous.row_index && mutation.kind is Delete
        && mutation.technical_id <= previous.technical_id {
        Some(PendingStateCodecError::NonIncreasingDeleteIds)
    } else if index > 0 && mutation.row_index != previous.row_index && mutation.row_index
        != previous.row_index + 1 {
        Some(PendingStateCodecError::NonContiguousMutationRows)
    } else if mutation.kind is Insert && last_insert(mutations, index) is Some
        && mutation.technical_id != last_insert(mutations, index)->0 + 1 {
        Some(PendingStateCodecError::NonConsecutiveInsertIds)
    } else if mutation.kind is Delete && deletes_id(mutations, index, mutation.technical_id) {
        Some(PendingStateCodecError::DuplicateDeleteId)
    } else {
        None
    }
}

/// The first reason among the first `count` mutations.
pub open spec fn sequence_fault(mutations: Seq<Mutation>, count: int) -> Option<
    PendingStateCodecError,
>
    decreases count,
{
    if count <= 0 {
        None
    } else {
        match sequence_fault(mutations, count - 1) {
            Some(fault) => Some(fault),
            None => mutation_fault(mutations, count - 1),
        }
    }
}

/// Whether what follows a batch is what its mutations leave to be done.
pub open spec fn continues(
    start_position: Position,
    continuation: Continuation,
    mutations: Seq<Mutation>,
) -> bool {
    let taken = count_in_row(mutations, start_position.row_index, mutations.len() as int);
    let last_row = mutations.last().row_index;
    match continuation {
        Continuation::Done => taken >= start_position.remaining,
        Continuation::Position(position) => {
            &&& mutations.len() == MAX_MUTATIONS_PER_BATCH
            &&& if taken < start_position.remaining {
                &&& last_row == start_position.row_index
                &&& position.row_index == start_position.row_index
                &&& position.remaining == start_position.remaining - taken
            } else {
                &&& position.row_index == last_row || position.row_index == last_row + 1
                &&& position.row_index != start_position.row_index
            }
        },
    }
}

/// Why a batch is not in its canonical form, if it is not.
pub open spec fn apply_fault(
    start_position: Position,
    continuation: Continuation,
    mutations: Seq<Mutation>,
) -> Option<PendingStateCodecError> {
    let count = mutations.len() as int;
    if start_position.remaining == 0 {
        Some(PendingStateCodecError::ZeroRemaining)
    } else if continuation is Position && continuation->Position_0.remaining == 0 {
        Some(PendingStateCodecError::ZeroRemaining)
    } else if count == 0 {
        Some(PendingStateCodecError::EmptyMutationBatch)
    } else if count > MAX_MUTATIONS_PER_BATCH {
        Some(PendingStateCodecError::TooManyMutations(count as usize))
    } else if mutations[0].row_index != start_position.row_index {
        Some(PendingStateCodecError::FirstMutationRowMismatch)
    } else if sequence_fault(mutations, count) is Some {
        sequence_fault(mutations, count)
    } else if count_in_row(mutations, start_position.row_index, count)
        > start_position.remaining {
        Some(PendingStateCodecError::StartRemainderExceeded)
    } else if !continues(start_position, continuation, mutations) {
        Some(PendingStateCodecError::InvalidContinuation)
    } else {
        None
    }
}

/// Why a continuation may not be stored, if it may not.
pub open spec fn pending_fault(state: PendingState) -> Option<PendingStateCodecError> {
    match state {
        PendingState::Initialize => None,
        PendingState::Prepare { position } => if position.remaining == 0 {
            Some(PendingStateCodecError::ZeroRemaining)
        } else {
            None
        },
        PendingState::Apply { start_position, continuation, mutations } => apply_fault(
            start_position,
            continuation,
            mutations@,
        ),
    }
}

pub proof fn lemma_sequence_fault_stays(mutations: Seq<Mutation>, low: int, high: int)
    requires
        low <= high,
        sequence_fault(mutations, low) is Some,
    ensures
        sequence_fault(mutations, high) == sequence_fault(mutations, low),
    decreases high - low,
{
    if low < high {
        lemma_sequence_fault_stays(mutations, low, high - 1);
    }
}

pub(crate) fn validate_position(position: Position) -> (result: Result<(), PendingStateCodecError>)
    ensures
        match result {
            Ok(_) => position.remaining != 0,
            Err(error) => {
                &&& position.remaining == 0
                &&& error == PendingStateCodecError::ZeroRemaining
            },
        },
{
    if position.remaining == 0 {
        Err(PendingStateCodecError::ZeroRemaining)
    } else {
        Ok(())
    }
}

/// Whether an ID is among those that were deleted before.
pub(crate) fn holds_id(ids: &Vec<u64>, id: u64) -> (found: bool)
    ensures
        found == ids@.contains(id),
{
    let mut index: usize = 0;
    while index < ids.len()
        invariant
            index <= ids@.len(),
            forall|i: int| 0 <= i < index ==> ids@[i] != id,
        decreases ids@.len() - index,
    {
        if ids[index] == id {
            assert(ids@[index as int] == id);
            return true;
        }
        index += 1;
    }
    false
}

/// Checks one mutation against the ones before it.
fn validate_mutation(
    mutations: &Vec<Mutation>,
    index: usize,
    last: Option<u64>,
    deleted: &Vec<u64>,
) -> (result: Result<(), PendingStateCodecError>)
    requires
        index < mutations@.len(),
        last == last_insert(mutations@, index as int),
        forall|id: u64| #[trigger] deleted@.contains(id) <==> deletes_id(mutations@, index as int, id),
    ensures
        match result {
            Ok(_) => mutation_fault(mutations@, index as int) is None,
            Err(error) => mutation_fault(mutations@, index as int) == Some(error),
        },
{
    let mutation: Mutation = mutations[index];
    if mutation.technical_id == 0 || mutation.technical_id > MAX_TECHNICAL_ID {
        return Err(PendingStateCodecError::InvalidTechnicalId(mutation.technical_id));
    }
    if index > 0 {
        let previous: Mutation = mutations[index - 1];
        if mutation.row_index == previous.row_index {
            if mutation.kind != previous.kind {
                return Err(PendingStateCodecError::MixedMutationKinds);
            }
            if mutation.kind == MutationKind::Delete && mutation.technical_id
                <= previous.technical_id {
                return Err(PendingStateCodecError::NonIncreasingDeleteIds);
            }
        } else if previous.row_index == u64::MAX || mutation.row_index != previous.row_index + 1 {
            return Err(PendingStateCodecError::NonContiguousMutationRows);
        }
    }
    if mutation.kind == MutationKind::Insert {
        if let Some(previous_id) = last {
            if previous_id == u64::MAX || mutation.technical_id != previous_id + 1 {
                return Err(PendingStateCodecError::NonConsecutiveInsertIds);
            }
        }
    } else if holds_id(deleted, mutation.technical_id) {
        return Err(PendingStateCodecError::DuplicateDeleteId);
    }
    Ok(())
}

/// Checks that a batch is in its canonical form.
pub fn validate_apply(
    start_position: Position,
    continuation: Continuation,
    mutations: &Vec<Mutation>,
) -> (result: Result<(), PendingStateCodecError>)
    ensures
        match result {
            Ok(_) => apply_fault(start_position, continuation, mutations@) is None,
            Err(error) => apply_fault(start_position, continuation, mutations@) == Some(error),
        },
{
    validate_position(start_position)?;
    if let Continuation::Position(position) = continuation {
        validate_position(position)?;
    }
    if mutations.len() == 0 {
        return Err(PendingStateCodecError::EmptyMutationBatch);
    }
    if mutations.len() > MAX_MUTATIONS_PER_BATCH {
        return Err(PendingStateCodecError::TooManyMutations(mutations.len()));
    }
    if mutations[0].row_index != start_position.row_index {
        return Err(PendingStateCodecError::FirstMutationRowMismatch);
    }
    let mut taken: u64 = 0;
    let mut last: Option<u64> = None;
    let mut deleted: Vec<u64> = Vec::new();
    let mut index: usize = 0;
    while index < mutations.len()
        invariant
            index <= mutations@.len(),
            taken == count_in_row(mutations@, start_position.row_index, index as int),
            taken <= index,
            last == last_insert(mutations@, index as int),
            forall|id: u64| #[trigger]
                deleted@.contains(id) <==> deletes_id(mutations@, index as int, id),
            sequence_fault(mutations@, index as int) is None,
            0 < mutations@.len() <= MAX_MUTATIONS_PER_BATCH,
            mutations@[0].row_index == start_position.row_index,
            start_position.remaining != 0,
            continuation is Position ==> continuation->Position_0.remaining != 0,
        decreases mutations@.len() - index,
    {
        let mutation: Mutation = mutations[index];
        if let Err(error) = validate_mutation(mutations, index, last, &deleted) {
            proof {
                lemma_sequence_fault_stays(mutations@, index + 1, mutations@.len() as int);
            }
            return Err(error);
        }
        if mutation.row_index == start_position.row_index {
            taken += 1;
        }
        let ghost before = deleted@;
        if mutation.kind == MutationKind::Insert {
            last = Some(mutation.technical_id);
        } else {
            deleted.push(mutation.technical_id);
        }
        proof {
            assert forall|id: u64| #[trigger] deleted@.contains(id) <==> deletes_id(
                mutations@,
                index + 1,
                id,
            ) by {
                if deleted@.contains(id) {
                    if before.contains(id) {
                        let i = choose|i: int|
                            0 <= i < index && (#[trigger] mutations@[i]).kind is Delete
                                && mutations@[i].technical_id == id;
                        assert(mutations@[i].kind is Delete);
                    } else {
                        assert(mutations@[index as int].kind is Delete);
                        assert(mutations@[index as int].technical_id == id);
                    }
                }
                if deletes_id(mutations@, index + 1, id) {
                    let i = choose|i: int|
                        0 <= i < index + 1 && (#[trigger] mutations@[i]).kind is Delete
                            && mutations@[i].technical_id == id;
                    if i < index {
                        assert(deletes_id(mutations@, index as int, id));
                        assert(before.contains(id));
                        let j = choose|j: int| 0 <= j < before.len() && before[j] == id;
                        assert(deleted@[j] == id);
                    } else {
                        assert(deleted@[deleted@.len() - 1] == id);
                    }
                }
            }
        }
        index += 1;
    }
    if taken > start_position.remaining {
        return Err(PendingStateCodecError::StartRemainderExceeded);
    }
    let last_row: u64 = mutations[mutations.len() - 1].row_index;
    let follows: bool = match continuation {
        Continuation::Done => taken >= start_position.remaining,
        Continuation::Position(position) => mutations.len() == MAX_MUTATIONS_PER_BATCH && (
        if taken < start_position.remaining {
            last_row == start_position.row_index && position.row_index == start_position.row_index
                && position.remaining == start_position.remaining - taken
        } else {
            (position.row_index == last_row || (last_row < u64::MAX && position.row_index
                == last_row + 1)) && position.row_index != start_position.row_index
        }),
    };
    if !follows {
        return Err(PendingStateCodecError::InvalidContinuation);
    }
    Ok(())
}

/// How a position is stored.
pub open spec fn position_bytes(position: Position) -> Seq<u8> {
    be_bytes(position.row_index as nat, 8) + be_bytes(position.remaining as nat, 8)
}

/// How what follows a batch is stored.
pub open spec fn continuation_bytes(continuation: Continuation) -> Seq<u8> {
    match continuation {
        Continuation::Done => seq![0u8],
        Continuation::Position(position) => seq![1u8] + position_bytes(position),
    }
}

/// How a mutation is stored: its kind, its row and its ID.
pub open spec fn mutation_bytes(mutation: Mutation) -> Seq<u8> {
    seq![if mutation.kind is Insert { 0u8 } else { 1u8 }] + be_bytes(
        mutation.row_index as nat,
        8,
    ) + be_bytes(mutation.technical_id as nat, 8)
}

/// How mutations are stored, one behind the other.
pub open spec fn mutations_bytes(mutations: Seq<Mutation>) -> Seq<u8>
    decreases mutations.len(),
{
    if mutations.len() == 0 {
        Seq::empty()
    } else {
        mutations_bytes(mutations.drop_last()) + mutation_bytes(mutations.last())
    }
}

/// How a continuation is stored: a version, a tag, and what the tag stands for.
pub open spec fn pending_bytes(state: PendingState) -> Seq<u8> {
    match state {
        PendingState::Initialize => seq![0u8, 1u8, 0u8],
        PendingState::Prepare { position } => seq![0u8, 1u8, 1u8] + position_bytes(position),
        PendingState::Apply { start_position, continuation, mutations } => seq![0u8, 1u8, 2u8]
            + position_bytes(start_position) + continuation_bytes(continuation) + be_bytes(
            mutations@.len(),
            2,
        ) + mutations_bytes(mutations@),
    }
}

pub(crate) fn encode_position(position: Position, output: &mut Vec<u8>)
    ensures
        final(output)@ == old(output)@ + position_bytes(position),
{
    push_be(output, position.row_index as u128, 8);
    push_be(output, position.remaining as u128, 8);
    assert(output@ =~= old(output)@ + position_bytes(position));
}

pub(crate) fn encode_mutation(mutation: Mutation, output: &mut Vec<u8>)
    ensures
        final(output)@ == old(output)@ + mutation_bytes(mutation),
{
    let ghost start = output@;
    output.push(
        match mutation.kind {
            MutationKind::Insert => 0,
            MutationKind::Delete => 1,
        },
    );
    push_be(output, mutation.row_index as u128, 8);
    push_be(output, mutation.technical_id as u128, 8);
    assert(output@ =~= start + mutation_bytes(mutation));
}

/// The position at the beginning of stored bytes.
pub open spec fn position_at(bytes: Seq<u8>) -> Position {
    Position { row_index: number_at(bytes, 0), remaining: number_at(bytes, 8) }
}

/// The mutation at `index` in stored bytes.
pub open spec fn mutation_at(bytes: Seq<u8>, index: int) -> Mutation {
    Mutation {
        kind: if bytes[17 * index] == 0 {
            MutationKind::Insert
        } else {
            MutationKind::Delete
        },
        row_index: number_at(bytes, 17 * index + 1),
        technical_id: number_at(bytes, 17 * index + 9),
    }
}

/// Why bytes do not hold a mutation at `index`, if they do not.
pub open spec fn mutation_read_fault(bytes: Seq<u8>, index: int) -> Option<PendingStateCodecError> {
    if bytes.len() < 17 * index + 1 {
        Some(PendingStateCodecError::Truncated)
    } else if bytes[17 * index] > 1 {
        Some(PendingStateCodecError::UnknownMutationKindTag(bytes[17 * index]))
    } else if bytes.len() < 17 * index + 17 {
        Some(PendingStateCodecError::Truncated)
    } else {
        None
    }
}

/// The first reason for which bytes do not hold `count` mutations.
pub open spec fn mutations_read_fault(bytes: Seq<u8>, count: int) -> Option<PendingStateCodecError>
    decreases count,
{
    if count <= 0 {
        None
    } else {
        match mutations_read_fault(bytes, count - 1) {
            Some(fault) => Some(fault),
            None => mutation_read_fault(bytes, count - 1),
        }
    }
}

proof fn lemma_read_fault_stays(bytes: Seq<u8>, low: int, high: int)
    requires
        low <= high,
        mutations_read_fault(bytes, low) is Some,
    ensures
        mutations_read_fault(bytes, high) == mutations_read_fault(bytes, low),
    decreases high - low,
{
    if low < high {
        lemma_read_fault_stays(bytes, low, high - 1);
    }
}

/// The length of what follows a batch in stored bytes, going by its tag.
pub open spec fn continuation_length(bytes: Seq<u8>) -> int {
    if bytes[0] == 0 {
        1
    } else {
        17
    }
}

/// What follows a batch, at the beginning of stored bytes.
pub open spec fn continuation_at(bytes: Seq<u8>) -> Continuation {
    if bytes[0] == 0 {
        Continuation::Done
    } else {
        Continuation::Position(position_at(bytes.skip(1)))
    }
}

/// Why bytes do not hold what follows a batch, if they do not.
pub open spec fn continuation_fault(bytes: Seq<u8>) -> Option<PendingStateCodecError> {
    if bytes.len() < 1 {
        Some(PendingStateCodecError::Truncated)
    } else if bytes[0] > 1 {
        Some(PendingStateCodecError::UnknownContinuationTag(bytes[0]))
    } else if bytes.len() < continuation_length(bytes) {
        Some(PendingStateCodecError::Truncated)
    } else {
        None
    }
}

/// The number of mutations that stored bytes announce.
pub open spec fn count_at(bytes: Seq<u8>) -> nat {
    be_value(bytes.subrange(0, 2))
}

/// Why bytes do not hold a number of mutations and then the mutations themselves.
pub open spec fn batch_fault(bytes: Seq<u8>) -> Option<PendingStateCodecError> {
    if bytes.len() < 2 {
        Some(PendingStateCodecError::Truncated)
    } else if count_at(bytes) == 0 {
        Some(PendingStateCodecError::EmptyMutationBatch)
    } else if count_at(bytes) > MAX_MUTATIONS_PER_BATCH {
        Some(PendingStateCodecError::TooManyMutations(count_at(bytes) as usize))
    } else if mutations_read_fault(bytes.skip(2), count_at(bytes) as int) is Some {
        mutations_read_fault(bytes.skip(2), count_at(bytes) as int)
    } else if bytes.len() > 2 + 17 * count_at(bytes) {
        Some(PendingStateCodecError::TrailingBytes)
    } else {
        None
    }
}

/// Why bytes are not those of a batch, its form aside.
pub open spec fn apply_read_fault(rest: Seq<u8>) -> Option<PendingStateCodecError> {
    let after = rest.skip(16);
    if rest.len() < 16 {
        Some(PendingStateCodecError::Truncated)
    } else if continuation_fault(after) is Some {
        continuation_fault(after)
    } else {
        batch_fault(after.skip(continuation_length(after)))
    }
}

/// Why stored bytes are not those of a continuation, the form of a batch aside.
pub open spec fn read_fault(bytes: Seq<u8>) -> Option<PendingStateCodecError> {
    let rest = bytes.skip(3);
    if bytes.len() < 2 {
        Some(PendingStateCodecError::Truncated)
    } else if be_value(bytes.subrange(0, 2)) != 1 {
        Some(PendingStateCodecError::UnsupportedVersion(be_value(bytes.subrange(0, 2)) as u16))
    } else if bytes.len() < 3 {
        Some(PendingStateCodecError::Truncated)
    } else if bytes[2] == 0 {
        if bytes.len() > 3 {
            Some(PendingStateCodecError::TrailingBytes)
        } else {
            None
        }
    } else if bytes[2] == 1 {
        if rest.len() < 16 {
            Some(PendingStateCodecError::Truncated)
        } else if rest.len() > 16 {
            Some(PendingStateCodecError::TrailingBytes)
        } else {
            None
        }
    } else if bytes[2] == 2 {
        apply_read_fault(rest)
    } else {
        Some(PendingStateCodecError::UnknownStateTag(bytes[2]))
    }
}

/// What stored bytes say.
pub open spec fn read_as(bytes: Seq<u8>, state: PendingState) -> bool {
    let rest = bytes.skip(3);
    match state {
        PendingState::Initialize => bytes[2] == 0,
        PendingState::Prepare { position } => bytes[2] == 1 && position == position_at(rest),
        PendingState::Apply { start_position, continuation, mutations } => {
            let after = rest.skip(16);
            let batch = after.skip(continuation_length(after));
            &&& bytes[2] == 2
            &&& start_position == position_at(rest)
            &&& continuation == continuation_at(after)
            &&& mutations@ == Seq::new(count_at(batch), |i: int| mutation_at(batch.skip(2), i))
        },
    }
}

pub(crate) fn decode_position(cursor: &mut Cursor<'_>) -> (result: Result<Position, PendingStateCodecError>)
    requires
        old(cursor).wf(),
    ensures
        final(cursor).wf(),
        final(cursor).bytes == old(cursor).bytes,
        match result {
            Ok(position) => {
                &&& old(cursor).rest().len() >= 16
                &&& position == position_at(old(cursor).rest())
                &&& final(cursor).rest() == old(cursor).rest().skip(16)
            },
            Err(error) => {
                &&& old(cursor).rest().len() < 16
                &&& error == PendingStateCodecError::Truncated
            },
        },
{
    let ghost rest = cursor.rest();
    let row_index: u64 = match cursor.read_u64() {
        Some(value) => value,
        None => {
            return Err(PendingStateCodecError::Truncated);
        },
    };
    let remaining: u64 = match cursor.read_u64() {
        Some(value) => value,
        None => {
            return Err(PendingStateCodecError::Truncated);
        },
    };
    proof {
        lemma_number_after(rest, 8, 0);
        assert(rest.skip(8).skip(8) =~= rest.skip(16));
    }
    Ok(Position { row_index, remaining })
}

pub(crate) fn decode_continuation(cursor: &mut Cursor<'_>) -> (result: Result<
    Continuation,
    PendingStateCodecError,
>)
    requires
        old(cursor).wf(),
    ensures
        final(cursor).wf(),
        final(cursor).bytes == old(cursor).bytes,
        match result {
            Ok(continuation) => {
                &&& continuation_fault(old(cursor).rest()) is None
                &&& continuation == continuation_at(old(cursor).rest())
                &&& final(cursor).rest() == old(cursor).rest().skip(
                    continuation_length(old(cursor).rest()),
                )
            },
            Err(error) => continuation_fault(old(cursor).rest()) == Some(error),
        },
{
    let ghost rest = cursor.rest();
    let tag: u8 = match cursor.read_u8() {
        Some(tag) => tag,
        None => {
            return Err(PendingStateCodecError::Truncated);
        },
    };
    if tag == 0 {
        Ok(Continuation::Done)
    } else if tag == 1 {
        let position: Position = decode_position(cursor)?;
        assert(rest.skip(1).skip(16) =~= rest.skip(17));
        Ok(Continuation::Position(position))
    } else {
        Err(PendingStateCodecError::UnknownContinuationTag(tag))
    }
}

fn decode_mutation(cursor: &mut Cursor<'_>) -> (result: Result<Mutation, PendingStateCodecError>)
    requires
        old(cursor).wf(),
    ensures
        final(cursor).wf(),
        final(cursor).bytes == old(cursor).bytes,
        match result {
            Ok(mutation) => {
                &&& mutation_read_fault(old(cursor).rest(), 0) is None
                &&& mutation == mutation_at(old(cursor).rest(), 0)
                &&& final(cursor).rest() == old(cursor).rest().skip(17)
            },
            Err(error) => mutation_read_fault(old(cursor).rest(), 0) == Some(error),
        },
{
    let ghost rest = cursor.rest();
    let tag: u8 = match cursor.read_u8() {
        Some(tag) => tag,
        None => {
            return Err(PendingStateCodecError::Truncated);
        },
    };
    let kind: MutationKind = if tag == 0 {
        MutationKind::Insert
    } else if tag == 1 {
        MutationKind::Delete
    } else {
        return Err(PendingStateCodecError::UnknownMutationKindTag(tag));
    };
    let row_index: u64 = match cursor.read_u64() {
        Some(value) => value,
        None => {
            return Err(PendingStateCodecError::Truncated);
        },
    };
    assert(rest.skip(1).skip(8) =~= rest.skip(9));
    let technical_id: u64 = match cursor.read_u64() {
        Some(value) => value,
        None => {
            return Err(PendingStateCodecError::Truncated);
        },
    };
    proof {
        lemma_number_after(rest, 1, 0);
        lemma_number_after(rest, 9, 0);
        assert(rest.skip(9).skip(8) =~= rest.skip(17));
    }
    Ok(Mutation { kind, row_index, technical_id })
}

pub(crate) fn decode_batch(cursor: &mut Cursor<'_>) -> (result: Result<Vec<Mutation>, PendingStateCodecError>)
    requires
        old(cursor).wf(),
    ensures
        match result {
            Ok(mutations) => {
                &&& batch_fault(old(cursor).rest()) is None
                &&& mutations@ == Seq::new(
                    count_at(old(cursor).rest()),
                    |i: int| mutation_at(old(cursor).rest().skip(2), i),
                )
            },
            Err(error) => batch_fault(old(cursor).rest()) == Some(error),
        },
{
    let ghost rest = cursor.rest();
    let count: u16 = match cursor.read_u16() {
        Some(count) => count,
        None => {
            return Err(PendingStateCodecError::Truncated);
        },
    };
    let count: usize = count as usize;
    if count == 0 {
        return Err(PendingStateCodecError::EmptyMutationBatch);
    }
    if count > MAX_MUTATIONS_PER_BATCH {
        return Err(PendingStateCodecError::TooManyMutations(count));
    }
    let ghost body = rest.skip(2);
    let mut mutations: Vec<Mutation> = Vec::new();
    let mut index: usize = 0;
    assert(body.skip(0) =~= body);
    while index < count
        invariant
            index <= count <= MAX_MUTATIONS_PER_BATCH,
            cursor.wf(),
            rest == old(cursor).rest(),
            rest.len() >= 2,
            count == count_at(rest),
            count > 0,
            body == rest.skip(2),
            body.len() >= 17 * index,
            cursor.rest() == body.skip(17 * index),
            mutations@ == Seq::new(index as nat, |i: int| mutation_at(body, i)),
            mutations_read_fault(body, index as int) is None,
        decreases count - index,
    {
        let ghost part = body.skip(17 * index);
        assert(mutation_read_fault(part, 0) == mutation_read_fault(body, index as int));
        match decode_mutation(cursor) {
            Ok(mutation) => {
                proof {
                    lemma_number_after(body, 17 * index, 1);
                    lemma_number_after(body, 17 * index, 9);
                    assert(mutation_at(part, 0) == mutation_at(body, index as int));
                    assert(part.skip(17) =~= body.skip(17 * (index + 1)));
                }
                mutations.push(mutation);
                assert(mutations@ =~= Seq::new((index + 1) as nat, |i: int| mutation_at(body, i)));
            },
            Err(error) => {
                proof {
                    lemma_read_fault_stays(body, index + 1, count as int);
                }
                return Err(error);
            },
        }
        index += 1;
    }
    if !cursor.at_end() {
        return Err(PendingStateCodecError::TrailingBytes);
    }
    Ok(mutations)
}

impl PendingState {
    pub fn validate(&self) -> (result: Result<(), PendingStateCodecError>)
        ensures
            match result {
                Ok(_) => pending_fault(*self) is None,
                Err(error) => pending_fault(*self) == Some(error),
            },
    {
        match self {
            PendingState::Initialize => Ok(()),
            PendingState::Prepare { position } => validate_position(*position),
            PendingState::Apply { start_position, continuation, mutations } => validate_apply(
                *start_position,
                *continuation,
                mutations,
            ),
        }
    }

    /// Encodes a continuation that may be stored.
    pub fn encode(&self) -> (result: Result<Vec<u8>, PendingStateCodecError>)
        ensures
            match result {
                Ok(encoded) => pending_fault(*self) is None && encoded@ == pending_bytes(*self),
                Err(error) => pending_fault(*self) == Some(error),
            },
    {
        self.validate()?;
        let mut encoded: Vec<u8> = Vec::new();
        encoded.push(0);
        encoded.push(1);
        match self {
            PendingState::Initialize => encoded.push(0),
            PendingState::Prepare { position } => {
                encoded.push(1);
                assert(encoded@ =~= seq![0u8, 1u8, 1u8]);
                encode_position(*position, &mut encoded);
            },
            PendingState::Apply { start_position, continuation, mutations } => {
                encoded.push(2);
                assert(encoded@ =~= seq![0u8, 1u8, 2u8]);
                encode_position(*start_position, &mut encoded);
                let ghost head = encoded@;
                match continuation {
                    Continuation::Done => encoded.push(0),
                    Continuation::Position(position) => {
                        encoded.push(1);
                        encode_position(*position, &mut encoded);
                    },
                }
                assert(encoded@ =~= head + continuation_bytes(*continuation));
                push_be(&mut encoded, mutations.len() as u128, 2);
                let ghost body = encoded@;
                let mut index: usize = 0;
                while index < mutations.len()
                    invariant
                        index <= mutations@.len(),
                        encoded@ == body + mutations_bytes(mutations@.take(index as int)),
                    decreases mutations@.len() - index,
                {
                    encode_mutation(mutations[index], &mut encoded);
                    assert(mutations@.take(index + 1).drop_last() =~= mutations@.take(
                        index as int,
                    ));
                    index += 1;
                    assert(encoded@ =~= body + mutations_bytes(mutations@.take(index as int)));
                }
                assert(mutations@.take(index as int) =~= mutations@);
            },
        }
        assert(encoded@ =~= pending_bytes(*self));
        Ok(encoded)
    }

    /// Decodes a stored continuation.
    pub fn decode(encoded: &[u8]) -> (result: Result<PendingState, PendingStateCodecError>)
        ensures
            match result {
                Ok(state) => {
                    &&& read_fault(encoded@) is None
                    &&& read_as(encoded@, state)
                    &&& pending_fault(state) is None
                },
                Err(error) => match read_fault(encoded@) {
                    Some(fault) => error == fault,
                    None => exists|state: PendingState| #[trigger]
                        read_as(encoded@, state) && pending_fault(state) == Some(error),
                },
            },
    {
        let mut cursor: Cursor<'_> = Cursor::new(encoded);
        let version: u16 = match cursor.read_u16() {
            Some(version) => version,
            None => {
                return Err(PendingStateCodecError::Truncated);
            },
        };
        if version != 1 {
            return Err(PendingStateCodecError::UnsupportedVersion(version));
        }
        let tag: u8 = match cursor.read_u8() {
            Some(tag) => tag,
            None => {
                return Err(PendingStateCodecError::Truncated);
            },
        };
        assert(encoded@.skip(2).skip(1) =~= encoded@.skip(3));
        let state: PendingState = if tag == 0 {
            if !cursor.at_end() {
                return Err(PendingStateCodecError::TrailingBytes);
            }
            PendingState::Initialize
        } else if tag == 1 {
            let position: Position = decode_position(&mut cursor)?;
            if !cursor.at_end() {
                return Err(PendingStateCodecError::TrailingBytes);
            }
            PendingState::Prepare { position }
        } else if tag == 2 {
            let start_position: Position = decode_position(&mut cursor)?;
            let continuation: Continuation = decode_continuation(&mut cursor)?;
            let mutations: Vec<Mutation> = decode_batch(&mut cursor)?;
            PendingState::Apply { start_position, continuation, mutations }
        } else {
            return Err(PendingStateCodecError::UnknownStateTag(tag));
        };
        assert(read_as(encoded@, state));
        match state.validate() {
            Ok(_) => Ok(state),
            Err(error) => Err(error),
        }
    }
}

proof fn lemma_mutations_read_back(mutations: Seq<Mutation>, tail: Seq<u8>)
    ensures
        mutations_bytes(mutations).len() == 17 * mutations.len(),
        mutations_read_fault(mutations_bytes(mutations) + tail, mutations.len() as int) is None,
        Seq::new(
            mutations.len(),
            |i: int| mutation_at(mutations_bytes(mutations) + tail, i),
        ) == mutations,
    decreases mutations.len(),
{
    broadcast use lemma_be_bytes_len;

    let bytes = mutations_bytes(mutations) + tail;
    if mutations.len() > 0 {
        let count = mutations.len() - 1;
        let last = mutations.last();
        let before = mutations_bytes(mutations.drop_last());
        let rest = mutation_bytes(last) + tail;
        lemma_mutations_read_back(mutations.drop_last(), rest);
        assert(bytes =~= before + rest);
        lemma_byte_ranges();
        lemma_be_round_trip(last.row_index as nat, 8);
        lemma_be_round_trip(last.technical_id as nat, 8);
        assert(bytes.subrange(17 * count + 1, 17 * count + 9) =~= be_bytes(
            last.row_index as nat,
            8,
        ));
        assert(bytes.subrange(17 * count + 9, 17 * count + 17) =~= be_bytes(
            last.technical_id as nat,
            8,
        ));
        assert(mutation_at(bytes, count) == last);
        assert forall|i: int| 0 <= i < count implies mutation_at(bytes, i) == mutations[i] by {
            assert(Seq::new(
                mutations.drop_last().len(),
                |i: int| mutation_at(before + rest, i),
            )[i] == mutations.drop_last()[i]);
        }
        assert(Seq::new(mutations.len(), |i: int| mutation_at(bytes, i)) =~= mutations);
    } else {
        assert(Seq::new(mutations.len(), |i: int| mutation_at(bytes, i)) =~= mutations);
    }
}

pub proof fn lemma_position_read_back(position: Position, tail: Seq<u8>)
    ensures
        position_bytes(position).len() == 16,
        position_at(position_bytes(position) + tail) == position,
        (position_bytes(position) + tail).skip(16) == tail,
{
    broadcast use lemma_be_bytes_len;

    lemma_byte_ranges();
    lemma_be_round_trip(position.row_index as nat, 8);
    lemma_be_round_trip(position.remaining as nat, 8);
    let bytes = position_bytes(position) + tail;
    assert(bytes.subrange(0, 8) =~= be_bytes(position.row_index as nat, 8));
    assert(bytes.subrange(8, 16) =~= be_bytes(position.remaining as nat, 8));
    assert(bytes.skip(16) =~= tail);
}

proof fn lemma_continuation_read_back(continuation: Continuation, tail: Seq<u8>)
    ensures
        ({
            let bytes = continuation_bytes(continuation) + tail;
            &&& continuation_fault(bytes) is None
            &&& continuation_at(bytes) == continuation
            &&& continuation_length(bytes) == continuation_bytes(continuation).len()
            &&& bytes.skip(continuation_length(bytes)) == tail
        }),
{
    let bytes = continuation_bytes(continuation) + tail;
    match continuation {
        Continuation::Done => {
            assert(bytes.skip(1) =~= tail);
        },
        Continuation::Position(position) => {
            lemma_position_read_back(position, tail);
            assert(bytes.skip(1) =~= position_bytes(position) + tail);
            assert(bytes.skip(17) =~= tail);
        },
    }
}

proof fn lemma_batch_read_back(mutations: Seq<Mutation>)
    requires
        0 < mutations.len() <= MAX_MUTATIONS_PER_BATCH,
    ensures
        ({
            let bytes = be_bytes(mutations.len(), 2) + mutations_bytes(mutations);
            &&& batch_fault(bytes) is None
            &&& count_at(bytes) == mutations.len()
            &&& Seq::new(count_at(bytes), |i: int| mutation_at(bytes.skip(2), i)) == mutations
        }),
{
    broadcast use lemma_be_bytes_len;

    lemma_byte_ranges();
    lemma_be_round_trip(mutations.len(), 2);
    lemma_mutations_read_back(mutations, Seq::empty());
    let bytes = be_bytes(mutations.len(), 2) + mutations_bytes(mutations);
    assert(bytes.subrange(0, 2) =~= be_bytes(mutations.len(), 2));
    assert(bytes.skip(2) =~= mutations_bytes(mutations) + Seq::<u8>::empty());
}

proof fn lemma_behind_tag(tags: Seq<u8>, a: Seq<u8>, b: Seq<u8>, c: Seq<u8>, d: Seq<u8>)
    requires
        tags.len() == 3,
    ensures
        (tags + a).skip(3) == a + Seq::<u8>::empty(),
        (tags + a + b + c + d).skip(3) == a + (b + (c + d)),
        (tags + a).take(3) == tags,
        (tags + a + b + c + d).take(3) == tags,
{
    assert((tags + a).skip(3) =~= a + Seq::<u8>::empty());
    assert((tags + a + b + c + d).skip(3) =~= a + (b + (c + d)));
    assert((tags + a).take(3) =~= tags);
    assert((tags + a + b + c + d).take(3) =~= tags);
}

/// The version and the tag at the beginning of stored bytes.
proof fn lemma_tag(bytes: Seq<u8>, tag: u8)
    requires
        bytes.len() >= 3,
        bytes.take(3) == seq![0u8, 1u8, tag],
    ensures
        be_value(bytes.subrange(0, 2)) == 1,
        bytes[2] == tag,
{
    assert(bytes.subrange(0, 2) =~= bytes.take(3).subrange(0, 2));
    assert(bytes.subrange(0, 2) =~= seq![0u8, 1u8]);
    assert(seq![0u8, 1u8].drop_last() =~= seq![0u8]);
    reveal_with_fuel(be_value, 3);
    assert(bytes[2] == bytes.take(3)[2]);
}

pub proof fn lemma_apply_round_trip(
    start_position: Position,
    continuation: Continuation,
    mutations: Seq<Mutation>,
)
    requires
        0 < mutations.len() <= MAX_MUTATIONS_PER_BATCH,
    ensures
        ({
            let rest = position_bytes(start_position) + (continuation_bytes(continuation) + (
            be_bytes(mutations.len(), 2) + mutations_bytes(mutations)));
            let after = rest.skip(16);
            let batch = after.skip(continuation_length(after));
            &&& apply_read_fault(rest) is None
            &&& start_position == position_at(rest)
            &&& continuation == continuation_at(after)
            &&& mutations == Seq::new(count_at(batch), |i: int| mutation_at(batch.skip(2), i))
        }),
{
    let batch = be_bytes(mutations.len(), 2) + mutations_bytes(mutations);
    let after = continuation_bytes(continuation) + batch;
    lemma_position_read_back(start_position, after);
    lemma_continuation_read_back(continuation, batch);
    lemma_batch_read_back(mutations);
}

/// A continuation that may be stored reads back as it was written.
#[verifier::rlimit(40)]
pub proof fn law_pending_round_trip(state: PendingState)
    requires
        pending_fault(state) is None,
    ensures
        read_fault(pending_bytes(state)) is None,
        read_as(pending_bytes(state), state),
{
    let bytes = pending_bytes(state);
    match state {
        PendingState::Initialize => {
            assert(bytes.take(3) =~= seq![0u8, 1u8, 0u8]);
            lemma_tag(bytes, 0);
        },
        PendingState::Prepare { position } => {
            lemma_position_read_back(position, Seq::empty());
            lemma_behind_tag(
                seq![0u8, 1u8, 1u8],
                position_bytes(position),
                Seq::empty(),
                Seq::empty(),
                Seq::empty(),
            );
            lemma_tag(bytes, 1);
        },
        PendingState::Apply { start_position, continuation, mutations } => {
            lemma_apply_round_trip(start_position, continuation, mutations@);
            lemma_behind_tag(
                seq![0u8, 1u8, 2u8],
                position_bytes(start_position),
                continuation_bytes(continuation),
                be_bytes(mutations@.len(), 2),
                mutations_bytes(mutations@),
            );
            lemma_tag(bytes, 2);
        },
    }
}

proof fn lemma_mutations_cut(bytes: Seq<u8>, count: int, length: int)
    requires
        0 <= length <= bytes.len(),
        length < 17 * count,
        mutations_read_fault(bytes, count) is None,
    ensures
        mutations_read_fault(bytes.take(length), count) == Some(PendingStateCodecError::Truncated),
    decreases count,
{
    if count > 0 {
        let index = count - 1;
        if length < 17 * index {
            lemma_mutations_cut(bytes, index, length);
        } else {
            lemma_mutations_kept(bytes, index, length);
        }
    }
}

proof fn lemma_mutations_kept(bytes: Seq<u8>, count: int, length: int)
    requires
        17 * count <= length <= bytes.len(),
        mutations_read_fault(bytes, count) is None,
    ensures
        mutations_read_fault(bytes.take(length), count) is None,
    decreases count,
{
    if count > 0 {
        lemma_mutations_kept(bytes, count - 1, length);
    }
}

proof fn lemma_batch_cut(bytes: Seq<u8>, length: int)
    requires
        batch_fault(bytes) is None,
        0 <= length < bytes.len(),
    ensures
        batch_fault(bytes.take(length)) == Some(PendingStateCodecError::Truncated),
{
    if length >= 2 {
        let part = bytes.take(length);
        assert(part.subrange(0, 2) =~= bytes.subrange(0, 2));
        assert(part.skip(2) =~= bytes.skip(2).take(length - 2));
        lemma_batch_length(bytes.skip(2), count_at(bytes) as int);
        lemma_mutations_cut(bytes.skip(2), count_at(bytes) as int, length - 2);
    }
}

proof fn lemma_batch_length(bytes: Seq<u8>, count: int)
    requires
        mutations_read_fault(bytes, count) is None,
    ensures
        bytes.len() >= 17 * count,
    decreases count,
{
}

pub proof fn lemma_apply_cut(rest: Seq<u8>, length: int)
    requires
        apply_read_fault(rest) is None,
        0 <= length < rest.len(),
    ensures
        apply_read_fault(rest.take(length)) == Some(PendingStateCodecError::Truncated),
{
    let part = rest.take(length);
    if length >= 16 {
        let after = rest.skip(16);
        assert(part.skip(16) =~= after.take(length - 16));
        if length > 16 && length - 16 >= continuation_length(after) {
            let end = continuation_length(after);
            let batch = after.skip(end);
            assert(after.take(length - 16).skip(end) =~= batch.take(length - 16 - end));
            lemma_batch_cut(batch, length - 16 - end);
        }
    }
}

/// No part of a stored continuation that lacks its end is read as a continuation.
pub proof fn law_truncated_pending_is_refused(state: PendingState, length: int)
    requires
        pending_fault(state) is None,
        0 <= length < pending_bytes(state).len(),
    ensures
        read_fault(pending_bytes(state).take(length)) == Some(PendingStateCodecError::Truncated),
{
    law_pending_round_trip(state);
    let bytes = pending_bytes(state);
    let part = bytes.take(length);
    if length >= 2 {
        assert(part.subrange(0, 2) =~= bytes.subrange(0, 2));
        if length >= 3 {
            assert(part.skip(3) =~= bytes.skip(3).take(length - 3));
            if bytes[2] == 2 {
                lemma_apply_cut(bytes.skip(3), length - 3);
            }
        }
    }
}

/// What is wrong with a continuation.
pub open spec fn codec_error_text(value: PendingStateCodecError) -> Seq<char> {
    match value {
        PendingStateCodecError::Truncated => "SQLite sink pending state is truncated"@,
        PendingStateCodecError::UnsupportedVersion(version) => {
            "unsupported SQLite sink pending state format version "@ + decimal(version as nat)
        },
        PendingStateCodecError::UnknownStateTag(tag) => {
            "unknown SQLite sink pending state tag "@ + decimal(tag as nat)
        },
        PendingStateCodecError::UnknownContinuationTag(tag) => {
            "unknown SQLite sink continuation tag "@ + decimal(tag as nat)
        },
        PendingStateCodecError::UnknownMutationKindTag(tag) => {
            "unknown SQLite sink mutation kind tag "@ + decimal(tag as nat)
        },
        PendingStateCodecError::TrailingBytes => {
            "SQLite sink pending state contains trailing bytes"@
        },
        PendingStateCodecError::ZeroRemaining => {
            "SQLite sink position must have a nonzero remaining multiplicity"@
        },
        PendingStateCodecError::EmptyMutationBatch => {
            "SQLite sink Apply state must contain at least one mutation"@
        },
        PendingStateCodecError::TooManyMutations(count) => {
            "SQLite sink mutation batch contains "@ + decimal(count as nat)
                + " mutations, exceeding the limit"@
        },
        PendingStateCodecError::InvalidTechnicalId(id) => {
            "SQLite sink mutation technical ID "@ + decimal(id as nat)
                + " is outside 1..=i64::MAX"@
        },
        PendingStateCodecError::FirstMutationRowMismatch => {
            "SQLite sink Apply state's first mutation is not at its start position"@
        },
        PendingStateCodecError::NonContiguousMutationRows => {
            "SQLite sink mutation row indices are not contiguous and nondecreasing"@
        },
        PendingStateCodecError::MixedMutationKinds => {
            "SQLite sink mutations for one input row have different kinds"@
        },
        PendingStateCodecError::NonConsecutiveInsertIds => {
            "SQLite sink insert technical IDs are not consecutive"@
        },
        PendingStateCodecError::NonIncreasingDeleteIds => {
            "SQLite sink delete technical IDs for one input row are not increasing"@
        },
        PendingStateCodecError::DuplicateDeleteId => {
            "SQLite sink mutation batch deletes one technical ID more than once"@
        },
        PendingStateCodecError::StartRemainderExceeded => {
            "SQLite sink Apply state consumes more than the start position's remainder"@
        },
        PendingStateCodecError::InvalidContinuation => {
            "SQLite sink Apply continuation does not follow its mutations canonically"@
        },
    }
}

impl PendingStateCodecError {
    /// What is wrong with a continuation.
    pub fn message(&self) -> (text: String)
        ensures
            text@ == codec_error_text(*self),
    {
        match self {
            PendingStateCodecError::Truncated => {
                "SQLite sink pending state is truncated".to_owned()
            },
            PendingStateCodecError::UnsupportedVersion(version) => {
                let mut text: String = "unsupported SQLite sink pending state format version ".to_owned();
                push_decimal(&mut text, *version as u64);
                text
            },
            PendingStateCodecError::UnknownStateTag(tag) => {
                let mut text: String = "unknown SQLite sink pending state tag ".to_owned();
                push_decimal(&mut text, *tag as u64);
                text
            },
            PendingStateCodecError::UnknownContinuationTag(tag) => {
                let mut text: String = "unknown SQLite sink continuation tag ".to_owned();
                push_decimal(&mut text, *tag as u64);
                text
            },
            PendingStateCodecError::UnknownMutationKindTag(tag) => {
                let mut text: String = "unknown SQLite sink mutation kind tag ".to_owned();
                push_decimal(&mut text, *tag as u64);
                text
            },
            PendingStateCodecError::TrailingBytes => {
                "SQLite sink pending state contains trailing bytes".to_owned()
            },
            PendingStateCodecError::ZeroRemaining => {
                "SQLite sink position must have a nonzero remaining multiplicity".to_owned()
            },
            PendingStateCodecError::EmptyMutationBatch => {
                "SQLite sink Apply state must contain at least one mutation".to_owned()
            },
            PendingStateCodecError::TooManyMutations(count) => {
                let mut text: String = "SQLite sink mutation batch contains ".to_owned();
                push_decimal(&mut text, *count as u64);
                text.append(" mutations, exceeding the limit");
                text
            },
            PendingStateCodecError::InvalidTechnicalId(id) => {
                let mut text: String = "SQLite sink mutation technical ID ".to_owned();
                push_decimal(&mut text, *id as u64);
                text.append(" is outside 1..=i64::MAX");
                text
            },
            PendingStateCodecError::FirstMutationRowMismatch => {
                "SQLite sink Apply state's first mutation is not at its start position".to_owned()
            },
            PendingStateCodecError::NonContiguousMutationRows => {
                "SQLite sink mutation row indices are not contiguous and nondecreasing".to_owned()
            },
            PendingStateCodecError::MixedMutationKinds => {
                "SQLite sink mutations for one input row have different kinds".to_owned()
            },
            PendingStateCodecError::NonConsecutiveInsertIds => {
                "SQLite sink insert technical IDs are not consecutive".to_owned()
            },
            PendingStateCodecError::NonIncreasingDeleteIds => {
                "SQLite sink delete technical IDs for one input row are not increasing".to_owned()
            },
            PendingStateCodecError::DuplicateDeleteId => {
                "SQLite sink mutation batch deletes one technical ID more than once".to_owned()
            },
            PendingStateCodecError::StartRemainderExceeded => {
                "SQLite sink Apply state consumes more than the start position's remainder".to_owned()
            },
            PendingStateCodecError::InvalidContinuation => {
                "SQLite sink Apply continuation does not follow its mutations canonically".to_owned()
            },
        }
    }
}

} // verus!
