//! The durable state of a PostgreSQL sink that delivers numbered batches.

use crate::bytes::{be_bytes, be_value, number_at, push_be, Cursor};
use crate::bytes::{lemma_be_bytes_len, lemma_be_round_trip, lemma_byte_ranges, lemma_number_after};
use crate::relation::batch::{EXHAUSTED_ID, MAX_MUTATIONS_PER_BATCH, MAX_TECHNICAL_ID};
use crate::relation::position::{inserts_among, Continuation, Mutation, MutationKind, Position};
use crate::sqlite::state::{
    apply_read_fault, continuation_at, continuation_bytes, continuation_length, continues, count_at,
    count_in_row, decode_batch, decode_continuation, decode_position, deletes_id, encode_mutation,
    encode_position, holds_id, lemma_apply_cut, lemma_apply_round_trip, lemma_position_read_back,
    mutation_at, mutations_bytes, position_at, position_bytes, PendingStateCodecError,
};
use crate::text::{decimal, push_decimal};
use vstd::prelude::*;

verus! {

/// The durable state of one PostgreSQL sink.
#[derive(Debug, PartialEq, Eq)]
pub enum PostgresSinkState {
    /// The target is to be created.
    Initialize,
    /// The next delivery can be prepared.
    Ready { next_delivery: u64, next_id: u64, position: Option<Position> },
    /// A fixed delivery that may have reached the target or not.
    Prepared {
        delivery: u64,
        digest: [u8; 32],
        next_id_before: u64,
        start_position: Position,
        continuation: Continuation,
        mutations: Vec<Mutation>,
    },
}

/// Why a durable state cannot be encoded or decoded.
#[derive(Clone, Copy, Debug, PartialEq, Eq, Structural)]
pub enum PostgresSinkStateCodecError {
    Truncated,
    UnsupportedVersion(u16),
    UnknownStateTag(u8),
    UnknownPositionTag(u8),
    UnknownContinuationTag(u8),
    UnknownMutationKindTag(u8),
    TrailingBytes,
    InvalidNextDelivery(u64),
    InvalidDelivery(u64),
    InvalidNextId(u64),
    ZeroRemaining,
    EmptyMutationBatch,
    TooManyMutations(usize),
    InvalidTechnicalId(u64),
    FirstMutationRowMismatch,
    NonContiguousMutationRows,
    MixedMutationKinds,
    InsertRangeStartMismatch,
    NonConsecutiveInsertIds,
    InsertRangeOverflow,
    NonIncreasingDeleteIds,
    DuplicateDeleteId,
    UnallocatedTechnicalId,
    DeleteBeforeInsert,
    StartRemainderExceeded,
    InvalidContinuation,
}

/// What an error in reading the parts of a batch means here.
pub open spec fn lifted(error: PendingStateCodecError) -> PostgresSinkStateCodecError {
    match error {
        PendingStateCodecError::Truncated => PostgresSinkStateCodecError::Truncated,
        PendingStateCodecError::UnsupportedVersion(version) => {
            PostgresSinkStateCodecError::UnsupportedVersion(version)
        },
        PendingStateCodecError::UnknownStateTag(tag) => {
            PostgresSinkStateCodecError::UnknownStateTag(tag)
        },
        PendingStateCodecError::UnknownContinuationTag(tag) => {
            PostgresSinkStateCodecError::UnknownContinuationTag(tag)
        },
        PendingStateCodecError::UnknownMutationKindTag(tag) => {
            PostgresSinkStateCodecError::UnknownMutationKindTag(tag)
        },
        PendingStateCodecError::TrailingBytes => PostgresSinkStateCodecError::TrailingBytes,
        PendingStateCodecError::ZeroRemaining => PostgresSinkStateCodecError::ZeroRemaining,
        PendingStateCodecError::EmptyMutationBatch => {
            PostgresSinkStateCodecError::EmptyMutationBatch
        },
        PendingStateCodecError::TooManyMutations(count) => {
            PostgresSinkStateCodecError::TooManyMutations(count)
        },
        PendingStateCodecError::InvalidTechnicalId(id) => {
            PostgresSinkStateCodecError::InvalidTechnicalId(id)
        },
        PendingStateCodecError::FirstMutationRowMismatch => {
            PostgresSinkStateCodecError::FirstMutationRowMismatch
        },
        PendingStateCodecError::NonContiguousMutationRows => {
            PostgresSinkStateCodecError::NonContiguousMutationRows
        },
        PendingStateCodecError::MixedMutationKinds => {
            PostgresSinkStateCodecError::MixedMutationKinds
        },
        PendingStateCodecError::NonConsecutiveInsertIds => {
            PostgresSinkStateCodecError::NonConsecutiveInsertIds
        },
        PendingStateCodecError::NonIncreasingDeleteIds => {
            PostgresSinkStateCodecError::NonIncreasingDeleteIds
        },
        PendingStateCodecError::DuplicateDeleteId => PostgresSinkStateCodecError::DuplicateDeleteId,
        PendingStateCodecError::StartRemainderExceeded => {
            PostgresSinkStateCodecError::StartRemainderExceeded
        },
        PendingStateCodecError::InvalidContinuation => {
            PostgresSinkStateCodecError::InvalidContinuation
        },
    }
}

fn lift(error: PendingStateCodecError) -> (result: PostgresSinkStateCodecError)
    ensures
        result == lifted(error),
{
    match error {
        PendingStateCodecError::Truncated => PostgresSinkStateCodecError::Truncated,
        PendingStateCodecError::UnsupportedVersion(version) => {
            PostgresSinkStateCodecError::UnsupportedVersion(version)
        },
        PendingStateCodecError::UnknownStateTag(tag) => {
            PostgresSinkStateCodecError::UnknownStateTag(tag)
        },
        PendingStateCodecError::UnknownContinuationTag(tag) => {
            PostgresSinkStateCodecError::UnknownContinuationTag(tag)
        },
        PendingStateCodecError::UnknownMutationKindTag(tag) => {
            PostgresSinkStateCodecError::UnknownMutationKindTag(tag)
        },
        PendingStateCodecError::TrailingBytes => PostgresSinkStateCodecError::TrailingBytes,
        PendingStateCodecError::ZeroRemaining => PostgresSinkStateCodecError::ZeroRemaining,
        PendingStateCodecError::EmptyMutationBatch => {
            PostgresSinkStateCodecError::EmptyMutationBatch
        },
        PendingStateCodecError::TooManyMutations(count) => {
            PostgresSinkStateCodecError::TooManyMutations(count)
        },
        PendingStateCodecError::InvalidTechnicalId(id) => {
            PostgresSinkStateCodecError::InvalidTechnicalId(id)
        },
        PendingStateCodecError::FirstMutationRowMismatch => {
            PostgresSinkStateCodecError::FirstMutationRowMismatch
        },
        PendingStateCodecError::NonContiguousMutationRows => {
            PostgresSinkStateCodecError::NonContiguousMutationRows
        },
        PendingStateCodecError::MixedMutationKinds => {
            PostgresSinkStateCodecError::MixedMutationKinds
        },
        PendingStateCodecError::NonConsecutiveInsertIds => {
            PostgresSinkStateCodecError::NonConsecutiveInsertIds
        },
        PendingStateCodecError::NonIncreasingDeleteIds => {
            PostgresSinkStateCodecError::NonIncreasingDeleteIds
        },
        PendingStateCodecError::DuplicateDeleteId => PostgresSinkStateCodecError::DuplicateDeleteId,
        PendingStateCodecError::StartRemainderExceeded => {
            PostgresSinkStateCodecError::StartRemainderExceeded
        },
        PendingStateCodecError::InvalidContinuation => {
            PostgresSinkStateCodecError::InvalidContinuation
        },
    }
}

/// Why a mutation cannot follow the ones before it, if it cannot.
pub open spec fn mutation_fault(
    next_id_before: u64,
    mutations: Seq<Mutation>,
    index: int,
) -> Option<PostgresSinkStateCodecError> {
    let mutation = mutations[index];
    let previous = mutations[index - 1];
    let expected = next_id_before + inserts_among(mutations, index);
    if mutation.technical_id == 0 || mutation.technical_id > MAX_TECHNICAL_ID {
        Some(PostgresSinkStateCodecError::InvalidTechnicalId(mutation.technical_id))
    } else if mutation.technical_id >= next_id_before + inserts_among(
        mutations,
        mutations.len() as int,
    ) {
        Some(PostgresSinkStateCodecError::UnallocatedTechnicalId)
    } else if index > 0 && mutation.row_index == previous.row_index && mutation.kind
        != previous.kind {
        Some(PostgresSinkStateCodecError::MixedMutationKinds)
    } else if index > 0 && mutation.row_index == previous.row_index && mutation.kind is Delete
        && mutation.technical_id <= previous.technical_id {
        Some(PostgresSinkStateCodecError::NonIncreasingDeleteIds)
    } else if index > 0 && mutation.row_index != previous.row_index && mutation.row_index
        != previous.row_index + 1 {
        Some(PostgresSinkStateCodecError::NonContiguousMutationRows)
    } else if mutation.kind is Insert && mutation.technical_id != expected {
        if inserts_among(mutations, index) == 0 {
            Some(PostgresSinkStateCodecError::InsertRangeStartMismatch)
        } else {
            Some(PostgresSinkStateCodecError::NonConsecutiveInsertIds)
        }
    } else if mutation.kind is Delete && deletes_id(mutations, index, mutation.technical_id) {
        Some(PostgresSinkStateCodecError::DuplicateDeleteId)
    } else if mutation.kind is Delete && mutation.technical_id >= expected {
        Some(PostgresSinkStateCodecError::DeleteBeforeInsert)
    } else {
        None
    }
}

/// The first reason among the first `count` mutations.
pub open spec fn sequence_fault(next_id_before: u64, mutations: Seq<Mutation>, count: int) -> Option<
    PostgresSinkStateCodecError,
>
    decreases count,
{
    if count <= 0 {
        None
    } else {
        match sequence_fault(next_id_before, mutations, count - 1) {
            Some(fault) => Some(fault),
            None => mutation_fault(next_id_before, mutations, count - 1),
        }
    }
}

proof fn lemma_sequence_fault_stays(
    next_id_before: u64,
    mutations: Seq<Mutation>,
    low: int,
    high: int,
)
    requires
        low <= high,
        sequence_fault(next_id_before, mutations, low) is Some,
    ensures
        sequence_fault(next_id_before, mutations, high) == sequence_fault(
            next_id_before,
            mutations,
            low,
        ),
    decreases high - low,
{
    if low < high {
        lemma_sequence_fault_stays(next_id_before, mutations, low, high - 1);
    }
}

/// Why a delivery is not in its canonical form, if it is not.
pub open spec fn prepared_fault(
    delivery: u64,
    next_id_before: u64,
    start_position: Position,
    continuation: Continuation,
    mutations: Seq<Mutation>,
) -> Option<PostgresSinkStateCodecError> {
    let count = mutations.len() as int;
    if delivery == 0 || delivery > MAX_TECHNICAL_ID {
        Some(PostgresSinkStateCodecError::InvalidDelivery(delivery))
    } else if next_id_before == 0 || next_id_before > EXHAUSTED_ID {
        Some(PostgresSinkStateCodecError::InvalidNextId(next_id_before))
    } else if start_position.remaining == 0 {
        Some(PostgresSinkStateCodecError::ZeroRemaining)
    } else if continuation is Position && continuation->Position_0.remaining == 0 {
        Some(PostgresSinkStateCodecError::ZeroRemaining)
    } else if count == 0 {
        Some(PostgresSinkStateCodecError::EmptyMutationBatch)
    } else if count > MAX_MUTATIONS_PER_BATCH {
        Some(PostgresSinkStateCodecError::TooManyMutations(count as usize))
    } else if mutations[0].row_index != start_position.row_index {
        Some(PostgresSinkStateCodecError::FirstMutationRowMismatch)
    } else if next_id_before + inserts_among(mutations, count) > EXHAUSTED_ID {
        Some(PostgresSinkStateCodecError::InsertRangeOverflow)
    } else if sequence_fault(next_id_before, mutations, count) is Some {
        sequence_fault(next_id_before, mutations, count)
    } else if count_in_row(mutations, start_position.row_index, count)
        > start_position.remaining {
        Some(PostgresSinkStateCodecError::StartRemainderExceeded)
    } else if !continues(start_position, continuation, mutations) {
        Some(PostgresSinkStateCodecError::InvalidContinuation)
    } else {
        None
    }
}

/// Why a state may not be stored, if it may not.
pub open spec fn state_fault(state: PostgresSinkState) -> Option<PostgresSinkStateCodecError> {
    match state {
        PostgresSinkState::Initialize => None,
        PostgresSinkState::Ready { next_delivery, next_id, position } => if next_delivery == 0
            || next_delivery > EXHAUSTED_ID {
            Some(PostgresSinkStateCodecError::InvalidNextDelivery(next_delivery))
        } else if next_id == 0 || next_id > EXHAUSTED_ID {
            Some(PostgresSinkStateCodecError::InvalidNextId(next_id))
        } else if position is Some && position->0.remaining == 0 {
            Some(PostgresSinkStateCodecError::ZeroRemaining)
        } else {
            None
        },
        PostgresSinkState::Prepared {
            delivery,
            digest,
            next_id_before,
            start_position,
            continuation,
            mutations,
        } => prepared_fault(delivery, next_id_before, start_position, continuation, mutations@),
    }
}

fn validate_next_id(next_id: u64) -> (result: Result<(), PostgresSinkStateCodecError>)
    ensures
        match result {
            Ok(_) => 0 < next_id <= EXHAUSTED_ID,
            Err(error) => {
                &&& next_id == 0 || next_id > EXHAUSTED_ID
                &&& error == PostgresSinkStateCodecError::InvalidNextId(next_id)
            },
        },
{
    if next_id == 0 || next_id > EXHAUSTED_ID {
        Err(PostgresSinkStateCodecError::InvalidNextId(next_id))
    } else {
        Ok(())
    }
}

fn validate_position(position: Position) -> (result: Result<(), PostgresSinkStateCodecError>)
    ensures
        match result {
            Ok(_) => position.remaining != 0,
            Err(error) => {
                &&& position.remaining == 0
                &&& error == PostgresSinkStateCodecError::ZeroRemaining
            },
        },
{
    if position.remaining == 0 {
        Err(PostgresSinkStateCodecError::ZeroRemaining)
    } else {
        Ok(())
    }
}

fn count_inserts(mutations: &Vec<Mutation>) -> (count: u64)
    ensures
        count == inserts_among(mutations@, mutations@.len() as int),
        count <= mutations@.len(),
{
    let mut count: u64 = 0;
    let mut index: usize = 0;
    while index < mutations.len()
        invariant
            index <= mutations@.len(),
            count == inserts_among(mutations@, index as int),
            count <= index,
        decreases mutations@.len() - index,
    {
        if mutations[index].kind == MutationKind::Insert {
            count += 1;
        }
        index += 1;
    }
    count
}

/// Checks the order of two neighbouring mutations.
fn validate_row_order(previous: Mutation, mutation: Mutation) -> (result: Result<
    (),
    PostgresSinkStateCodecError,
>)
    ensures
        result == (if mutation.row_index == previous.row_index && mutation.kind != previous.kind {
            Err::<(), PostgresSinkStateCodecError>(PostgresSinkStateCodecError::MixedMutationKinds)
        } else if mutation.row_index == previous.row_index && mutation.kind is Delete
            && mutation.technical_id <= previous.technical_id {
            Err(PostgresSinkStateCodecError::NonIncreasingDeleteIds)
        } else if mutation.row_index != previous.row_index && mutation.row_index
            != previous.row_index + 1 {
            Err(PostgresSinkStateCodecError::NonContiguousMutationRows)
        } else {
            Ok(())
        }),
{
    if mutation.row_index == previous.row_index {
        if mutation.kind != previous.kind {
            return Err(PostgresSinkStateCodecError::MixedMutationKinds);
        }
        if mutation.kind == MutationKind::Delete && mutation.technical_id
            <= previous.technical_id {
            return Err(PostgresSinkStateCodecError::NonIncreasingDeleteIds);
        }
    } else if previous.row_index == u64::MAX || mutation.row_index != previous.row_index + 1 {
        return Err(PostgresSinkStateCodecError::NonContiguousMutationRows);
    }
    Ok(())
}

/// Checks one mutation against the ones before it.
fn validate_mutation(
    next_id_before: u64,
    next_id_after: u64,
    expected_insert_id: u64,
    mutations: &Vec<Mutation>,
    index: usize,
    deleted: &Vec<u64>,
) -> (result: Result<(), PostgresSinkStateCodecError>)
    requires
        index < mutations@.len(),
        next_id_after == next_id_before + inserts_among(mutations@, mutations@.len() as int),
        expected_insert_id == next_id_before + inserts_among(mutations@, index as int),
        forall|id: u64| #[trigger]
            deleted@.contains(id) <==> deletes_id(mutations@, index as int, id),
    ensures
        match result {
            Ok(_) => mutation_fault(next_id_before, mutations@, index as int) is None,
            Err(error) => mutation_fault(next_id_before, mutations@, index as int) == Some(error),
        },
{
    let mutation: Mutation = mutations[index];
    if mutation.technical_id == 0 || mutation.technical_id > MAX_TECHNICAL_ID {
        return Err(PostgresSinkStateCodecError::InvalidTechnicalId(mutation.technical_id));
    }
    if mutation.technical_id >= next_id_after {
        return Err(PostgresSinkStateCodecError::UnallocatedTechnicalId);
    }
    if index > 0 {
        validate_row_order(mutations[index - 1], mutation)?;
    }
    match mutation.kind {
        MutationKind::Insert => {
            if mutation.technical_id != expected_insert_id {
                return Err(
                    if expected_insert_id == next_id_before {
                        PostgresSinkStateCodecError::InsertRangeStartMismatch
                    } else {
                        PostgresSinkStateCodecError::NonConsecutiveInsertIds
                    },
                );
            }
        },
        MutationKind::Delete => {
            if holds_id(deleted, mutation.technical_id) {
                return Err(PostgresSinkStateCodecError::DuplicateDeleteId);
            }
            if mutation.technical_id >= next_id_before && mutation.technical_id
                >= expected_insert_id {
                return Err(PostgresSinkStateCodecError::DeleteBeforeInsert);
            }
        },
    }
    Ok(())
}

/// One deletion more among the IDs that were deleted.
proof fn lemma_deleted_grows(
    mutations: Seq<Mutation>,
    index: int,
    before: Seq<u64>,
    deleted: Seq<u64>,
)
    requires
        0 <= index < mutations.len(),
        forall|id: u64| #[trigger] before.contains(id) <==> deletes_id(mutations, index, id),
        mutations[index].kind is Insert ==> deleted == before,
        mutations[index].kind is Delete ==> deleted == before.push(mutations[index].technical_id),
    ensures
        forall|id: u64| #[trigger] deleted.contains(id) <==> deletes_id(mutations, index + 1, id),
{
    assert forall|id: u64| #[trigger] deleted.contains(id) <==> deletes_id(
        mutations,
        index + 1,
        id,
    ) by {
        if deleted.contains(id) {
            if before.contains(id) {
                let i = choose|i: int|
                    0 <= i < index && (#[trigger] mutations[i]).kind is Delete
                        && mutations[i].technical_id == id;
                assert(mutations[i].kind is Delete);
            } else {
                assert(mutations[index].kind is Delete);
                assert(mutations[index].technical_id == id);
            }
        }
        if deletes_id(mutations, index + 1, id) {
            let i = choose|i: int|
                0 <= i < index + 1 && (#[trigger] mutations[i]).kind is Delete
                    && mutations[i].technical_id == id;
            if i < index {
                assert(deletes_id(mutations, index, id));
                assert(before.contains(id));
                let j = choose|j: int| 0 <= j < before.len() && before[j] == id;
                assert(deleted[j] == id);
            } else {
                assert(deleted[deleted.len() - 1] == id);
            }
        }
    }
}

/// Checks that the mutations of a delivery follow one another.
fn validate_mutation_sequence(
    next_id_before: u64,
    start_position: Position,
    mutations: &Vec<Mutation>,
) -> (result: Result<(), PostgresSinkStateCodecError>)
    requires
        0 < mutations@.len() <= MAX_MUTATIONS_PER_BATCH,
        0 < next_id_before <= EXHAUSTED_ID,
    ensures
        result == (if mutations@[0].row_index != start_position.row_index {
            Err::<(), PostgresSinkStateCodecError>(
                PostgresSinkStateCodecError::FirstMutationRowMismatch,
            )
        } else if next_id_before + inserts_among(mutations@, mutations@.len() as int)
            > EXHAUSTED_ID {
            Err(PostgresSinkStateCodecError::InsertRangeOverflow)
        } else {
            match sequence_fault(next_id_before, mutations@, mutations@.len() as int) {
                Some(fault) => Err(fault),
                None => Ok(()),
            }
        }),
{
    if mutations[0].row_index != start_position.row_index {
        return Err(PostgresSinkStateCodecError::FirstMutationRowMismatch);
    }
    let insert_count: u64 = count_inserts(mutations);
    if insert_count > EXHAUSTED_ID - next_id_before {
        return Err(PostgresSinkStateCodecError::InsertRangeOverflow);
    }
    let next_id_after: u64 = next_id_before + insert_count;
    let mut expected: u64 = next_id_before;
    let mut deleted: Vec<u64> = Vec::new();
    let mut index: usize = 0;
    while index < mutations.len()
        invariant
            index <= mutations@.len(),
            mutations@[0].row_index == start_position.row_index,
            next_id_after == next_id_before + inserts_among(mutations@, mutations@.len() as int),
            next_id_after <= EXHAUSTED_ID,
            expected == next_id_before + inserts_among(mutations@, index as int),
            forall|id: u64| #[trigger]
                deleted@.contains(id) <==> deletes_id(mutations@, index as int, id),
            sequence_fault(next_id_before, mutations@, index as int) is None,
        decreases mutations@.len() - index,
    {
        if let Err(error) = validate_mutation(
            next_id_before,
            next_id_after,
            expected,
            mutations,
            index,
            &deleted,
        ) {
            proof {
                lemma_sequence_fault_stays(
                    next_id_before,
                    mutations@,
                    index + 1,
                    mutations@.len() as int,
                );
            }
            return Err(error);
        }
        let ghost before = deleted@;
        match mutations[index].kind {
            MutationKind::Insert => {
                proof {
                    crate::relation::stepwise::lemma_inserts_grow(
                        mutations@,
                        index + 1,
                        mutations@.len() as int,
                    );
                }
                expected = expected + 1;
            },
            MutationKind::Delete => {
                deleted.push(mutations[index].technical_id);
            },
        }
        proof {
            lemma_deleted_grows(mutations@, index as int, before, deleted@);
        }
        index += 1;
    }
    Ok(())
}

/// Checks that what follows a delivery is what its mutations leave to be done.
fn validate_continuation(
    start_position: Position,
    continuation: Continuation,
    mutations: &Vec<Mutation>,
) -> (result: Result<(), PostgresSinkStateCodecError>)
    requires
        0 < mutations@.len() <= MAX_MUTATIONS_PER_BATCH,
    ensures
        result == (if count_in_row(
            mutations@,
            start_position.row_index,
            mutations@.len() as int,
        ) > start_position.remaining {
            Err::<(), PostgresSinkStateCodecError>(
                PostgresSinkStateCodecError::StartRemainderExceeded,
            )
        } else if !continues(start_position, continuation, mutations@) {
            Err(PostgresSinkStateCodecError::InvalidContinuation)
        } else {
            Ok(())
        }),
{
    let mut taken: u64 = 0;
    let mut index: usize = 0;
    while index < mutations.len()
        invariant
            index <= mutations@.len(),
            taken == count_in_row(mutations@, start_position.row_index, index as int),
            taken <= index,
        decreases mutations@.len() - index,
    {
        if mutations[index].row_index == start_position.row_index {
            taken += 1;
        }
        index += 1;
    }
    if taken > start_position.remaining {
        return Err(PostgresSinkStateCodecError::StartRemainderExceeded);
    }
    let last_row: u64 = mutations[mutations.len() - 1].row_index;
    let follows: bool = match continuation {
        Continuation::Done => taken >= start_position.remaining,
        Continuation::Position(position) => mutations.len() == MAX_MUTATIONS_PER_BATCH && (
        if taken < start_position.remaining {
            last_row == start_position.row_index && position.row_index == start_position.row_index
                && position.remaining == start_position.remaining - taken
        } else {
            (position.row_index == last_row || (last_row < u64::MAX && position.row_index
                == last_row + 1)) && position.row_index != start_position.row_index
        }),
    };
    if follows {
        Ok(())
    } else {
        Err(PostgresSinkStateCodecError::InvalidContinuation)
    }
}

/// Checks that a delivery is in its canonical form.
pub fn validate_prepared(
    delivery: u64,
    next_id_before: u64,
    start_position: Position,
    continuation: Continuation,
    mutations: &Vec<Mutation>,
) -> (result: Result<(), PostgresSinkStateCodecError>)
    ensures
        match result {
            Ok(_) => prepared_fault(
                delivery,
                next_id_before,
                start_position,
                continuation,
                mutations@,
            ) is None,
            Err(error) => prepared_fault(
                delivery,
                next_id_before,
                start_position,
                continuation,
                mutations@,
            ) == Some(error),
        },
{
    if delivery == 0 || delivery > MAX_TECHNICAL_ID {
        return Err(PostgresSinkStateCodecError::InvalidDelivery(delivery));
    }
    validate_next_id(next_id_before)?;
    validate_position(start_position)?;
    if let Continuation::Position(position) = continuation {
        validate_position(position)?;
    }
    if mutations.len() == 0 {
        return Err(PostgresSinkStateCodecError::EmptyMutationBatch);
    }
    if mutations.len() > MAX_MUTATIONS_PER_BATCH {
        return Err(PostgresSinkStateCodecError::TooManyMutations(mutations.len()));
    }
    validate_mutation_sequence(next_id_before, start_position, mutations)?;
    validate_continuation(start_position, continuation, mutations)
}

/// How an optional position is stored.
pub open spec fn optional_bytes(position: Option<Position>) -> Seq<u8> {
    match position {
        None => seq![0u8],
        Some(position) => seq![1u8] + position_bytes(position),
    }
}

/// How a state is stored: a version, a tag, and what the tag stands for.
pub open spec fn state_bytes(state: PostgresSinkState) -> Seq<u8> {
    match state {
        PostgresSinkState::Initialize => seq![0u8, 1u8, 0u8],
        PostgresSinkState::Ready { next_delivery, next_id, position } => seq![0u8, 1u8, 1u8] + (
        be_bytes(next_delivery as nat, 8) + be_bytes(next_id as nat, 8) + optional_bytes(
            position,
        )),
        PostgresSinkState::Prepared {
            delivery,
            digest,
            next_id_before,
            start_position,
            continuation,
            mutations,
        } => seq![0u8, 1u8, 2u8] + (be_bytes(delivery as nat, 8) + digest@ + be_bytes(
            next_id_before as nat,
            8,
        ) + (position_bytes(start_position) + (continuation_bytes(continuation) + (be_bytes(
            mutations@.len(),
            2,
        ) + mutations_bytes(mutations@))))),
    }
}

/// Why bytes do not hold an optional position and nothing more.
pub open spec fn optional_fault(bytes: Seq<u8>) -> Option<PostgresSinkStateCodecError> {
    if bytes.len() < 1 {
        Some(PostgresSinkStateCodecError::Truncated)
    } else if bytes[0] > 1 {
        Some(PostgresSinkStateCodecError::UnknownPositionTag(bytes[0]))
    } else if bytes[0] == 1 && bytes.len() < 17 {
        Some(PostgresSinkStateCodecError::Truncated)
    } else if bytes.len() > (if bytes[0] == 0 {
        1int
    } else {
        17int
    }) {
        Some(PostgresSinkStateCodecError::TrailingBytes)
    } else {
        None
    }
}

/// The optional position that bytes hold.
pub open spec fn optional_at(bytes: Seq<u8>) -> Option<Position> {
    if bytes[0] == 0 {
        None
    } else {
        Some(position_at(bytes.skip(1)))
    }
}

/// Why stored bytes are not those of a state, its form aside.
pub open spec fn read_fault(bytes: Seq<u8>) -> Option<PostgresSinkStateCodecError> {
    let rest = bytes.skip(3);
    if bytes.len() < 2 {
        Some(PostgresSinkStateCodecError::Truncated)
    } else if be_value(bytes.subrange(0, 2)) != 1 {
        Some(
            PostgresSinkStateCodecError::UnsupportedVersion(
                be_value(bytes.subrange(0, 2)) as u16,
            ),
        )
    } else if bytes.len() < 3 {
        Some(PostgresSinkStateCodecError::Truncated)
    } else if bytes[2] == 0 {
        if bytes.len() > 3 {
            Some(PostgresSinkStateCodecError::TrailingBytes)
        } else {
            None
        }
    } else if bytes[2] == 1 {
        if rest.len() < 16 {
            Some(PostgresSinkStateCodecError::Truncated)
        } else {
            optional_fault(rest.skip(16))
        }
    } else if bytes[2] == 2 {
        if rest.len() < 48 {
            Some(PostgresSinkStateCodecError::Truncated)
        } else {
            match apply_read_fault(rest.skip(48)) {
                Some(fault) => Some(lifted(fault)),
                None => None,
            }
        }
    } else {
        Some(PostgresSinkStateCodecError::UnknownStateTag(bytes[2]))
    }
}

/// What stored bytes say.
pub open spec fn read_as(bytes: Seq<u8>, state: PostgresSinkState) -> bool {
    let rest = bytes.skip(3);
    match state {
        PostgresSinkState::Initialize => bytes[2] == 0,
        PostgresSinkState::Ready { next_delivery, next_id, position } => {
            &&& bytes[2] == 1
            &&& next_delivery == number_at(rest, 0)
            &&& next_id == number_at(rest, 8)
            &&& position == optional_at(rest.skip(16))
        },
        PostgresSinkState::Prepared {
            delivery,
            digest,
            next_id_before,
            start_position,
            continuation,
            mutations,
        } => {
            let body = rest.skip(48);
            let after = body.skip(16);
            let batch = after.skip(continuation_length(after));
            &&& bytes[2] == 2
            &&& delivery == number_at(rest, 0)
            &&& digest@ == rest.subrange(8, 40)
            &&& next_id_before == number_at(rest, 40)
            &&& start_position == position_at(body)
            &&& continuation == continuation_at(after)
            &&& mutations@ == Seq::new(count_at(batch), |i: int| mutation_at(batch.skip(2), i))
        },
    }
}

fn digest_of(bytes: &Vec<u8>) -> (digest: [u8; 32])
    requires
        bytes@.len() == 32,
    ensures
        digest@ == bytes@,
{
    let mut digest: [u8; 32] = [0u8; 32];
    let mut index: usize = 0;
    while index < 32
        invariant
            index <= 32,
            bytes@.len() == 32,
            forall|i: int| 0 <= i < index ==> digest@[i] == bytes@[i],
        decreases 32 - index,
    {
        digest[index] = bytes[index];
        index += 1;
    }
    assert(digest@ =~= bytes@);
    digest
}

fn push_digest(output: &mut Vec<u8>, digest: &[u8; 32])
    ensures
        final(output)@ == old(output)@ + digest@,
{
    let ghost start = output@;
    let mut index: usize = 0;
    while index < 32
        invariant
            index <= 32,
            output@ == start + digest@.take(index as int),
        decreases 32 - index,
    {
        output.push(digest[index]);
        index += 1;
        assert(output@ =~= start + digest@.take(index as int));
    }
    assert(digest@.take(32) =~= digest@);
}

fn decode_ready(cursor: &mut Cursor<'_>) -> (result: Result<
    PostgresSinkState,
    PostgresSinkStateCodecError,
>)
    requires
        old(cursor).wf(),
    ensures
        ({
            let rest = old(cursor).rest();
            let fault = if rest.len() < 16 {
                Some(PostgresSinkStateCodecError::Truncated)
            } else {
                optional_fault(rest.skip(16))
            };
            match result {
                Ok(state) => fault is None && state == (PostgresSinkState::Ready {
                    next_delivery: number_at(rest, 0),
                    next_id: number_at(rest, 8),
                    position: optional_at(rest.skip(16)),
                }),
                Err(error) => fault == Some(error),
            }
        }),
{
    let ghost rest = cursor.rest();
    let next_delivery: u64 = match cursor.read_u64() {
        Some(value) => value,
        None => {
            return Err(PostgresSinkStateCodecError::Truncated);
        },
    };
    let next_id: u64 = match cursor.read_u64() {
        Some(value) => value,
        None => {
            return Err(PostgresSinkStateCodecError::Truncated);
        },
    };
    proof {
        lemma_number_after(rest, 8, 0);
        assert(rest.skip(8).skip(8) =~= rest.skip(16));
    }
    let tag: u8 = match cursor.read_u8() {
        Some(tag) => tag,
        None => {
            return Err(PostgresSinkStateCodecError::Truncated);
        },
    };
    let position: Option<Position> = if tag == 0 {
        None
    } else if tag == 1 {
        match decode_position(cursor) {
            Ok(position) => Some(position),
            Err(error) => {
                return Err(lift(error));
            },
        }
    } else {
        return Err(PostgresSinkStateCodecError::UnknownPositionTag(tag));
    };
    if !cursor.at_end() {
        return Err(PostgresSinkStateCodecError::TrailingBytes);
    }
    Ok(PostgresSinkState::Ready { next_delivery, next_id, position })
}

fn decode_prepared(cursor: &mut Cursor<'_>) -> (result: Result<
    PostgresSinkState,
    PostgresSinkStateCodecError,
>)
    requires
        old(cursor).wf(),
    ensures
        ({
            let rest = old(cursor).rest();
            let body = rest.skip(48);
            let after = body.skip(16);
            let batch = after.skip(continuation_length(after));
            match result {
                Ok(PostgresSinkState::Prepared {
                    delivery,
                    digest,
                    next_id_before,
                    start_position,
                    continuation,
                    mutations,
                }) => {
                    &&& rest.len() >= 48
                    &&& apply_read_fault(body) is None
                    &&& delivery == number_at(rest, 0)
                    &&& digest@ == rest.subrange(8, 40)
                    &&& next_id_before == number_at(rest, 40)
                    &&& start_position == position_at(body)
                    &&& continuation == continuation_at(after)
                    &&& mutations@ == Seq::new(
                        count_at(batch),
                        |i: int| mutation_at(batch.skip(2), i),
                    )
                },
                Ok(_) => false,
                Err(error) => if rest.len() < 48 {
                    error == PostgresSinkStateCodecError::Truncated
                } else {
                    apply_read_fault(body) is Some && error == lifted(apply_read_fault(body)->0)
                },
            }
        }),
{
    let ghost rest = cursor.rest();
    let delivery: u64 = match cursor.read_u64() {
        Some(value) => value,
        None => {
            return Err(PostgresSinkStateCodecError::Truncated);
        },
    };
    let digest: Vec<u8> = match cursor.read_bytes(32) {
        Some(bytes) => bytes,
        None => {
            return Err(PostgresSinkStateCodecError::Truncated);
        },
    };
    proof {
        assert(rest.skip(8).take(32) =~= rest.subrange(8, 40));
        assert(rest.skip(8).skip(32) =~= rest.skip(40));
    }
    let next_id_before: u64 = match cursor.read_u64() {
        Some(value) => value,
        None => {
            return Err(PostgresSinkStateCodecError::Truncated);
        },
    };
    proof {
        lemma_number_after(rest, 40, 0);
        assert(rest.skip(40).skip(8) =~= rest.skip(48));
    }
    let start_position: Position = match decode_position(cursor) {
        Ok(position) => position,
        Err(error) => {
            return Err(lift(error));
        },
    };
    let continuation: Continuation = match decode_continuation(cursor) {
        Ok(continuation) => continuation,
        Err(error) => {
            return Err(lift(error));
        },
    };
    let mutations: Vec<Mutation> = match decode_batch(cursor) {
        Ok(mutations) => mutations,
        Err(error) => {
            return Err(lift(error));
        },
    };
    Ok(
        PostgresSinkState::Prepared {
            delivery,
            digest: digest_of(&digest),
            next_id_before,
            start_position,
            continuation,
            mutations,
        },
    )
}

impl PostgresSinkState {
    pub fn validate(&self) -> (result: Result<(), PostgresSinkStateCodecError>)
        ensures
            match result {
                Ok(_) => state_fault(*self) is None,
                Err(error) => state_fault(*self) == Some(error),
            },
    {
        match self {
            PostgresSinkState::Initialize => Ok(()),
            PostgresSinkState::Ready { next_delivery, next_id, position } => {
                if *next_delivery == 0 || *next_delivery > EXHAUSTED_ID {
                    return Err(PostgresSinkStateCodecError::InvalidNextDelivery(*next_delivery));
                }
                validate_next_id(*next_id)?;
                if let Some(position) = position {
                    validate_position(*position)?;
                }
                Ok(())
            },
            PostgresSinkState::Prepared {
                delivery,
                digest: _,
                next_id_before,
                start_position,
                continuation,
                mutations,
            } => validate_prepared(
                *delivery,
                *next_id_before,
                *start_position,
                *continuation,
                mutations,
            ),
        }
    }

    /// Encodes a state that may be stored.
    pub fn encode(&self) -> (result: Result<Vec<u8>, PostgresSinkStateCodecError>)
        ensures
            match result {
                Ok(encoded) => state_fault(*self) is None && encoded@ == state_bytes(*self),
                Err(error) => state_fault(*self) == Some(error),
            },
    {
        self.validate()?;
        let mut encoded: Vec<u8> = Vec::new();
        encoded.push(0);
        encoded.push(1);
        match self {
            PostgresSinkState::Initialize => encoded.push(0),
            PostgresSinkState::Ready { next_delivery, next_id, position } => {
                encoded.push(1);
                push_be(&mut encoded, *next_delivery as u128, 8);
                push_be(&mut encoded, *next_id as u128, 8);
                match position {
                    None => encoded.push(0),
                    Some(position) => {
                        encoded.push(1);
                        encode_position(*position, &mut encoded);
                    },
                }
            },
            PostgresSinkState::Prepared {
                delivery,
                digest,
                next_id_before,
                start_position,
                continuation,
                mutations,
            } => {
                encoded.push(2);
                push_be(&mut encoded, *delivery as u128, 8);
                push_digest(&mut encoded, digest);
                push_be(&mut encoded, *next_id_before as u128, 8);
                let ghost head = encoded@;
                assert(head =~= seq![0u8, 1u8, 2u8] + (be_bytes(*delivery as nat, 8) + digest@
                    + be_bytes(*next_id_before as nat, 8)));
                encode_position(*start_position, &mut encoded);
                match continuation {
                    Continuation::Done => encoded.push(0),
                    Continuation::Position(position) => {
                        encoded.push(1);
                        encode_position(*position, &mut encoded);
                    },
                }
                assert(encoded@ =~= head + position_bytes(*start_position) + continuation_bytes(
                    *continuation,
                ));
                push_be(&mut encoded, mutations.len() as u128, 2);
                let ghost front = encoded@;
                let mut index: usize = 0;
                while index < mutations.len()
                    invariant
                        index <= mutations@.len(),
                        encoded@ == front + mutations_bytes(mutations@.take(index as int)),
                    decreases mutations@.len() - index,
                {
                    encode_mutation(mutations[index], &mut encoded);
                    assert(mutations@.take(index + 1).drop_last() =~= mutations@.take(
                        index as int,
                    ));
                    index += 1;
                    assert(encoded@ =~= front + mutations_bytes(mutations@.take(index as int)));
                }
                assert(mutations@.take(index as int) =~= mutations@);
                proof {
                    lemma_regroup(
                        seq![0u8, 1u8, 2u8],
                        be_bytes(*delivery as nat, 8) + digest@ + be_bytes(
                            *next_id_before as nat,
                            8,
                        ),
                        position_bytes(*start_position),
                        continuation_bytes(*continuation),
                        be_bytes(mutations@.len(), 2),
                        mutations_bytes(mutations@),
                    );
                }
            },
        }
        assert(encoded@ =~= state_bytes(*self));
        Ok(encoded)
    }

    /// Decodes a stored state.
    pub fn decode(encoded: &[u8]) -> (result: Result<
        PostgresSinkState,
        PostgresSinkStateCodecError,
    >)
        ensures
            match result {
                Ok(state) => {
                    &&& read_fault(encoded@) is None
                    &&& read_as(encoded@, state)
                    &&& state_fault(state) is None
                },
                Err(error) => match read_fault(encoded@) {
                    Some(fault) => error == fault,
                    None => exists|state: PostgresSinkState| #[trigger]
                        read_as(encoded@, state) && state_fault(state) == Some(error),
                },
            },
    {
        let mut cursor: Cursor<'_> = Cursor::new(encoded);
        let version: u16 = match cursor.read_u16() {
            Some(version) => version,
            None => {
                return Err(PostgresSinkStateCodecError::Truncated);
            },
        };
        if version != 1 {
            return Err(PostgresSinkStateCodecError::UnsupportedVersion(version));
        }
        let tag: u8 = match cursor.read_u8() {
            Some(tag) => tag,
            None => {
                return Err(PostgresSinkStateCodecError::Truncated);
            },
        };
        assert(encoded@.skip(2).skip(1) =~= encoded@.skip(3));
        let state: PostgresSinkState = if tag == 0 {
            if !cursor.at_end() {
                return Err(PostgresSinkStateCodecError::TrailingBytes);
            }
            PostgresSinkState::Initialize
        } else if tag == 1 {
            decode_ready(&mut cursor)?
        } else if tag == 2 {
            decode_prepared(&mut cursor)?
        } else {
            return Err(PostgresSinkStateCodecError::UnknownStateTag(tag));
        };
        assert(read_as(encoded@, state));
        match state.validate() {
            Ok(_) => Ok(state),
            Err(error) => Err(error),
        }
    }

    /// The frontiers of deliveries and IDs once a delivery is settled.
    pub fn settled_frontiers(&self) -> (frontiers: Option<(u64, u64)>)
        requires
            state_fault(*self) is None,
        ensures
            frontiers == settled(*self),
    {
        match self {
            PostgresSinkState::Prepared {
                delivery,
                digest: _,
                next_id_before,
                start_position: _,
                continuation: _,
                mutations,
            } => {
                let insert_count: u64 = count_inserts(mutations);
                Some((*delivery + 1, *next_id_before + insert_count))
            },
            _ => None,
        }
    }
}

/// The frontiers of deliveries and IDs once a delivery is settled.
pub open spec fn settled(state: PostgresSinkState) -> Option<(u64, u64)> {
    match state {
        PostgresSinkState::Prepared {
            delivery,
            digest,
            next_id_before,
            start_position,
            continuation,
            mutations,
        } => Some(
            (
                (delivery + 1) as u64,
                (next_id_before + inserts_among(mutations@, mutations@.len() as int)) as u64,
            ),
        ),
        _ => None,
    }
}

/// Parts that are written one behind the other, put together from behind.
proof fn lemma_regroup(
    tags: Seq<u8>,
    head: Seq<u8>,
    a: Seq<u8>,
    b: Seq<u8>,
    c: Seq<u8>,
    d: Seq<u8>,
)
    ensures
        tags + head + a + b + c + d == tags + (head + (a + (b + (c + d)))),
{
    assert(tags + head + a + b + c + d =~= tags + (head + (a + (b + (c + d)))));
}

/// The version and the tag at the beginning of stored bytes.
proof fn lemma_state_tag(bytes: Seq<u8>, tag: u8, rest: Seq<u8>)
    requires
        bytes == seq![0u8, 1u8, tag] + rest,
    ensures
        bytes.len() >= 3,
        be_value(bytes.subrange(0, 2)) == 1,
        bytes[2] == tag,
        bytes.skip(3) == rest,
{
    assert(bytes.subrange(0, 2) =~= seq![0u8, 1u8]);
    assert(seq![0u8, 1u8].drop_last() =~= seq![0u8]);
    reveal_with_fuel(be_value, 3);
    assert(bytes.skip(3) =~= rest);
}

/// A state that may be stored reads back as it was written.
pub proof fn law_state_round_trip(state: PostgresSinkState)
    requires
        state_fault(state) is None,
    ensures
        read_fault(state_bytes(state)) is None,
        read_as(state_bytes(state), state),
{
    broadcast use lemma_be_bytes_len;

    let bytes = state_bytes(state);
    lemma_byte_ranges();
    match state {
        PostgresSinkState::Initialize => {
            assert(bytes =~= seq![0u8, 1u8, 0u8] + Seq::<u8>::empty());
            lemma_state_tag(bytes, 0, Seq::empty());
        },
        PostgresSinkState::Ready { next_delivery, next_id, position } => {
            let rest = be_bytes(next_delivery as nat, 8) + be_bytes(next_id as nat, 8)
                + optional_bytes(position);
            lemma_state_tag(bytes, 1, rest);
            lemma_be_round_trip(next_delivery as nat, 8);
            lemma_be_round_trip(next_id as nat, 8);
            assert(rest.subrange(0, 8) =~= be_bytes(next_delivery as nat, 8));
            assert(rest.subrange(8, 16) =~= be_bytes(next_id as nat, 8));
            assert(rest.skip(16) =~= optional_bytes(position));
            if let Some(found) = position {
                lemma_position_read_back(found, Seq::empty());
                assert(optional_bytes(position).skip(1) =~= position_bytes(found)
                    + Seq::<u8>::empty());
            }
        },
        PostgresSinkState::Prepared {
            delivery,
            digest,
            next_id_before,
            start_position,
            continuation,
            mutations,
        } => {
            let body = position_bytes(start_position) + (continuation_bytes(continuation) + (
            be_bytes(mutations@.len(), 2) + mutations_bytes(mutations@)));
            let head = be_bytes(delivery as nat, 8) + digest@ + be_bytes(next_id_before as nat, 8);
            let rest = head + body;
            lemma_state_tag(bytes, 2, rest);
            lemma_be_round_trip(delivery as nat, 8);
            lemma_be_round_trip(next_id_before as nat, 8);
            assert(digest@.len() == 32);
            assert(rest.subrange(0, 8) =~= be_bytes(delivery as nat, 8));
            assert(rest.subrange(8, 40) =~= digest@);
            assert(rest.subrange(40, 48) =~= be_bytes(next_id_before as nat, 8));
            assert(rest.skip(48) =~= body);
            lemma_apply_round_trip(start_position, continuation, mutations@);
        },
    }
}

/// No part of a stored state that lacks its end is read as a state.
pub proof fn law_truncated_state_is_refused(state: PostgresSinkState, length: int)
    requires
        state_fault(state) is None,
        0 <= length < state_bytes(state).len(),
    ensures
        read_fault(state_bytes(state).take(length)) == Some(PostgresSinkStateCodecError::Truncated),
{
    law_state_round_trip(state);
    let bytes = state_bytes(state);
    let part = bytes.take(length);
    if length >= 2 {
        assert(part.subrange(0, 2) =~= bytes.subrange(0, 2));
        if length >= 3 {
            let rest = bytes.skip(3);
            assert(part.skip(3) =~= rest.take(length - 3));
            if bytes[2] == 1 && length - 3 >= 16 {
                assert(rest.take(length - 3).skip(16) =~= rest.skip(16).take(length - 19));
            }
            if bytes[2] == 2 && length - 3 >= 48 {
                assert(rest.take(length - 3).skip(48) =~= rest.skip(48).take(length - 51));
                lemma_apply_cut(rest.skip(48), length - 51);
            }
        }
    }
}

/// What is wrong with a durable state.
pub open spec fn codec_error_text(value: PostgresSinkStateCodecError) -> Seq<char> {
    match value {
        PostgresSinkStateCodecError::Truncated => "PostgreSQL sink state is truncated"@,
        PostgresSinkStateCodecError::UnsupportedVersion(version) => {
            "unsupported PostgreSQL sink state format version "@ + decimal(version as nat)
        },
        PostgresSinkStateCodecError::UnknownStateTag(tag) => {
            "unknown PostgreSQL sink state tag "@ + decimal(tag as nat)
        },
        PostgresSinkStateCodecError::UnknownPositionTag(tag) => {
            "unknown PostgreSQL sink position tag "@ + decimal(tag as nat)
        },
        PostgresSinkStateCodecError::UnknownContinuationTag(tag) => {
            "unknown PostgreSQL sink continuation tag "@ + decimal(tag as nat)
        },
        PostgresSinkStateCodecError::UnknownMutationKindTag(tag) => {
            "unknown PostgreSQL sink mutation kind tag "@ + decimal(tag as nat)
        },
        PostgresSinkStateCodecError::TrailingBytes => {
            "PostgreSQL sink state contains trailing bytes"@
        },
        PostgresSinkStateCodecError::InvalidNextDelivery(sequence) => {
            "PostgreSQL sink next delivery "@ + decimal(sequence as nat)
                + " is outside 1..=i64::MAX+1"@
        },
        PostgresSinkStateCodecError::InvalidDelivery(sequence) => {
            "PostgreSQL sink delivery "@ + decimal(sequence as nat) + " is outside 1..=i64::MAX"@
        },
        PostgresSinkStateCodecError::InvalidNextId(id) => {
            "PostgreSQL sink next technical ID "@ + decimal(id as nat)
                + " is outside 1..=i64::MAX+1"@
        },
        PostgresSinkStateCodecError::ZeroRemaining => {
            "PostgreSQL sink position must have a nonzero remaining multiplicity"@
        },
        PostgresSinkStateCodecError::EmptyMutationBatch => {
            "PostgreSQL sink Prepared state must contain at least one mutation"@
        },
        PostgresSinkStateCodecError::TooManyMutations(count) => {
            "PostgreSQL sink mutation batch contains "@ + decimal(count as nat)
                + " mutations, exceeding the limit"@
        },
        PostgresSinkStateCodecError::InvalidTechnicalId(id) => {
            "PostgreSQL sink mutation technical ID "@ + decimal(id as nat)
                + " is outside 1..=i64::MAX"@
        },
        PostgresSinkStateCodecError::FirstMutationRowMismatch => {
            "PostgreSQL sink Prepared state's first mutation is not at its start position"@
        },
        PostgresSinkStateCodecError::NonContiguousMutationRows => {
            "PostgreSQL sink mutation row indices are not contiguous and nondecreasing"@
        },
        PostgresSinkStateCodecError::MixedMutationKinds => {
            "PostgreSQL sink mutations for one input row have different kinds"@
        },
        PostgresSinkStateCodecError::InsertRangeStartMismatch => {
            "PostgreSQL sink insert technical IDs do not begin at next_id_before"@
        },
        PostgresSinkStateCodecError::NonConsecutiveInsertIds => {
            "PostgreSQL sink insert technical IDs are not consecutive"@
        },
        PostgresSinkStateCodecError::InsertRangeOverflow => {
            "PostgreSQL sink insert technical-ID range exceeds i64::MAX"@
        },
        PostgresSinkStateCodecError::NonIncreasingDeleteIds => {
            "PostgreSQL sink delete technical IDs for one input row are not increasing"@
        },
        PostgresSinkStateCodecError::DuplicateDeleteId => {
            "PostgreSQL sink mutation batch deletes one technical ID more than once"@
        },
        PostgresSinkStateCodecError::UnallocatedTechnicalId => {
            "PostgreSQL sink mutation references a technical ID not yet allocated"@
        },
        PostgresSinkStateCodecError::DeleteBeforeInsert => {
            "PostgreSQL sink mutation deletes a newly allocated ID before inserting it"@
        },
        PostgresSinkStateCodecError::StartRemainderExceeded => {
            "PostgreSQL sink Prepared state consumes more than the start position's remainder"@
        },
        PostgresSinkStateCodecError::InvalidContinuation => {
            "PostgreSQL sink Prepared continuation does not follow its mutations canonically"@
        },
    }
}

impl PostgresSinkStateCodecError {
    /// What is wrong with a durable state.
    pub fn message(&self) -> (text: String)
        ensures
            text@ == codec_error_text(*self),
    {
        match self {
            PostgresSinkStateCodecError::Truncated => {
                "PostgreSQL sink state is truncated".to_owned()
            },
            PostgresSinkStateCodecError::UnsupportedVersion(version) => {
                let mut text: String = "unsupported PostgreSQL sink state format version ".to_owned();
                push_decimal(&mut text, *version as u64);
                text
            },
            PostgresSinkStateCodecError::UnknownStateTag(tag) => {
                let mut text: String = "unknown PostgreSQL sink state tag ".to_owned();
                push_decimal(&mut text, *tag as u64);
                text
            },
            PostgresSinkStateCodecError::UnknownPositionTag(tag) => {
                let mut text: String = "unknown PostgreSQL sink position tag ".to_owned();
                push_decimal(&mut text, *tag as u64);
                text
            },
            PostgresSinkStateCodecError::UnknownContinuationTag(tag) => {
                let mut text: String = "unknown PostgreSQL sink continuation tag ".to_owned();
                push_decimal(&mut text, *tag as u64);
                text
            },
            PostgresSinkStateCodecError::UnknownMutationKindTag(tag) => {
                let mut text: String = "unknown PostgreSQL sink mutation kind tag ".to_owned();
                push_decimal(&mut text, *tag as u64);
                text
            },
            PostgresSinkStateCodecError::TrailingBytes => {
                "PostgreSQL sink state contains trailing bytes".to_owned()
            },
            PostgresSinkStateCodecError::InvalidNextDelivery(sequence) => {
                let mut text: String = "PostgreSQL sink next delivery ".to_owned();
                push_decimal(&mut text, *sequence as u64);
                text.append(" is outside 1..=i64::MAX+1");
                text
            },
            PostgresSinkStateCodecError::InvalidDelivery(sequence) => {
                let mut text: String = "PostgreSQL sink delivery ".to_owned();
                push_decimal(&mut text, *sequence as u64);
                text.append(" is outside 1..=i64::MAX");
                text
            },
            PostgresSinkStateCodecError::InvalidNextId(id) => {
                let mut text: String = "PostgreSQL sink next technical ID ".to_owned();
                push_decimal(&mut text, *id as u64);
                text.append(" is outside 1..=i64::MAX+1");
                text
            },
            PostgresSinkStateCodecError::ZeroRemaining => {
                "PostgreSQL sink position must have a nonzero remaining multiplicity".to_owned()
            },
            PostgresSinkStateCodecError::EmptyMutationBatch => {
                "PostgreSQL sink Prepared state must contain at least one mutation".to_owned()
            },
            PostgresSinkStateCodecError::TooManyMutations(count) => {
                let mut text: String = "PostgreSQL sink mutation batch contains ".to_owned();
                push_decimal(&mut text, *count as u64);
                text.append(" mutations, exceeding the limit");
                text
            },
            PostgresSinkStateCodecError::InvalidTechnicalId(id) => {
                let mut text: String = "PostgreSQL sink mutation technical ID ".to_owned();
                push_decimal(&mut text, *id as u64);
                text.append(" is outside 1..=i64::MAX");
                text
            },
            PostgresSinkStateCodecError::FirstMutationRowMismatch => {
                "PostgreSQL sink Prepared state's first mutation is not at its start position".to_owned()
            },
            PostgresSinkStateCodecError::NonContiguousMutationRows => {
                "PostgreSQL sink mutation row indices are not contiguous and nondecreasing".to_owned()
            },
            PostgresSinkStateCodecError::MixedMutationKinds => {
                "PostgreSQL sink mutations for one input row have different kinds".to_owned()
            },
            PostgresSinkStateCodecError::InsertRangeStartMismatch => {
                "PostgreSQL sink insert technical IDs do not begin at next_id_before".to_owned()
            },
            PostgresSinkStateCodecError::NonConsecutiveInsertIds => {
                "PostgreSQL sink insert technical IDs are not consecutive".to_owned()
            },
            PostgresSinkStateCodecError::InsertRangeOverflow => {
                "PostgreSQL sink insert technical-ID range exceeds i64::MAX".to_owned()
            },
            PostgresSinkStateCodecError::NonIncreasingDeleteIds => {
                "PostgreSQL sink delete technical IDs for one input row are not increasing".to_owned()
            },
            PostgresSinkStateCodecError::DuplicateDeleteId => {
                "PostgreSQL sink mutation batch deletes one technical ID more than once".to_owned()
            },
            PostgresSinkStateCodecError::UnallocatedTechnicalId => {
                "PostgreSQL sink mutation references a technical ID not yet allocated".to_owned()
            },
            PostgresSinkStateCodecError::DeleteBeforeInsert => {
                "PostgreSQL sink mutation deletes a newly allocated ID before inserting it".to_owned()
            },
            PostgresSinkStateCodecError::StartRemainderExceeded => {
                "PostgreSQL sink Prepared state consumes more than the start position's remainder".to_owned()
            },
            PostgresSinkStateCodecError::InvalidContinuation => {
                "PostgreSQL sink Prepared continuation does not follow its mutations canonically".to_owned()
            },
        }
    }
}

} // verus!
