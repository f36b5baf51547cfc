//! The control state of a buffered relation, with the plan of its delivery.

use crate::buffered::delivery::DeliveryBatch;
use crate::buffered::state::{
    buffer_bytes, buffer_length, decode_fault, decode_header, decoded, law_state_round_trip,
    state_bytes, state_fault, BufferFault, BufferState, Prepared, Ready, State,
};
use crate::bytes::{lemma_be_bytes_len, Cursor};
use crate::change::Change;
use crate::relation::batch::{delete_pairs, insert_pairs, Batch, MAX_MUTATIONS_PER_BATCH};
use crate::relation::fault::{RelationError, RelationErrorModel, RelationFault};
use crate::relation::plan::{keys_of, next_id_fits, validate_next_id};
use crate::relation::recovery::{consumes_earlier, ids_fit, plan_valid};
use crate::relation::target::{
    law_plan_round_trip, law_truncated_plan_is_refused, plan_bytes, plan_refusal, stored_length,
    stored_plan, stored_plan_fault, RelationSinkTarget,
};
use vstd::prelude::*;

verus! {

/// Bytes are a stored plan and nothing else.
pub open spec fn whole_plan(bytes: Seq<u8>, plan: Batch) -> bool {
    &&& stored_plan_fault(bytes) is None
    &&& stored_plan(bytes, plan)
    &&& bytes.len() == stored_length(bytes)
}

/// What is said of bytes that are not a plan of a delivery and nothing else.
pub open spec fn plan_refused(
    bytes: Seq<u8>,
    checkpoint: u64,
    delivery: DeliveryBatch,
    error: RelationErrorModel,
) -> bool {
    match stored_plan_fault(bytes) {
        Some(fault) => error == RelationErrorModel::Fault(fault),
        None => exists|read: Batch|
            {
                &&& #[trigger] stored_plan(bytes, read)
                &&& if !plan_valid(read, checkpoint, delivery.change) {
                    error == plan_refusal(read, checkpoint, delivery.change)
                } else {
                    &&& bytes.len() > stored_length(bytes)
                    &&& error == RelationErrorModel::Fault(RelationFault::TrailingBytes)
                }
            },
    }
}

/// Bytes begin with one plan: two that are read from them are valid alike.
proof fn lemma_one_plan(
    bytes: Seq<u8>,
    left: Batch,
    right: Batch,
    checkpoint: u64,
    change: Change,
)
    requires
        stored_plan(bytes, left),
        stored_plan(bytes, right),
    ensures
        plan_valid(left, checkpoint, change) == plan_valid(right, checkpoint, change),
{
    let inserts = insert_pairs(left.inserts@);
    let deletes = delete_pairs(left.deletes@);
    assert(inserts.len() == left.inserts@.len() && inserts.len() == right.inserts@.len());
    assert(deletes.len() == left.deletes@.len() && deletes.len() == right.deletes@.len());
    assert forall|i: int| 0 <= i < inserts.len() implies left.inserts@[i]
        == #[trigger] right.inserts@[i] by {
        assert(inserts[i] == insert_pairs(right.inserts@)[i]);
    }
    assert forall|i: int| 0 <= i < deletes.len() implies left.deletes@[i]
        == #[trigger] right.deletes@[i] by {
        assert(deletes[i] == delete_pairs(right.deletes@)[i]);
    }
    assert(left.inserts@ =~= right.inserts@);
    assert(left.deletes@ =~= right.deletes@);
    if plan_valid(left, checkpoint, change) {
        lemma_valid_alike(left, right, checkpoint, change);
    }
    if plan_valid(right, checkpoint, change) {
        lemma_valid_alike(right, left, checkpoint, change);
    }
}

proof fn lemma_valid_alike(left: Batch, right: Batch, checkpoint: u64, change: Change)
    requires
        left.inserts@ == right.inserts@,
        left.deletes@ == right.deletes@,
        plan_valid(left, checkpoint, change),
    ensures
        plan_valid(right, checkpoint, change),
{
    assert(ids_fit(right, checkpoint));
    assert forall|k: int| 0 <= k < right.deletes@.len() implies #[trigger] consumes_earlier(
        right,
        checkpoint,
        keys_of(change),
        k,
    ) by {
        assert(consumes_earlier(left, checkpoint, keys_of(change), k));
    }
}

/// Reads a stored plan, which must belong to the delivery and to the checkpoint after it, and
/// end where its bytes do.
pub fn decode_stored_plan(plan: &[u8], batch: &DeliveryBatch, checkpoint: &u64) -> (result: Result<
    Batch,
    RelationError,
>)
    requires
        batch.wf(),
    ensures
        match result {
            Ok(read) => whole_plan(plan@, read) && plan_valid(read, *checkpoint, batch.change),
            Err(error) => plan_refused(plan@, *checkpoint, *batch, error@),
        },
        result is Ok <==> exists|read: Batch| #[trigger]
            whole_plan(plan@, read) && plan_valid(read, *checkpoint, batch.change),
{
    proof {
        assert forall|read: Batch, other: Batch| #[trigger]
            whole_plan(plan@, read) && #[trigger] stored_plan(plan@, other) implies plan_valid(
            read,
            *checkpoint,
            batch.change,
        ) == plan_valid(other, *checkpoint, batch.change) by {
            lemma_one_plan(plan@, read, other, *checkpoint, batch.change);
        }
    }
    let mut input: Cursor<'_> = Cursor::new(plan);
    let read: Batch = match RelationSinkTarget::<()>::decode_plan(&mut input, batch, checkpoint) {
        Ok(read) => read,
        Err(error) => {
            return Err(error);
        },
    };
    if !input.at_end() {
        assert(stored_plan(plan@, read));
        return Err(RelationError::Fault(RelationFault::TrailingBytes));
    }
    Ok(read)
}

/// A control state, with the plan of a delivery.
#[derive(Debug)]
pub enum ControlState {
    Initialize,
    Ready(Ready),
    Prepared(Prepared, Batch),
}

/// Why a control state cannot be read.
#[derive(Debug)]
pub enum ControlError {
    Buffer(BufferFault),
    Relation(RelationError),
}

/// Bytes hold a control state, whose plan belongs to the delivery that was rebuilt for it.
pub open spec fn holds_state(
    bytes: Seq<u8>,
    delivery: Option<DeliveryBatch>,
    state: ControlState,
) -> bool {
    &&& decode_fault(bytes) is None
    &&& match state {
        ControlState::Initialize => decoded(bytes, State::Initialize),
        ControlState::Ready(ready) => {
            &&& decoded(bytes, State::Ready(ready))
            &&& next_id_fits(ready.checkpoint)
        },
        ControlState::Prepared(prepared, plan) => {
            &&& decoded(bytes, State::Prepared(prepared))
            &&& next_id_fits(prepared.checkpoint)
            &&& delivery is Some
            &&& whole_plan(prepared.plan@, plan)
            &&& plan_valid(plan, prepared.checkpoint, delivery->0.change)
        },
    }
}

/// The delivery that was rebuilt, if one was.
pub open spec fn rebuilt(delivery: Option<&DeliveryBatch>) -> Option<DeliveryBatch> {
    match delivery {
        Some(delivery) => Some(*delivery),
        None => None,
    }
}

/// Reads a control state. That of a prepared delivery needs the delivery that was rebuilt.
pub fn decode_state(bytes: &[u8], delivery: Option<&DeliveryBatch>) -> (result: Result<
    ControlState,
    ControlError,
>)
    requires
        delivery is Some ==> delivery->0.wf(),
    ensures
        ({
            match result {
                Ok(state) => holds_state(bytes@, rebuilt(delivery), state),
                Err(ControlError::Buffer(fault)) => match decode_fault(bytes@) {
                    Some(found) => fault == found,
                    None => {
                        &&& fault == BufferFault::PreparedInput
                        &&& delivery is None
                        &&& exists|prepared: Prepared|
                            #[trigger] decoded(bytes@, State::Prepared(prepared)) && next_id_fits(
                                prepared.checkpoint,
                            )
                    },
                },
                Err(ControlError::Relation(error)) => {
                    &&& decode_fault(bytes@) is None
                    &&& exists|state: State|
                        {
                            &&& #[trigger] decoded(bytes@, state)
                            &&& match state {
                                State::Initialize => false,
                                State::Ready(ready) => {
                                    &&& !next_id_fits(ready.checkpoint)
                                    &&& error@ == RelationErrorModel::Fault(RelationFault::NextId)
                                },
                                State::Prepared(prepared) => if !next_id_fits(
                                    prepared.checkpoint,
                                ) {
                                    error@ == RelationErrorModel::Fault(RelationFault::NextId)
                                } else {
                                    &&& delivery is Some
                                    &&& plan_refused(
                                        prepared.plan@,
                                        prepared.checkpoint,
                                        *delivery->0,
                                        error@,
                                    )
                                },
                            }
                        }
                },
            }
        }),
        result is Ok <==> exists|state: ControlState| #[trigger]
            holds_state(bytes@, rebuilt(delivery), state),
{
    let state: State = match decode_header(bytes) {
        Ok(state) => state,
        Err(fault) => {
            return Err(ControlError::Buffer(fault));
        },
    };
    assert(decoded(bytes@, state));
    match state {
        State::Initialize => {
            assert(holds_state(bytes@, rebuilt(delivery), ControlState::Initialize));
            Ok(ControlState::Initialize)
        },
        State::Ready(ready) => {
            if let Err(error) = validate_next_id(ready.checkpoint) {
                return Err(ControlError::Relation(error));
            }
            assert(holds_state(bytes@, rebuilt(delivery), ControlState::Ready(ready)));
            Ok(ControlState::Ready(ready))
        },
        State::Prepared(prepared) => {
            if let Err(error) = validate_next_id(prepared.checkpoint) {
                return Err(ControlError::Relation(error));
            }
            let found: &DeliveryBatch = match delivery {
                Some(found) => found,
                None => {
                    return Err(ControlError::Buffer(BufferFault::PreparedInput));
                },
            };
            proof {
                assert(rebuilt(delivery) == Some(*found));
                assert forall|other: ControlState| #[trigger]
                    holds_state(bytes@, rebuilt(delivery), other) implies exists|read: Batch|
                    #[trigger] whole_plan(prepared.plan@, read) && plan_valid(
                        read,
                        prepared.checkpoint,
                        found.change,
                    ) by {
                    if let ControlState::Prepared(again, plan) = other {
                        assert(again.plan@ == prepared.plan@);
                        assert(whole_plan(prepared.plan@, plan));
                    }
                }
            }
            match decode_stored_plan(prepared.plan.as_slice(), found, &prepared.checkpoint) {
                Ok(plan) => {
                    let read: ControlState = ControlState::Prepared(prepared, plan);
                    assert(holds_state(bytes@, rebuilt(delivery), read));
                    Ok(read)
                },
                Err(error) => Err(ControlError::Relation(error)),
            }
        },
    }
}

/// The state without the plan that was read.
pub open spec fn header_of(state: ControlState) -> State {
    match state {
        ControlState::Initialize => State::Initialize,
        ControlState::Ready(ready) => State::Ready(ready),
        ControlState::Prepared(prepared, plan) => State::Prepared(prepared),
    }
}

/// A control state that may be stored, with a plan that was made for the delivery.
pub open spec fn storable(state: ControlState, delivery: Option<DeliveryBatch>) -> bool {
    &&& state_fault(header_of(state)) is None
    &&& match state {
        ControlState::Initialize => true,
        ControlState::Ready(ready) => next_id_fits(ready.checkpoint),
        ControlState::Prepared(prepared, plan) => {
            &&& next_id_fits(prepared.checkpoint)
            &&& delivery is Some
            &&& 0 < plan.inserts@.len() + plan.deletes@.len() <= MAX_MUTATIONS_PER_BATCH
            &&& prepared.plan@ == plan_bytes(plan)
            &&& plan_valid(plan, prepared.checkpoint, delivery->0.change)
        },
    }
}

/// A control state reads back as it was written, plan included.
pub proof fn law_control_round_trip(state: ControlState, delivery: Option<DeliveryBatch>)
    requires
        storable(state, delivery),
    ensures
        holds_state(state_bytes(header_of(state)), delivery, state),
{
    law_state_round_trip(header_of(state));
    if let ControlState::Prepared(prepared, plan) = state {
        lemma_whole_plan(plan);
    }
}

proof fn lemma_whole_plan(plan: Batch)
    requires
        0 < plan.inserts@.len() + plan.deletes@.len() <= MAX_MUTATIONS_PER_BATCH,
    ensures
        whole_plan(plan_bytes(plan), plan),
{
    law_plan_round_trip(plan, Seq::empty());
    let bytes = plan_bytes(plan);
    assert(bytes + Seq::<u8>::empty() =~= bytes);
    assert(bytes.skip(stored_length(bytes) as int).len() == 0);
}

/// Where the header of a prepared delivery ends.
spec fn header_length(prepared: Prepared) -> nat {
    (2 + buffer_bytes(prepared.before).len() + buffer_bytes(prepared.after).len() + 16) as nat
}

/// The tag of a buffer state, and so its length, stand in its first byte.
proof fn lemma_buffer_tag(buffer: BufferState, tail: Seq<u8>)
    ensures
        buffer_bytes(buffer).len() == buffer_length(buffer_bytes(buffer) + tail),
        buffer_bytes(buffer).len() >= 25,
{
    broadcast use lemma_be_bytes_len;

    reveal(buffer_bytes);
}

/// Bytes that agree with a stored state as far as both go, but end elsewhere, are refused.
proof fn lemma_other_length_refused(
    state: ControlState,
    delivery: Option<DeliveryBatch>,
    bytes: Seq<u8>,
    other: ControlState,
)
    requires
        storable(state, delivery),
        bytes.len() != state_bytes(header_of(state)).len(),
        forall|i: int|
            0 <= i < bytes.len() && i < state_bytes(header_of(state)).len() ==> bytes[i]
                == #[trigger] state_bytes(header_of(state))[i],
    ensures
        !holds_state(bytes, delivery, other),
{
    broadcast use lemma_be_bytes_len;

    let whole = state_bytes(header_of(state));
    assert(whole[0] == 1u8 && whole.len() >= 2);
    if bytes.len() >= 2 {
        assert(bytes[0] == whole[0] && bytes[1] == whole[1]);
        let rest = bytes.skip(2);
        match state {
            ControlState::Initialize => {},
            ControlState::Ready(ready) => {
                lemma_buffer_tag(ready.buffer, Seq::empty());
                assert(buffer_bytes(ready.buffer) + Seq::<u8>::empty() =~= buffer_bytes(
                    ready.buffer,
                ));
                assert(whole[2] == buffer_bytes(ready.buffer)[0]);
                if rest.len() > 0 {
                    assert(bytes[2] == whole[2]);
                    assert(rest[0] == whole[2]);
                    assert(buffer_length(rest) == buffer_bytes(ready.buffer).len());
                }
            },
            ControlState::Prepared(prepared, plan) => {
                let first = buffer_bytes(prepared.before);
                let second = buffer_bytes(prepared.after);
                lemma_buffer_tag(prepared.before, Seq::empty());
                lemma_buffer_tag(prepared.after, Seq::empty());
                assert(first + Seq::<u8>::empty() =~= first);
                assert(second + Seq::<u8>::empty() =~= second);
                assert(whole[2] == first[0]);
                assert(whole[2 + first.len() as int] == second[0]);
                let start = header_length(prepared) as int;
                assert(whole.skip(start) =~= prepared.plan@);
                if decode_fault(bytes) is None {
                    assert(bytes[2] == whole[2]);
                    assert(rest[0] == bytes[2]);
                    assert(buffer_length(rest) == first.len());
                    let middle = rest.skip(buffer_length(rest));
                    assert(middle[0] == bytes[2 + first.len() as int]);
                    assert(buffer_length(middle) == second.len());
                    let read = middle.skip(buffer_length(middle) + 16);
                    assert(read =~= bytes.skip(start));
                    if bytes.len() < whole.len() {
                        assert forall|i: int| 0 <= i < read.len() implies read[i]
                            == prepared.plan@[i] by {
                            assert(read[i] == bytes[start + i]);
                            assert(bytes[start + i] == whole[start + i]);
                        }
                        assert(read =~= prepared.plan@.take(read.len() as int));
                        law_truncated_plan_is_refused(plan, read.len() as int);
                    } else {
                        let tail = bytes.skip(whole.len() as int);
                        assert forall|i: int| 0 <= i < prepared.plan@.len() implies read[i]
                            == prepared.plan@[i] by {
                            assert(read[i] == bytes[start + i]);
                            assert(bytes[start + i] == whole[start + i]);
                        }
                        assert(read =~= plan_bytes(plan) + tail);
                        law_plan_round_trip(plan, tail);
                        assert(read.skip(stored_length(read) as int).len() == tail.len());
                    }
                }
            },
        }
    }
}

/// No part of a stored control state that lacks its end is read as a control state.
pub proof fn law_truncated_control_is_refused(
    state: ControlState,
    delivery: Option<DeliveryBatch>,
    length: int,
    other: ControlState,
)
    requires
        storable(state, delivery),
        0 <= length < state_bytes(header_of(state)).len(),
    ensures
        !holds_state(state_bytes(header_of(state)).take(length), delivery, other),
{
    lemma_other_length_refused(
        state,
        delivery,
        state_bytes(header_of(state)).take(length),
        other,
    );
}

/// A stored control state with anything behind it is not read as a control state.
pub proof fn law_longer_control_is_refused(
    state: ControlState,
    delivery: Option<DeliveryBatch>,
    tail: Seq<u8>,
    other: ControlState,
)
    requires
        storable(state, delivery),
        tail.len() > 0,
    ensures
        !holds_state(state_bytes(header_of(state)) + tail, delivery, other),
{
    lemma_other_length_refused(state, delivery, state_bytes(header_of(state)) + tail, other);
}

} // verus!
