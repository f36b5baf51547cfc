//! The protocol of a buffered sink: what it does next, and what it stores when it does.

use crate::buffered::audit::{audit, sizes_fault, validate_buffer, validate_event_sizes};
use crate::buffered::delivery::DeliveryBatch;
use crate::buffered::entry::{
    encoded_item_bytes, StoredEntry, MAX_DELIVERY_BYTES, MAX_TARGET_BATCH_BYTES,
};
use crate::buffered::load::{carries, load, load_outcome, LoadLimits, LoadedBatch};
use crate::buffered::state::{
    decode_fault, decode_header, decoded, empty_buffer, ids_last, state_bytes, state_fault,
    BufferFault, BufferState, Position, Prepared, Ready, State,
};
use crate::change::{count_events, count_positives, events, positives, Change, Schema};
use crate::text::{abs, magnitude};
use vstd::prelude::*;

verus! {

pub const MAX_BUFFERED_EVENTS: u64 = 1048576;

pub const MAX_RETAINED_BYTES: u64 = 67108864;

pub const MAX_DELIVERY_EVENTS: u64 = 65536;

pub const MAX_CONTROL_BYTES: usize = 8388608;

/// A change that may enter the buffer: the bytes it takes up there, its events, and the
/// multiplicity of its first row.
#[derive(Clone, Copy, Debug, PartialEq, Eq, Structural)]
pub struct Admission {
    pub item_bytes: u64,
    pub events: u64,
    pub first_remaining: u64,
}

/// Why a change may not enter the buffer, if it may not.
pub open spec fn admission_refusal(
    input: Change,
    target_admits: bool,
    event_bytes: Option<Vec<u64>>,
    encoded_length: u64,
) -> Option<BufferFault> {
    let rows = input.diffs@.len() as int;
    if events(input.diffs@, rows) > u64::MAX {
        Some(BufferFault::CountOverflow)
    } else if events(input.diffs@, rows) > MAX_BUFFERED_EVENTS {
        Some(BufferFault::ChangeTooManyEvents)
    } else if !target_admits {
        Some(BufferFault::Target)
    } else if event_bytes is None {
        Some(BufferFault::Target)
    } else if sizes_fault(event_bytes->0@, event_bytes->0@.len() as int) is Some {
        sizes_fault(event_bytes->0@, event_bytes->0@.len() as int)
    } else if encoded_length + 8 > u64::MAX {
        Some(BufferFault::EncodedOverflow)
    } else if encoded_length + 8 > MAX_DELIVERY_BYTES {
        Some(BufferFault::ItemCapacity)
    } else {
        None
    }
}

/// What a change brings into the buffer.
pub open spec fn admission_of(input: Change, encoded_length: u64) -> Admission {
    Admission {
        item_bytes: (encoded_length + 8) as u64,
        events: events(input.diffs@, input.diffs@.len() as int) as u64,
        first_remaining: abs(input.diffs@[0] as int) as u64,
    }
}

/// Decides whether a change may enter the buffer. The target has said whether it admits the
/// change and what it charges for an event of each row.
pub fn prepare_admission(
    input: &Change,
    target_admits: bool,
    event_bytes: &Option<Vec<u64>>,
    encoded_length: u64,
) -> (result: Result<Admission, BufferFault>)
    requires
        input.wf(),
    ensures
        match result {
            Ok(admission) => {
                &&& admission_refusal(*input, target_admits, *event_bytes, encoded_length) is None
                &&& admission == admission_of(*input, encoded_length)
                &&& 0 < admission.first_remaining <= admission.events
            },
            Err(fault) => admission_refusal(*input, target_admits, *event_bytes, encoded_length)
                == Some(fault),
        },
{
    let count: u64 = match count_events(input.diffs.as_slice()) {
        Some(count) => count,
        None => {
            return Err(BufferFault::CountOverflow);
        },
    };
    if count > MAX_BUFFERED_EVENTS {
        return Err(BufferFault::ChangeTooManyEvents);
    }
    if !target_admits {
        return Err(BufferFault::Target);
    }
    match event_bytes {
        None => {
            return Err(BufferFault::Target);
        },
        Some(sizes) => {
            validate_event_sizes(sizes)?;
        },
    }
    let item_bytes: u64 = encoded_item_bytes(encoded_length)?;
    if item_bytes > MAX_DELIVERY_BYTES {
        return Err(BufferFault::ItemCapacity);
    }
    proof {
        assert(input.diffs@[0] != 0);
        crate::change::lemma_row_events(input.diffs@, 0);
        crate::change::lemma_counts_grow(input.diffs@, 1, input.diffs@.len() as int);
    }
    Ok(Admission { item_bytes, events: count, first_remaining: magnitude(input.diffs[0]) })
}

/// The buffer once a change has entered it.
pub open spec fn grown(buffer: BufferState, admission: Admission) -> BufferState {
    BufferState {
        head: match buffer.head {
            Some(head) => Some(head),
            None => Some(
                Position {
                    sequence: buffer.tail,
                    row_index: 0,
                    remaining: admission.first_remaining,
                },
            ),
        },
        tail: (buffer.tail + 1) as u64,
        pending_events: (buffer.pending_events + admission.events) as u64,
        retained_bytes: (buffer.retained_bytes + admission.item_bytes) as u64,
    }
}

/// Whether the buffer has room for a change, and batch IDs for all of its events.
pub open spec fn has_room(ready: Ready, admission: Admission) -> bool {
    &&& ready.buffer.pending_events + admission.events <= MAX_BUFFERED_EVENTS
    &&& ready.buffer.retained_bytes + admission.item_bytes <= MAX_RETAINED_BYTES
    &&& ready.buffer.tail < u64::MAX
    &&& ids_last(grown(ready.buffer, admission), ready.next_batch_id)
}

pub fn fits(ready: &Ready, admission: &Admission) -> (room: bool)
    ensures
        room == has_room(*ready, *admission),
{
    let pending: u64 = match ready.buffer.pending_events.checked_add(admission.events) {
        Some(pending) => pending,
        None => {
            return false;
        },
    };
    let retained: u64 = match ready.buffer.retained_bytes.checked_add(admission.item_bytes) {
        Some(retained) => retained,
        None => {
            return false;
        },
    };
    retained <= MAX_RETAINED_BYTES && pending <= MAX_BUFFERED_EVENTS && ready.buffer.tail
        < u64::MAX && ready.next_batch_id != 0 && pending <= u64::MAX - ready.next_batch_id
}

/// The most events that one delivery holds.
pub open spec fn event_limit(max_batch_events: u32) -> u64 {
    if max_batch_events as u64 <= MAX_DELIVERY_EVENTS {
        max_batch_events as u64
    } else {
        MAX_DELIVERY_EVENTS
    }
}

pub fn delivery_event_limit(max_batch_events: u32) -> (limit: u64)
    ensures
        limit == event_limit(max_batch_events),
{
    if max_batch_events as u64 <= MAX_DELIVERY_EVENTS {
        max_batch_events as u64
    } else {
        MAX_DELIVERY_EVENTS
    }
}

/// Whether the buffer holds enough for a full delivery.
pub open spec fn is_full(ready: Ready, max_batch_events: u32) -> bool {
    ready.buffer.retained_bytes >= MAX_DELIVERY_BYTES || ready.buffer.pending_events
        >= event_limit(max_batch_events)
}

pub fn should_drain(ready: &Ready, max_batch_events: u32) -> (full: bool)
    ensures
        full == is_full(*ready, max_batch_events),
{
    ready.buffer.retained_bytes >= MAX_DELIVERY_BYTES || ready.buffer.pending_events
        >= delivery_event_limit(max_batch_events)
}

/// The limits of a delivery of at most `max_events` events.
pub open spec fn limits_for(max_events: u64) -> LoadLimits {
    LoadLimits {
        events: max_events,
        encoded_bytes: MAX_DELIVERY_BYTES,
        item_bytes: MAX_DELIVERY_BYTES,
        target_bytes: MAX_TARGET_BATCH_BYTES,
    }
}

pub fn delivery_limits(max_events: u64) -> (limits: LoadLimits)
    ensures
        limits == limits_for(max_events),
{
    LoadLimits::new(max_events, MAX_DELIVERY_BYTES, MAX_DELIVERY_BYTES, MAX_TARGET_BATCH_BYTES)
}

/// Whether a buffer keeps within what it may hold.
pub open spec fn within_capacity(buffer: BufferState) -> bool {
    buffer.pending_events <= MAX_BUFFERED_EVENTS && buffer.retained_bytes <= MAX_RETAINED_BYTES
}

pub fn validate_capacity(buffer: BufferState) -> (result: Result<(), BufferFault>)
    ensures
        match result {
            Ok(_) => within_capacity(buffer),
            Err(fault) => !within_capacity(buffer) && fault == BufferFault::CapacityExceeded,
        },
{
    if buffer.pending_events > MAX_BUFFERED_EVENTS || buffer.retained_bytes > MAX_RETAINED_BYTES {
        Err(BufferFault::CapacityExceeded)
    } else {
        Ok(())
    }
}

/// Why a state cannot be written to the store, if it cannot.
pub open spec fn store_fault(state: State) -> Option<BufferFault> {
    if state_fault(state) is Some {
        state_fault(state)
    } else if state_bytes(state).len() > MAX_CONTROL_BYTES {
        Some(BufferFault::ControlTooLarge)
    } else {
        None
    }
}

/// Encodes a state that may be stored.
pub fn encode_bounded(state: &State) -> (result: Result<Vec<u8>, BufferFault>)
    ensures
        match result {
            Ok(encoded) => store_fault(*state) is None && encoded@ == state_bytes(*state),
            Err(fault) => store_fault(*state) == Some(fault),
        },
{
    state.validate()?;
    let encoded: Vec<u8> = state.encode();
    if encoded.len() > MAX_CONTROL_BYTES {
        Err(BufferFault::ControlTooLarge)
    } else {
        Ok(encoded)
    }
}

/// What a turn stores, and the buffer between deliveries that it leads to.
#[derive(Debug)]
pub struct Stored {
    pub ready: Ready,
    pub control: Vec<u8>,
}

/// What is stored before a target is created: the intent to do so, once no object of it is
/// there. Where one is, nothing is stored.
pub fn begin_initialization(absent: bool) -> (result: Result<Vec<u8>, BufferFault>)
    ensures
        match result {
            Ok(control) => absent && control@ == state_bytes(State::Initialize),
            Err(fault) => !absent && fault == BufferFault::Target,
        },
{
    if absent {
        Ok(State::Initialize.encode())
    } else {
        Err(BufferFault::Target)
    }
}

/// The first state of a target that was just initialized.
pub fn publish_ready(checkpoint: u64) -> (result: Result<Stored, BufferFault>)
    ensures
        result is Ok,
        result->Ok_0.ready == (Ready { buffer: empty_buffer(), next_batch_id: 1, checkpoint }),
        result->Ok_0.control@ == state_bytes(State::Ready(result->Ok_0.ready)),
{
    broadcast use crate::bytes::lemma_be_bytes_len;

    let ready: Ready = Ready { buffer: BufferState::empty(), next_batch_id: 1, checkpoint };
    let state: State = State::Ready(ready);
    proof {
        reveal(crate::buffered::state::buffer_bytes);
        assert(state_bytes(state).len() == 43);
    }
    let control: Vec<u8> = encode_bounded(&state)?;
    Ok(Stored { ready, control })
}

/// Why a change cannot be admitted to the buffer, if it cannot.
pub open spec fn admit_fault(ready: Ready, admission: Admission) -> Option<BufferFault> {
    let next = Ready { buffer: grown(ready.buffer, admission), ..ready };
    if ready.buffer.retained_bytes + admission.item_bytes > MAX_RETAINED_BYTES {
        Some(BufferFault::RetainedCapacity)
    } else if ready.buffer.pending_events + admission.events > MAX_BUFFERED_EVENTS {
        Some(BufferFault::EventCapacity)
    } else if ready.buffer.tail == u64::MAX {
        Some(BufferFault::SequenceExhausted)
    } else {
        store_fault(State::Ready(next))
    }
}

/// Admits a change: the buffer grows by one entry, which stands at the old tail.
pub fn admit_change(ready: &Ready, admission: &Admission) -> (result: Result<Stored, BufferFault>)
    ensures
        match result {
            Ok(stored) => {
                &&& admit_fault(*ready, *admission) is None
                &&& stored.ready == (Ready { buffer: grown(ready.buffer, *admission), ..*ready })
                &&& stored.control@ == state_bytes(State::Ready(stored.ready))
            },
            Err(fault) => admit_fault(*ready, *admission) == Some(fault),
        },
{
    let retained_bytes: u64 = match ready.buffer.retained_bytes.checked_add(admission.item_bytes) {
        Some(bytes) => bytes,
        None => {
            return Err(BufferFault::RetainedCapacity);
        },
    };
    if retained_bytes > MAX_RETAINED_BYTES {
        return Err(BufferFault::RetainedCapacity);
    }
    let pending_events: u64 = match ready.buffer.pending_events.checked_add(admission.events) {
        Some(events) => events,
        None => {
            return Err(BufferFault::EventCapacity);
        },
    };
    if pending_events > MAX_BUFFERED_EVENTS {
        return Err(BufferFault::EventCapacity);
    }
    if ready.buffer.tail == u64::MAX {
        return Err(BufferFault::SequenceExhausted);
    }
    let head: Position = match ready.buffer.head {
        Some(head) => head,
        None => Position {
            sequence: ready.buffer.tail,
            row_index: 0,
            remaining: admission.first_remaining,
        },
    };
    let buffer: BufferState = BufferState {
        head: Some(head),
        tail: ready.buffer.tail + 1,
        pending_events,
        retained_bytes,
    };
    let next: Ready = Ready {
        buffer,
        next_batch_id: ready.next_batch_id,
        checkpoint: ready.checkpoint,
    };
    let control: Vec<u8> = encode_bounded(&State::Ready(next))?;
    Ok(Stored { ready: next, control })
}

/// A delivery that was planned but not stored yet.
pub fn plan_delivery(ready: &Ready, after: BufferState, checkpoint: u64, plan: Vec<u8>) -> (prepared:
    Prepared)
    ensures
        prepared == (Prepared {
            before: ready.buffer,
            after,
            batch_id: ready.next_batch_id,
            checkpoint,
            plan,
        }),
{
    Prepared { before: ready.buffer, after, batch_id: ready.next_batch_id, checkpoint, plan }
}

/// A delivery that the target has confirmed.
#[derive(Clone, Copy, Debug, PartialEq, Eq, Structural)]
pub struct Delivered {
    pub before: BufferState,
    pub after: BufferState,
    pub batch_id: u64,
    pub checkpoint: u64,
}

pub fn delivered(prepared: &Prepared) -> (done: Delivered)
    ensures
        done == (Delivered {
            before: prepared.before,
            after: prepared.after,
            batch_id: prepared.batch_id,
            checkpoint: prepared.checkpoint,
        }),
{
    Delivered {
        before: prepared.before,
        after: prepared.after,
        batch_id: prepared.batch_id,
        checkpoint: prepared.checkpoint,
    }
}

/// What the settlement of a delivery stores, and which entries it removes: those from
/// `remove_start` to before `remove_end`.
#[derive(Debug)]
pub struct Settlement {
    pub ready: Ready,
    pub control: Vec<u8>,
    pub remove_start: u64,
    pub remove_end: u64,
}

/// The first entry that a delivery has not used up.
pub open spec fn first_kept(done: Delivered) -> u64 {
    match done.after.head {
        Some(head) => head.sequence,
        None => done.before.tail,
    }
}

/// The buffer between deliveries once a delivery is settled.
pub open spec fn settled(done: Delivered) -> Ready {
    Ready {
        buffer: done.after,
        next_batch_id: (done.batch_id + 1) as u64,
        checkpoint: done.checkpoint,
    }
}

/// Settles a delivery.
pub fn settle(done: &Delivered) -> (result: Result<Settlement, BufferFault>)
    requires
        done.before.head is Some,
        done.batch_id < u64::MAX,
    ensures
        match result {
            Ok(settlement) => {
                &&& store_fault(State::Ready(settled(*done))) is None
                &&& settlement.ready == settled(*done)
                &&& settlement.control@ == state_bytes(State::Ready(settlement.ready))
                &&& settlement.remove_start == done.before.head->0.sequence
                &&& settlement.remove_end == first_kept(*done)
            },
            Err(fault) => store_fault(State::Ready(settled(*done))) == Some(fault),
        },
{
    let ready: Ready = Ready {
        buffer: done.after,
        next_batch_id: done.batch_id + 1,
        checkpoint: done.checkpoint,
    };
    let control: Vec<u8> = encode_bounded(&State::Ready(ready))?;
    let remove_end: u64 = match done.after.head {
        Some(head) => head.sequence,
        None => done.before.tail,
    };
    let remove_start: u64 = match done.before.head {
        Some(head) => head.sequence,
        None => remove_end,
    };
    Ok(Settlement { ready, control, remove_start, remove_end })
}

/// What a sink finds in its store when it opens.
#[derive(Debug)]
pub enum Restored {
    New,
    Initialize,
    Ready { ready: Ready, positive_events: u64 },
    Prepared { prepared: Prepared, delivery: DeliveryBatch, positive_events: u64 },
}

/// Why a delivery that may have reached the target cannot be rebuilt, if it cannot.
pub open spec fn rebuild_fault(
    prepared: Prepared,
    entries: Seq<StoredEntry>,
    schema: Schema,
    max_batch_events: u32,
) -> Option<BufferFault> {
    let count = prepared.before.pending_events - prepared.after.pending_events;
    let outcome = load_outcome(entries, prepared.before, limits_for(count as u64), schema);
    if !within_capacity(prepared.before) || !within_capacity(prepared.after) {
        Some(BufferFault::CapacityExceeded)
    } else if audit(entries, prepared.before, schema) is Err {
        Some(audit(entries, prepared.before, schema)->Err_0)
    } else if count <= 0 {
        Some(BufferFault::EventSettlement)
    } else if count > event_limit(max_batch_events) {
        Some(BufferFault::DeliveryLimit)
    } else {
        match outcome {
            Err(fault) => Some(fault),
            Ok((model, head)) => if crate::buffered::load::state_after(
                prepared.before,
                model,
                head,
            ) != prepared.after {
                Some(BufferFault::SettlementMismatch)
            } else if positives(model.diffs, model.diffs.len() as int) > u64::MAX {
                Some(BufferFault::PositiveOverflow)
            } else if positives(model.diffs, model.diffs.len() as int) > audit(
                entries,
                prepared.before,
                schema,
            )->Ok_0 {
                Some(BufferFault::PositiveSettlement)
            } else {
                None
            },
        }
    }
}

/// Rebuilds a delivery that may have reached the target, and counts the events with a positive
/// multiplicity that remain after it.
fn rebuild(
    prepared: &Prepared,
    entries: &Vec<StoredEntry>,
    schema: &Schema,
    max_batch_events: u32,
) -> (result: Result<(DeliveryBatch, u64), BufferFault>)
    requires
        forall|i: int| 0 <= i < entries@.len() ==> (#[trigger] entries@[i]).wf(),
    ensures
        match result {
            Ok((delivery, positive_events)) => {
                let count = prepared.before.pending_events - prepared.after.pending_events;
                let outcome = load_outcome(
                    entries@,
                    prepared.before,
                    limits_for(count as u64),
                    *schema,
                );
                &&& rebuild_fault(*prepared, entries@, *schema, max_batch_events) is None
                &&& outcome is Ok
                &&& carries(
                    (LoadedBatch { delivery, after: prepared.after }),
                    prepared.before,
                    outcome->Ok_0.0,
                    outcome->Ok_0.1,
                    *schema,
                )
                &&& positive_events + positives(
                    delivery.change.diffs@,
                    delivery.change.diffs@.len() as int,
                ) == audit(entries@, prepared.before, *schema)->Ok_0
            },
            Err(fault) => rebuild_fault(*prepared, entries@, *schema, max_batch_events) == Some(
                fault,
            ),
        },
{
    validate_capacity(prepared.before)?;
    validate_capacity(prepared.after)?;
    let positive_before: u64 = validate_buffer(prepared.before, entries, schema)?;
    if prepared.before.pending_events <= prepared.after.pending_events {
        return Err(BufferFault::EventSettlement);
    }
    let count: u64 = prepared.before.pending_events - prepared.after.pending_events;
    if count > delivery_event_limit(max_batch_events) {
        return Err(BufferFault::DeliveryLimit);
    }
    let loaded: LoadedBatch = load(entries, prepared.before, delivery_limits(count), schema)?;
    if loaded.after != prepared.after {
        return Err(BufferFault::SettlementMismatch);
    }
    let positive: u64 = match count_positives(loaded.delivery.change.diffs.as_slice()) {
        Some(positive) => positive,
        None => {
            return Err(BufferFault::PositiveOverflow);
        },
    };
    match positive_before.checked_sub(positive) {
        Some(positive_events) => Ok((loaded.delivery, positive_events)),
        None => Err(BufferFault::PositiveSettlement),
    }
}

/// Why a store cannot be the one of this sink, if it cannot.
pub open spec fn restore_fault(
    control: Option<Seq<u8>>,
    entries: Seq<StoredEntry>,
    schema: Schema,
    max_batch_events: u32,
) -> Option<BufferFault> {
    match control {
        None => if entries.len() > 0 {
            Some(BufferFault::OutsideRange)
        } else {
            None
        },
        Some(bytes) => if decode_fault(bytes) is Some {
            decode_fault(bytes)
        } else if bytes[1] == 0 {
            if entries.len() > 0 {
                Some(BufferFault::OutsideRange)
            } else {
                None
            }
        } else if bytes[1] == 1 {
            let buffer = crate::buffered::state::buffer_at(bytes.skip(2));
            if !within_capacity(buffer) {
                Some(BufferFault::CapacityExceeded)
            } else if audit(entries, buffer, schema) is Err {
                Some(audit(entries, buffer, schema)->Err_0)
            } else {
                None
            }
        } else {
            let prepared = choose|prepared: Prepared| decoded(bytes, State::Prepared(prepared));
            rebuild_fault(prepared, entries, schema, max_batch_events)
        },
    }
}

/// Reads what the store of a sink holds, and audits all of it before the target is touched.
pub fn restore(
    control: Option<&[u8]>,
    entries: &Vec<StoredEntry>,
    schema: &Schema,
    max_batch_events: u32,
) -> (result: Result<Restored, BufferFault>)
    requires
        forall|i: int| 0 <= i < entries@.len() ==> (#[trigger] entries@[i]).wf(),
    ensures
        ({
            let bytes = match control {
                Some(bytes) => Some(bytes@),
                None => None,
            };
            match result {
                Ok(restored) => {
                    &&& restore_fault(bytes, entries@, *schema, max_batch_events) is None
                    &&& match restored {
                        Restored::New => control is None,
                        Restored::Initialize => control is Some && decoded(
                            bytes->0,
                            State::Initialize,
                        ),
                        Restored::Ready { ready, positive_events } => {
                            &&& control is Some
                            &&& decoded(bytes->0, State::Ready(ready))
                            &&& audit(entries@, ready.buffer, *schema) == Ok::<u64, BufferFault>(
                                positive_events,
                            )
                        },
                        Restored::Prepared { prepared, delivery, positive_events } => {
                            let count = prepared.before.pending_events
                                - prepared.after.pending_events;
                            let outcome = load_outcome(
                                entries@,
                                prepared.before,
                                limits_for(count as u64),
                                *schema,
                            );
                            &&& control is Some
                            &&& decoded(bytes->0, State::Prepared(prepared))
                            &&& outcome is Ok
                            &&& carries(
                                (LoadedBatch { delivery, after: prepared.after }),
                                prepared.before,
                                outcome->Ok_0.0,
                                outcome->Ok_0.1,
                                *schema,
                            )
                            &&& positive_events + positives(
                                delivery.change.diffs@,
                                delivery.change.diffs@.len() as int,
                            ) == audit(entries@, prepared.before, *schema)->Ok_0
                        },
                    }
                },
                Err(fault) => restore_fault(bytes, entries@, *schema, max_batch_events) == Some(
                    fault,
                ),
            }
        }),
{
    let bytes: &[u8] = match control {
        None => {
            if entries.len() > 0 {
                return Err(BufferFault::OutsideRange);
            }
            return Ok(Restored::New);
        },
        Some(bytes) => bytes,
    };
    match decode_header(bytes)? {
        State::Initialize => {
            if entries.len() > 0 {
                return Err(BufferFault::OutsideRange);
            }
            Ok(Restored::Initialize)
        },
        State::Ready(ready) => {
            validate_capacity(ready.buffer)?;
            let positive_events: u64 = validate_buffer(ready.buffer, entries, schema)?;
            Ok(Restored::Ready { ready, positive_events })
        },
        State::Prepared(prepared) => {
            proof {
                let other = choose|other: Prepared| decoded(bytes@, State::Prepared(other));
                assert(decoded(bytes@, State::Prepared(prepared)));
                assert(other.before == prepared.before);
                assert(other.after == prepared.after);
                assert(rebuild_fault(other, entries@, *schema, max_batch_events) == rebuild_fault(
                    prepared,
                    entries@,
                    *schema,
                    max_batch_events,
                ));
            }
            let rebuilt: (DeliveryBatch, u64) = rebuild(
                &prepared,
                entries,
                schema,
                max_batch_events,
            )?;
            Ok(
                Restored::Prepared {
                    prepared,
                    delivery: rebuilt.0,
                    positive_events: rebuilt.1,
                },
            )
        },
    }
}

/// Where a sink stands between two turns.
#[derive(Clone, Copy, Debug, PartialEq, Eq, Structural)]
pub enum Phase {
    Restore,
    New,
    Initialized,
    Ready(Ready),
    Loaded,
    Planned,
    Delivered,
    Failed,
}

/// A change that is offered to a sink, and whether it may enter the buffer.
#[derive(Clone, Copy, Debug)]
pub struct Offer {
    pub port: u64,
    pub schema_matches: bool,
    pub admission: Result<Admission, BufferFault>,
}

/// What a sink does in its next turn.
#[derive(Clone, Copy, Debug, PartialEq, Eq, Structural)]
pub enum TurnStep {
    Idle,
    Restore,
    Initialize,
    PublishReady,
    Admit(Admission),
    Load,
    Plan,
    Persist,
    Settle,
}

/// What a sink with a known buffer does: it drains a full buffer first, admits a change that
/// has room, and drains otherwise.
pub open spec fn ready_step(ready: Ready, offer: Option<Offer>, max_batch_events: u32) -> Result<
    TurnStep,
    BufferFault,
> {
    if ready.buffer.head is None {
        match offer {
            None => Ok(TurnStep::Idle),
            Some(offer) => match offer.admission {
                Ok(admission) => Ok(TurnStep::Admit(admission)),
                Err(fault) => Err(fault),
            },
        }
    } else {
        match offer {
            None => Ok(TurnStep::Load),
            Some(offer) => match offer.admission {
                Ok(admission) => if !is_full(ready, max_batch_events) && has_room(
                    ready,
                    admission,
                ) {
                    Ok(TurnStep::Admit(admission))
                } else {
                    Ok(TurnStep::Load)
                },
                Err(_) => Ok(TurnStep::Load),
            },
        }
    }
}

/// What a sink does next, given where it stands and what it is offered.
pub open spec fn next_step(phase: Phase, offer: Option<Offer>, max_batch_events: u32) -> Result<
    TurnStep,
    BufferFault,
> {
    if offer is Some && offer->0.port != 0 {
        Err(BufferFault::InputPort)
    } else if offer is Some && !offer->0.schema_matches {
        Err(BufferFault::InputSchema)
    } else {
        match phase {
            Phase::Restore => Ok(TurnStep::Restore),
            Phase::New => Ok(TurnStep::Initialize),
            Phase::Initialized => Ok(TurnStep::PublishReady),
            Phase::Ready(ready) => ready_step(ready, offer, max_batch_events),
            Phase::Loaded => Ok(TurnStep::Plan),
            Phase::Planned => Ok(TurnStep::Persist),
            Phase::Delivered => Ok(TurnStep::Settle),
            Phase::Failed => Err(BufferFault::Failed),
        }
    }
}

/// Decides what a sink does in its next turn.
pub fn turn(phase: &Phase, offer: &Option<Offer>, max_batch_events: u32) -> (result: Result<
    TurnStep,
    BufferFault,
>)
    ensures
        result == next_step(*phase, *offer, max_batch_events),
{
    if let Some(offered) = offer {
        if offered.port != 0 {
            return Err(BufferFault::InputPort);
        }
        if !offered.schema_matches {
            return Err(BufferFault::InputSchema);
        }
    }
    match phase {
        Phase::Restore => Ok(TurnStep::Restore),
        Phase::New => Ok(TurnStep::Initialize),
        Phase::Initialized => Ok(TurnStep::PublishReady),
        Phase::Ready(ready) => {
            if ready.buffer.is_empty() {
                match offer {
                    None => Ok(TurnStep::Idle),
                    Some(offered) => match &offered.admission {
                        Ok(admission) => Ok(TurnStep::Admit(*admission)),
                        Err(fault) => Err(*fault),
                    },
                }
            } else {
                match offer {
                    None => Ok(TurnStep::Load),
                    Some(offered) => match &offered.admission {
                        Ok(admission) => if !should_drain(ready, max_batch_events) && fits(
                            ready,
                            admission,
                        ) {
                            Ok(TurnStep::Admit(*admission))
                        } else {
                            Ok(TurnStep::Load)
                        },
                        Err(_) => Ok(TurnStep::Load),
                    },
                }
            }
        },
        Phase::Loaded => Ok(TurnStep::Plan),
        Phase::Planned => Ok(TurnStep::Persist),
        Phase::Delivered => Ok(TurnStep::Settle),
        Phase::Failed => Err(BufferFault::Failed),
    }
}

/// A sink with pending entries always has work that moves it on: it takes in another change only
/// where that is one that is offered and there is room, and else delivers. It is idle only where
/// nothing is pending and nothing is offered, and a change that is refused stops it only then.
pub proof fn law_pending_entries_are_delivered(
    ready: Ready,
    offer: Option<Offer>,
    max_batch_events: u32,
)
    ensures
        ({
            let step = ready_step(ready, offer, max_batch_events);
            &&& ready.buffer.head is Some ==> match step {
                Ok(TurnStep::Load) => true,
                Ok(TurnStep::Admit(admission)) => {
                    &&& offer is Some
                    &&& offer->0.admission == Ok::<Admission, BufferFault>(admission)
                    &&& has_room(ready, admission)
                    &&& ready.buffer.pending_events < MAX_DELIVERY_EVENTS
                    &&& ready.buffer.pending_events < max_batch_events
                    &&& ready.buffer.retained_bytes < MAX_DELIVERY_BYTES
                },
                _ => false,
            }
            &&& ready.buffer.head is Some && offer is None ==> step == Ok::<TurnStep, BufferFault>(
                TurnStep::Load,
            )
            &&& step == Ok::<TurnStep, BufferFault>(TurnStep::Idle) <==> ready.buffer.head is None
                && offer is None
            &&& ready.buffer.head is None && offer is Some ==> match offer->0.admission {
                Ok(admission) => step == Ok::<TurnStep, BufferFault>(TurnStep::Admit(admission)),
                Err(fault) => step == Err::<TurnStep, BufferFault>(fault),
            }
        }),
{
}

/// A change for which there is room keeps the buffer within its capacity and behind its own
/// head, and the numbers of the buffer grow by exactly what the change brings.
pub proof fn law_room_keeps_capacity(ready: Ready, admission: Admission)
    requires
        has_room(ready, admission),
    ensures
        ({
            let after = grown(ready.buffer, admission);
            &&& within_capacity(after)
            &&& after.pending_events == ready.buffer.pending_events + admission.events
            &&& after.retained_bytes == ready.buffer.retained_bytes + admission.item_bytes
            &&& after.tail == ready.buffer.tail + 1
            &&& ready.buffer.head is Some ==> after.head == ready.buffer.head
            &&& ready.buffer.head is None ==> after.head == Some(
                Position {
                    sequence: ready.buffer.tail,
                    row_index: 0,
                    remaining: admission.first_remaining,
                },
            )
        }),
{
}

/// A delivery never holds more events than a sink allows, nor more events or bytes than any
/// delivery may, and a buffer that has reached one of these is drained.
pub proof fn law_delivery_keeps_to_its_maximum(ready: Ready, max_batch_events: u32)
    ensures
        ({
            let limits = limits_for(event_limit(max_batch_events));
            &&& limits.events <= max_batch_events
            &&& limits.events <= MAX_DELIVERY_EVENTS
            &&& limits.events == max_batch_events || limits.events == MAX_DELIVERY_EVENTS
            &&& limits.encoded_bytes == MAX_DELIVERY_BYTES
            &&& limits.item_bytes == MAX_DELIVERY_BYTES
            &&& limits.target_bytes == MAX_TARGET_BATCH_BYTES
            &&& is_full(ready, max_batch_events) <==> ready.buffer.pending_events >= limits.events
                || ready.buffer.retained_bytes >= limits.encoded_bytes
        }),
{
}

} // verus!
