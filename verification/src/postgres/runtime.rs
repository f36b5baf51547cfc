//! The turns of a PostgreSQL sink: restore, initialize, prepare a delivery, settle it.

use crate::change::{events, lemma_counts_grow, same_schema, Change, Schema};
use crate::postgres::error::{invalid_batch, PostgresErrorModel, PostgresSinkError};
use crate::postgres::state::{
    codec_error_text, prepared_fault, read_as, read_fault, sequence_fault, settled, state_bytes,
    state_fault, PostgresSinkState, PostgresSinkStateCodecError,
};
use crate::relation::batch::{
    EXHAUSTED_ID, FIRST_TECHNICAL_ID, MAX_MUTATIONS_PER_BATCH, MAX_TECHNICAL_ID,
};
use crate::relation::position::{
    apply_mismatch, first_position, id_in_range, inserts_among, lies_at, mismatch_text, offset_of,
    on_boundary, position_mismatch, stands_in, validate_apply_for_change, validate_batch_boundary,
    validate_next_id, validate_position_for_change, Continuation, Mismatch, Mutation, Position,
    StepError,
};
use crate::relation::stepwise::{
    batch_fits, lemma_inserts_grow, mutation_fits, BatchPlanner, PlanError,
};
use crate::text::{abs, decimal, join_two, push_decimal};
use vstd::prelude::*;

verus! {

pub const FIRST_DELIVERY: u64 = 1;

/// What is known of a sink that has nothing under way.
#[derive(Clone, Copy, Debug, PartialEq, Eq, Structural)]
pub struct ReadyState {
    pub next_delivery: u64,
    pub next_id: u64,
    pub position: Option<Position>,
}

/// What a settled delivery leads to.
#[derive(Clone, Copy, Debug, PartialEq, Eq, Structural)]
pub struct Settlement {
    pub next_delivery: u64,
    pub next_id: u64,
    pub position: Option<Position>,
    pub completes_input: bool,
}

/// What a sink knows of its durable state.
#[derive(Debug)]
pub enum RuntimePhase {
    /// Nothing: it has to be read.
    Restore,
    /// The target was created, and that is not stored yet.
    InitializeDelivered,
    Ready(ReadyState),
    /// The delivery reached the target, and that is not stored yet.
    PreparedDelivered(PostgresSinkState),
}

/// What a turn has to do.
#[derive(Debug, PartialEq, Eq)]
pub enum PostgresWork {
    Restore,
    SettleInitialization,
    Prepare(ReadyState),
    Settle(Settlement),
}

/// A relation sink that is bound to an exact schema.
#[derive(Debug)]
pub struct PostgresSinkOperation {
    pub schema: Schema,
    pub phase: RuntimePhase,
}

/// A number between two texts.
pub open spec fn numbered(before: Seq<char>, number: nat, after: Seq<char>) -> Seq<char> {
    before + decimal(number) + after
}

/// How a violation of the rules of stepping is reported.
pub open spec fn step_text(error: StepError) -> Seq<char> {
    match error {
        StepError::InvalidNextId { next_id } => numbered(
            "next technical ID "@,
            next_id as nat,
            " is outside 1..=i64::MAX+1"@,
        ),
        StepError::TechnicalIdExhausted { next_id, needed } => numbered(
            "technical ID range from "@,
            next_id as nat,
            " cannot reserve "@,
        ) + decimal(needed as nat) + " inserts"@,
        StepError::InputMismatch(mismatch) => mismatch_text(mismatch),
    }
}

/// Turns a violation of the rules of stepping into an error of this sink.
pub fn refuse_step(error: StepError) -> (refusal: PostgresSinkError)
    ensures
        refusal@ == (PostgresErrorModel::InvalidBatch { message: step_text(error) }),
{
    match error {
        StepError::InvalidNextId { next_id } => {
            let mut text: String = "next technical ID ".to_owned();
            push_decimal(&mut text, next_id);
            text.append(" is outside 1..=i64::MAX+1");
            invalid_batch(text.as_str())
        },
        StepError::TechnicalIdExhausted { next_id, needed } => {
            let mut text: String = "technical ID range from ".to_owned();
            push_decimal(&mut text, next_id);
            text.append(" cannot reserve ");
            push_decimal(&mut text, needed);
            text.append(" inserts");
            invalid_batch(text.as_str())
        },
        StepError::InputMismatch(mismatch) => invalid_batch(mismatch.message().as_str()),
    }
}

/// How an unreadable state is reported.
pub open spec fn state_text(error: PostgresSinkStateCodecError) -> Seq<char> {
    "durable state is invalid: "@ + codec_error_text(error)
}

pub fn refuse_state(error: PostgresSinkStateCodecError) -> (refusal: PostgresSinkError)
    ensures
        refusal@ == (PostgresErrorModel::InvalidBatch { message: state_text(error) }),
{
    let text: String = join_two("durable state is invalid: ", error.message().as_str());
    invalid_batch(text.as_str())
}

/// How a retraction without enough instances is reported.
pub open spec fn retraction_text(row_index: u64, needed: u64, available: u64) -> Seq<char> {
    "row "@ + decimal(row_index as nat) + " retracts "@ + decimal(needed as nat)
        + " instances, but only "@ + decimal(available as nat) + " exist"@
}

/// What the refusal of a planner means to this sink.
pub fn refuse_plan(error: PlanError) -> (refusal: PostgresSinkError)
    ensures
        match error {
            PlanError::Step(step) => refusal@ == (PostgresErrorModel::InvalidBatch {
                message: step_text(step),
            }),
            PlanError::Row(row) => refusal@ == PostgresErrorModel::Row(row@),
            PlanError::MissingRetraction { row_index, needed, available } => refusal@ == (
            PostgresErrorModel::InvalidBatch {
                message: retraction_text(row_index, needed, available),
            }),
        },
{
    match error {
        PlanError::Step(step) => refuse_step(step),
        PlanError::Row(row) => PostgresSinkError::Row(row),
        PlanError::MissingRetraction { row_index, needed, available } => {
            let mut text: String = "row ".to_owned();
            push_decimal(&mut text, row_index);
            text.append(" retracts ");
            push_decimal(&mut text, needed);
            text.append(" instances, but only ");
            push_decimal(&mut text, available);
            text.append(" exist");
            invalid_batch(text.as_str())
        },
    }
}

/// Why a state does not belong to a change, if it does not.
pub open spec fn state_mismatch(state: PostgresSinkState, diffs: Seq<i64>) -> Option<Mismatch> {
    match state {
        PostgresSinkState::Initialize => None,
        PostgresSinkState::Ready { next_delivery, next_id, position } => match position {
            None => None,
            Some(position) => if !stands_in(diffs, position) {
                position_mismatch(diffs, position)
            } else if !on_boundary(diffs, position) {
                Some(Mismatch::BatchBoundary)
            } else {
                None
            },
        },
        PostgresSinkState::Prepared {
            delivery,
            digest,
            next_id_before,
            start_position,
            continuation,
            mutations,
        } => apply_mismatch(
            diffs,
            (settled(state)->0).1,
            start_position,
            continuation,
            mutations@,
        ),
    }
}

/// Checks that a state belongs to a change.
pub fn validate_state_for_change(state: &PostgresSinkState, change: &Change) -> (result: Result<
    (),
    PostgresSinkError,
>)
    requires
        change.wf(),
        state_fault(*state) is None,
    ensures
        match result {
            Ok(_) => state_mismatch(*state, change.diffs@) is None,
            Err(error) => {
                &&& state_mismatch(*state, change.diffs@) is Some
                &&& error@ == (PostgresErrorModel::InvalidBatch {
                    message: mismatch_text(state_mismatch(*state, change.diffs@)->0),
                })
            },
        },
{
    match state {
        PostgresSinkState::Initialize => Ok(()),
        PostgresSinkState::Ready { next_delivery: _, next_id: _, position } => match position {
            None => Ok(()),
            Some(position) => {
                if let Err(error) = validate_position_for_change(change, *position) {
                    return Err(refuse_step(error));
                }
                match validate_batch_boundary(change, *position) {
                    Ok(_) => Ok(()),
                    Err(error) => Err(refuse_step(error)),
                }
            },
        },
        PostgresSinkState::Prepared {
            delivery: _,
            digest: _,
            next_id_before: _,
            start_position,
            continuation,
            mutations,
        } => {
            let next_id: u64 = match state.settled_frontiers() {
                Some(frontiers) => frontiers.1,
                None => 0,
            };
            match validate_apply_for_change(
                change,
                next_id,
                *start_position,
                *continuation,
                mutations,
            ) {
                Ok(_) => Ok(()),
                Err(error) => Err(refuse_step(error)),
            }
        },
    }
}

/// What a delivery leads to once it is settled.
pub open spec fn settlement_of(prepared: PostgresSinkState) -> Settlement {
    let frontiers = settled(prepared)->0;
    let continuation = prepared->Prepared_continuation;
    Settlement {
        next_delivery: frontiers.0,
        next_id: frontiers.1,
        position: match continuation {
            Continuation::Done => None,
            Continuation::Position(position) => Some(position),
        },
        completes_input: continuation is Done,
    }
}

/// A settlement stands exactly behind what was delivered: the input is complete where the last
/// event was delivered, and else the next delivery goes on at the first event that was not.
pub open spec fn stands_behind(
    settlement: Settlement,
    prepared: PostgresSinkState,
    diffs: Seq<i64>,
) -> bool {
    let mutations = prepared->mutations@;
    let reached = offset_of(diffs, prepared->start_position) + mutations.len();
    &&& settlement.completes_input <==> reached == events(diffs, diffs.len() as int)
    &&& match settlement.position {
        None => settlement.completes_input,
        Some(position) => {
            &&& !settlement.completes_input
            &&& stands_in(diffs, position)
            &&& offset_of(diffs, position) == reached
        },
    }
    &&& settlement.next_delivery == prepared->delivery + 1
    &&& settlement.next_id == prepared->next_id_before + inserts_among(
        mutations,
        mutations.len() as int,
    )
}

/// What settles a delivery that belongs to its change stands exactly behind it.
pub proof fn law_settlement_stands_behind_delivery(prepared: PostgresSinkState, diffs: Seq<i64>)
    requires
        prepared is Prepared,
        state_fault(prepared) is None,
        state_mismatch(prepared, diffs) is None,
    ensures
        stands_behind(settlement_of(prepared), prepared, diffs),
{
    let continuation = prepared->Prepared_continuation;
    let start = offset_of(diffs, prepared->start_position);
    assert(lies_at(diffs, continuation, start + prepared->mutations@.len()));
    if let Continuation::Position(position) = continuation {
        lemma_counts_grow(diffs, position.row_index + 1, diffs.len() as int);
    }
}

/// Decides what a delivery leads to once it is settled.
pub fn prepared_settlement(prepared: &PostgresSinkState, change: &Change) -> (result: Result<
    Settlement,
    PostgresSinkError,
>)
    requires
        change.wf(),
        state_fault(*prepared) is None,
        prepared is Prepared,
    ensures
        match result {
            Ok(settlement) => {
                &&& state_mismatch(*prepared, change.diffs@) is None
                &&& settlement == settlement_of(*prepared)
                &&& stands_behind(settlement, *prepared, change.diffs@)
            },
            Err(error) => {
                &&& state_mismatch(*prepared, change.diffs@) is Some
                &&& error@ == (PostgresErrorModel::InvalidBatch {
                    message: mismatch_text(state_mismatch(*prepared, change.diffs@)->0),
                })
            },
        },
{
    validate_state_for_change(prepared, change)?;
    let frontiers: (u64, u64) = match prepared.settled_frontiers() {
        Some(frontiers) => frontiers,
        None => (0, 0),
    };
    let position: Option<Position> = match prepared {
        PostgresSinkState::Prepared {
            delivery: _,
            digest: _,
            next_id_before: _,
            start_position: _,
            continuation,
            mutations: _,
        } => match continuation {
            Continuation::Done => None,
            Continuation::Position(position) => Some(*position),
        },
        _ => None,
    };
    let completes_input: bool = position.is_none();
    proof {
        law_settlement_stands_behind_delivery(*prepared, change.diffs@);
    }
    Ok(
        Settlement {
            next_delivery: frontiers.0,
            next_id: frontiers.1,
            position,
            completes_input,
        },
    )
}

impl RuntimePhase {
    /// A delivery that reached the target is one that may be stored.
    pub open spec fn wf(&self) -> bool {
        match *self {
            RuntimePhase::PreparedDelivered(state) => state is Prepared && state_fault(state)
                is None,
            _ => true,
        }
    }
}

/// Why an input is refused, if it is.
pub open spec fn input_fault(operation: PostgresSinkOperation, port: u64, change: Change) -> Option<
    PostgresErrorModel,
> {
    if port != 0 {
        Some(
            PostgresErrorModel::InvalidBatch {
                message: numbered(
                    "input port "@,
                    port as nat,
                    " is invalid; expected port 0"@,
                ),
            },
        )
    } else if change.records.schema@ != operation.schema@ {
        Some(
            PostgresErrorModel::InputSchemaMismatch {
                expected: operation.schema@,
                actual: change.records.schema@,
            },
        )
    } else {
        None
    }
}

impl PostgresSinkOperation {
    pub fn new(schema: Schema) -> (operation: PostgresSinkOperation)
        ensures
            operation.schema == schema,
            operation.phase == RuntimePhase::Restore,
    {
        PostgresSinkOperation { schema, phase: RuntimePhase::Restore }
    }

    fn validate_input(&self, port: u64, change: &Change) -> (result: Result<(), PostgresSinkError>)
        ensures
            match result {
                Ok(_) => input_fault(*self, port, *change) is None,
                Err(error) => input_fault(*self, port, *change) == Some(error@),
            },
    {
        if port != 0 {
            let mut text: String = "input port ".to_owned();
            push_decimal(&mut text, port);
            text.append(" is invalid; expected port 0");
            return Err(invalid_batch(text.as_str()));
        }
        if !same_schema(&change.records.schema, &self.schema) {
            return Err(
                PostgresSinkError::InputSchemaMismatch {
                    expected: self.schema.copy(),
                    actual: change.records.schema.copy(),
                },
            );
        }
        Ok(())
    }

    /// Decides what a turn has to do.
    pub fn turn(&self, input: Option<(u64, &Change)>) -> (result: Result<
        PostgresWork,
        PostgresSinkError,
    >)
        requires
            self.phase.wf(),
            input is Some ==> (input->0).1.wf(),
        ensures
            match input {
                None => result is Err && result->Err_0@ == (PostgresErrorModel::InvalidBatch {
                    message: "PostgreSQL sink requires one input"@,
                }),
                Some((port, change)) => match input_fault(*self, port, *change) {
                    Some(fault) => result is Err && result->Err_0@ == fault,
                    None => match self.phase {
                        RuntimePhase::Restore => result == Ok::<PostgresWork, PostgresSinkError>(
                            PostgresWork::Restore,
                        ),
                        RuntimePhase::InitializeDelivered => result == Ok::<
                            PostgresWork,
                            PostgresSinkError,
                        >(PostgresWork::SettleInitialization),
                        RuntimePhase::Ready(ready) => result == Ok::<
                            PostgresWork,
                            PostgresSinkError,
                        >(PostgresWork::Prepare(ready)),
                        RuntimePhase::PreparedDelivered(prepared) => match result {
                            Ok(work) => {
                                &&& state_mismatch(prepared, change.diffs@) is None
                                &&& work == PostgresWork::Settle(settlement_of(prepared))
                            },
                            Err(error) => {
                                &&& state_mismatch(prepared, change.diffs@) is Some
                                &&& error@ == (PostgresErrorModel::InvalidBatch {
                                    message: mismatch_text(
                                        state_mismatch(prepared, change.diffs@)->0,
                                    ),
                                })
                            },
                        },
                    },
                },
            },
    {
        let (port, change): (u64, &Change) = match input {
            Some((port, change)) => (port, change),
            None => {
                return Err(invalid_batch("PostgreSQL sink requires one input"));
            },
        };
        self.validate_input(port, change)?;
        match &self.phase {
            RuntimePhase::Restore => Ok(PostgresWork::Restore),
            RuntimePhase::InitializeDelivered => Ok(PostgresWork::SettleInitialization),
            RuntimePhase::Ready(ready) => Ok(PostgresWork::Prepare(*ready)),
            RuntimePhase::PreparedDelivered(prepared) => {
                let settlement: Settlement = prepared_settlement(prepared, change)?;
                Ok(PostgresWork::Settle(settlement))
            },
        }
    }
}

/// A durable state that was read, and what has to be stored where there was none.
#[derive(Debug)]
pub struct Restored {
    pub state: PostgresSinkState,
    pub store: Option<Vec<u8>>,
}

/// Reads the durable state, and checks that it belongs to the change. Where there is none,
/// the target is to be created.
pub fn restore(change: &Change, encoded: Option<&[u8]>) -> (result: Result<
    Restored,
    PostgresSinkError,
>)
    requires
        change.wf(),
    ensures
        match encoded {
            None => {
                &&& result is Ok
                &&& result->Ok_0.state is Initialize
                &&& result->Ok_0.store is Some
                &&& result->Ok_0.store->0@ == state_bytes(PostgresSinkState::Initialize)
            },
            Some(bytes) => match result {
                Ok(restored) => {
                    &&& read_fault(bytes@) is None
                    &&& read_as(bytes@, restored.state)
                    &&& state_fault(restored.state) is None
                    &&& state_mismatch(restored.state, change.diffs@) is None
                    &&& restored.store is None
                },
                Err(error) => match read_fault(bytes@) {
                    Some(fault) => error@ == (PostgresErrorModel::InvalidBatch {
                        message: state_text(fault),
                    }),
                    None => exists|state: PostgresSinkState|
                        {
                            &&& #[trigger] read_as(bytes@, state)
                            &&& match state_fault(state) {
                                Some(fault) => error@ == (PostgresErrorModel::InvalidBatch {
                                    message: state_text(fault),
                                }),
                                None => {
                                    &&& state_mismatch(state, change.diffs@) is Some
                                    &&& error@ == (PostgresErrorModel::InvalidBatch {
                                        message: mismatch_text(
                                            state_mismatch(state, change.diffs@)->0,
                                        ),
                                    })
                                },
                            }
                        },
                },
            },
        },
{
    match encoded {
        None => {
            let state: PostgresSinkState = PostgresSinkState::Initialize;
            match state.encode() {
                Ok(bytes) => Ok(Restored { state, store: Some(bytes) }),
                Err(error) => Err(refuse_state(error)),
            }
        },
        Some(bytes) => match PostgresSinkState::decode(bytes) {
            Ok(state) => {
                assert(read_as(bytes@, state));
                validate_state_for_change(&state, change)?;
                Ok(Restored { state, store: None })
            },
            Err(error) => Err(refuse_state(error)),
        },
    }
}

/// What a ready sink stores.
pub open spec fn ready_bytes(ready: ReadyState) -> Seq<u8> {
    state_bytes(
        PostgresSinkState::Ready {
            next_delivery: ready.next_delivery,
            next_id: ready.next_id,
            position: ready.position,
        },
    )
}

/// A ready sink, and what it stores.
#[derive(Debug)]
pub struct Settled {
    pub ready: ReadyState,
    pub encoded: Vec<u8>,
}

/// What is stored once the target was created.
pub fn settle_initialization() -> (settled: Settled)
    ensures
        settled.ready == (ReadyState {
            next_delivery: FIRST_DELIVERY,
            next_id: FIRST_TECHNICAL_ID,
            position: None,
        }),
        settled.encoded@ == ready_bytes(settled.ready),
{
    let ready: ReadyState = ReadyState {
        next_delivery: FIRST_DELIVERY,
        next_id: FIRST_TECHNICAL_ID,
        position: None,
    };
    let state: PostgresSinkState = PostgresSinkState::Ready {
        next_delivery: FIRST_DELIVERY,
        next_id: FIRST_TECHNICAL_ID,
        position: None,
    };
    match state.encode() {
        Ok(encoded) => Settled { ready, encoded },
        Err(_) => Settled { ready, encoded: Vec::new() },
    }
}

/// Why a ready sink cannot store its state, if it cannot.
pub open spec fn ready_fault(ready: ReadyState) -> Option<PostgresSinkStateCodecError> {
    state_fault(
        PostgresSinkState::Ready {
            next_delivery: ready.next_delivery,
            next_id: ready.next_id,
            position: ready.position,
        },
    )
}

/// The sink once a delivery is settled.
pub open spec fn ready_of(settlement: Settlement) -> ReadyState {
    ReadyState {
        next_delivery: settlement.next_delivery,
        next_id: settlement.next_id,
        position: settlement.position,
    }
}

/// What is stored once a delivery is settled.
pub fn settle_prepared(settlement: Settlement) -> (result: Result<Settled, PostgresSinkError>)
    ensures
        ({
            let ready = ready_of(settlement);
            match result {
                Ok(settled) => {
                    &&& ready_fault(ready) is None
                    &&& settled.ready == ready
                    &&& settled.encoded@ == ready_bytes(ready)
                },
                Err(error) => ready_fault(ready) is Some && error@ == (
                PostgresErrorModel::InvalidBatch { message: state_text(ready_fault(ready)->0) }),
            }
        }),
{
    let ready: ReadyState = ReadyState {
        next_delivery: settlement.next_delivery,
        next_id: settlement.next_id,
        position: settlement.position,
    };
    let state: PostgresSinkState = PostgresSinkState::Ready {
        next_delivery: settlement.next_delivery,
        next_id: settlement.next_id,
        position: settlement.position,
    };
    match state.encode() {
        Ok(encoded) => Ok(Settled { ready, encoded }),
        Err(error) => Err(refuse_state(error)),
    }
}

/// Where the next delivery begins.
pub open spec fn delivery_start(ready: ReadyState, change: Change) -> Position {
    match ready.position {
        Some(position) => position,
        None => Position { row_index: 0, remaining: abs(change.diffs@[0] as int) as u64 },
    }
}

/// Why a delivery cannot be begun, if it cannot.
pub open spec fn delivery_fault(ready: ReadyState, change: Change) -> Option<Seq<char>> {
    let start = delivery_start(ready, change);
    if ready.next_delivery > MAX_TECHNICAL_ID {
        Some("delivery sequence is exhausted"@)
    } else if !id_in_range(ready.next_id) {
        Some(step_text(StepError::InvalidNextId { next_id: ready.next_id }))
    } else if !stands_in(change.diffs@, start) {
        Some(mismatch_text(position_mismatch(change.diffs@, start)->0))
    } else if !on_boundary(change.diffs@, start) {
        Some(mismatch_text(Mismatch::BatchBoundary))
    } else {
        None
    }
}

/// Begins the next delivery.
pub fn prepare(ready: ReadyState, change: &Change) -> (result: Result<
    BatchPlanner,
    PostgresSinkError,
>)
    requires
        change.wf(),
    ensures
        match result {
            Ok(planner) => {
                &&& delivery_fault(ready, *change) is None
                &&& planner.wf(*change)
                &&& planner.start_position == delivery_start(ready, *change)
                &&& planner.position == planner.start_position
                &&& planner.next_id == ready.next_id
                &&& planner.mutations@.len() == 0
                &&& planner.overlay@.len() == 0
                &&& planner.scan_limit == MAX_TECHNICAL_ID
            },
            Err(error) => {
                &&& delivery_fault(ready, *change) is Some
                &&& error@ == (PostgresErrorModel::InvalidBatch {
                    message: delivery_fault(ready, *change)->0,
                })
            },
        },
{
    if ready.next_delivery > MAX_TECHNICAL_ID {
        return Err(invalid_batch("delivery sequence is exhausted"));
    }
    if let Err(error) = validate_next_id(ready.next_id) {
        return Err(refuse_step(error));
    }
    let start: Position = match ready.position {
        Some(position) => position,
        None => first_position(change),
    };
    match BatchPlanner::new(change, ready.next_id, start) {
        Ok(mut planner) => {
            planner.scan_limit = MAX_TECHNICAL_ID;
            Ok(planner)
        },
        Err(error) => Err(refuse_step(error)),
    }
}

/// A fixed delivery, and what is stored of it.
#[derive(Debug)]
pub struct Delivery {
    pub state: PostgresSinkState,
    pub encoded: Vec<u8>,
}

/// Fixes a planned delivery. It can always be stored.
pub fn fix_delivery(
    planner: BatchPlanner,
    continuation: Continuation,
    change: &Change,
    delivery: u64,
    digest: [u8; 32],
) -> (fixed: Delivery)
    requires
        planner.finished(*change, continuation),
        0 < delivery <= MAX_TECHNICAL_ID,
    ensures
        fixed.state == (PostgresSinkState::Prepared {
            delivery,
            digest,
            next_id_before: planner.next_id,
            start_position: planner.start_position,
            continuation,
            mutations: planner.mutations,
        }),
        state_fault(fixed.state) is None,
        state_mismatch(fixed.state, change.diffs@) is None,
        fixed.encoded@ == state_bytes(fixed.state),
{
    proof {
        law_planned_delivery_is_canonical(planner, *change, continuation, delivery);
        crate::sqlite::laws::law_planned_batch_is_accepted(planner, *change, continuation);
        crate::relation::position::lemma_steps_through(
            change.diffs@,
            planner.next_id_after,
            planner.start_position,
            continuation,
            planner.mutations@,
        );
    }
    let state: PostgresSinkState = PostgresSinkState::Prepared {
        delivery,
        digest,
        next_id_before: planner.next_id,
        start_position: planner.start_position,
        continuation,
        mutations: planner.mutations,
    };
    match state.encode() {
        Ok(encoded) => Delivery { state, encoded },
        Err(_) => Delivery { state, encoded: Vec::new() },
    }
}

proof fn lemma_sequence_is_canonical(
    diffs: Seq<i64>,
    start: int,
    next_id: u64,
    mutations: Seq<Mutation>,
    count: int,
)
    requires
        batch_fits(diffs, start, next_id, mutations),
        0 < next_id,
        next_id + inserts_among(mutations, mutations.len() as int) <= EXHAUSTED_ID,
        0 <= count <= mutations.len(),
        crate::sqlite::state::sequence_fault(mutations, count) is None,
    ensures
        sequence_fault(next_id, mutations, count) is None,
    decreases count,
{
    if count > 0 {
        lemma_sequence_is_canonical(diffs, start, next_id, mutations, count - 1);
        assert(mutation_fits(diffs, start, next_id, mutations, count - 1));
        lemma_inserts_grow(mutations, count, mutations.len() as int);
    }
}

/// A planned delivery can be stored: it is in its canonical form.
pub proof fn law_planned_delivery_is_canonical(
    planner: BatchPlanner,
    change: Change,
    continuation: Continuation,
    delivery: u64,
)
    requires
        planner.finished(change, continuation),
        0 < delivery <= MAX_TECHNICAL_ID,
    ensures
        prepared_fault(
            delivery,
            planner.next_id,
            planner.start_position,
            continuation,
            planner.mutations@,
        ) is None,
{
    crate::sqlite::laws::law_planned_batch_is_canonical(planner, change, continuation);
    lemma_sequence_is_canonical(
        change.diffs@,
        offset_of(change.diffs@, planner.start_position),
        planner.next_id,
        planner.mutations@,
        planner.mutations@.len() as int,
    );
}

/// A delivery that belongs to its change can be settled: what is stored then is a state that
/// belongs to the change, and the next delivery has the next number.
pub proof fn law_settled_delivery_goes_on(prepared: PostgresSinkState, diffs: Seq<i64>)
    requires
        prepared is Prepared,
        state_fault(prepared) is None,
        state_mismatch(prepared, diffs) is None,
    ensures
        ({
            let settlement = settlement_of(prepared);
            let ready = PostgresSinkState::Ready {
                next_delivery: settlement.next_delivery,
                next_id: settlement.next_id,
                position: settlement.position,
            };
            &&& state_fault(ready) is None
            &&& state_mismatch(ready, diffs) is None
            &&& settlement.next_delivery == prepared->delivery + 1
            &&& settlement.next_id >= prepared->next_id_before
        }),
{
    let start_position = prepared->start_position;
    let continuation = prepared->Prepared_continuation;
    let mutations = prepared->mutations@;
    let start = offset_of(diffs, start_position);
    if let Continuation::Position(position) = continuation {
        assert(lies_at(diffs, continuation, start + mutations.len()));
        assert(mutations.len() == MAX_MUTATIONS_PER_BATCH);
        vstd::arithmetic::div_mod::lemma_add_mod_noop(start, 1024, 1024);
        assert(on_boundary(diffs, position));
    }
}

} // verus!
