//! The turns of a SQLite sink that keeps its continuation beside the change it works on.

use crate::change::{same_schema, Change, Schema};
use crate::relation::position::{
    apply_mismatch, first_position, id_in_range, steps_through, validate_apply_for_change,
    validate_next_id, Continuation, Mutation, Position, StepError,
};
use crate::relation::stepwise::{BatchPlanner, PlanError};
use crate::sqlite::error::{
    refuse_step, step_refusal, SqliteErrorModel, SqliteSinkError, StateConflict,
};
use crate::sqlite::state::{pending_bytes, pending_fault, read_as, read_fault, PendingState};
use crate::text::abs;
use vstd::prelude::*;

verus! {

/// What a turn leads to once its transaction commits.
#[derive(Clone, Copy, Debug, PartialEq, Eq, Structural)]
pub enum Action {
    Commit,
    Complete,
}

/// What has to be done in a turn.
#[derive(Debug)]
pub enum Work {
    /// Require that the target is absent, and store the intent to initialize it.
    PrepareInitialization,
    /// Initialize the target, store the first ID and clear the intent.
    ApplyInitialization,
    /// Plan and store the next batch.
    PrepareBatch { next_id: u64, start_position: Position },
    /// Apply the stored batch.
    ApplyBatch {
        next_id: u64,
        start_position: Position,
        continuation: Continuation,
        mutations: Vec<Mutation>,
    },
}

/// A relation sink that is bound to an exact schema.
#[derive(Debug)]
pub struct SqliteSinkOperation {
    pub schema: Schema,
}

/// Why stored state does not allow any work, if it does not.
pub open spec fn state_refusal(next_id: Option<u64>, pending: Option<PendingState>) -> Option<
    SqliteErrorModel,
> {
    match (next_id, pending) {
        (None, None) => None,
        (None, Some(PendingState::Initialize)) => None,
        (None, Some(_)) => Some(
            SqliteErrorModel::InvalidState(StateConflict::WorkBeforeInitialization),
        ),
        (Some(_), Some(PendingState::Initialize)) => Some(
            SqliteErrorModel::InvalidState(StateConflict::InitializationAfterNextId),
        ),
        (Some(next_id), _) => if id_in_range(next_id) {
            None
        } else {
            Some(SqliteErrorModel::InvalidState(StateConflict::NextId { next_id }))
        },
    }
}

/// What the stored state asks for.
pub open spec fn asked(
    work: Work,
    change: Change,
    next_id: Option<u64>,
    pending: Option<PendingState>,
) -> bool {
    match (next_id, pending) {
        (None, None) => work is PrepareInitialization,
        (None, Some(_)) => work is ApplyInitialization,
        (Some(next_id), None) => work == (Work::PrepareBatch {
            next_id,
            start_position: Position {
                row_index: 0,
                remaining: abs(change.diffs@[0] as int) as u64,
            },
        }),
        (Some(next_id), Some(PendingState::Prepare { position })) => work == (Work::PrepareBatch {
            next_id,
            start_position: position,
        }),
        (
            Some(next_id),
            Some(PendingState::Apply { start_position, continuation, mutations }),
        ) => work == (Work::ApplyBatch { next_id, start_position, continuation, mutations }),
        (Some(_), Some(PendingState::Initialize)) => false,
    }
}

/// What is stored of a continuation reads back, as one that may be stored.
pub open spec fn reads_to(stored: Option<Seq<u8>>, pending: Option<PendingState>) -> bool {
    match (stored, pending) {
        (None, None) => true,
        (Some(bytes), Some(state)) => {
            &&& read_fault(bytes) is None
            &&& read_as(bytes, state)
            &&& pending_fault(state) is None
        },
        _ => false,
    }
}

/// What the store holds for a sink allows some work, and asks for it.
pub open spec fn turn_asks(
    change: Change,
    next_id: Option<u64>,
    stored: Option<Seq<u8>>,
    work: Work,
) -> bool {
    exists|pending: Option<PendingState>|
        {
            &&& #[trigger] reads_to(stored, pending)
            &&& state_refusal(next_id, pending) is None
            &&& asked(work, change, next_id, pending)
        }
}

/// Decides what the stored state asks for.
fn next_work(change: &Change, next_id: Option<u64>, pending: Option<PendingState>) -> (result:
    Result<Work, SqliteSinkError>)
    requires
        change.wf(),
    ensures
        match result {
            Ok(work) => {
                &&& state_refusal(next_id, pending) is None
                &&& asked(work, *change, next_id, pending)
            },
            Err(error) => state_refusal(next_id, pending) == Some(error@),
        },
{
    match next_id {
        None => match pending {
            None => Ok(Work::PrepareInitialization),
            Some(PendingState::Initialize) => Ok(Work::ApplyInitialization),
            Some(_) => Err(
                SqliteSinkError::InvalidState(StateConflict::WorkBeforeInitialization),
            ),
        },
        Some(next_id) => match pending {
            Some(PendingState::Initialize) => Err(
                SqliteSinkError::InvalidState(StateConflict::InitializationAfterNextId),
            ),
            other => {
                if let Err(error) = validate_next_id(next_id) {
                    return Err(refuse_step(error));
                }
                match other {
                    None => Ok(
                        Work::PrepareBatch { next_id, start_position: first_position(change) },
                    ),
                    Some(PendingState::Prepare { position }) => Ok(
                        Work::PrepareBatch { next_id, start_position: position },
                    ),
                    Some(PendingState::Apply { start_position, continuation, mutations }) => Ok(
                        Work::ApplyBatch { next_id, start_position, continuation, mutations },
                    ),
                    Some(PendingState::Initialize) => Err(
                        SqliteSinkError::InvalidState(StateConflict::InitializationAfterNextId),
                    ),
                }
            },
        },
    }
}

impl SqliteSinkOperation {
    pub fn new(schema: Schema) -> (operation: SqliteSinkOperation)
        ensures
            operation.schema == schema,
    {
        SqliteSinkOperation { schema }
    }

    /// Decides what to do with a change, given what the store holds for this sink.
    pub fn turn_inner(
        &self,
        port: u64,
        change: &Change,
        next_id: Option<u64>,
        pending: Option<&[u8]>,
    ) -> (result: Result<Work, SqliteSinkError>)
        requires
            change.wf(),
        ensures
            if port != 0 {
                result is Err && result->Err_0@ == (SqliteErrorModel::InvalidInputPort { port })
            } else if change.records.schema@ != self.schema@ {
                result is Err && result->Err_0@ == (SqliteErrorModel::InputSchemaMismatch {
                    expected: self.schema@,
                    actual: change.records.schema@,
                })
            } else {
                match result {
                    Ok(work) => turn_asks(
                        *change,
                        next_id,
                        match pending {
                            None => None,
                            Some(bytes) => Some(bytes@),
                        },
                        work,
                    ),
                    Err(error) => match pending {
                        None => state_refusal(next_id, None) == Some(error@),
                        Some(bytes) => {
                            ||| read_fault(bytes@) is Some && error@ == SqliteErrorModel::Pending(
                                read_fault(bytes@)->0,
                            )
                            ||| read_fault(bytes@) is None && exists|state: PendingState|
                                {
                                    &&& #[trigger] read_as(bytes@, state)
                                    &&& pending_fault(state) is None
                                    &&& state_refusal(next_id, Some(state)) == Some(error@)
                                }
                            ||| read_fault(bytes@) is None && error@ is Pending && exists|
                                state: PendingState,
                            | #[trigger]
                                read_as(bytes@, state) && pending_fault(state) == Some(
                                    error@->Pending_0,
                                )
                        },
                    },
                }
            },
    {
        if port != 0 {
            return Err(SqliteSinkError::InvalidInputPort { port });
        }
        if !same_schema(&change.records.schema, &self.schema) {
            return Err(
                SqliteSinkError::InputSchemaMismatch {
                    expected: self.schema.copy(),
                    actual: change.records.schema.copy(),
                },
            );
        }
        let state: Option<PendingState> = match pending {
            None => None,
            Some(bytes) => match PendingState::decode(bytes) {
                Ok(state) => {
                    assert(read_as(bytes@, state));
                    Some(state)
                },
                Err(error) => {
                    return Err(SqliteSinkError::Pending(error));
                },
            },
        };
        assert(reads_to(
            match pending {
                None => None,
                Some(bytes) => Some(bytes@),
            },
            state,
        ));
        next_work(change, next_id, state)
    }
}

/// What a planned batch stores: the batch itself, and the new frontier of IDs.
#[derive(Debug)]
pub struct PlannedBatch {
    pub next_id: u64,
    pub pending: Vec<u8>,
}

/// What is stored of a complete batch.
pub open spec fn stored_as(
    planner: BatchPlanner,
    continuation: Continuation,
    planned: PlannedBatch,
) -> bool {
    &&& planned.next_id == planner.next_id_after
    &&& planned.pending@ == pending_bytes(batch_state(planner, continuation))
}

/// The continuation that stands for a complete batch.
pub open spec fn batch_state(planner: BatchPlanner, continuation: Continuation) -> PendingState {
    PendingState::Apply {
        start_position: planner.start_position,
        continuation,
        mutations: planner.mutations,
    }
}

/// Turns a complete batch into what is stored of it. It can always be stored.
pub fn store_batch(planner: BatchPlanner, continuation: Continuation, change: &Change) -> (planned:
    PlannedBatch)
    requires
        planner.finished(*change, continuation),
    ensures
        stored_as(planner, continuation, planned),
{
    proof {
        crate::sqlite::laws::law_planned_batch_is_canonical(planner, *change, continuation);
    }
    let next_id: u64 = planner.next_id_after;
    let state: PendingState = PendingState::Apply {
        start_position: planner.start_position,
        continuation,
        mutations: planner.mutations,
    };
    match state.encode() {
        Ok(pending) => PlannedBatch { next_id, pending },
        Err(_) => PlannedBatch { next_id, pending: Vec::new() },
    }
}

/// What is stored once a batch was applied: nothing more where the change is complete, and
/// else where to go on.
#[derive(Debug)]
pub struct Applied {
    pub pending: Option<Vec<u8>>,
    pub action: Action,
}

/// A stored batch belongs to its change, and what is stored once it was applied says so.
pub open spec fn applied_as(
    change: Change,
    next_id: u64,
    start_position: Position,
    continuation: Continuation,
    mutations: Seq<Mutation>,
    applied: Applied,
) -> bool {
    &&& steps_through(change.diffs@, next_id, start_position, continuation, mutations)
    &&& match continuation {
        Continuation::Done => applied.pending is None && applied.action == Action::Complete,
        Continuation::Position(position) => {
            &&& applied.pending is Some
            &&& applied.pending->0@ == pending_bytes(PendingState::Prepare { position })
            &&& applied.action == Action::Commit
        },
    }
}

/// Checks a stored batch against its change, and says what is stored once it was applied.
pub fn apply_batch(
    change: &Change,
    next_id: u64,
    start_position: Position,
    continuation: Continuation,
    mutations: &Vec<Mutation>,
) -> (result: Result<Applied, SqliteSinkError>)
    requires
        change.wf(),
    ensures
        match result {
            Ok(applied) => applied_as(
                *change,
                next_id,
                start_position,
                continuation,
                mutations@,
                applied,
            ),
            Err(error) => {
                let reason = apply_mismatch(
                    change.diffs@,
                    next_id,
                    start_position,
                    continuation,
                    mutations@,
                );
                &&& reason is Some
                &&& error@ == step_refusal(StepError::InputMismatch(reason->0))
            },
        },
        result is Ok <==> steps_through(
            change.diffs@,
            next_id,
            start_position,
            continuation,
            mutations@,
        ),
{
    if let Err(error) = validate_apply_for_change(
        change,
        next_id,
        start_position,
        continuation,
        mutations,
    ) {
        return Err(refuse_step(error));
    }
    match continuation {
        Continuation::Done => Ok(Applied { pending: None, action: Action::Complete }),
        Continuation::Position(position) => {
            let state: PendingState = PendingState::Prepare { position };
            match state.encode() {
                Ok(encoded) => Ok(Applied { pending: Some(encoded), action: Action::Commit }),
                Err(_) => Ok(Applied { pending: None, action: Action::Commit }),
            }
        },
    }
}

/// What the refusal of a planner means to this sink.
pub fn refuse_plan(error: PlanError) -> (refusal: SqliteSinkError)
    ensures
        match error {
            PlanError::Step(step) => refusal@ == step_refusal(step),
            PlanError::Row(row) => refusal@ == SqliteErrorModel::Row(row@),
            PlanError::MissingRetraction { row_index, needed, available } => refusal@ == (
            SqliteErrorModel::MissingRetraction { row_index, needed, available }),
        },
{
    match error {
        PlanError::Step(step) => refuse_step(step),
        PlanError::Row(row) => SqliteSinkError::Row(row),
        PlanError::MissingRetraction { row_index, needed, available } => {
            SqliteSinkError::MissingRetraction { row_index, needed, available }
        },
    }
}

} // verus!
