//! What a SQLite sink refuses.

use crate::change::{Schema, SchemaModel};
use crate::relation::position::{Mismatch, StepError};
use crate::relation::row::{RowError, RowErrorModel};
use crate::sqlite::state::PendingStateCodecError;
use vstd::prelude::*;

verus! {

/// Which parts of the stored state contradict each other.
#[derive(Clone, Copy, Debug, PartialEq, Eq, Structural)]
pub enum StateConflict {
    WorkBeforeInitialization,
    InitializationAfterNextId,
    NextId { next_id: u64 },
}

/// Why a SQLite sink cannot create, read or write its relation.
#[derive(Debug)]
pub enum SqliteSinkError {
    MissingInput,
    InvalidInputPort { port: u64 },
    InputSchemaMismatch { expected: Schema, actual: Schema },
    InvalidState(StateConflict),
    Pending(PendingStateCodecError),
    PendingInputMismatch(Mismatch),
    TechnicalIdExhausted { next_id: u64, needed: u64 },
    MissingRetraction { row_index: u64, needed: u64, available: u64 },
    InvalidBatch { technical_id: u64 },
    InvalidRowIndex { row_index: u64 },
    TechnicalIdConflict { id: u64 },
    DeleteRowMismatch { id: u64 },
    Row(RowError),
    TargetExists { name: String },
    TargetMissing { name: String },
    TargetLayoutMismatch { name: String },
    TargetNotEmpty { table: String },
    InvalidStoredTechnicalId { id: i64 },
    Sqlite { message: String },
}

/// What a `SqliteSinkError` says, with texts as sequences of characters.
pub ghost enum SqliteErrorModel {
    MissingInput,
    InvalidInputPort { port: u64 },
    InputSchemaMismatch { expected: SchemaModel, actual: SchemaModel },
    InvalidState(StateConflict),
    Pending(PendingStateCodecError),
    PendingInputMismatch(Mismatch),
    TechnicalIdExhausted { next_id: u64, needed: u64 },
    MissingRetraction { row_index: u64, needed: u64, available: u64 },
    InvalidBatch { technical_id: u64 },
    InvalidRowIndex { row_index: u64 },
    TechnicalIdConflict { id: u64 },
    DeleteRowMismatch { id: u64 },
    Row(RowErrorModel),
    TargetExists { name: Seq<char> },
    TargetMissing { name: Seq<char> },
    TargetLayoutMismatch { name: Seq<char> },
    TargetNotEmpty { table: Seq<char> },
    InvalidStoredTechnicalId { id: i64 },
    Sqlite { message: Seq<char> },
}

impl View for SqliteSinkError {
    type V = SqliteErrorModel;

    open spec fn view(&self) -> SqliteErrorModel {
        match *self {
            SqliteSinkError::MissingInput => SqliteErrorModel::MissingInput,
            SqliteSinkError::InvalidInputPort { port } => SqliteErrorModel::InvalidInputPort {
                port,
            },
            SqliteSinkError::InputSchemaMismatch { expected, actual } => {
                SqliteErrorModel::InputSchemaMismatch { expected: expected@, actual: actual@ }
            },
            SqliteSinkError::InvalidState(conflict) => SqliteErrorModel::InvalidState(conflict),
            SqliteSinkError::Pending(error) => SqliteErrorModel::Pending(error),
            SqliteSinkError::PendingInputMismatch(mismatch) => {
                SqliteErrorModel::PendingInputMismatch(mismatch)
            },
            SqliteSinkError::TechnicalIdExhausted { next_id, needed } => {
                SqliteErrorModel::TechnicalIdExhausted { next_id, needed }
            },
            SqliteSinkError::MissingRetraction { row_index, needed, available } => {
                SqliteErrorModel::MissingRetraction { row_index, needed, available }
            },
            SqliteSinkError::InvalidBatch { technical_id } => SqliteErrorModel::InvalidBatch {
                technical_id,
            },
            SqliteSinkError::TechnicalIdConflict { id } => {
                SqliteErrorModel::TechnicalIdConflict { id }
            },
            SqliteSinkError::DeleteRowMismatch { id } => SqliteErrorModel::DeleteRowMismatch { id },
            SqliteSinkError::InvalidRowIndex { row_index } => {
                SqliteErrorModel::InvalidRowIndex { row_index }
            },
            SqliteSinkError::Row(error) => SqliteErrorModel::Row(error@),
            SqliteSinkError::TargetExists { name } => SqliteErrorModel::TargetExists {
                name: name@,
            },
            SqliteSinkError::TargetMissing { name } => SqliteErrorModel::TargetMissing {
                name: name@,
            },
            SqliteSinkError::TargetLayoutMismatch { name } => {
                SqliteErrorModel::TargetLayoutMismatch { name: name@ }
            },
            SqliteSinkError::TargetNotEmpty { table } => SqliteErrorModel::TargetNotEmpty {
                table: table@,
            },
            SqliteSinkError::InvalidStoredTechnicalId { id } => {
                SqliteErrorModel::InvalidStoredTechnicalId { id }
            },
            SqliteSinkError::Sqlite { message } => SqliteErrorModel::Sqlite { message: message@ },
        }
    }
}

/// What a violation of the rules of stepping means to this sink.
pub open spec fn step_refusal(error: StepError) -> SqliteErrorModel {
    match error {
        StepError::InvalidNextId { next_id } => SqliteErrorModel::InvalidState(
            StateConflict::NextId { next_id },
        ),
        StepError::TechnicalIdExhausted { next_id, needed } => {
            SqliteErrorModel::TechnicalIdExhausted { next_id, needed }
        },
        StepError::InputMismatch(mismatch) => SqliteErrorModel::PendingInputMismatch(mismatch),
    }
}

/// Turns a violation of the rules of stepping into an error of this sink.
pub fn refuse_step(error: StepError) -> (refusal: SqliteSinkError)
    ensures
        refusal@ == step_refusal(error),
{
    match error {
        StepError::InvalidNextId { next_id } => SqliteSinkError::InvalidState(
            StateConflict::NextId { next_id },
        ),
        StepError::TechnicalIdExhausted { next_id, needed } => {
            SqliteSinkError::TechnicalIdExhausted { next_id, needed }
        },
        StepError::InputMismatch(mismatch) => SqliteSinkError::PendingInputMismatch(mismatch),
    }
}

} // verus!
