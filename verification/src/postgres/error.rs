//! What a PostgreSQL sink refuses.

use crate::change::{DataType, Schema, SchemaModel, TypeModel};
use crate::relation::row::{RowError, RowErrorModel};
use vstd::prelude::*;

verus! {

/// Why a schema cannot be stored in PostgreSQL.
#[derive(Debug)]
pub enum PostgresSinkSchemaError {
    TooManyColumns { actual: usize, maximum: usize },
    InvalidFieldName { field: usize, name: String },
    TechnicalColumnCollision { field: usize, name: String },
    SystemColumnCollision { field: usize, name: String },
    DuplicateFieldName { first: usize, second: usize, name: String },
    UnsupportedType { field: String, data_type: DataType },
}

/// What a `PostgresSinkSchemaError` says.
pub ghost enum PostgresSchemaErrorModel {
    TooManyColumns { actual: usize, maximum: usize },
    InvalidFieldName { field: usize, name: Seq<char> },
    TechnicalColumnCollision { field: usize, name: Seq<char> },
    SystemColumnCollision { field: usize, name: Seq<char> },
    DuplicateFieldName { first: usize, second: usize, name: Seq<char> },
    UnsupportedType { field: Seq<char>, data_type: TypeModel },
}

impl View for PostgresSinkSchemaError {
    type V = PostgresSchemaErrorModel;

    open spec fn view(&self) -> PostgresSchemaErrorModel {
        match *self {
            PostgresSinkSchemaError::TooManyColumns { actual, maximum } => {
                PostgresSchemaErrorModel::TooManyColumns { actual, maximum }
            },
            PostgresSinkSchemaError::InvalidFieldName { field, name } => {
                PostgresSchemaErrorModel::InvalidFieldName { field, name: name@ }
            },
            PostgresSinkSchemaError::TechnicalColumnCollision { field, name } => {
                PostgresSchemaErrorModel::TechnicalColumnCollision { field, name: name@ }
            },
            PostgresSinkSchemaError::SystemColumnCollision { field, name } => {
                PostgresSchemaErrorModel::SystemColumnCollision { field, name: name@ }
            },
            PostgresSinkSchemaError::DuplicateFieldName { first, second, name } => {
                PostgresSchemaErrorModel::DuplicateFieldName { first, second, name: name@ }
            },
            PostgresSinkSchemaError::UnsupportedType { field, data_type } => {
                PostgresSchemaErrorModel::UnsupportedType { field: field@, data_type: data_type@ }
            },
        }
    }
}

/// Why a PostgreSQL sink cannot connect to, read or write its relation.
#[derive(Debug)]
pub enum PostgresSinkError {
    InvalidConfig { message: String },
    InvalidSpec { message: String },
    DatabaseMismatch,
    TargetIdentityChanged,
    DurabilityDisabled,
    UnsupportedServerEncoding,
    TargetExists { name: String },
    TargetMissing { name: String },
    TargetLayoutMismatch { name: String },
    TargetNotEmpty,
    InputSchemaMismatch { expected: Schema, actual: Schema },
    InvalidBatch { message: String },
    Row(RowError),
    Database { stage: String, sqlstate: String },
    Timeout { stage: String },
}

/// What a `PostgresSinkError` says, with texts as sequences of characters.
pub ghost enum PostgresErrorModel {
    InvalidConfig { message: Seq<char> },
    InvalidSpec { message: Seq<char> },
    DatabaseMismatch,
    TargetIdentityChanged,
    DurabilityDisabled,
    UnsupportedServerEncoding,
    TargetExists { name: Seq<char> },
    TargetMissing { name: Seq<char> },
    TargetLayoutMismatch { name: Seq<char> },
    TargetNotEmpty,
    InputSchemaMismatch { expected: SchemaModel, actual: SchemaModel },
    InvalidBatch { message: Seq<char> },
    Row(RowErrorModel),
    Database { stage: Seq<char>, sqlstate: Seq<char> },
    Timeout { stage: Seq<char> },
}

impl View for PostgresSinkError {
    type V = PostgresErrorModel;

    open spec fn view(&self) -> PostgresErrorModel {
        match *self {
            PostgresSinkError::InvalidConfig { message } => PostgresErrorModel::InvalidConfig {
                message: message@,
            },
            PostgresSinkError::InvalidSpec { message } => PostgresErrorModel::InvalidSpec {
                message: message@,
            },
            PostgresSinkError::DatabaseMismatch => PostgresErrorModel::DatabaseMismatch,
            PostgresSinkError::TargetIdentityChanged => PostgresErrorModel::TargetIdentityChanged,
            PostgresSinkError::DurabilityDisabled => PostgresErrorModel::DurabilityDisabled,
            PostgresSinkError::UnsupportedServerEncoding => {
                PostgresErrorModel::UnsupportedServerEncoding
            },
            PostgresSinkError::TargetExists { name } => PostgresErrorModel::TargetExists {
                name: name@,
            },
            PostgresSinkError::TargetMissing { name } => PostgresErrorModel::TargetMissing {
                name: name@,
            },
            PostgresSinkError::TargetLayoutMismatch { name } => {
                PostgresErrorModel::TargetLayoutMismatch { name: name@ }
            },
            PostgresSinkError::TargetNotEmpty => PostgresErrorModel::TargetNotEmpty,
            PostgresSinkError::InputSchemaMismatch { expected, actual } => {
                PostgresErrorModel::InputSchemaMismatch { expected: expected@, actual: actual@ }
            },
            PostgresSinkError::InvalidBatch { message } => PostgresErrorModel::InvalidBatch {
                message: message@,
            },
            PostgresSinkError::Row(error) => PostgresErrorModel::Row(error@),
            PostgresSinkError::Database { stage, sqlstate } => PostgresErrorModel::Database {
                stage: stage@,
                sqlstate: sqlstate@,
            },
            PostgresSinkError::Timeout { stage } => PostgresErrorModel::Timeout { stage: stage@ },
        }
    }
}

pub fn invalid_config(message: &str) -> (error: PostgresSinkError)
    ensures
        error@ == (PostgresErrorModel::InvalidConfig { message: message@ }),
{
    PostgresSinkError::InvalidConfig { message: message.to_owned() }
}

pub fn invalid_spec(message: &str) -> (error: PostgresSinkError)
    ensures
        error@ == (PostgresErrorModel::InvalidSpec { message: message@ }),
{
    PostgresSinkError::InvalidSpec { message: message.to_owned() }
}

pub fn invalid_batch(message: &str) -> (error: PostgresSinkError)
    ensures
        error@ == (PostgresErrorModel::InvalidBatch { message: message@ }),
{
    PostgresSinkError::InvalidBatch { message: message.to_owned() }
}

/// A failure that the database reports, with its code where it gives one.
pub fn database_error(stage: &str, code: Option<&str>) -> (error: PostgresSinkError)
    ensures
        error@ == (PostgresErrorModel::Database {
            stage: stage@,
            sqlstate: match code {
                Some(code) => code@,
                None => "unavailable"@,
            },
        }),
{
    let sqlstate: String = match code {
        Some(code) => code.to_owned(),
        None => "unavailable".to_owned(),
    };
    PostgresSinkError::Database { stage: stage.to_owned(), sqlstate }
}

pub fn timeout(stage: &str) -> (error: PostgresSinkError)
    ensures
        error@ == (PostgresErrorModel::Timeout { stage: stage@ }),
{
    PostgresSinkError::Timeout { stage: stage.to_owned() }
}

} // verus!
