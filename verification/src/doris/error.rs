//! What an Apache Doris sink refuses.

use crate::change::{DataType, TypeModel};
use crate::relation::row::{RowError, RowErrorModel};
use vstd::prelude::*;

verus! {

/// Why a schema cannot be stored in Apache Doris.
#[derive(Debug)]
pub enum DorisSinkSchemaError {
    TooManyColumns { actual: usize, maximum: usize },
    InvalidFieldName { field: usize, name: String },
    TechnicalColumnCollision { field: usize, name: String },
    DuplicateFieldName { first: usize, second: usize, name: String },
    UnsupportedType { field: String, data_type: DataType },
}

/// What a `DorisSinkSchemaError` says.
pub ghost enum DorisSchemaErrorModel {
    TooManyColumns { actual: usize, maximum: usize },
    InvalidFieldName { field: usize, name: Seq<char> },
    TechnicalColumnCollision { field: usize, name: Seq<char> },
    DuplicateFieldName { first: usize, second: usize, name: Seq<char> },
    UnsupportedType { field: Seq<char>, data_type: TypeModel },
}

impl View for DorisSinkSchemaError {
    type V = DorisSchemaErrorModel;

    open spec fn view(&self) -> DorisSchemaErrorModel {
        match *self {
            DorisSinkSchemaError::TooManyColumns { actual, maximum } => {
                DorisSchemaErrorModel::TooManyColumns { actual, maximum }
            },
            DorisSinkSchemaError::InvalidFieldName { field, name } => {
                DorisSchemaErrorModel::InvalidFieldName { field, name: name@ }
            },
            DorisSinkSchemaError::TechnicalColumnCollision { field, name } => {
                DorisSchemaErrorModel::TechnicalColumnCollision { field, name: name@ }
            },
            DorisSinkSchemaError::DuplicateFieldName { first, second, name } => {
                DorisSchemaErrorModel::DuplicateFieldName { first, second, name: name@ }
            },
            DorisSinkSchemaError::UnsupportedType { field, data_type } => {
                DorisSchemaErrorModel::UnsupportedType { field: field@, data_type: data_type@ }
            },
        }
    }
}

/// Why an Apache Doris sink cannot connect to, read or write its relation.
#[derive(Debug)]
pub enum DorisSinkError {
    InvalidConfig { message: String },
    InvalidSpec { message: String },
    DatabaseMismatch,
    TargetIdentityChanged,
    TargetExists { name: String },
    TargetMissing { name: String },
    TargetLayoutMismatch { name: String },
    TargetNotEmpty,
    InvalidBatch { message: String },
    Row(RowError),
    Database { stage: String },
}

/// What a `DorisSinkError` says, with texts as sequences of characters.
pub ghost enum DorisErrorModel {
    InvalidConfig { message: Seq<char> },
    InvalidSpec { message: Seq<char> },
    DatabaseMismatch,
    TargetIdentityChanged,
    TargetExists { name: Seq<char> },
    TargetMissing { name: Seq<char> },
    TargetLayoutMismatch { name: Seq<char> },
    TargetNotEmpty,
    InvalidBatch { message: Seq<char> },
    Row(RowErrorModel),
    Database { stage: Seq<char> },
}

impl View for DorisSinkError {
    type V = DorisErrorModel;

    open spec fn view(&self) -> DorisErrorModel {
        match *self {
            DorisSinkError::InvalidConfig { message } => DorisErrorModel::InvalidConfig {
                message: message@,
            },
            DorisSinkError::InvalidSpec { message } => DorisErrorModel::InvalidSpec {
                message: message@,
            },
            DorisSinkError::DatabaseMismatch => DorisErrorModel::DatabaseMismatch,
            DorisSinkError::TargetIdentityChanged => {
                DorisErrorModel::TargetIdentityChanged
            },
            DorisSinkError::TargetExists { name } => DorisErrorModel::TargetExists {
                name: name@,
            },
            DorisSinkError::TargetMissing { name } => DorisErrorModel::TargetMissing {
                name: name@,
            },
            DorisSinkError::TargetLayoutMismatch { name } => {
                DorisErrorModel::TargetLayoutMismatch { name: name@ }
            },
            DorisSinkError::TargetNotEmpty => DorisErrorModel::TargetNotEmpty,
            DorisSinkError::InvalidBatch { message } => DorisErrorModel::InvalidBatch {
                message: message@,
            },
            DorisSinkError::Row(error) => DorisErrorModel::Row(error@),
            DorisSinkError::Database { stage } => DorisErrorModel::Database {
                stage: stage@,
            },
        }
    }
}

pub fn invalid_config(message: &str) -> (error: DorisSinkError)
    ensures
        error@ == (DorisErrorModel::InvalidConfig { message: message@ }),
{
    DorisSinkError::InvalidConfig { message: message.to_owned() }
}

pub fn invalid_spec(message: &str) -> (error: DorisSinkError)
    ensures
        error@ == (DorisErrorModel::InvalidSpec { message: message@ }),
{
    DorisSinkError::InvalidSpec { message: message.to_owned() }
}

pub fn invalid_batch(message: &str) -> (error: DorisSinkError)
    ensures
        error@ == (DorisErrorModel::InvalidBatch { message: message@ }),
{
    DorisSinkError::InvalidBatch { message: message.to_owned() }
}

pub fn database(stage: &str) -> (error: DorisSinkError)
    ensures
        error@ == (DorisErrorModel::Database { stage: stage@ }),
{
    DorisSinkError::Database { stage: stage.to_owned() }
}

} // verus!
