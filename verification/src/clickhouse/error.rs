//! What a ClickHouse sink refuses.

use crate::change::{DataType, TypeModel};
use crate::relation::row::{RowError, RowErrorModel};
use vstd::prelude::*;

verus! {

/// Why a schema cannot be stored in ClickHouse.
#[derive(Debug)]
pub enum ClickHouseSinkSchemaError {
    TooManyColumns { actual: usize, maximum: usize },
    InvalidFieldName { field: usize, name: String },
    TechnicalColumnCollision { field: usize, name: String },
    DuplicateFieldName { first: usize, second: usize, name: String },
    UnsupportedType { field: String, data_type: DataType },
}

/// What a `ClickHouseSinkSchemaError` says.
pub ghost enum ClickHouseSchemaErrorModel {
    TooManyColumns { actual: usize, maximum: usize },
    InvalidFieldName { field: usize, name: Seq<char> },
    TechnicalColumnCollision { field: usize, name: Seq<char> },
    DuplicateFieldName { first: usize, second: usize, name: Seq<char> },
    UnsupportedType { field: Seq<char>, data_type: TypeModel },
}

impl View for ClickHouseSinkSchemaError {
    type V = ClickHouseSchemaErrorModel;

    open spec fn view(&self) -> ClickHouseSchemaErrorModel {
        match *self {
            ClickHouseSinkSchemaError::TooManyColumns { actual, maximum } => {
                ClickHouseSchemaErrorModel::TooManyColumns { actual, maximum }
            },
            ClickHouseSinkSchemaError::InvalidFieldName { field, name } => {
                ClickHouseSchemaErrorModel::InvalidFieldName { field, name: name@ }
            },
            ClickHouseSinkSchemaError::TechnicalColumnCollision { field, name } => {
                ClickHouseSchemaErrorModel::TechnicalColumnCollision { field, name: name@ }
            },
            ClickHouseSinkSchemaError::DuplicateFieldName { first, second, name } => {
                ClickHouseSchemaErrorModel::DuplicateFieldName { first, second, name: name@ }
            },
            ClickHouseSinkSchemaError::UnsupportedType { field, data_type } => {
                ClickHouseSchemaErrorModel::UnsupportedType { field: field@, data_type: data_type@ }
            },
        }
    }
}

/// Why a ClickHouse sink cannot connect to, read or write its relation.
#[derive(Debug)]
pub enum ClickHouseSinkError {
    InvalidConfig { message: String },
    InvalidSpec { message: String },
    DatabaseMismatch,
    TargetIdentityChanged,
    TargetExists { name: String },
    TargetMissing { name: String },
    TargetLayoutMismatch { name: String },
    TargetNotEmpty,
    InvalidBatch { message: String },
    Row(RowError),
    Database { stage: String },
    InvalidResponse { stage: String },
}

/// What a `ClickHouseSinkError` says, with texts as sequences of characters.
pub ghost enum ClickHouseErrorModel {
    InvalidConfig { message: Seq<char> },
    InvalidSpec { message: Seq<char> },
    DatabaseMismatch,
    TargetIdentityChanged,
    TargetExists { name: Seq<char> },
    TargetMissing { name: Seq<char> },
    TargetLayoutMismatch { name: Seq<char> },
    TargetNotEmpty,
    InvalidBatch { message: Seq<char> },
    Row(RowErrorModel),
    Database { stage: Seq<char> },
    InvalidResponse { stage: Seq<char> },
}

impl View for ClickHouseSinkError {
    type V = ClickHouseErrorModel;

    open spec fn view(&self) -> ClickHouseErrorModel {
        match *self {
            ClickHouseSinkError::InvalidConfig { message } => ClickHouseErrorModel::InvalidConfig {
                message: message@,
            },
            ClickHouseSinkError::InvalidSpec { message } => ClickHouseErrorModel::InvalidSpec {
                message: message@,
            },
            ClickHouseSinkError::DatabaseMismatch => ClickHouseErrorModel::DatabaseMismatch,
            ClickHouseSinkError::TargetIdentityChanged => {
                ClickHouseErrorModel::TargetIdentityChanged
            },
            ClickHouseSinkError::TargetExists { name } => ClickHouseErrorModel::TargetExists {
                name: name@,
            },
            ClickHouseSinkError::TargetMissing { name } => ClickHouseErrorModel::TargetMissing {
                name: name@,
            },
            ClickHouseSinkError::TargetLayoutMismatch { name } => {
                ClickHouseErrorModel::TargetLayoutMismatch { name: name@ }
            },
            ClickHouseSinkError::TargetNotEmpty => ClickHouseErrorModel::TargetNotEmpty,
            ClickHouseSinkError::InvalidBatch { message } => ClickHouseErrorModel::InvalidBatch {
                message: message@,
            },
            ClickHouseSinkError::Row(error) => ClickHouseErrorModel::Row(error@),
            ClickHouseSinkError::Database { stage } => ClickHouseErrorModel::Database {
                stage: stage@,
            },
            ClickHouseSinkError::InvalidResponse { stage } => {
                ClickHouseErrorModel::InvalidResponse { stage: stage@ }
            },
        }
    }
}

pub fn invalid_config(message: &str) -> (error: ClickHouseSinkError)
    ensures
        error@ == (ClickHouseErrorModel::InvalidConfig { message: message@ }),
{
    ClickHouseSinkError::InvalidConfig { message: message.to_owned() }
}

pub fn invalid_spec(message: &str) -> (error: ClickHouseSinkError)
    ensures
        error@ == (ClickHouseErrorModel::InvalidSpec { message: message@ }),
{
    ClickHouseSinkError::InvalidSpec { message: message.to_owned() }
}

pub fn invalid_batch(message: &str) -> (error: ClickHouseSinkError)
    ensures
        error@ == (ClickHouseErrorModel::InvalidBatch { message: message@ }),
{
    ClickHouseSinkError::InvalidBatch { message: message.to_owned() }
}

pub fn database(stage: &str) -> (error: ClickHouseSinkError)
    ensures
        error@ == (ClickHouseErrorModel::Database { stage: stage@ }),
{
    ClickHouseSinkError::Database { stage: stage.to_owned() }
}

pub fn invalid_response(stage: &str) -> (error: ClickHouseSinkError)
    ensures
        error@ == (ClickHouseErrorModel::InvalidResponse { stage: stage@ }),
{
    ClickHouseSinkError::InvalidResponse { stage: stage.to_owned() }
}

} // verus!
