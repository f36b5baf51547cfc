//! Rows in the exact storage representation of SQLite.

use crate::bytes::{be_bytes, complement_i128, copy_bytes, push_be, same_bytes, twos_complement};
use crate::change::{same_schema, Field, RecordBatch, Schema, Value, ValueModel};
use crate::relation::row::{
    canonical, canonical_bytes, encode_canonical, hash_of, lemma_row_fault_stays, row_bytes,
    row_fault, row_hash, RowError, RowErrorModel,
};
use crate::text::same_text;
use vstd::prelude::*;

verus! {

/// A value as SQLite stores it.
#[derive(Debug, PartialEq, Eq)]
pub enum SqliteValue {
    Null,
    Integer(i64),
    Text(String),
    Blob(Vec<u8>),
}

/// What a `SqliteValue` is.
pub ghost enum SqliteValueModel {
    Null,
    Integer(i64),
    Text(Seq<char>),
    Blob(Seq<u8>),
}

impl View for SqliteValue {
    type V = SqliteValueModel;

    open spec fn view(&self) -> SqliteValueModel {
        match *self {
            SqliteValue::Null => SqliteValueModel::Null,
            SqliteValue::Integer(value) => SqliteValueModel::Integer(value),
            SqliteValue::Text(text) => SqliteValueModel::Text(text@),
            SqliteValue::Blob(bytes) => SqliteValueModel::Blob(bytes@),
        }
    }
}

/// How a value is stored: small integers as integers, other numbers by their bytes, texts and
/// bytes as they are, and nested values by their canonical bytes.
pub open spec fn stored_value(value: ValueModel) -> SqliteValueModel {
    match value {
        ValueModel::Null => SqliteValueModel::Null,
        ValueModel::Boolean(value) => SqliteValueModel::Integer(
            if value {
                1
            } else {
                0
            },
        ),
        ValueModel::Int8(value) => SqliteValueModel::Integer(value as i64),
        ValueModel::Int16(value) => SqliteValueModel::Integer(value as i64),
        ValueModel::Int32(value) => SqliteValueModel::Integer(value as i64),
        ValueModel::Int64(value) => SqliteValueModel::Integer(value),
        ValueModel::UInt8(value) => SqliteValueModel::Integer(value as i64),
        ValueModel::UInt16(value) => SqliteValueModel::Integer(value as i64),
        ValueModel::UInt32(value) => SqliteValueModel::Integer(value as i64),
        ValueModel::Date32(days) => SqliteValueModel::Integer(days as i64),
        ValueModel::Timestamp(value) => SqliteValueModel::Integer(value),
        ValueModel::UInt64(value) => SqliteValueModel::Blob(be_bytes(value as nat, 8)),
        ValueModel::Float32(bits) => SqliteValueModel::Blob(be_bytes(bits as nat, 4)),
        ValueModel::Float64(bits) => SqliteValueModel::Blob(be_bytes(bits as nat, 8)),
        ValueModel::Decimal128(value) => SqliteValueModel::Blob(
            be_bytes(twos_complement(value as int, 16), 16),
        ),
        ValueModel::Utf8(text) => SqliteValueModel::Text(text),
        ValueModel::Binary(bytes) => SqliteValueModel::Blob(bytes),
        ValueModel::List(_) => SqliteValueModel::Blob(canonical(value)),
        ValueModel::Struct(_) => SqliteValueModel::Blob(canonical(value)),
        ValueModel::Opaque => SqliteValueModel::Null,
    }
}

/// A number in `width` bytes.
pub fn number_bytes(value: u128, width: u8) -> (bytes: Vec<u8>)
    ensures
        bytes@ == be_bytes(value as nat, width as nat),
{
    let mut bytes: Vec<u8> = Vec::new();
    push_be(&mut bytes, value, width);
    assert(bytes@ =~= be_bytes(value as nat, width as nat));
    bytes
}

/// How a value is stored; `encoded` holds its canonical bytes.
fn sqlite_value(value: &Value, encoded: &[u8]) -> (stored: SqliteValue)
    requires
        encoded@ == canonical(value@),
    ensures
        stored@ == stored_value(value@),
{
    match value {
        Value::Null => SqliteValue::Null,
        Value::Boolean(value) => SqliteValue::Integer(
            if *value {
                1
            } else {
                0
            },
        ),
        Value::Int8(value) => SqliteValue::Integer(*value as i64),
        Value::Int16(value) => SqliteValue::Integer(*value as i64),
        Value::Int32(value) => SqliteValue::Integer(*value as i64),
        Value::Int64(value) => SqliteValue::Integer(*value),
        Value::UInt8(value) => SqliteValue::Integer(*value as i64),
        Value::UInt16(value) => SqliteValue::Integer(*value as i64),
        Value::UInt32(value) => SqliteValue::Integer(*value as i64),
        Value::Date32(days) => SqliteValue::Integer(*days as i64),
        Value::Timestamp(value) => SqliteValue::Integer(*value),
        Value::UInt64(value) => SqliteValue::Blob(number_bytes(*value as u128, 8)),
        Value::Float32(bits) => SqliteValue::Blob(number_bytes(*bits as u128, 4)),
        Value::Float64(bits) => SqliteValue::Blob(number_bytes(*bits as u128, 8)),
        Value::Decimal128(value) => SqliteValue::Blob(number_bytes(complement_i128(*value), 16)),
        Value::Utf8(text) => SqliteValue::Text(text.clone()),
        Value::Binary(bytes) => SqliteValue::Blob(copy_bytes(bytes.as_slice())),
        Value::List(_) => SqliteValue::Blob(copy_bytes(encoded)),
        Value::Struct(_) => SqliteValue::Blob(copy_bytes(encoded)),
        Value::Opaque => SqliteValue::Null,
    }
}

/// A row as SQLite stores it, with its canonical bytes and its hash.
#[derive(Debug)]
pub struct EncodedRow {
    pub canonical: Vec<u8>,
    pub hash: Vec<u8>,
    pub values: Vec<SqliteValue>,
}

/// The stored values of the first `columns` cells of a row.
pub open spec fn stored_row(batch: RecordBatch, index: int, columns: nat) -> Seq<SqliteValueModel> {
    Seq::new(columns, |c: int| stored_value(batch.columns@[c].values@[index]@))
}

/// The views of some stored values.
pub open spec fn value_views(values: Seq<SqliteValue>) -> Seq<SqliteValueModel> {
    values.map_values(|value: SqliteValue| value@)
}

/// Why a row cannot be stored under a schema, if it cannot.
pub open spec fn encode_fault(schema: Schema, batch: RecordBatch, index: int) -> Option<
    RowErrorModel,
> {
    if batch.schema@ != schema@ {
        Some(RowErrorModel::SchemaMismatch)
    } else if index >= batch.rows {
        Some(RowErrorModel::RowOutOfBounds { row_index: index as usize, rows: batch.rows })
    } else {
        row_fault(batch, index, batch.columns@.len())
    }
}

/// Maps rows of one schema to what SQLite stores.
#[derive(Debug)]
pub struct RowCodec {
    pub schema: Schema,
}

impl RowCodec {
    pub fn new_validated(schema: Schema) -> (codec: RowCodec)
        ensures
            codec.schema == schema,
    {
        RowCodec { schema }
    }

    pub fn schema(&self) -> (schema: &Schema)
        ensures
            *schema == self.schema,
    {
        &self.schema
    }

    pub fn encode_row(&self, batch: &RecordBatch, row_index: usize) -> (result: Result<
        EncodedRow,
        RowError,
    >)
        requires
            batch.wf(),
        ensures
            match result {
                Ok(row) => {
                    &&& encode_fault(self.schema, *batch, row_index as int) is None
                    &&& row.canonical@ == canonical_bytes(*batch, row_index as int)
                    &&& row.hash@ == hash_of(row.canonical@)
                    &&& value_views(row.values@) == stored_row(
                        *batch,
                        row_index as int,
                        batch.columns@.len(),
                    )
                },
                Err(error) => encode_fault(self.schema, *batch, row_index as int) == Some(error@),
            },
    {
        if !same_schema(&batch.schema, &self.schema) {
            return Err(RowError::SchemaMismatch);
        }
        if row_index >= batch.rows {
            return Err(RowError::RowOutOfBounds { row_index, rows: batch.rows });
        }
        let ghost index = row_index as int;
        let mut canonical_row: Vec<u8> = Vec::new();
        let mut values: Vec<SqliteValue> = Vec::new();
        let mut column: usize = 0;
        assert(value_views(values@) =~= stored_row(*batch, index, 0));
        while column < batch.columns.len()
            invariant
                batch.wf(),
                batch.schema@ == self.schema@,
                row_index < batch.rows,
                index == row_index,
                column <= batch.columns@.len(),
                row_fault(*batch, index, column as nat) is None,
                canonical_row@ == row_bytes(*batch, index, column as nat),
                value_views(values@) == stored_row(*batch, index, column as nat),
            decreases batch.columns@.len() - column,
        {
            let field: &Field = &batch.schema.fields[column];
            assert(batch.schema@.fields[column as int] == field@);
            let mut part: Vec<u8> = Vec::new();
            let encoded = encode_canonical(
                field,
                &batch.columns[column],
                row_index,
                field.name.as_str(),
                &mut part,
            );
            if let Err(error) = encoded {
                proof {
                    lemma_row_fault_stays(
                        *batch,
                        index,
                        (column + 1) as nat,
                        batch.columns@.len(),
                    );
                }
                return Err(error);
            }
            let value: &Value = &batch.columns[column].values[row_index];
            assert(part@ =~= canonical(value@));
            let ghost before = values@;
            let stored: SqliteValue = sqlite_value(value, part.as_slice());
            values.push(stored);
            crate::bytes::push_all(&mut canonical_row, part.as_slice());
            column += 1;
            proof {
                assert(value_views(values@) =~= value_views(before).push(stored@));
                assert(value_views(values@) =~= stored_row(*batch, index, column as nat));
            }
        }
        let hash: Vec<u8> = row_hash(canonical_row.as_slice());
        Ok(EncodedRow { canonical: canonical_row, hash, values })
    }
}

/// Whether two stored values are the same, type and content.
pub fn same_value(left: &SqliteValue, right: &SqliteValue) -> (same: bool)
    ensures
        same == (left@ == right@),
{
    match (left, right) {
        (SqliteValue::Null, SqliteValue::Null) => true,
        (SqliteValue::Integer(left), SqliteValue::Integer(right)) => *left == *right,
        (SqliteValue::Text(left), SqliteValue::Text(right)) => same_text(
            left.as_str(),
            right.as_str(),
        ),
        (SqliteValue::Blob(left), SqliteValue::Blob(right)) => same_bytes(
            left.as_slice(),
            right.as_slice(),
        ),
        _ => false,
    }
}

impl EncodedRow {
    /// Whether the values that were read, from `offset` on, are those of this row.
    pub fn matches(&self, read: &Vec<SqliteValue>, offset: usize) -> (same: bool)
        requires
            offset + self.values@.len() <= read@.len(),
        ensures
            same == (forall|i: int|
                0 <= i < self.values@.len() ==> (#[trigger] self.values@[i])@ == read@[offset
                    + i]@),
    {
        let mut index: usize = 0;
        let total: usize = read.len();
        while index < self.values.len()
            invariant
                index <= self.values@.len(),
                offset + self.values@.len() <= total,
                total == read@.len(),
                forall|i: int|
                    0 <= i < index ==> (#[trigger] self.values@[i])@ == read@[offset + i]@,
            decreases self.values@.len() - index,
        {
            if !same_value(&self.values[index], &read[offset + index]) {
                assert(self.values@[index as int]@ != read@[offset + index as int]@);
                return false;
            }
            index += 1;
        }
        true
    }
}

} // verus!
