//! Rows as typed parameters of PostgreSQL.

use crate::bytes::{be_bytes, complement_i128, copy_bytes, push_all, twos_complement};
use crate::change::{same_schema, Field, RecordBatch, Value, ValueModel};
use crate::postgres::schema::{PostgresLayout, StorageType};
use crate::relation::row::{
    canonical, canonical_bytes, encode_canonical, hash_of, lemma_row_fault_stays, row_bytes,
    row_fault, row_hash, RowError,
};
use crate::sqlite::row::{encode_fault, number_bytes};
use vstd::prelude::*;
use vstd::utf8::encode_utf8;

verus! {

/// A parameter with its type, which a null has too.
#[derive(Debug, PartialEq, Eq)]
pub enum PostgresValue {
    Boolean(Option<bool>),
    Int16(Option<i16>),
    Int32(Option<i32>),
    Int64(Option<i64>),
    Bytes(Option<Vec<u8>>),
}

/// What a `PostgresValue` is.
pub ghost enum PostgresValueModel {
    Boolean(Option<bool>),
    Int16(Option<i16>),
    Int32(Option<i32>),
    Int64(Option<i64>),
    Bytes(Option<Seq<u8>>),
}

impl View for PostgresValue {
    type V = PostgresValueModel;

    open spec fn view(&self) -> PostgresValueModel {
        match *self {
            PostgresValue::Boolean(value) => PostgresValueModel::Boolean(value),
            PostgresValue::Int16(value) => PostgresValueModel::Int16(value),
            PostgresValue::Int32(value) => PostgresValueModel::Int32(value),
            PostgresValue::Int64(value) => PostgresValueModel::Int64(value),
            PostgresValue::Bytes(Some(bytes)) => PostgresValueModel::Bytes(Some(bytes@)),
            PostgresValue::Bytes(None) => PostgresValueModel::Bytes(None),
        }
    }
}

/// The null of a type.
pub open spec fn null_of(storage: StorageType) -> PostgresValueModel {
    match storage {
        StorageType::Boolean => PostgresValueModel::Boolean(None),
        StorageType::Int16 => PostgresValueModel::Int16(None),
        StorageType::Int32 => PostgresValueModel::Int32(None),
        StorageType::Int64 => PostgresValueModel::Int64(None),
        StorageType::Bytes(_) => PostgresValueModel::Bytes(None),
    }
}

fn null_value(storage: StorageType) -> (value: PostgresValue)
    ensures
        value@ == null_of(storage),
{
    match storage {
        StorageType::Boolean => PostgresValue::Boolean(None),
        StorageType::Int16 => PostgresValue::Int16(None),
        StorageType::Int32 => PostgresValue::Int32(None),
        StorageType::Int64 => PostgresValue::Int64(None),
        StorageType::Bytes(_) => PostgresValue::Bytes(None),
    }
}

/// How a value is bound: the smallest integer type that holds it, or its bytes.
pub open spec fn bound_value(storage: StorageType, value: ValueModel) -> PostgresValueModel {
    match value {
        ValueModel::Null => null_of(storage),
        ValueModel::Boolean(value) => PostgresValueModel::Boolean(Some(value)),
        ValueModel::Int8(value) => PostgresValueModel::Int16(Some(value as i16)),
        ValueModel::Int16(value) => PostgresValueModel::Int16(Some(value)),
        ValueModel::Int32(value) => PostgresValueModel::Int32(Some(value)),
        ValueModel::Date32(days) => PostgresValueModel::Int32(Some(days)),
        ValueModel::Int64(value) => PostgresValueModel::Int64(Some(value)),
        ValueModel::Timestamp(value) => PostgresValueModel::Int64(Some(value)),
        ValueModel::UInt8(value) => PostgresValueModel::Int16(Some(value as i16)),
        ValueModel::UInt16(value) => PostgresValueModel::Int32(Some(value as i32)),
        ValueModel::UInt32(value) => PostgresValueModel::Int64(Some(value as i64)),
        ValueModel::UInt64(value) => PostgresValueModel::Bytes(Some(be_bytes(value as nat, 8))),
        ValueModel::Float32(bits) => PostgresValueModel::Bytes(Some(be_bytes(bits as nat, 4))),
        ValueModel::Float64(bits) => PostgresValueModel::Bytes(Some(be_bytes(bits as nat, 8))),
        ValueModel::Decimal128(value) => PostgresValueModel::Bytes(
            Some(be_bytes(twos_complement(value as int, 16), 16)),
        ),
        ValueModel::Utf8(text) => PostgresValueModel::Bytes(Some(encode_utf8(text))),
        ValueModel::Binary(bytes) => PostgresValueModel::Bytes(Some(bytes)),
        ValueModel::List(_) => PostgresValueModel::Bytes(Some(canonical(value))),
        ValueModel::Struct(_) => PostgresValueModel::Bytes(Some(canonical(value))),
        ValueModel::Opaque => null_of(storage),
    }
}

/// How a value is bound; `encoded` holds its canonical bytes.
fn postgres_value(storage: StorageType, value: &Value, encoded: &[u8]) -> (bound: PostgresValue)
    requires
        encoded@ == canonical(value@),
    ensures
        bound@ == bound_value(storage, value@),
{
    match value {
        Value::Null => null_value(storage),
        Value::Boolean(value) => PostgresValue::Boolean(Some(*value)),
        Value::Int8(value) => PostgresValue::Int16(Some(*value as i16)),
        Value::Int16(value) => PostgresValue::Int16(Some(*value)),
        Value::Int32(value) => PostgresValue::Int32(Some(*value)),
        Value::Date32(days) => PostgresValue::Int32(Some(*days)),
        Value::Int64(value) => PostgresValue::Int64(Some(*value)),
        Value::Timestamp(value) => PostgresValue::Int64(Some(*value)),
        Value::UInt8(value) => PostgresValue::Int16(Some(*value as i16)),
        Value::UInt16(value) => PostgresValue::Int32(Some(*value as i32)),
        Value::UInt32(value) => PostgresValue::Int64(Some(*value as i64)),
        Value::UInt64(value) => PostgresValue::Bytes(Some(number_bytes(*value as u128, 8))),
        Value::Float32(bits) => PostgresValue::Bytes(Some(number_bytes(*bits as u128, 4))),
        Value::Float64(bits) => PostgresValue::Bytes(Some(number_bytes(*bits as u128, 8))),
        Value::Decimal128(value) => PostgresValue::Bytes(
            Some(number_bytes(complement_i128(*value), 16)),
        ),
        Value::Utf8(text) => PostgresValue::Bytes(Some(copy_bytes(text.as_str().as_bytes()))),
        Value::Binary(bytes) => PostgresValue::Bytes(Some(copy_bytes(bytes.as_slice()))),
        Value::List(_) => PostgresValue::Bytes(Some(copy_bytes(encoded))),
        Value::Struct(_) => PostgresValue::Bytes(Some(copy_bytes(encoded))),
        Value::Opaque => null_value(storage),
    }
}

/// A row as parameters, with its hash.
#[derive(Debug, PartialEq, Eq)]
pub struct EncodedRow {
    pub hash: Vec<u8>,
    pub values: Vec<PostgresValue>,
}

/// The parameters of the first `columns` cells of a row.
pub open spec fn bound_row(
    layout: PostgresLayout,
    batch: RecordBatch,
    index: int,
    columns: nat,
) -> Seq<PostgresValueModel> {
    Seq::new(
        columns,
        |c: int| bound_value(layout.columns@[c].storage, batch.columns@[c].values@[index]@),
    )
}

/// The views of some parameters.
pub open spec fn value_views(values: Seq<PostgresValue>) -> Seq<PostgresValueModel> {
    values.map_values(|value: PostgresValue| value@)
}

/// Maps rows of one layout to parameters.
#[derive(Debug)]
pub struct PostgresRowCodec {
    pub layout: PostgresLayout,
}

impl PostgresRowCodec {
    pub fn new(layout: PostgresLayout) -> (codec: PostgresRowCodec)
        ensures
            codec.layout == layout,
    {
        PostgresRowCodec { layout }
    }

    pub fn encode_row(&self, batch: &RecordBatch, row_index: usize) -> (result: Result<
        EncodedRow,
        RowError,
    >)
        requires
            batch.wf(),
            self.layout.wf(),
        ensures
            match result {
                Ok(row) => {
                    &&& encode_fault(self.layout.schema, *batch, row_index as int) is None
                    &&& row.hash@ == hash_of(canonical_bytes(*batch, row_index as int))
                    &&& value_views(row.values@) == bound_row(
                        self.layout,
                        *batch,
                        row_index as int,
                        batch.columns@.len(),
                    )
                },
                Err(error) => encode_fault(self.layout.schema, *batch, row_index as int) == Some(
                    error@,
                ),
            },
    {
        if !same_schema(&batch.schema, &self.layout.schema) {
            return Err(RowError::SchemaMismatch);
        }
        if row_index >= batch.rows {
            return Err(RowError::RowOutOfBounds { row_index, rows: batch.rows });
        }
        let ghost index = row_index as int;
        let mut canonical_row: Vec<u8> = Vec::new();
        let mut values: Vec<PostgresValue> = Vec::new();
        let mut column: usize = 0;
        proof {
            assert(value_views(values@) =~= bound_row(self.layout, *batch, index, 0));
            assert(crate::postgres::schema::column_views(self.layout.columns@).len()
                == crate::postgres::schema::columns_of(self.layout.schema@.fields).len());
            assert(batch.schema@.fields.len() == self.layout.schema@.fields.len());
        }
        while column < batch.columns.len()
            invariant
                batch.wf(),
                self.layout.columns@.len() == batch.columns@.len(),
                batch.schema@ == self.layout.schema@,
                row_index < batch.rows,
                index == row_index,
                column <= batch.columns@.len(),
                row_fault(*batch, index, column as nat) is None,
                canonical_row@ == row_bytes(*batch, index, column as nat),
                value_views(values@) == bound_row(self.layout, *batch, index, column as nat),
            decreases batch.columns@.len() - column,
        {
            let field: &Field = &batch.schema.fields[column];
            assert(batch.schema@.fields[column as int] == field@);
            let mut part: Vec<u8> = Vec::new();
            let encoded = encode_canonical(
                field,
                &batch.columns[column],
                row_index,
                field.name.as_str(),
                &mut part,
            );
            if let Err(error) = encoded {
                proof {
                    lemma_row_fault_stays(
                        *batch,
                        index,
                        (column + 1) as nat,
                        batch.columns@.len(),
                    );
                }
                return Err(error);
            }
            let value: &Value = &batch.columns[column].values[row_index];
            assert(part@ =~= canonical(value@));
            let ghost before = values@;
            let bound: PostgresValue = postgres_value(
                self.layout.columns[column].storage,
                value,
                part.as_slice(),
            );
            values.push(bound);
            push_all(&mut canonical_row, part.as_slice());
            column += 1;
            proof {
                assert(value_views(values@) =~= value_views(before).push(bound@));
                assert(value_views(values@) =~= bound_row(
                    self.layout,
                    *batch,
                    index,
                    column as nat,
                ));
            }
        }
        Ok(EncodedRow { hash: row_hash(canonical_row.as_slice()), values })
    }
}

} // verus!
