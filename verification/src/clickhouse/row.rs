//! Rows as values of ClickHouse.

use crate::bytes::push_all;
use crate::change::{same_schema, Field, RecordBatch, Value, ValueModel};
use crate::clickhouse::config::{literal, string_literal};
use crate::clickhouse::schema::{column_views, columns_of, ClickHouseLayout, StorageType};
use crate::encoding::{base64, base64_text, tells};
use crate::json::{json_string, json_text};
use crate::relation::row::{
    canonical, canonical_bytes, encode_canonical, hash_of, lemma_row_fault_stays, row_bytes,
    row_fault, row_hash, RowError,
};
use crate::sqlite::row::encode_fault;
use crate::text::{decimal, decimal_text, hex, hex_of, signed_decimal, signed_decimal_text};
use vstd::prelude::*;

verus! {

/// A value of a cell: nothing, an integer or a text.
#[derive(Debug, PartialEq, Eq)]
pub enum ClickHouseValue {
    Null,
    Unsigned(u64),
    Negative(i64),
    Text(String),
}

/// What a `ClickHouseValue` is.
pub ghost enum CellModel {
    Null,
    Unsigned(u64),
    Negative(i64),
    Text(Seq<char>),
}

impl View for ClickHouseValue {
    type V = CellModel;

    open spec fn view(&self) -> CellModel {
        match *self {
            ClickHouseValue::Null => CellModel::Null,
            ClickHouseValue::Unsigned(value) => CellModel::Unsigned(value),
            ClickHouseValue::Negative(value) => CellModel::Negative(value),
            ClickHouseValue::Text(text) => CellModel::Text(text@),
        }
    }
}

/// An integer as a value: only those below zero are signed.
pub open spec fn signed_cell(value: i64) -> CellModel {
    if value < 0 {
        CellModel::Negative(value)
    } else {
        CellModel::Unsigned(value as u64)
    }
}

fn signed(value: i64) -> (cell: ClickHouseValue)
    ensures
        cell@ == signed_cell(value),
{
    if value < 0 {
        ClickHouseValue::Negative(value)
    } else {
        ClickHouseValue::Unsigned(value as u64)
    }
}

/// A value as JSON.
pub open spec fn cell_json(cell: CellModel) -> Seq<char> {
    match cell {
        CellModel::Null => "null"@,
        CellModel::Unsigned(value) => decimal(value as nat),
        CellModel::Negative(value) => signed_decimal(value as int),
        CellModel::Text(text) => json_string(text),
    }
}

/// A value in a statement.
pub open spec fn cell_literal(cell: CellModel) -> Seq<char> {
    match cell {
        CellModel::Null => "NULL"@,
        CellModel::Unsigned(value) => decimal(value as nat),
        CellModel::Negative(value) => signed_decimal(value as int),
        CellModel::Text(text) => literal(text),
    }
}

impl ClickHouseValue {
    pub fn json(&self) -> (text: String)
        ensures
            text@ == cell_json(self@),
    {
        match self {
            ClickHouseValue::Null => "null".to_owned(),
            ClickHouseValue::Unsigned(value) => decimal_text(*value),
            ClickHouseValue::Negative(value) => signed_decimal_text(*value),
            ClickHouseValue::Text(text) => json_text(text.as_str()),
        }
    }

    pub fn value_literal(&self) -> (text: String)
        ensures
            text@ == cell_literal(self@),
    {
        match self {
            ClickHouseValue::Null => "NULL".to_owned(),
            ClickHouseValue::Unsigned(value) => decimal_text(*value),
            ClickHouseValue::Negative(value) => signed_decimal_text(*value),
            ClickHouseValue::Text(text) => string_literal(text.as_str()),
        }
    }
}

/// How a value is stored: integers as they are, others by their canonical bytes in base64.
pub open spec fn cell_of(storage: StorageType, value: ValueModel) -> CellModel {
    match value {
        ValueModel::Null => CellModel::Null,
        _ => if storage == StorageType::String {
            CellModel::Text(base64_text(canonical(value)))
        } else {
            number_cell(value)
        },
    }
}

/// An integer as a value.
pub open spec fn number_cell(value: ValueModel) -> CellModel {
    match value {
        ValueModel::Boolean(value) => CellModel::Unsigned(
            if value {
                1
            } else {
                0
            },
        ),
        ValueModel::Int8(value) => signed_cell(value as i64),
        ValueModel::Int16(value) => signed_cell(value as i64),
        ValueModel::Int32(value) => signed_cell(value as i64),
        ValueModel::Date32(days) => signed_cell(days as i64),
        ValueModel::Int64(value) => signed_cell(value),
        ValueModel::Timestamp(value) => signed_cell(value),
        ValueModel::UInt8(value) => CellModel::Unsigned(value as u64),
        ValueModel::UInt16(value) => CellModel::Unsigned(value as u64),
        ValueModel::UInt32(value) => CellModel::Unsigned(value as u64),
        ValueModel::UInt64(value) => CellModel::Unsigned(value),
        _ => CellModel::Null,
    }
}

/// How a value is stored; `encoded` holds its canonical bytes.
fn clickhouse_value(storage: StorageType, value: &Value, encoded: &[u8]) -> (cell: ClickHouseValue)
    requires
        encoded@ == canonical(value@),
    ensures
        cell@ == cell_of(storage, value@),
        cell@ matches CellModel::Text(text) ==> tells(text, canonical(value@)),
{
    if let Value::Null = value {
        return ClickHouseValue::Null;
    }
    if storage == StorageType::String {
        return ClickHouseValue::Text(base64(encoded));
    }
    match value {
        Value::Boolean(value) => ClickHouseValue::Unsigned(
            if *value {
                1
            } else {
                0
            },
        ),
        Value::Int8(value) => signed(*value as i64),
        Value::Int16(value) => signed(*value as i64),
        Value::Int32(value) => signed(*value as i64),
        Value::Date32(days) => signed(*days as i64),
        Value::Int64(value) => signed(*value),
        Value::Timestamp(value) => signed(*value),
        Value::UInt8(value) => ClickHouseValue::Unsigned(*value as u64),
        Value::UInt16(value) => ClickHouseValue::Unsigned(*value as u64),
        Value::UInt32(value) => ClickHouseValue::Unsigned(*value as u64),
        Value::UInt64(value) => ClickHouseValue::Unsigned(*value),
        _ => ClickHouseValue::Null,
    }
}

/// A row as values, with its hash in hexadecimal digits.
#[derive(Debug, PartialEq, Eq)]
pub struct EncodedRow {
    pub hash: String,
    pub values: Vec<ClickHouseValue>,
}

/// The values of the first `columns` cells of a row.
pub open spec fn cells_of(
    layout: ClickHouseLayout,
    batch: RecordBatch,
    index: int,
    columns: nat,
) -> Seq<CellModel> {
    Seq::new(
        columns,
        |c: int| cell_of(layout.columns@[c].storage, batch.columns@[c].values@[index]@),
    )
}

/// Whether each text stands for the canonical bytes of its cell, and for no others.
pub open spec fn recovers(values: Seq<ClickHouseValue>, batch: RecordBatch, index: int) -> bool {
    forall|c: int|
        #![trigger values[c]]
        0 <= c < values.len() ==> (values[c]@ matches CellModel::Text(text) ==> tells(
            text,
            canonical(batch.columns@[c].values@[index]@),
        ))
}

/// The hash of a row in hexadecimal digits.
pub open spec fn row_digest(batch: RecordBatch, index: int) -> Seq<char> {
    hex_of(hash_of(canonical_bytes(batch, index)))
}

/// The views of some values.
pub open spec fn value_views(values: Seq<ClickHouseValue>) -> Seq<CellModel> {
    values.map_values(|value: ClickHouseValue| value@)
}

/// Maps rows of one layout to values.
#[derive(Debug)]
pub struct ClickHouseRowCodec {
    pub layout: ClickHouseLayout,
}

impl ClickHouseRowCodec {
    pub fn new(layout: ClickHouseLayout) -> (codec: ClickHouseRowCodec)
        ensures
            codec.layout == layout,
    {
        ClickHouseRowCodec { layout }
    }

    pub fn encode_row(&self, batch: &RecordBatch, row_index: usize) -> (result: Result<
        EncodedRow,
        RowError,
    >)
        requires
            batch.wf(),
            self.layout.wf(),
        ensures
            match result {
                Ok(row) => {
                    &&& encode_fault(self.layout.schema, *batch, row_index as int) is None
                    &&& row.hash@ == row_digest(*batch, row_index as int)
                    &&& value_views(row.values@) == cells_of(
                        self.layout,
                        *batch,
                        row_index as int,
                        batch.columns@.len(),
                    )
                    &&& recovers(row.values@, *batch, row_index as int)
                },
                Err(error) => encode_fault(self.layout.schema, *batch, row_index as int) == Some(
                    error@,
                ),
            },
    {
        if !same_schema(&batch.schema, &self.layout.schema) {
            return Err(RowError::SchemaMismatch);
        }
        if row_index >= batch.rows {
            return Err(RowError::RowOutOfBounds { row_index, rows: batch.rows });
        }
        let ghost index = row_index as int;
        let mut canonical_row: Vec<u8> = Vec::new();
        let mut values: Vec<ClickHouseValue> = Vec::new();
        let mut column: usize = 0;
        proof {
            assert(value_views(values@) =~= cells_of(self.layout, *batch, index, 0));
            assert(column_views(self.layout.columns@).len()
                == columns_of(self.layout.schema@.fields).len());
            assert(batch.schema@.fields.len() == self.layout.schema@.fields.len());
        }
        while column < batch.columns.len()
            invariant
                batch.wf(),
                self.layout.columns@.len() == batch.columns@.len(),
                batch.schema@ == self.layout.schema@,
                row_index < batch.rows,
                index == row_index,
                column <= batch.columns@.len(),
                row_fault(*batch, index, column as nat) is None,
                canonical_row@ == row_bytes(*batch, index, column as nat),
                value_views(values@) == cells_of(self.layout, *batch, index, column as nat),
                recovers(values@, *batch, index),
            decreases batch.columns@.len() - column,
        {
            let field: &Field = &batch.schema.fields[column];
            assert(batch.schema@.fields[column as int] == field@);
            let mut part: Vec<u8> = Vec::new();
            let encoded = encode_canonical(
                field,
                &batch.columns[column],
                row_index,
                field.name.as_str(),
                &mut part,
            );
            if let Err(error) = encoded {
                proof {
                    lemma_row_fault_stays(
                        *batch,
                        index,
                        (column + 1) as nat,
                        batch.columns@.len(),
                    );
                }
                return Err(error);
            }
            let value: &Value = &batch.columns[column].values[row_index];
            assert(part@ =~= canonical(value@));
            let ghost before = values@;
            let bound: ClickHouseValue = clickhouse_value(
                self.layout.columns[column].storage,
                value,
                part.as_slice(),
            );
            values.push(bound);
            push_all(&mut canonical_row, part.as_slice());
            column += 1;
            proof {
                assert(value_views(values@) =~= value_views(before).push(bound@));
                assert(value_views(values@) =~= cells_of(
                    self.layout,
                    *batch,
                    index,
                    column as nat,
                ));
            }
        }
        Ok(EncodedRow { hash: hex(row_hash(canonical_row.as_slice()).as_slice()), values })
    }
}

} // verus!
