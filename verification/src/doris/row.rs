//! Rows as values of Apache Doris.

use crate::bytes::{copy_bytes, push_all};
use crate::change::{same_schema, Field, RecordBatch, Value, ValueModel};
use crate::doris::schema::{column_views, columns_of, DorisLayout};
use crate::encoding::{base64, base64_text, tells};
use crate::relation::row::{
    canonical, canonical_bytes, encode_canonical, hash_of, lemma_row_fault_stays, row_bytes,
    row_fault, row_hash, RowError,
};
use crate::sqlite::row::encode_fault;
use crate::text::{decimal, decimal_text, hex, hex_of, signed_decimal, signed_decimal_text};
use vstd::prelude::*;
use vstd::utf8::encode_utf8;

verus! {

/// A value of a cell: nothing, an integer or bytes; `Other` is what no row is made of.
#[derive(Debug, PartialEq, Eq)]
pub enum DorisValue {
    Null,
    Int(i64),
    UInt(u64),
    Bytes(Vec<u8>),
    Other,
}

/// What a `DorisValue` is.
pub ghost enum CellModel {
    Null,
    Int(i64),
    UInt(u64),
    Bytes(Seq<u8>),
    Other,
}

impl View for DorisValue {
    type V = CellModel;

    open spec fn view(&self) -> CellModel {
        match *self {
            DorisValue::Null => CellModel::Null,
            DorisValue::Int(value) => CellModel::Int(value),
            DorisValue::UInt(value) => CellModel::UInt(value),
            DorisValue::Bytes(bytes) => CellModel::Bytes(bytes@),
            DorisValue::Other => CellModel::Other,
        }
    }
}

/// Bytes in a statement.
pub open spec fn bytes_text(bytes: Seq<u8>) -> Seq<char> {
    "X'"@ + hex_of(bytes) + "'"@
}

pub fn bytes_literal(bytes: &[u8]) -> (text: String)
    ensures
        text@ == bytes_text(bytes@),
{
    let mut text: String = "X'".to_owned();
    text.append(hex(bytes).as_str());
    text.append("'");
    text
}

/// A value in a statement.
pub open spec fn cell_literal(cell: CellModel) -> Seq<char> {
    match cell {
        CellModel::Null => "NULL"@,
        CellModel::Int(value) => signed_decimal(value as int),
        CellModel::UInt(value) => decimal(value as nat),
        CellModel::Bytes(bytes) => bytes_text(bytes),
        CellModel::Other => "NULL"@,
    }
}

impl DorisValue {
    pub fn value_literal(&self) -> (text: String)
        ensures
            text@ == cell_literal(self@),
    {
        match self {
            DorisValue::Null => "NULL".to_owned(),
            DorisValue::Int(value) => signed_decimal_text(*value),
            DorisValue::UInt(value) => decimal_text(*value),
            DorisValue::Bytes(bytes) => bytes_literal(bytes.as_slice()),
            DorisValue::Other => "NULL".to_owned(),
        }
    }
}

/// How a value is stored: integers of up to 63 bits and texts as they are, others by their
/// canonical bytes in base64.
pub open spec fn cell_of(value: ValueModel) -> CellModel {
    match value {
        ValueModel::Null => CellModel::Null,
        ValueModel::Boolean(value) => CellModel::Int(
            if value {
                1
            } else {
                0
            },
        ),
        ValueModel::Int8(value) => CellModel::Int(value as i64),
        ValueModel::Int16(value) => CellModel::Int(value as i64),
        ValueModel::Int32(value) => CellModel::Int(value as i64),
        ValueModel::Date32(days) => CellModel::Int(days as i64),
        ValueModel::Int64(value) => CellModel::Int(value),
        ValueModel::Timestamp(value) => CellModel::Int(value),
        ValueModel::UInt8(value) => CellModel::UInt(value as u64),
        ValueModel::UInt16(value) => CellModel::UInt(value as u64),
        ValueModel::UInt32(value) => CellModel::UInt(value as u64),
        ValueModel::Utf8(text) => CellModel::Bytes(encode_utf8(text)),
        ValueModel::Opaque => CellModel::Null,
        _ => CellModel::Bytes(encode_utf8(base64_text(canonical(value)))),
    }
}

/// Whether bytes other than those of a text stand for the canonical bytes of a value, and for
/// no others.
pub open spec fn recovered(cell: CellModel, value: ValueModel) -> bool {
    cell is Bytes && !(value is Utf8) ==> exists|text: Seq<char>|
        #[trigger] encode_utf8(text) == cell->Bytes_0 && tells(text, canonical(value))
}

/// How a value is stored; `encoded` holds its canonical bytes.
fn doris_value(value: &Value, encoded: &[u8]) -> (cell: DorisValue)
    requires
        encoded@ == canonical(value@),
    ensures
        cell@ == cell_of(value@),
        recovered(cell@, value@),
{
    match value {
        Value::Null => DorisValue::Null,
        Value::Boolean(value) => DorisValue::Int(
            if *value {
                1
            } else {
                0
            },
        ),
        Value::Int8(value) => DorisValue::Int(*value as i64),
        Value::Int16(value) => DorisValue::Int(*value as i64),
        Value::Int32(value) => DorisValue::Int(*value as i64),
        Value::Date32(days) => DorisValue::Int(*days as i64),
        Value::Int64(value) => DorisValue::Int(*value),
        Value::Timestamp(value) => DorisValue::Int(*value),
        Value::UInt8(value) => DorisValue::UInt(*value as u64),
        Value::UInt16(value) => DorisValue::UInt(*value as u64),
        Value::UInt32(value) => DorisValue::UInt(*value as u64),
        Value::Utf8(text) => DorisValue::Bytes(copy_bytes(text.as_str().as_bytes())),
        Value::Opaque => DorisValue::Null,
        _ => {
            let text: String = base64(encoded);
            let bytes: Vec<u8> = copy_bytes(text.as_str().as_bytes());
            proof {
                assert(encode_utf8(text@) == bytes@);
            }
            DorisValue::Bytes(bytes)
        },
    }
}

/// A row as values, with its hash in hexadecimal digits.
#[derive(Debug, PartialEq, Eq)]
pub struct EncodedRow {
    pub hash: Vec<u8>,
    pub values: Vec<DorisValue>,
}

/// The values of the first `columns` cells of a row.
pub open spec fn cells_of(batch: RecordBatch, index: int, columns: nat) -> Seq<CellModel> {
    Seq::new(columns, |c: int| cell_of(batch.columns@[c].values@[index]@))
}

/// Whether the bytes of each cell that is not kept as it is stand for its canonical bytes.
pub open spec fn recovers(values: Seq<DorisValue>, batch: RecordBatch, index: int) -> bool {
    forall|c: int|
        #![trigger values[c]]
        0 <= c < values.len() ==> recovered(values[c]@, batch.columns@[c].values@[index]@)
}

/// The hash of a row in hexadecimal digits.
pub open spec fn row_digest(batch: RecordBatch, index: int) -> Seq<u8> {
    encode_utf8(hex_of(hash_of(canonical_bytes(batch, index))))
}

/// The views of some values.
pub open spec fn value_views(values: Seq<DorisValue>) -> Seq<CellModel> {
    values.map_values(|value: DorisValue| value@)
}

/// Maps rows of one layout to values.
#[derive(Debug)]
pub struct DorisRowCodec {
    pub layout: DorisLayout,
}

impl DorisRowCodec {
    pub fn new(layout: DorisLayout) -> (codec: DorisRowCodec)
        ensures
            codec.layout == layout,
    {
        DorisRowCodec { layout }
    }

    pub fn encode_row(&self, batch: &RecordBatch, row_index: usize) -> (result: Result<
        EncodedRow,
        RowError,
    >)
        requires
            batch.wf(),
            self.layout.wf(),
        ensures
            match result {
                Ok(row) => {
                    &&& encode_fault(self.layout.schema, *batch, row_index as int) is None
                    &&& row.hash@ == row_digest(*batch, row_index as int)
                    &&& value_views(row.values@) == cells_of(
                        *batch,
                        row_index as int,
                        batch.columns@.len(),
                    )
                    &&& recovers(row.values@, *batch, row_index as int)
                },
                Err(error) => encode_fault(self.layout.schema, *batch, row_index as int) == Some(
                    error@,
                ),
            },
    {
        if !same_schema(&batch.schema, &self.layout.schema) {
            return Err(RowError::SchemaMismatch);
        }
        if row_index >= batch.rows {
            return Err(RowError::RowOutOfBounds { row_index, rows: batch.rows });
        }
        let ghost index = row_index as int;
        let mut canonical_row: Vec<u8> = Vec::new();
        let mut values: Vec<DorisValue> = Vec::new();
        let mut column: usize = 0;
        proof {
            assert(value_views(values@) =~= cells_of(*batch, index, 0));
            assert(column_views(self.layout.columns@).len()
                == columns_of(self.layout.schema@.fields).len());
            assert(batch.schema@.fields.len() == self.layout.schema@.fields.len());
        }
        while column < batch.columns.len()
            invariant
                batch.wf(),
                self.layout.columns@.len() == batch.columns@.len(),
                batch.schema@ == self.layout.schema@,
                row_index < batch.rows,
                index == row_index,
                column <= batch.columns@.len(),
                row_fault(*batch, index, column as nat) is None,
                canonical_row@ == row_bytes(*batch, index, column as nat),
                value_views(values@) == cells_of(*batch, index, column as nat),
                recovers(values@, *batch, index),
            decreases batch.columns@.len() - column,
        {
            let field: &Field = &batch.schema.fields[column];
            assert(batch.schema@.fields[column as int] == field@);
            let mut part: Vec<u8> = Vec::new();
            let encoded = encode_canonical(
                field,
                &batch.columns[column],
                row_index,
                field.name.as_str(),
                &mut part,
            );
            if let Err(error) = encoded {
                proof {
                    lemma_row_fault_stays(
                        *batch,
                        index,
                        (column + 1) as nat,
                        batch.columns@.len(),
                    );
                }
                return Err(error);
            }
            let value: &Value = &batch.columns[column].values[row_index];
            assert(part@ =~= canonical(value@));
            let ghost before = values@;
            let bound: DorisValue = doris_value(value, part.as_slice());
            values.push(bound);
            push_all(&mut canonical_row, part.as_slice());
            column += 1;
            proof {
                assert(value_views(values@) =~= value_views(before).push(bound@));
                assert(value_views(values@) =~= cells_of(
                    *batch,
                    index,
                    column as nat,
                ));
            }
        }
        let digest: String = hex(row_hash(canonical_row.as_slice()).as_slice());
        Ok(EncodedRow { hash: copy_bytes(digest.as_str().as_bytes()), values })
    }
}

} // verus!
