//! What the rows of an Apache Doris relation mean: how the values of a row are read.

use crate::change::{FieldModel, RecordBatch, ValueModel};
use crate::doris::row::{cell_of, cells_of, CellModel};
use crate::doris::schema::{column_of, column_views, columns_of, type_fault, DorisLayout};
use crate::encoding::{base64_text, tells};
use crate::relation::decode::{
    lemma_cell_fits, lemma_number_is_read, lemma_value_of_canonical, value_of_canonical,
    value_of_number, width_of,
};
use crate::relation::identity::{measured, row_measured};
use crate::relation::row::{canonical, value_fault};
use crate::sqlite::row::encode_fault;
use vstd::prelude::*;
use vstd::utf8::{decode_utf8, encode_utf8, encode_utf8_decode_utf8};

verus! {

/// The value of a field that a cell stands for, if there is one: integers and texts as they are,
/// and others by the canonical bytes that a text in base64 tells.
pub open spec fn value_in(field: FieldModel, cell: CellModel) -> Option<ValueModel> {
    match cell {
        CellModel::Null => Some(ValueModel::Null),
        CellModel::Int(value) => value_of_number(field.data_type, value as int),
        CellModel::UInt(value) => value_of_number(field.data_type, value as int),
        CellModel::Bytes(bytes) => if field.data_type is Utf8 {
            Some(ValueModel::Utf8(decode_utf8(bytes)))
        } else {
            value_of_canonical(
                field,
                choose|told: Seq<u8>| #[trigger] base64_text(told) == decode_utf8(bytes),
            )
        },
        CellModel::Other => None,
    }
}

/// A cell is read as the value that it was made of, where base64 tells its canonical bytes.
pub proof fn law_cell_is_read(field: FieldModel, value: ValueModel, path: Seq<char>)
    requires
        column_of(field) is Some,
        value_fault(field, value, path) is None,
        measured(value),
        tells(base64_text(canonical(value)), canonical(value)),
    ensures
        value_in(field, cell_of(value)) == Some(value),
{
    if !(value is Null) {
        lemma_value_of_canonical(field, value, path);
        if width_of(field.data_type) is Some {
            lemma_number_is_read(field.data_type, value);
        }
        if let ValueModel::Utf8(text) = value {
            encode_utf8_decode_utf8(text);
        } else if let CellModel::Bytes(bytes) = cell_of(value) {
            let own = base64_text(canonical(value));
            encode_utf8_decode_utf8(own);
            assert(decode_utf8(encode_utf8(own)) == own);
        }
    }
}

/// Every field of a schema that can be laid out has a column.
pub proof fn lemma_column_exists(fields: Seq<FieldModel>, count: int, index: int)
    requires
        type_fault(fields, count) is None,
        0 <= index < count <= fields.len(),
    ensures
        column_of(fields[index]) is Some,
    decreases count,
{
    if index < count - 1 {
        lemma_column_exists(fields, count - 1, index);
    }
}

/// Each value of an encoded row is read as the value of its own cell, and there is one for each
/// column.
pub proof fn law_encoded_row_is_read(
    layout: DorisLayout,
    batch: RecordBatch,
    index: int,
    column: int,
)
    requires
        layout.wf(),
        batch.wf(),
        0 <= index,
        encode_fault(layout.schema, batch, index) is None,
        row_measured(batch, index),
        0 <= column < batch.columns@.len(),
        ({
            let bytes = canonical(batch.columns@[column].values@[index]@);
            tells(base64_text(bytes), bytes)
        }),
    ensures
        ({
            let row = cells_of(batch, index, batch.columns@.len());
            &&& row.len() == layout.schema@.fields.len()
            &&& value_in(layout.schema@.fields[column], row[column]) == Some(
                batch.columns@[column].values@[index]@,
            )
        }),
{
    let fields = layout.schema@.fields;
    let field = fields[column];
    assert(column_views(layout.columns@).len() == columns_of(fields).len());
    assert(batch.schema@.fields.len() == batch.schema.fields@.len());
    lemma_cell_fits(batch, index, batch.columns@.len(), column);
    lemma_column_exists(fields, fields.len() as int, column);
    law_cell_is_read(field, batch.columns@[column].values@[index]@, field.name);
}

} // verus!
