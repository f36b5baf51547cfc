//! What the rows of a SQLite relation mean: how stored values are read.

use crate::change::{FieldModel, RecordBatch, Schema, ValueModel};
use crate::relation::decode::{
    lemma_cell_fits, lemma_number_is_read, lemma_value_of_canonical, value_of_blob, value_of_number,
    width_of,
};
use crate::relation::identity::{measured, row_measured};
use crate::relation::row::value_fault;
use crate::sqlite::row::{encode_fault, stored_row, stored_value, SqliteValueModel};
use vstd::prelude::*;

verus! {

/// The value of a field that a stored one stands for, if there is one.
pub open spec fn value_in(field: FieldModel, stored: SqliteValueModel) -> Option<ValueModel> {
    match stored {
        SqliteValueModel::Null => Some(ValueModel::Null),
        SqliteValueModel::Integer(value) => value_of_number(field.data_type, value as int),
        SqliteValueModel::Text(text) => if field.data_type is Utf8 {
            Some(ValueModel::Utf8(text))
        } else {
            None
        },
        SqliteValueModel::Blob(bytes) => value_of_blob(field, bytes),
    }
}

/// A stored value is read as the value that it was stored for.
pub proof fn law_stored_value_is_read(field: FieldModel, value: ValueModel, path: Seq<char>)
    requires
        value_fault(field, value, path) is None,
        measured(value),
    ensures
        value_in(field, stored_value(value)) == Some(value),
{
    if value is Null {
    } else if width_of(field.data_type) is Some {
        lemma_number_is_read(field.data_type, value);
    } else {
        lemma_value_of_canonical(field, value, path);
    }
}

/// Each value of an encoded row is read as the value of its own cell, and there is one for each
/// column.
pub proof fn law_encoded_row_is_read(
    schema: Schema,
    batch: RecordBatch,
    index: int,
    column: int,
)
    requires
        batch.wf(),
        0 <= index,
        encode_fault(schema, batch, index) is None,
        row_measured(batch, index),
        0 <= column < batch.columns@.len(),
    ensures
        ({
            let row = stored_row(batch, index, batch.columns@.len());
            &&& row.len() == schema@.fields.len()
            &&& value_in(schema@.fields[column], row[column]) == Some(
                batch.columns@[column].values@[index]@,
            )
        }),
{
    let field = schema@.fields[column];
    assert(batch.schema@.fields.len() == batch.schema.fields@.len());
    lemma_cell_fits(batch, index, batch.columns@.len(), column);
    law_stored_value_is_read(field, batch.columns@[column].values@[index]@, field.name);
}

} // verus!
