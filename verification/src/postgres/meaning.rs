//! What the rows of a PostgreSQL relation mean: how the parameters of a row are read.

use crate::change::{FieldModel, RecordBatch, ValueModel};
use crate::postgres::row::{bound_row, bound_value, PostgresValueModel};
use crate::postgres::schema::{column_of, column_views, columns_of, type_fault, PostgresLayout};
use crate::relation::decode::{
    lemma_cell_fits, lemma_number_is_read, lemma_value_of_canonical, value_of_blob, value_of_number,
    width_of,
};
use crate::relation::identity::{measured, row_measured};
use crate::relation::row::value_fault;
use crate::sqlite::row::encode_fault;
use vstd::prelude::*;
use vstd::utf8::encode_utf8_decode_utf8;

verus! {

/// The value of a field that a parameter stands for, if there is one.
pub open spec fn value_in(field: FieldModel, bound: PostgresValueModel) -> Option<ValueModel> {
    match bound {
        PostgresValueModel::Boolean(Some(value)) => if field.data_type is Boolean {
            Some(ValueModel::Boolean(value))
        } else {
            None
        },
        PostgresValueModel::Int16(Some(value)) => value_of_number(field.data_type, value as int),
        PostgresValueModel::Int32(Some(value)) => value_of_number(field.data_type, value as int),
        PostgresValueModel::Int64(Some(value)) => value_of_number(field.data_type, value as int),
        PostgresValueModel::Bytes(Some(bytes)) => value_of_blob(field, bytes),
        _ => Some(ValueModel::Null),
    }
}

/// The parameter of a value is read as that value: no two values of a field are bound alike.
pub proof fn law_bound_value_is_read(field: FieldModel, value: ValueModel, path: Seq<char>)
    requires
        column_of(field) is Some,
        value_fault(field, value, path) is None,
        measured(value),
    ensures
        value_in(field, bound_value(column_of(field)->0.storage, value)) == Some(value),
{
    if value is Null {
    } else if width_of(field.data_type) is Some {
        lemma_number_is_read(field.data_type, value);
    } else {
        lemma_value_of_canonical(field, value, path);
        if let ValueModel::Utf8(text) = value {
            encode_utf8_decode_utf8(text);
        }
    }
}

/// Every field of a schema that can be laid out has a column.
pub proof fn lemma_column_exists(fields: Seq<FieldModel>, count: int, index: int)
    requires
        type_fault(fields, count) is None,
        0 <= index < count <= fields.len(),
    ensures
        column_of(fields[index]) is Some,
    decreases count,
{
    if index < count - 1 {
        lemma_column_exists(fields, count - 1, index);
    }
}

/// Each parameter of an encoded row is read as the value of its own cell, and there is one for
/// each column.
pub proof fn law_encoded_row_is_read(
    layout: PostgresLayout,
    batch: RecordBatch,
    index: int,
    column: int,
)
    requires
        layout.wf(),
        batch.wf(),
        0 <= index,
        encode_fault(layout.schema, batch, index) is None,
        row_measured(batch, index),
        0 <= column < batch.columns@.len(),
    ensures
        ({
            let row = bound_row(layout, batch, index, batch.columns@.len());
            &&& row.len() == layout.schema@.fields.len()
            &&& value_in(layout.schema@.fields[column], row[column]) == Some(
                batch.columns@[column].values@[index]@,
            )
        }),
{
    let fields = layout.schema@.fields;
    let field = fields[column];
    assert(column_views(layout.columns@).len() == columns_of(fields).len());
    assert(batch.schema@.fields.len() == batch.schema.fields@.len());
    lemma_cell_fits(batch, index, batch.columns@.len(), column);
    lemma_column_exists(fields, fields.len() as int, column);
    assert(column_views(layout.columns@)[column] == columns_of(fields)[column]);
    law_bound_value_is_read(field, batch.columns@[column].values@[index]@, field.name);
}

} // verus!
