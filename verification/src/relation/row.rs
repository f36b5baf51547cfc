//! Exact row identity, independent of how a target stores the row.

use crate::bytes::{be_bytes, push_all, push_be, twos_complement};
use crate::bytes::{complement_i128, lemma_be_bytes_len, lemma_byte_ranges};
use crate::change::{
    copy_type, same_type, Column, DataType, Field, FieldModel, RecordBatch, TypeModel, Value,
    ValueModel,
};
use crate::change::value_models;
use crate::text::{byte_len, text_bytes};
use vstd::prelude::*;
use vstd::utf8::encode_utf8;

verus! {

/// Why a row has no canonical form.
#[derive(Debug)]
pub enum RowError {
    SchemaMismatch,
    RowOutOfBounds { row_index: usize, rows: usize },
    ArrayTypeMismatch { field: String, expected: DataType, actual: DataType },
    UnexpectedNull { field: String },
    TooLarge { limit: usize },
}

/// What a `RowError` says, with names as sequences of characters.
pub ghost enum RowErrorModel {
    SchemaMismatch,
    RowOutOfBounds { row_index: usize, rows: usize },
    ArrayTypeMismatch { field: Seq<char>, expected: TypeModel, actual: TypeModel },
    UnexpectedNull { field: Seq<char> },
    TooLarge { limit: usize },
}

impl View for RowError {
    type V = RowErrorModel;

    open spec fn view(&self) -> RowErrorModel {
        match *self {
            RowError::SchemaMismatch => RowErrorModel::SchemaMismatch,
            RowError::RowOutOfBounds { row_index, rows } => RowErrorModel::RowOutOfBounds {
                row_index,
                rows,
            },
            RowError::ArrayTypeMismatch { field, expected, actual } => {
                RowErrorModel::ArrayTypeMismatch {
                    field: field@,
                    expected: expected@,
                    actual: actual@,
                }
            },
            RowError::UnexpectedNull { field } => RowErrorModel::UnexpectedNull { field: field@ },
            RowError::TooLarge { limit } => RowErrorModel::TooLarge { limit },
        }
    }
}

/// The values inside a list or a structure.
pub open spec fn children(value: ValueModel) -> Seq<ValueModel> {
    match value {
        ValueModel::List(values) => values,
        ValueModel::Struct(values) => values,
        _ => Seq::empty(),
    }
}

/// The canonical bytes of a value: a marker for null or present, then the value itself,
/// fixed widths in big-endian order and anything of variable length behind its length.
pub open spec fn canonical(value: ValueModel) -> Seq<u8>
    decreases value, 1nat, 0nat,
{
    match value {
        ValueModel::Null => seq![0u8],
        ValueModel::Boolean(value) => seq![
            1u8,
            if value {
                1u8
            } else {
                0u8
            },
        ],
        ValueModel::Int8(value) => seq![1u8] + be_bytes(twos_complement(value as int, 1), 1),
        ValueModel::Int16(value) => seq![1u8] + be_bytes(twos_complement(value as int, 2), 2),
        ValueModel::Int32(value) => seq![1u8] + be_bytes(twos_complement(value as int, 4), 4),
        ValueModel::Int64(value) => seq![1u8] + be_bytes(twos_complement(value as int, 8), 8),
        ValueModel::UInt8(value) => seq![1u8] + be_bytes(value as nat, 1),
        ValueModel::UInt16(value) => seq![1u8] + be_bytes(value as nat, 2),
        ValueModel::UInt32(value) => seq![1u8] + be_bytes(value as nat, 4),
        ValueModel::UInt64(value) => seq![1u8] + be_bytes(value as nat, 8),
        ValueModel::Float32(bits) => seq![1u8] + be_bytes(bits as nat, 4),
        ValueModel::Float64(bits) => seq![1u8] + be_bytes(bits as nat, 8),
        ValueModel::Date32(days) => seq![1u8] + be_bytes(twos_complement(days as int, 4), 4),
        ValueModel::Timestamp(value) => seq![1u8] + be_bytes(twos_complement(value as int, 8), 8),
        ValueModel::Decimal128(value) => seq![1u8] + be_bytes(
            twos_complement(value as int, 16),
            16,
        ),
        ValueModel::Utf8(text) => seq![1u8] + be_bytes(byte_len(text), 8) + encode_utf8(text),
        ValueModel::Binary(bytes) => seq![1u8] + be_bytes(bytes.len(), 8) + bytes,
        ValueModel::List(values) => seq![1u8] + be_bytes(values.len(), 8) + canonical_children(
            value,
            values.len(),
        ),
        ValueModel::Struct(values) => seq![1u8] + canonical_children(value, values.len()),
        ValueModel::Opaque => seq![1u8],
    }
}

/// The canonical bytes of the first `count` values inside a nested value.
pub open spec fn canonical_children(value: ValueModel, count: nat) -> Seq<u8>
    decreases value, 0nat, count,
{
    if count == 0 || count > children(value).len() {
        Seq::empty()
    } else {
        canonical_children(value, (count - 1) as nat) + canonical(children(value)[count - 1])
    }
}

/// The name of a child, behind the name of what holds it.
pub open spec fn child_path(path: Seq<char>, name: Seq<char>) -> Seq<char> {
    path + "."@ + name
}

/// The field of the child at `index` inside a nested type.
pub open spec fn child_field(data_type: TypeModel, index: int) -> FieldModel {
    match data_type {
        TypeModel::List(child) => *child,
        TypeModel::Struct(fields) => fields[index],
        _ => arbitrary(),
    }
}

/// Whether a present value is written in the way its type says, its children aside.
pub open spec fn shape_fits(data_type: TypeModel, value: ValueModel) -> bool {
    match (data_type, value) {
        (TypeModel::Boolean, ValueModel::Boolean(_)) => true,
        (TypeModel::Int8, ValueModel::Int8(_)) => true,
        (TypeModel::Int16, ValueModel::Int16(_)) => true,
        (TypeModel::Int32, ValueModel::Int32(_)) => true,
        (TypeModel::Int64, ValueModel::Int64(_)) => true,
        (TypeModel::UInt8, ValueModel::UInt8(_)) => true,
        (TypeModel::UInt16, ValueModel::UInt16(_)) => true,
        (TypeModel::UInt32, ValueModel::UInt32(_)) => true,
        (TypeModel::UInt64, ValueModel::UInt64(_)) => true,
        (TypeModel::Float32, ValueModel::Float32(_)) => true,
        (TypeModel::Float64, ValueModel::Float64(_)) => true,
        (TypeModel::Date32, ValueModel::Date32(_)) => true,
        (TypeModel::Timestamp(_, _), ValueModel::Timestamp(_)) => true,
        (TypeModel::Decimal128(_, _), ValueModel::Decimal128(_)) => true,
        (TypeModel::Utf8, ValueModel::Utf8(_)) => true,
        (TypeModel::Binary, ValueModel::Binary(_)) => true,
        (TypeModel::List(_), ValueModel::List(_)) => true,
        (TypeModel::Struct(fields), ValueModel::Struct(values)) => fields.len() == values.len(),
        _ => false,
    }
}

/// Why `value` cannot stand in `field`: the first reason from left to right.
pub open spec fn value_fault(
    field: FieldModel,
    value: ValueModel,
    path: Seq<char>,
) -> Option<RowErrorModel>
    decreases value, 1nat, 0nat,
{
    if value is Null {
        if field.nullable || field.data_type is Null {
            None
        } else {
            Some(RowErrorModel::UnexpectedNull { field: path })
        }
    } else if !shape_fits(field.data_type, value) {
        Some(
            RowErrorModel::ArrayTypeMismatch {
                field: path,
                expected: field.data_type,
                actual: field.data_type,
            },
        )
    } else {
        children_fault(field.data_type, value, path, children(value).len())
    }
}

/// The first reason among the first `count` children of a nested value.
pub open spec fn children_fault(
    data_type: TypeModel,
    value: ValueModel,
    path: Seq<char>,
    count: nat,
) -> Option<RowErrorModel>
    decreases value, 0nat, count,
{
    if count == 0 || count > children(value).len() {
        None
    } else {
        match children_fault(data_type, value, path, (count - 1) as nat) {
            Some(fault) => Some(fault),
            None => {
                let child = child_field(data_type, count - 1);
                value_fault(child, children(value)[count - 1], child_path(path, child.name))
            },
        }
    }
}

/// Why the cell of `column` at `index` has no canonical form under `field`.
pub open spec fn cell_fault(
    field: FieldModel,
    column: Column,
    index: int,
    path: Seq<char>,
) -> Option<RowErrorModel> {
    if column.data_type@ != field.data_type {
        Some(
            RowErrorModel::ArrayTypeMismatch {
                field: path,
                expected: field.data_type,
                actual: column.data_type@,
            },
        )
    } else if index >= column.values@.len() {
        Some(
            RowErrorModel::RowOutOfBounds {
                row_index: index as usize,
                rows: column.values@.len() as usize,
            },
        )
    } else {
        value_fault(field, column.values@[index]@, path)
    }
}

proof fn lemma_first_fault_stays(
    data_type: TypeModel,
    value: ValueModel,
    path: Seq<char>,
    low: nat,
    high: nat,
)
    requires
        low <= high <= children(value).len(),
        children_fault(data_type, value, path, low) is Some,
    ensures
        children_fault(data_type, value, path, high) == children_fault(
            data_type,
            value,
            path,
            low,
        ),
    decreases high,
{
    if low < high {
        lemma_first_fault_stays(data_type, value, path, low, (high - 1) as nat);
    }
}

/// Appends a signed number in `width` bytes.
fn push_signed(output: &mut Vec<u8>, value: i64, width: u8)
    requires
        width == 1 || width == 2 || width == 4 || width == 8,
        width == 1 ==> i8::MIN <= value,
        width == 2 ==> i16::MIN <= value,
        width == 4 ==> i32::MIN <= value,
    ensures
        final(output)@ == old(output)@ + be_bytes(
            twos_complement(value as int, width as nat),
            width as nat,
        ),
{
    proof {
        lemma_byte_ranges();
    }
    let complement: u128 = if value >= 0 {
        value as u128
    } else if width == 1 {
        (value as i128 + 0x100) as u128
    } else if width == 2 {
        (value as i128 + 0x1_0000) as u128
    } else if width == 4 {
        (value as i128 + 0x1_0000_0000) as u128
    } else {
        (value as i128 + 0x1_0000_0000_0000_0000) as u128
    };
    push_be(output, complement, width)
}

/// Appends a length in eight bytes.
fn encode_length(length: usize, output: &mut Vec<u8>)
    ensures
        final(output)@ == old(output)@ + be_bytes(length as nat, 8),
{
    push_be(output, length as u128, 8)
}

/// Appends bytes behind their length.
fn encode_bytes(bytes: &[u8], output: &mut Vec<u8>)
    ensures
        final(output)@ == old(output)@ + be_bytes(bytes@.len(), 8) + bytes@,
{
    encode_length(bytes.len(), output);
    push_all(output, bytes);
}

fn type_mismatch(field: &Field, actual: &DataType, path: &str) -> (error: RowError)
    ensures
        error@ == (RowErrorModel::ArrayTypeMismatch {
            field: path@,
            expected: field@.data_type,
            actual: actual@,
        }),
{
    RowError::ArrayTypeMismatch {
        field: path.to_owned(),
        expected: copy_type(&field.data_type),
        actual: copy_type(actual),
    }
}

fn name_child(path: &str, name: &str) -> (text: String)
    ensures
        text@ == child_path(path@, name@),
{
    let mut text: String = path.to_owned();
    text.append(".");
    text.append(name);
    text
}

/// Whether a value is written in the way its type says, its children aside.
fn has_shape(data_type: &DataType, value: &Value) -> (fits: bool)
    ensures
        fits == shape_fits(data_type@, value@),
{
    match (data_type, value) {
        (DataType::Boolean, Value::Boolean(_)) => true,
        (DataType::Int8, Value::Int8(_)) => true,
        (DataType::Int16, Value::Int16(_)) => true,
        (DataType::Int32, Value::Int32(_)) => true,
        (DataType::Int64, Value::Int64(_)) => true,
        (DataType::UInt8, Value::UInt8(_)) => true,
        (DataType::UInt16, Value::UInt16(_)) => true,
        (DataType::UInt32, Value::UInt32(_)) => true,
        (DataType::UInt64, Value::UInt64(_)) => true,
        (DataType::Float32, Value::Float32(_)) => true,
        (DataType::Float64, Value::Float64(_)) => true,
        (DataType::Date32, Value::Date32(_)) => true,
        (DataType::Timestamp(_, _), Value::Timestamp(_)) => true,
        (DataType::Decimal128(_, _), Value::Decimal128(_)) => true,
        (DataType::Utf8, Value::Utf8(_)) => true,
        (DataType::Binary, Value::Binary(_)) => true,
        (DataType::List(_), Value::List(_)) => true,
        (DataType::Struct(fields), Value::Struct(values)) => fields.len() == values.len(),
        _ => false,
    }
}

/// Appends the canonical bytes of `value`, which stands in `field`.
pub fn encode_value(field: &Field, value: &Value, path: &str, output: &mut Vec<u8>) -> (result:
    Result<(), RowError>)
    ensures
        match result {
            Ok(_) => {
                &&& value_fault(field@, value@, path@) is None
                &&& final(output)@ == old(output)@ + canonical(value@)
            },
            Err(error) => value_fault(field@, value@, path@) == Some(error@),
        },
    decreases *value, 1nat,
{
    if let Value::Null = value {
        let null_type = match &field.data_type {
            DataType::Null => true,
            _ => false,
        };
        if !field.nullable && !null_type {
            return Err(RowError::UnexpectedNull { field: path.to_owned() });
        }
        output.push(0);
        assert(output@ =~= old(output)@ + canonical(value@));
        return Ok(());
    }
    if !has_shape(&field.data_type, value) {
        return Err(type_mismatch(field, &field.data_type, path));
    }
    output.push(1);
    let ghost marked = old(output)@ + seq![1u8];
    assert(output@ =~= marked);
    match value {
        Value::Null => {},
        Value::Boolean(value) => output.push(if *value {
            1
        } else {
            0
        }),
        Value::Int8(value) => push_signed(output, *value as i64, 1),
        Value::Int16(value) => push_signed(output, *value as i64, 2),
        Value::Int32(value) => push_signed(output, *value as i64, 4),
        Value::Int64(value) => push_signed(output, *value, 8),
        Value::UInt8(value) => push_be(output, *value as u128, 1),
        Value::UInt16(value) => push_be(output, *value as u128, 2),
        Value::UInt32(value) => push_be(output, *value as u128, 4),
        Value::UInt64(value) => push_be(output, *value as u128, 8),
        Value::Float32(bits) => push_be(output, *bits as u128, 4),
        Value::Float64(bits) => push_be(output, *bits as u128, 8),
        Value::Date32(days) => push_signed(output, *days as i64, 4),
        Value::Timestamp(value) => push_signed(output, *value, 8),
        Value::Decimal128(value) => push_be(output, complement_i128(*value), 16),
        Value::Utf8(text) => encode_bytes(text.as_str().as_bytes(), output),
        Value::Binary(bytes) => encode_bytes(bytes.as_slice(), output),
        Value::List(values) => {
            if let DataType::List(child) = &field.data_type {
                encode_length(values.len(), output);
                let child_name: String = name_child(path, child.name.as_str());
                let ghost head = output@;
                let mut index: usize = 0;
                while index < values.len()
                    invariant
                        *value == Value::List(*values),
                        field.data_type == DataType::List(*child),
                        child_name@ == child_path(path@, child.name@),
                        index <= values@.len(),
                        children_fault(field.data_type@, value@, path@, index as nat) is None,
                        output@ == head + canonical_children(value@, index as nat),
                    decreases values@.len() - index,
                {
                    assert(children(value@)[index as int] == values@[index as int]@);
                    assert(child_field(field.data_type@, index as int) == child@);
                    let encoded = encode_value(child, &values[index], child_name.as_str(), output);
                    if let Err(error) = encoded {
                        proof {
                            lemma_first_fault_stays(
                                field.data_type@,
                                value@,
                                path@,
                                (index + 1) as nat,
                                children(value@).len(),
                            );
                        }
                        return Err(error);
                    }
                    index += 1;
                    assert(output@ =~= head + canonical_children(value@, index as nat));
                }
            }
        },
        Value::Struct(values) => {
            if let DataType::Struct(fields) = &field.data_type {
                let ghost head = output@;
                let mut index: usize = 0;
                while index < values.len()
                    invariant
                        *value == Value::Struct(*values),
                        field.data_type == DataType::Struct(*fields),
                        fields@.len() == values@.len(),
                        index <= values@.len(),
                        children_fault(field.data_type@, value@, path@, index as nat) is None,
                        output@ == head + canonical_children(value@, index as nat),
                    decreases values@.len() - index,
                {
                    assert(children(value@)[index as int] == values@[index as int]@);
                    assert(child_field(field.data_type@, index as int) == fields@[index as int]@);
                    let child_name: String = name_child(path, fields[index].name.as_str());
                    let encoded = encode_value(
                        &fields[index],
                        &values[index],
                        child_name.as_str(),
                        output,
                    );
                    if let Err(error) = encoded {
                        proof {
                            lemma_first_fault_stays(
                                field.data_type@,
                                value@,
                                path@,
                                (index + 1) as nat,
                                children(value@).len(),
                            );
                        }
                        return Err(error);
                    }
                    index += 1;
                    assert(output@ =~= head + canonical_children(value@, index as nat));
                }
            }
        },
        Value::Opaque => {},
    }
    assert(output@ =~= old(output)@ + canonical(value@));
    Ok(())
}

/// Appends the canonical bytes of one cell.
pub fn encode_canonical(
    field: &Field,
    column: &Column,
    index: usize,
    path: &str,
    output: &mut Vec<u8>,
) -> (result: Result<(), RowError>)
    ensures
        match result {
            Ok(_) => {
                &&& cell_fault(field@, *column, index as int, path@) is None
                &&& index < column.values@.len()
                &&& final(output)@ == old(output)@ + canonical(column.values@[index as int]@)
            },
            Err(error) => cell_fault(field@, *column, index as int, path@) == Some(error@),
        },
{
    if !same_type(&column.data_type, &field.data_type) {
        return Err(type_mismatch(field, &column.data_type, path));
    }
    if index >= column.values.len() {
        return Err(RowError::RowOutOfBounds { row_index: index, rows: column.values.len() });
    }
    encode_value(field, &column.values[index], path, output)
}

/// Why the first `columns` cells of a row have no canonical form: the first reason.
pub open spec fn row_fault(batch: RecordBatch, index: int, columns: nat) -> Option<RowErrorModel>
    decreases columns,
{
    if columns == 0 || columns > batch.columns@.len() {
        None
    } else {
        match row_fault(batch, index, (columns - 1) as nat) {
            Some(fault) => Some(fault),
            None => {
                let field = batch.schema@.fields[columns - 1];
                cell_fault(field, batch.columns@[columns - 1], index, field.name)
            },
        }
    }
}

/// The canonical bytes of the first `columns` cells of a row.
pub open spec fn row_bytes(batch: RecordBatch, index: int, columns: nat) -> Seq<u8>
    decreases columns,
{
    if columns == 0 || columns > batch.columns@.len() {
        Seq::empty()
    } else {
        row_bytes(batch, index, (columns - 1) as nat) + canonical(
            batch.columns@[columns - 1].values@[index]@,
        )
    }
}

/// The canonical bytes of a whole row.
pub open spec fn canonical_bytes(batch: RecordBatch, index: int) -> Seq<u8> {
    row_bytes(batch, index, batch.columns@.len())
}

/// Why a row has no canonical form, if it has none.
pub open spec fn canonical_fault(batch: RecordBatch, index: int) -> Option<RowErrorModel> {
    if index >= batch.rows {
        Some(RowErrorModel::RowOutOfBounds { row_index: index as usize, rows: batch.rows })
    } else {
        row_fault(batch, index, batch.columns@.len())
    }
}

pub proof fn lemma_row_fault_stays(batch: RecordBatch, index: int, low: nat, high: nat)
    requires
        low <= high <= batch.columns@.len(),
        row_fault(batch, index, low) is Some,
    ensures
        row_fault(batch, index, high) == row_fault(batch, index, low),
    decreases high,
{
    if low < high {
        lemma_row_fault_stays(batch, index, low, (high - 1) as nat);
    }
}

/// The canonical bytes of the row at `index`.
pub fn canonical_row(batch: &RecordBatch, index: usize) -> (result: Result<Vec<u8>, RowError>)
    requires
        batch.wf(),
    ensures
        match result {
            Ok(bytes) => {
                &&& canonical_fault(*batch, index as int) is None
                &&& bytes@ == canonical_bytes(*batch, index as int)
            },
            Err(error) => canonical_fault(*batch, index as int) == Some(error@),
        },
{
    if index >= batch.rows {
        return Err(RowError::RowOutOfBounds { row_index: index, rows: batch.rows });
    }
    let mut bytes: Vec<u8> = Vec::new();
    let mut column: usize = 0;
    while column < batch.columns.len()
        invariant
            batch.wf(),
            index < batch.rows,
            column <= batch.columns@.len(),
            row_fault(*batch, index as int, column as nat) is None,
            bytes@ == row_bytes(*batch, index as int, column as nat),
        decreases batch.columns@.len() - column,
    {
        let field: &Field = &batch.schema.fields[column];
        assert(batch.schema@.fields[column as int] == field@);
        let encoded = encode_canonical(
            field,
            &batch.columns[column],
            index,
            field.name.as_str(),
            &mut bytes,
        );
        if let Err(error) = encoded {
            proof {
                lemma_row_fault_stays(
                    *batch,
                    index as int,
                    (column + 1) as nat,
                    batch.columns@.len(),
                );
            }
            return Err(error);
        }
        column += 1;
    }
    Ok(bytes)
}

proof fn lemma_children_grow(value: ValueModel, low: nat, high: nat)
    requires
        low <= high <= children(value).len(),
    ensures
        canonical_children(value, low).len() <= canonical_children(value, high).len(),
    decreases high,
{
    if low < high {
        lemma_children_grow(value, low, (high - 1) as nat);
    }
}

proof fn lemma_columns_grow(batch: RecordBatch, index: int, low: nat, high: nat)
    requires
        low <= high <= batch.columns@.len(),
    ensures
        row_bytes(batch, index, low).len() <= row_bytes(batch, index, high).len(),
    decreases high,
{
    if low < high {
        lemma_columns_grow(batch, index, low, (high - 1) as nat);
    }
}

/// `total` and the values inside `value`, or nothing where they exceed `limit` together.
fn add_children(value: &Value, values: &Vec<Value>, total: usize, limit: usize) -> (size: Option<
    usize,
>)
    requires
        value_models(*values) == children(value@),
        total <= limit,
        *value == Value::List(*values) || *value == Value::Struct(*values),
    ensures
        match size {
            Some(size) => {
                &&& size == total + canonical_children(value@, values@.len()).len()
                &&& size <= limit
            },
            None => total + canonical_children(value@, values@.len()).len() > limit,
        },
    decreases *value, 0nat,
{
    let mut sum: usize = total;
    let mut index: usize = 0;
    while index < values.len()
        invariant
            value_models(*values) == children(value@),
            *value == Value::List(*values) || *value == Value::Struct(*values),
            index <= values@.len(),
            sum == total + canonical_children(value@, index as nat).len(),
            sum <= limit,
        decreases values@.len() - index,
    {
        assert(children(value@)[index as int] == values@[index as int]@);
        proof {
            lemma_children_grow(value@, (index + 1) as nat, values@.len());
        }
        match canonical_size(&values[index], limit - sum) {
            Some(size) => {
                sum += size;
            },
            None => {
                return None;
            },
        }
        index += 1;
    }
    Some(sum)
}

/// The length of the canonical bytes of `value`, or nothing where it exceeds `limit`.
pub fn canonical_size(value: &Value, limit: usize) -> (size: Option<usize>)
    ensures
        match size {
            Some(size) => size == canonical(value@).len() && size <= limit,
            None => canonical(value@).len() > limit,
        },
    decreases *value, 1nat,
{
    broadcast use lemma_be_bytes_len;

    let fixed: usize = match value {
        Value::Null => 1,
        Value::Boolean(_) => 2,
        Value::Int8(_) => 2,
        Value::Int16(_) => 3,
        Value::Int32(_) => 5,
        Value::Int64(_) => 9,
        Value::UInt8(_) => 2,
        Value::UInt16(_) => 3,
        Value::UInt32(_) => 5,
        Value::UInt64(_) => 9,
        Value::Float32(_) => 5,
        Value::Float64(_) => 9,
        Value::Date32(_) => 5,
        Value::Timestamp(_) => 9,
        Value::Decimal128(_) => 17,
        Value::Utf8(_) => 9,
        Value::Binary(_) => 9,
        Value::List(_) => 9,
        Value::Struct(_) => 1,
        Value::Opaque => 1,
    };
    if fixed > limit {
        return None;
    }
    match value {
        Value::Utf8(text) => {
            let length: usize = text_bytes(text.as_str());
            if length > limit - fixed {
                None
            } else {
                Some(fixed + length)
            }
        },
        Value::Binary(bytes) => {
            let length: usize = bytes.len();
            if length > limit - fixed {
                None
            } else {
                Some(fixed + length)
            }
        },
        Value::List(values) => add_children(value, values, fixed, limit),
        Value::Struct(values) => add_children(value, values, fixed, limit),
        _ => Some(fixed),
    }
}

/// The length of a row's canonical bytes, or nothing where it exceeds `limit`.
fn row_size(batch: &RecordBatch, index: usize, limit: usize) -> (size: Option<usize>)
    requires
        batch.wf(),
        index < batch.rows,
    ensures
        match size {
            Some(size) => size == canonical_bytes(*batch, index as int).len() && size <= limit,
            None => canonical_bytes(*batch, index as int).len() > limit,
        },
{
    let mut sum: usize = 0;
    let mut column: usize = 0;
    while column < batch.columns.len()
        invariant
            batch.wf(),
            index < batch.rows,
            column <= batch.columns@.len(),
            sum == row_bytes(*batch, index as int, column as nat).len(),
            sum <= limit,
        decreases batch.columns@.len() - column,
    {
        proof {
            lemma_columns_grow(*batch, index as int, (column + 1) as nat, batch.columns@.len());
        }
        match canonical_size(&batch.columns[column].values[index], limit - sum) {
            Some(size) => {
                sum += size;
            },
            None => {
                return None;
            },
        }
        column += 1;
    }
    Some(sum)
}

/// Why a row has no canonical form of at most `limit` bytes, if it has none.
pub open spec fn bounded_fault(batch: RecordBatch, index: int, limit: usize) -> Option<
    RowErrorModel,
> {
    if index < batch.rows && canonical_bytes(batch, index).len() > limit {
        Some(RowErrorModel::TooLarge { limit })
    } else {
        canonical_fault(batch, index)
    }
}

/// The canonical bytes of a row, which may not exceed `limit`.
pub fn canonical_row_bounded(batch: &RecordBatch, index: usize, limit: usize) -> (result: Result<
    Vec<u8>,
    RowError,
>)
    requires
        batch.wf(),
    ensures
        match result {
            Ok(bytes) => {
                &&& bounded_fault(*batch, index as int, limit) is None
                &&& bytes@ == canonical_bytes(*batch, index as int)
                &&& bytes@.len() <= limit
            },
            Err(error) => bounded_fault(*batch, index as int, limit) == Some(error@),
        },
{
    if index < batch.rows && row_size(batch, index, limit).is_none() {
        return Err(RowError::TooLarge { limit });
    }
    canonical_row(batch, index)
}

/// The length of a row's canonical bytes, which may not exceed `limit`.
pub fn canonical_row_size_bounded(batch: &RecordBatch, index: usize, limit: usize) -> (result:
    Result<usize, RowError>)
    requires
        batch.wf(),
    ensures
        match result {
            Ok(size) => {
                &&& bounded_fault(*batch, index as int, limit) is None
                &&& size == canonical_bytes(*batch, index as int).len()
                &&& size <= limit
            },
            Err(error) => bounded_fault(*batch, index as int, limit) == Some(error@),
        },
{
    match canonical_row_bounded(batch, index, limit) {
        Ok(bytes) => Ok(bytes.len()),
        Err(error) => Err(error),
    }
}

/// The BLAKE3 digest of some bytes.
pub uninterp spec fn blake3_digest(input: Seq<u8>) -> Seq<u8>;

/// Calls `blake3::hash`: the digest depends on the input alone and has 32 bytes.
#[verifier::external_body]
pub(crate) fn blake3_hash(input: &[u8]) -> (digest: Vec<u8>)
    ensures
        digest@ == blake3_digest(input@),
        digest@.len() == 32,
{
    blake3::hash(input).as_bytes().to_vec()
}

/// What the hash of a row is taken of: its canonical bytes behind a fixed prefix.
pub open spec fn hash_input(bytes: Seq<u8>) -> Seq<u8> {
    encode_utf8("dogpaddle.relation-row.v1\0"@) + bytes
}

/// The hash of a row: half of a BLAKE3 digest.
pub open spec fn hash_of(bytes: Seq<u8>) -> Seq<u8> {
    blake3_digest(hash_input(bytes)).take(16)
}

/// The first `length` bytes of a digest.
pub fn truncate_digest(digest: &[u8], length: usize) -> (hash: Vec<u8>)
    requires
        length <= digest@.len(),
    ensures
        hash@ == digest@.take(length as int),
{
    let mut hash: Vec<u8> = Vec::new();
    let mut index: usize = 0;
    while index < length
        invariant
            index <= length <= digest@.len(),
            hash@ == digest@.take(index as int),
        decreases length - index,
    {
        hash.push(digest[index]);
        index += 1;
        assert(hash@ =~= digest@.take(index as int));
    }
    hash
}

/// The sixteen bytes by which equal rows are found.
pub fn row_hash(bytes: &[u8]) -> (hash: Vec<u8>)
    ensures
        hash@ == hash_of(bytes@),
        hash@.len() == 16,
{
    let mut input: Vec<u8> = Vec::new();
    push_all(&mut input, "dogpaddle.relation-row.v1\0".as_bytes());
    push_all(&mut input, bytes);
    assert(input@ =~= hash_input(bytes@));
    let digest: Vec<u8> = blake3_hash(input.as_slice());
    truncate_digest(digest.as_slice(), 16)
}

} // verus!
