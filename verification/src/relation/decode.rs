//! How the values of a row are read from what stands for them: from numbers, from bytes, and
//! from their canonical bytes.

use crate::bytes::{
    be_bytes, be_value, byte_range, lemma_be_bytes_len, lemma_be_round_trip, lemma_byte_ranges,
    twos_complement,
};
use crate::change::{FieldModel, RecordBatch, TypeModel, ValueModel};
use crate::relation::identity::{measured, row_measured};
use crate::relation::row::{
    canonical, canonical_children, child_field, child_path, children, children_fault, row_fault,
    shape_fits, value_fault,
};
use vstd::prelude::*;
use vstd::utf8::{decode_utf8, encode_utf8, encode_utf8_decode_utf8};

verus! {

/// How many bytes a value of a type takes, where all of them take as many.
pub open spec fn width_of(data_type: TypeModel) -> Option<nat> {
    match data_type {
        TypeModel::Boolean | TypeModel::Int8 | TypeModel::UInt8 => Some(1),
        TypeModel::Int16 | TypeModel::UInt16 => Some(2),
        TypeModel::Int32 | TypeModel::UInt32 | TypeModel::Float32 | TypeModel::Date32 => Some(4),
        TypeModel::Int64 | TypeModel::UInt64 | TypeModel::Float64 => Some(8),
        TypeModel::Timestamp(_, _) => Some(8),
        TypeModel::Decimal128(_, _) => Some(16),
        _ => None,
    }
}

/// Whether the numbers of a type have a sign.
pub open spec fn signed_type(data_type: TypeModel) -> bool {
    match data_type {
        TypeModel::Int8 | TypeModel::Int16 | TypeModel::Int32 | TypeModel::Int64 => true,
        TypeModel::Date32 => true,
        TypeModel::Timestamp(_, _) => true,
        TypeModel::Decimal128(_, _) => true,
        _ => false,
    }
}

/// The value of a type that a number stands for, if there is one: a truth value by zero or one,
/// and a floating-point number by its bits.
pub open spec fn value_of_number(data_type: TypeModel, number: int) -> Option<ValueModel> {
    match data_type {
        TypeModel::Boolean => if number == 0 {
            Some(ValueModel::Boolean(false))
        } else if number == 1 {
            Some(ValueModel::Boolean(true))
        } else {
            None
        },
        TypeModel::Int8 => if i8::MIN <= number <= i8::MAX {
            Some(ValueModel::Int8(number as i8))
        } else {
            None
        },
        TypeModel::Int16 => if i16::MIN <= number <= i16::MAX {
            Some(ValueModel::Int16(number as i16))
        } else {
            None
        },
        TypeModel::Int32 => if i32::MIN <= number <= i32::MAX {
            Some(ValueModel::Int32(number as i32))
        } else {
            None
        },
        TypeModel::Int64 => if i64::MIN <= number <= i64::MAX {
            Some(ValueModel::Int64(number as i64))
        } else {
            None
        },
        TypeModel::UInt8 => if 0 <= number <= u8::MAX {
            Some(ValueModel::UInt8(number as u8))
        } else {
            None
        },
        TypeModel::UInt16 => if 0 <= number <= u16::MAX {
            Some(ValueModel::UInt16(number as u16))
        } else {
            None
        },
        TypeModel::UInt32 => if 0 <= number <= u32::MAX {
            Some(ValueModel::UInt32(number as u32))
        } else {
            None
        },
        TypeModel::UInt64 => if 0 <= number <= u64::MAX {
            Some(ValueModel::UInt64(number as u64))
        } else {
            None
        },
        TypeModel::Float32 => if 0 <= number <= u32::MAX {
            Some(ValueModel::Float32(number as u32))
        } else {
            None
        },
        TypeModel::Float64 => if 0 <= number <= u64::MAX {
            Some(ValueModel::Float64(number as u64))
        } else {
            None
        },
        TypeModel::Date32 => if i32::MIN <= number <= i32::MAX {
            Some(ValueModel::Date32(number as i32))
        } else {
            None
        },
        TypeModel::Timestamp(_, _) => if i64::MIN <= number <= i64::MAX {
            Some(ValueModel::Timestamp(number as i64))
        } else {
            None
        },
        TypeModel::Decimal128(_, _) => if i128::MIN <= number <= i128::MAX {
            Some(ValueModel::Decimal128(number as i128))
        } else {
            None
        },
        _ => None,
    }
}

/// The number that the bytes of a value stand for.
pub open spec fn number_of_bytes(data_type: TypeModel, bytes: Seq<u8>) -> int {
    let number = be_value(bytes);
    if signed_type(data_type) && 2 * number >= byte_range(bytes.len()) {
        number - byte_range(bytes.len())
    } else {
        number as int
    }
}

/// The value of a type that bytes stand for: a number, most significant byte first.
pub open spec fn value_of_bytes(data_type: TypeModel, bytes: Seq<u8>) -> Option<ValueModel> {
    if width_of(data_type) == Some(bytes.len()) {
        value_of_number(data_type, number_of_bytes(data_type, bytes))
    } else {
        None
    }
}

/// The value of a field that canonical bytes begin with, and the bytes behind it.
pub open spec fn canonical_in(field: FieldModel, bytes: Seq<u8>) -> Option<(ValueModel, Seq<u8>)>
    decreases bytes.len(), 0nat,
{
    let rest = bytes.skip(1);
    if bytes.len() == 0 {
        None
    } else if bytes[0] == 0 {
        Some((ValueModel::Null, rest))
    } else if width_of(field.data_type) is Some {
        let width = width_of(field.data_type)->0 as int;
        if rest.len() < width {
            None
        } else {
            match value_of_bytes(field.data_type, rest.take(width)) {
                Some(value) => Some((value, rest.skip(width))),
                None => None,
            }
        }
    } else {
        match field.data_type {
            TypeModel::Struct(fields) => match children_in(
                field.data_type,
                rest,
                0,
                fields.len(),
            ) {
                Some((values, behind)) => Some((ValueModel::Struct(values), behind)),
                None => None,
            },
            _ => if rest.len() < 8 {
                None
            } else {
                let length = be_value(rest.take(8));
                let body = rest.skip(8);
                match field.data_type {
                    TypeModel::List(_) => match children_in(field.data_type, body, 0, length) {
                        Some((values, behind)) => Some((ValueModel::List(values), behind)),
                        None => None,
                    },
                    TypeModel::Utf8 => if body.len() < length {
                        None
                    } else {
                        Some(
                            (
                                ValueModel::Utf8(decode_utf8(body.take(length as int))),
                                body.skip(length as int),
                            ),
                        )
                    },
                    TypeModel::Binary => if body.len() < length {
                        None
                    } else {
                        Some(
                            (
                                ValueModel::Binary(body.take(length as int)),
                                body.skip(length as int),
                            ),
                        )
                    },
                    _ => None,
                }
            },
        }
    }
}

/// The next `count` values inside a nested value, from the one at `index` on, and the bytes
/// behind them.
pub open spec fn children_in(
    data_type: TypeModel,
    bytes: Seq<u8>,
    index: nat,
    count: nat,
) -> Option<(Seq<ValueModel>, Seq<u8>)>
    decreases bytes.len(), count + 1,
{
    if count == 0 {
        Some((Seq::empty(), bytes))
    } else {
        match canonical_in(child_field(data_type, index as int), bytes) {
            Some((value, rest)) => if rest.len() < bytes.len() {
                match children_in(data_type, rest, index + 1, (count - 1) as nat) {
                    Some((values, behind)) => Some((seq![value] + values, behind)),
                    None => None,
                }
            } else {
                None
            },
            None => None,
        }
    }
}

/// The value of a field that stored bytes stand for: a text in UTF-8, bytes as they are, nested
/// values by their canonical bytes, and numbers by the bytes of their width.
pub open spec fn value_of_blob(field: FieldModel, bytes: Seq<u8>) -> Option<ValueModel> {
    match field.data_type {
        TypeModel::Utf8 => Some(ValueModel::Utf8(decode_utf8(bytes))),
        TypeModel::Binary => Some(ValueModel::Binary(bytes)),
        TypeModel::List(_) | TypeModel::Struct(_) => value_of_canonical(field, bytes),
        _ => value_of_bytes(field.data_type, bytes),
    }
}

/// The value of a field whose canonical bytes these are.
pub open spec fn value_of_canonical(field: FieldModel, bytes: Seq<u8>) -> Option<ValueModel> {
    match canonical_in(field, bytes) {
        Some((value, rest)) => if rest.len() == 0 {
            Some(value)
        } else {
            None
        },
        None => None,
    }
}

/// The canonical bytes of the values inside a nested value, from the one at `index` on.
spec fn tail(value: ValueModel, index: nat) -> Seq<u8>
    decreases children(value).len() - index,
{
    if index >= children(value).len() {
        Seq::empty()
    } else {
        canonical(children(value)[index as int]) + tail(value, index + 1)
    }
}

proof fn lemma_tail(value: ValueModel, index: nat)
    requires
        index <= children(value).len(),
    ensures
        canonical_children(value, index) + tail(value, index) == canonical_children(
            value,
            children(value).len(),
        ),
    decreases children(value).len() - index,
{
    if index < children(value).len() {
        lemma_tail(value, index + 1);
        assert(canonical_children(value, index) + (canonical(children(value)[index as int]) + tail(
            value,
            index + 1,
        )) =~= canonical_children(value, index + 1) + tail(value, index + 1));
    } else {
        assert(canonical_children(value, index) + Seq::<u8>::empty() =~= canonical_children(
            value,
            index,
        ));
    }
}

/// A number in the bytes of its type is read as itself.
pub proof fn lemma_number_bytes(data_type: TypeModel, number: int, width: nat)
    requires
        width_of(data_type) == Some(width),
        if signed_type(data_type) {
            -(byte_range(width) as int) <= 2 * number < byte_range(width)
        } else {
            0 <= number < byte_range(width)
        },
    ensures
        be_bytes(twos_complement(number, width), width).len() == width,
        number_of_bytes(data_type, be_bytes(twos_complement(number, width), width)) == number,
{
    lemma_byte_ranges();
    lemma_be_bytes_len(twos_complement(number, width), width);
    lemma_be_round_trip(twos_complement(number, width), width);
}

/// The number that stands for a value of a type with a width.
pub open spec fn number_of(value: ValueModel) -> int {
    match value {
        ValueModel::Boolean(value) => if value {
            1
        } else {
            0
        },
        ValueModel::Int8(value) => value as int,
        ValueModel::Int16(value) => value as int,
        ValueModel::Int32(value) => value as int,
        ValueModel::Int64(value) => value as int,
        ValueModel::UInt8(value) => value as int,
        ValueModel::UInt16(value) => value as int,
        ValueModel::UInt32(value) => value as int,
        ValueModel::UInt64(value) => value as int,
        ValueModel::Float32(bits) => bits as int,
        ValueModel::Float64(bits) => bits as int,
        ValueModel::Date32(days) => days as int,
        ValueModel::Timestamp(value) => value as int,
        ValueModel::Decimal128(value) => value as int,
        _ => 0,
    }
}

/// A value of a type with a width is read from its number, and from the bytes of that.
pub proof fn lemma_number_is_read(data_type: TypeModel, value: ValueModel)
    requires
        width_of(data_type) is Some,
        shape_fits(data_type, value),
    ensures
        value_of_number(data_type, number_of(value)) == Some(value),
        ({
            let width = width_of(data_type)->0;
            let bytes = be_bytes(twos_complement(number_of(value), width), width);
            &&& bytes.len() == width
            &&& value_of_bytes(data_type, bytes) == Some(value)
        }),
{
    lemma_byte_ranges();
    lemma_number_bytes(data_type, number_of(value), width_of(data_type)->0);
}

proof fn lemma_canonical_number(data_type: TypeModel, value: ValueModel)
    requires
        width_of(data_type) is Some,
        shape_fits(data_type, value),
    ensures
        ({
            let width = width_of(data_type)->0;
            canonical(value) == seq![1u8] + be_bytes(
                twos_complement(number_of(value), width),
                width,
            )
        }),
{
    if let ValueModel::Boolean(truth) = value {
        reveal_with_fuel(be_bytes, 2);
        assert(canonical(value) =~= seq![1u8] + be_bytes(number_of(value) as nat, 1));
    }
}

proof fn lemma_children_read(
    field: FieldModel,
    value: ValueModel,
    path: Seq<char>,
    index: nat,
    rest: Seq<u8>,
)
    requires
        shape_fits(field.data_type, value),
        children_fault(field.data_type, value, path, children(value).len()) is None,
        measured(value),
        index <= children(value).len(),
        value is List || value is Struct,
    ensures
        children_in(
            field.data_type,
            tail(value, index) + rest,
            index,
            (children(value).len() - index) as nat,
        ) == Some((children(value).skip(index as int), rest)),
    decreases value, children(value).len() - index, 0nat,
{
    let all = children(value);
    let bytes = tail(value, index) + rest;
    if index == all.len() {
        assert(bytes =~= rest);
        assert(all.skip(index as int) =~= Seq::empty());
    } else {
        let child = child_field(field.data_type, index as int);
        let own = all[index as int];
        lemma_child_fits(field, value, path, all.len(), index);
        assert(measured(own));
        assert(bytes =~= canonical(own) + (tail(value, index + 1) + rest));
        law_canonical_is_read(
            child,
            own,
            child_path(path, child.name),
            tail(value, index + 1) + rest,
        );
        lemma_children_read(field, value, path, index + 1, rest);
        assert(seq![own] + all.skip(index as int + 1) =~= all.skip(index as int));
        assert(canonical(own).len() > 0);
    }
}

proof fn lemma_child_fits(
    field: FieldModel,
    value: ValueModel,
    path: Seq<char>,
    count: nat,
    index: nat,
)
    requires
        children_fault(field.data_type, value, path, count) is None,
        index < count <= children(value).len(),
    ensures
        ({
            let child = child_field(field.data_type, index as int);
            value_fault(child, children(value)[index as int], child_path(path, child.name)) is None
        }),
    decreases count,
{
    if index < count - 1 {
        lemma_child_fits(field, value, path, (count - 1) as nat, index);
    }
}

/// The canonical bytes of a value of a field are read as that value, whatever stands behind
/// them.
pub proof fn law_canonical_is_read(
    field: FieldModel,
    value: ValueModel,
    path: Seq<char>,
    rest: Seq<u8>,
)
    requires
        value_fault(field, value, path) is None,
        measured(value),
    ensures
        canonical_in(field, canonical(value) + rest) == Some((value, rest)),
    decreases value, children(value).len() + 1, 1nat,
{
    let bytes = canonical(value) + rest;
    let behind = bytes.skip(1);
    if value is Null {
        assert(behind =~= rest);
    } else if width_of(field.data_type) is Some {
        let width = width_of(field.data_type)->0;
        lemma_number_is_read(field.data_type, value);
        lemma_canonical_number(field.data_type, value);
        let own = be_bytes(twos_complement(number_of(value), width), width);
        assert(behind.take(width as int) =~= own);
        assert(behind.skip(width as int) =~= rest);
    } else {
        lemma_byte_ranges();
        match value {
            ValueModel::Utf8(text) => {
                let own = encode_utf8(text);
                lemma_be_bytes_len(own.len(), 8);
                lemma_be_round_trip(own.len(), 8);
                encode_utf8_decode_utf8(text);
                assert(behind.take(8) =~= be_bytes(own.len(), 8));
                assert(behind.skip(8).take(own.len() as int) =~= own);
                assert(behind.skip(8).skip(own.len() as int) =~= rest);
            },
            ValueModel::Binary(own) => {
                lemma_be_bytes_len(own.len(), 8);
                lemma_be_round_trip(own.len(), 8);
                assert(behind.take(8) =~= be_bytes(own.len(), 8));
                assert(behind.skip(8).take(own.len() as int) =~= own);
                assert(behind.skip(8).skip(own.len() as int) =~= rest);
            },
            ValueModel::List(values) => {
                lemma_be_bytes_len(values.len(), 8);
                lemma_be_round_trip(values.len(), 8);
                lemma_tail(value, 0);
                assert(canonical_children(value, 0) + tail(value, 0) =~= tail(value, 0));
                lemma_children_read(field, value, path, 0, rest);
                assert(behind.take(8) =~= be_bytes(values.len(), 8));
                assert(behind.skip(8) =~= tail(value, 0) + rest);
                assert(values.skip(0) =~= values);
            },
            ValueModel::Struct(values) => {
                lemma_tail(value, 0);
                assert(canonical_children(value, 0) + tail(value, 0) =~= tail(value, 0));
                lemma_children_read(field, value, path, 0, rest);
                assert(behind =~= tail(value, 0) + rest);
                assert(values.skip(0) =~= values);
            },
            _ => {},
        }
    }
}

/// The canonical bytes of a value, and nothing behind them, are read as that value.
pub proof fn lemma_value_of_canonical(field: FieldModel, value: ValueModel, path: Seq<char>)
    requires
        value_fault(field, value, path) is None,
        measured(value),
    ensures
        value_of_canonical(field, canonical(value)) == Some(value),
{
    law_canonical_is_read(field, value, path, Seq::empty());
    assert(canonical(value) + Seq::<u8>::empty() =~= canonical(value));
}

/// A row that has canonical bytes has a value of each field.
pub proof fn lemma_cell_fits(batch: RecordBatch, index: int, columns: nat, column: int)
    requires
        batch.wf(),
        0 <= index < batch.rows,
        row_fault(batch, index, columns) is None,
        0 <= column < columns <= batch.columns@.len(),
        row_measured(batch, index),
    ensures
        ({
            let field = batch.schema@.fields[column];
            let value = batch.columns@[column].values@[index]@;
            &&& value_fault(field, value, field.name) is None
            &&& measured(value)
        }),
    decreases columns,
{
    if column < columns - 1 {
        lemma_cell_fits(batch, index, (columns - 1) as nat, column);
    }
}

} // verus!
