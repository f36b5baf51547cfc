//! Changes: rows of typed values, each with a signed multiplicity.

use crate::bytes::copy_bytes;
use crate::text::{abs, magnitude, same_text};
use vstd::prelude::*;

verus! {

/// The resolution of a timestamp.
#[derive(Clone, Copy, Debug, PartialEq, Eq, Structural)]
pub enum TimeUnit {
    Second,
    Millisecond,
    Microsecond,
    Nanosecond,
}

/// The logical type of a column.
#[derive(Debug)]
pub enum DataType {
    Null,
    Boolean,
    Int8,
    Int16,
    Int32,
    Int64,
    UInt8,
    UInt16,
    UInt32,
    UInt64,
    Float32,
    Float64,
    Date32,
    Timestamp(TimeUnit, Option<String>),
    Decimal128(u8, i8),
    Utf8,
    Binary,
    List(Box<Field>),
    Struct(Vec<Field>),
    /// A type that no sink stores, by its name.
    Other(String),
}

/// A named column, or a child of a nested one.
#[derive(Debug)]
pub struct Field {
    pub name: String,
    pub data_type: DataType,
    pub nullable: bool,
    /// Texts under keys; where a key stands twice, the last one counts.
    pub metadata: Vec<(String, String)>,
}

/// What a `DataType` is, with names as sequences of characters.
#[verifier::ext_equal]
pub ghost enum TypeModel {
    Null,
    Boolean,
    Int8,
    Int16,
    Int32,
    Int64,
    UInt8,
    UInt16,
    UInt32,
    UInt64,
    Float32,
    Float64,
    Date32,
    Timestamp(TimeUnit, Option<Seq<char>>),
    Decimal128(u8, i8),
    Utf8,
    Binary,
    List(Box<FieldModel>),
    Struct(Seq<FieldModel>),
    Other(Seq<char>),
}

/// What a `Field` is, with its name as a sequence of characters.
#[verifier::ext_equal]
pub ghost struct FieldModel {
    pub name: Seq<char>,
    pub data_type: TypeModel,
    pub nullable: bool,
    pub metadata: Map<Seq<char>, Seq<char>>,
}

/// The texts that pairs put under their keys.
pub open spec fn metadata_model(pairs: Seq<(String, String)>) -> Map<Seq<char>, Seq<char>>
    decreases pairs.len(),
{
    if pairs.len() == 0 {
        Map::empty()
    } else {
        metadata_model(pairs.drop_last()).insert(pairs.last().0@, pairs.last().1@)
    }
}

pub open spec fn type_model(data_type: DataType) -> TypeModel
    decreases data_type,
{
    match data_type {
        DataType::Null => TypeModel::Null,
        DataType::Boolean => TypeModel::Boolean,
        DataType::Int8 => TypeModel::Int8,
        DataType::Int16 => TypeModel::Int16,
        DataType::Int32 => TypeModel::Int32,
        DataType::Int64 => TypeModel::Int64,
        DataType::UInt8 => TypeModel::UInt8,
        DataType::UInt16 => TypeModel::UInt16,
        DataType::UInt32 => TypeModel::UInt32,
        DataType::UInt64 => TypeModel::UInt64,
        DataType::Float32 => TypeModel::Float32,
        DataType::Float64 => TypeModel::Float64,
        DataType::Date32 => TypeModel::Date32,
        DataType::Timestamp(unit, zone) => TypeModel::Timestamp(
            unit,
            match zone {
                Some(zone) => Some(zone@),
                None => None,
            },
        ),
        DataType::Decimal128(precision, scale) => TypeModel::Decimal128(precision, scale),
        DataType::Utf8 => TypeModel::Utf8,
        DataType::Binary => TypeModel::Binary,
        DataType::List(child) => TypeModel::List(Box::new(field_model(*child))),
        DataType::Struct(fields) => TypeModel::Struct(field_models(fields)),
        DataType::Other(name) => TypeModel::Other(name@),
    }
}

pub open spec fn field_model(field: Field) -> FieldModel
    decreases field,
{
    FieldModel {
        name: field.name@,
        data_type: type_model(field.data_type),
        nullable: field.nullable,
        metadata: metadata_model(field.metadata@),
    }
}

pub open spec fn field_models(fields: Vec<Field>) -> Seq<FieldModel>
    decreases fields,
{
    Seq::new(
        fields@.len(),
        |i: int|
            if 0 <= i < fields@.len() {
                field_model(fields[i])
            } else {
                arbitrary()
            },
    )
}

impl View for DataType {
    type V = TypeModel;

    open spec fn view(&self) -> TypeModel {
        type_model(*self)
    }
}

impl View for Field {
    type V = FieldModel;

    open spec fn view(&self) -> FieldModel {
        field_model(*self)
    }
}

/// Whether two optional texts are both absent or hold the same characters.
fn same_optional_text(left: &Option<String>, right: &Option<String>) -> (same: bool)
    ensures
        same == match (*left, *right) {
            (Some(left), Some(right)) => left@ == right@,
            (None, None) => true,
            _ => false,
        },
{
    match (left, right) {
        (Some(left), Some(right)) => same_text(left.as_str(), right.as_str()),
        (None, None) => true,
        _ => false,
    }
}

/// A key that pairs put a text under is the key of one of them.
proof fn lemma_metadata_key(pairs: Seq<(String, String)>, key: Seq<char>)
    requires
        metadata_model(pairs).contains_key(key),
    ensures
        exists|i: int| 0 <= i < pairs.len() && (#[trigger] pairs[i]).0@ == key,
    decreases pairs.len(),
{
    if pairs.last().0@ == key {
        assert(pairs[pairs.len() - 1].0@ == key);
    } else {
        lemma_metadata_key(pairs.drop_last(), key);
        let i = choose|i: int|
            0 <= i < pairs.drop_last().len() && (#[trigger] pairs.drop_last()[i]).0@ == key;
        assert(pairs[i].0@ == key);
    }
}

/// A pair puts a text under its key.
proof fn lemma_metadata_held(pairs: Seq<(String, String)>, i: int)
    requires
        0 <= i < pairs.len(),
    ensures
        metadata_model(pairs).contains_key(pairs[i].0@),
    decreases pairs.len(),
{
    if i < pairs.len() - 1 {
        lemma_metadata_held(pairs.drop_last(), i);
    }
}

/// The pair whose text stands under a key.
fn metadata_place(pairs: &Vec<(String, String)>, key: &str) -> (place: Option<usize>)
    ensures
        match place {
            Some(place) => {
                &&& place < pairs@.len()
                &&& metadata_model(pairs@).contains_key(key@)
                &&& metadata_model(pairs@)[key@] == pairs@[place as int].1@
            },
            None => !metadata_model(pairs@).contains_key(key@),
        },
{
    let ghost whole = metadata_model(pairs@);
    let mut left: usize = pairs.len();
    assert(pairs@.take(left as int) =~= pairs@);
    while left > 0
        invariant
            left <= pairs@.len(),
            whole == metadata_model(pairs@),
            whole.contains_key(key@) == metadata_model(pairs@.take(left as int)).contains_key(key@),
            whole.contains_key(key@) ==> whole[key@] == metadata_model(
                pairs@.take(left as int),
            )[key@],
        decreases left,
    {
        assert(pairs@.take(left as int).drop_last() =~= pairs@.take(left - 1));
        if same_text(pairs[left - 1].0.as_str(), key) {
            return Some(left - 1);
        }
        left -= 1;
    }
    None
}

/// Whether each key of `left` has the same text in `right`.
fn metadata_within(left: &Vec<(String, String)>, right: &Vec<(String, String)>) -> (within: bool)
    ensures
        within == (forall|key: Seq<char>| #[trigger]
            metadata_model(left@).contains_key(key) ==> metadata_model(right@).contains_key(key)
                && metadata_model(right@)[key] == metadata_model(left@)[key]),
{
    let mut index: usize = 0;
    while index < left.len()
        invariant
            index <= left@.len(),
            forall|i: int|
                0 <= i < index ==> metadata_model(right@).contains_key((#[trigger] left@[i]).0@)
                    && metadata_model(right@)[left@[i].0@] == metadata_model(left@)[left@[i].0@],
        decreases left@.len() - index,
    {
        let key: &str = left[index].0.as_str();
        proof {
            lemma_metadata_held(left@, index as int);
        }
        let same: bool = match (metadata_place(left, key), metadata_place(right, key)) {
            (Some(own), Some(other)) => same_text(left[own].1.as_str(), right[other].1.as_str()),
            _ => false,
        };
        if !same {
            assert(metadata_model(left@).contains_key(key@));
            return false;
        }
        index += 1;
    }
    proof {
        assert forall|key: Seq<char>| #[trigger]
            metadata_model(left@).contains_key(key) implies metadata_model(right@).contains_key(key)
            && metadata_model(right@)[key] == metadata_model(left@)[key] by {
            lemma_metadata_key(left@, key);
            let i = choose|i: int| 0 <= i < left@.len() && (#[trigger] left@[i]).0@ == key;
            assert(left@[i].0@ == key);
        }
    }
    true
}

/// Whether two lists of pairs put the same texts under the same keys.
pub fn same_metadata(left: &Vec<(String, String)>, right: &Vec<(String, String)>) -> (same: bool)
    ensures
        same == (metadata_model(left@) == metadata_model(right@)),
{
    let same: bool = metadata_within(left, right) && metadata_within(right, left);
    proof {
        if same {
            assert(metadata_model(left@) =~= metadata_model(right@));
        }
    }
    same
}

/// A copy of a list of pairs.
pub fn copy_metadata(pairs: &Vec<(String, String)>) -> (copy: Vec<(String, String)>)
    ensures
        metadata_model(copy@) == metadata_model(pairs@),
{
    let mut copy: Vec<(String, String)> = Vec::new();
    let mut index: usize = 0;
    assert(pairs@.take(0) =~= Seq::empty());
    while index < pairs.len()
        invariant
            index <= pairs@.len(),
            metadata_model(copy@) == metadata_model(pairs@.take(index as int)),
        decreases pairs@.len() - index,
    {
        let ghost before = copy@;
        copy.push((pairs[index].0.clone(), pairs[index].1.clone()));
        assert(copy@.drop_last() =~= before);
        assert(pairs@.take(index + 1).drop_last() =~= pairs@.take(index as int));
        index += 1;
    }
    assert(pairs@.take(index as int) =~= pairs@);
    copy
}

/// Whether two types are equal, names of nested fields included.
pub fn same_type(left: &DataType, right: &DataType) -> (same: bool)
    ensures
        same == (left@ == right@),
    decreases *left,
{
    match (left, right) {
        (DataType::Null, DataType::Null) => true,
        (DataType::Boolean, DataType::Boolean) => true,
        (DataType::Int8, DataType::Int8) => true,
        (DataType::Int16, DataType::Int16) => true,
        (DataType::Int32, DataType::Int32) => true,
        (DataType::Int64, DataType::Int64) => true,
        (DataType::UInt8, DataType::UInt8) => true,
        (DataType::UInt16, DataType::UInt16) => true,
        (DataType::UInt32, DataType::UInt32) => true,
        (DataType::UInt64, DataType::UInt64) => true,
        (DataType::Float32, DataType::Float32) => true,
        (DataType::Float64, DataType::Float64) => true,
        (DataType::Date32, DataType::Date32) => true,
        (DataType::Timestamp(left_unit, left_zone), DataType::Timestamp(right_unit, right_zone)) => {
            *left_unit == *right_unit && same_optional_text(left_zone, right_zone)
        },
        (DataType::Decimal128(p, s), DataType::Decimal128(q, t)) => *p == *q && *s == *t,
        (DataType::Utf8, DataType::Utf8) => true,
        (DataType::Binary, DataType::Binary) => true,
        (DataType::List(left_child), DataType::List(right_child)) => same_field(
            left_child,
            right_child,
        ),
        (DataType::Struct(left_fields), DataType::Struct(right_fields)) => {
            let same = same_fields(left_fields, right_fields);
            same
        },
        (DataType::Other(left_name), DataType::Other(right_name)) => same_text(
            left_name.as_str(),
            right_name.as_str(),
        ),
        _ => false,
    }
}

/// Whether two fields are equal.
pub fn same_field(left: &Field, right: &Field) -> (same: bool)
    ensures
        same == (left@ == right@),
    decreases *left,
{
    same_text(left.name.as_str(), right.name.as_str()) && left.nullable == right.nullable
        && same_type(&left.data_type, &right.data_type) && same_metadata(
        &left.metadata,
        &right.metadata,
    )
}

/// Whether two lists of fields are equal, in order.
pub fn same_fields(left: &Vec<Field>, right: &Vec<Field>) -> (same: bool)
    ensures
        same == (field_models(*left) == field_models(*right)),
    decreases *left,
{
    if left.len() != right.len() {
        assert(field_models(*left).len() != field_models(*right).len());
        return false;
    }
    let mut index: usize = 0;
    while index < left.len()
        invariant
            index <= left@.len(),
            left@.len() == right@.len(),
            forall|i: int| 0 <= i < index ==> field_model(left[i]) == field_model(right[i]),
        decreases left@.len() - index,
    {
        if !same_field(&left[index], &right[index]) {
            proof {
                assert(field_models(*left)[index as int] == field_model(left[index as int]));
                assert(field_models(*right)[index as int] == field_model(right[index as int]));
            }
            return false;
        }
        index += 1;
    }
    assert(field_models(*left) =~= field_models(*right));
    true
}

/// A copy of a type.
pub fn copy_type(data_type: &DataType) -> (copy: DataType)
    ensures
        copy@ == data_type@,
    decreases *data_type,
{
    match data_type {
        DataType::Null => DataType::Null,
        DataType::Boolean => DataType::Boolean,
        DataType::Int8 => DataType::Int8,
        DataType::Int16 => DataType::Int16,
        DataType::Int32 => DataType::Int32,
        DataType::Int64 => DataType::Int64,
        DataType::UInt8 => DataType::UInt8,
        DataType::UInt16 => DataType::UInt16,
        DataType::UInt32 => DataType::UInt32,
        DataType::UInt64 => DataType::UInt64,
        DataType::Float32 => DataType::Float32,
        DataType::Float64 => DataType::Float64,
        DataType::Date32 => DataType::Date32,
        DataType::Timestamp(unit, zone) => DataType::Timestamp(
            *unit,
            match zone {
                Some(zone) => Some(zone.clone()),
                None => None,
            },
        ),
        DataType::Decimal128(precision, scale) => DataType::Decimal128(*precision, *scale),
        DataType::Utf8 => DataType::Utf8,
        DataType::Binary => DataType::Binary,
        DataType::List(child) => DataType::List(Box::new(copy_field(child))),
        DataType::Struct(fields) => {
            let copies: Vec<Field> = copy_fields(fields);
            DataType::Struct(copies)
        },
        DataType::Other(name) => DataType::Other(name.clone()),
    }
}

/// A copy of a field.
pub fn copy_field(field: &Field) -> (copy: Field)
    ensures
        copy@ == field@,
    decreases *field,
{
    Field {
        name: field.name.clone(),
        data_type: copy_type(&field.data_type),
        nullable: field.nullable,
        metadata: copy_metadata(&field.metadata),
    }
}

/// A copy of a list of fields.
pub fn copy_fields(fields: &Vec<Field>) -> (copies: Vec<Field>)
    ensures
        field_models(copies) == field_models(*fields),
    decreases *fields,
{
    let mut copies: Vec<Field> = Vec::new();
    let mut index: usize = 0;
    while index < fields.len()
        invariant
            index <= fields@.len(),
            copies@.len() == index,
            forall|i: int| 0 <= i < index ==> field_model(copies[i]) == field_model(fields[i]),
        decreases fields@.len() - index,
    {
        let copy: Field = copy_field(&fields[index]);
        copies.push(copy);
        index += 1;
    }
    assert(field_models(copies) =~= field_models(*fields));
    copies
}

/// One cell. Floating-point numbers are held by their bits.
#[derive(Debug)]
pub enum Value {
    Null,
    Boolean(bool),
    Int8(i8),
    Int16(i16),
    Int32(i32),
    Int64(i64),
    UInt8(u8),
    UInt16(u16),
    UInt32(u32),
    UInt64(u64),
    Float32(u32),
    Float64(u64),
    Date32(i32),
    Timestamp(i64),
    Decimal128(i128),
    Utf8(String),
    Binary(Vec<u8>),
    List(Vec<Value>),
    Struct(Vec<Value>),
    /// A value of a type that no sink stores.
    Opaque,
}

/// What a `Value` is, with texts and lists as sequences.
#[verifier::ext_equal]
pub ghost enum ValueModel {
    Null,
    Boolean(bool),
    Int8(i8),
    Int16(i16),
    Int32(i32),
    Int64(i64),
    UInt8(u8),
    UInt16(u16),
    UInt32(u32),
    UInt64(u64),
    Float32(u32),
    Float64(u64),
    Date32(i32),
    Timestamp(i64),
    Decimal128(i128),
    Utf8(Seq<char>),
    Binary(Seq<u8>),
    List(Seq<ValueModel>),
    Struct(Seq<ValueModel>),
    Opaque,
}

pub open spec fn value_model(value: Value) -> ValueModel
    decreases value,
{
    match value {
        Value::Null => ValueModel::Null,
        Value::Boolean(value) => ValueModel::Boolean(value),
        Value::Int8(value) => ValueModel::Int8(value),
        Value::Int16(value) => ValueModel::Int16(value),
        Value::Int32(value) => ValueModel::Int32(value),
        Value::Int64(value) => ValueModel::Int64(value),
        Value::UInt8(value) => ValueModel::UInt8(value),
        Value::UInt16(value) => ValueModel::UInt16(value),
        Value::UInt32(value) => ValueModel::UInt32(value),
        Value::UInt64(value) => ValueModel::UInt64(value),
        Value::Float32(bits) => ValueModel::Float32(bits),
        Value::Float64(bits) => ValueModel::Float64(bits),
        Value::Date32(days) => ValueModel::Date32(days),
        Value::Timestamp(value) => ValueModel::Timestamp(value),
        Value::Decimal128(value) => ValueModel::Decimal128(value),
        Value::Utf8(text) => ValueModel::Utf8(text@),
        Value::Binary(bytes) => ValueModel::Binary(bytes@),
        Value::List(values) => ValueModel::List(value_models(values)),
        Value::Struct(values) => ValueModel::Struct(value_models(values)),
        Value::Opaque => ValueModel::Opaque,
    }
}

pub open spec fn value_models(values: Vec<Value>) -> Seq<ValueModel>
    decreases values,
{
    Seq::new(
        values@.len(),
        |i: int|
            if 0 <= i < values@.len() {
                value_model(values[i])
            } else {
                arbitrary()
            },
    )
}

impl View for Value {
    type V = ValueModel;

    open spec fn view(&self) -> ValueModel {
        value_model(*self)
    }
}

/// A copy of a value.
pub fn copy_value(value: &Value) -> (copy: Value)
    ensures
        copy@ == value@,
    decreases *value,
{
    match value {
        Value::Null => Value::Null,
        Value::Boolean(value) => Value::Boolean(*value),
        Value::Int8(value) => Value::Int8(*value),
        Value::Int16(value) => Value::Int16(*value),
        Value::Int32(value) => Value::Int32(*value),
        Value::Int64(value) => Value::Int64(*value),
        Value::UInt8(value) => Value::UInt8(*value),
        Value::UInt16(value) => Value::UInt16(*value),
        Value::UInt32(value) => Value::UInt32(*value),
        Value::UInt64(value) => Value::UInt64(*value),
        Value::Float32(bits) => Value::Float32(*bits),
        Value::Float64(bits) => Value::Float64(*bits),
        Value::Date32(days) => Value::Date32(*days),
        Value::Timestamp(value) => Value::Timestamp(*value),
        Value::Decimal128(value) => Value::Decimal128(*value),
        Value::Utf8(text) => Value::Utf8(text.clone()),
        Value::Binary(bytes) => Value::Binary(copy_bytes(bytes.as_slice())),
        Value::List(values) => {
            let copies: Vec<Value> = copy_values(values);
            Value::List(copies)
        },
        Value::Struct(values) => {
            let copies: Vec<Value> = copy_values(values);
            Value::Struct(copies)
        },
        Value::Opaque => Value::Opaque,
    }
}

/// A copy of a list of values.
pub fn copy_values(values: &Vec<Value>) -> (copies: Vec<Value>)
    ensures
        value_models(copies) == value_models(*values),
    decreases *values,
{
    let mut copies: Vec<Value> = Vec::new();
    let mut index: usize = 0;
    while index < values.len()
        invariant
            index <= values@.len(),
            copies@.len() == index,
            forall|i: int| 0 <= i < index ==> value_model(copies[i]) == value_model(values[i]),
        decreases values@.len() - index,
    {
        let copy: Value = copy_value(&values[index]);
        copies.push(copy);
        index += 1;
    }
    assert(value_models(copies) =~= value_models(*values));
    copies
}

/// The cells of one column, with the type that they were written under.
#[derive(Debug)]
pub struct Column {
    pub data_type: DataType,
    pub values: Vec<Value>,
}

/// The columns that a batch of records must have, and what is noted beside them.
#[derive(Debug)]
pub struct Schema {
    pub fields: Vec<Field>,
    /// Texts under keys; where a key stands twice, the last one counts.
    pub metadata: Vec<(String, String)>,
}

/// What a `Schema` is.
#[verifier::ext_equal]
pub ghost struct SchemaModel {
    pub fields: Seq<FieldModel>,
    pub metadata: Map<Seq<char>, Seq<char>>,
}

impl View for Schema {
    type V = SchemaModel;

    open spec fn view(&self) -> SchemaModel {
        SchemaModel {
            fields: field_models(self.fields),
            metadata: metadata_model(self.metadata@),
        }
    }
}

impl Schema {
    /// A schema without metadata.
    pub fn new(fields: Vec<Field>) -> (schema: Schema)
        ensures
            schema.fields == fields,
            schema.metadata@.len() == 0,
    {
        Schema { fields, metadata: Vec::new() }
    }

    /// A copy of the schema.
    pub fn copy(&self) -> (copy: Schema)
        ensures
            copy@ == self@,
    {
        Schema { fields: copy_fields(&self.fields), metadata: copy_metadata(&self.metadata) }
    }
}

/// Whether two schemas are equal, metadata included.
pub fn same_schema(left: &Schema, right: &Schema) -> (same: bool)
    ensures
        same == (left@ == right@),
{
    same_fields(&left.fields, &right.fields) && same_metadata(&left.metadata, &right.metadata)
}

/// Rows in columns.
#[derive(Debug)]
pub struct RecordBatch {
    pub schema: Schema,
    pub columns: Vec<Column>,
    pub rows: usize,
}

impl RecordBatch {
    /// One column per field, each with one cell per row.
    pub open spec fn wf(&self) -> bool {
        &&& self.columns@.len() == self.schema.fields@.len()
        &&& forall|i: int|
            0 <= i < self.columns@.len() ==> (#[trigger] self.columns@[i]).values@.len()
                == self.rows
    }

    pub fn num_rows(&self) -> (rows: usize)
        ensures
            rows == self.rows,
    {
        self.rows
    }

    pub fn num_columns(&self) -> (columns: usize)
        ensures
            columns == self.columns@.len(),
    {
        self.columns.len()
    }
}

/// Why rows and multiplicities do not form a change.
#[derive(Clone, Copy, Debug, PartialEq, Eq, Structural)]
pub enum ChangeError {
    Empty,
    ColumnCount,
    ColumnLength,
    DiffCount,
    ZeroDiff,
}

/// The first reason, in this order, for which the parts do not form a change.
pub open spec fn change_fault(
    schema: Schema,
    columns: Seq<Column>,
    rows: usize,
    diffs: Seq<i64>,
) -> Option<ChangeError> {
    if rows == 0 {
        Some(ChangeError::Empty)
    } else if columns.len() != schema.fields@.len() {
        Some(ChangeError::ColumnCount)
    } else if diffs.len() != rows {
        Some(ChangeError::DiffCount)
    } else if exists|i: int|
        0 <= i < columns.len() && (#[trigger] columns[i]).values@.len() != rows {
        Some(ChangeError::ColumnLength)
    } else if diffs.contains(0) {
        Some(ChangeError::ZeroDiff)
    } else {
        None
    }
}

/// Rows that enter or leave a relation, with how many times each.
#[derive(Debug)]
pub struct Change {
    pub records: RecordBatch,
    pub diffs: Vec<i64>,
}

impl Change {
    /// At least one row, and for each row a multiplicity other than zero.
    pub open spec fn wf(&self) -> bool {
        &&& self.records.wf()
        &&& self.diffs@.len() == self.records.rows
        &&& self.records.rows > 0
        &&& forall|i: int| 0 <= i < self.diffs@.len() ==> #[trigger] self.diffs@[i] != 0
    }

    pub fn try_new(
        schema: Schema,
        columns: Vec<Column>,
        rows: usize,
        diffs: Vec<i64>,
    ) -> (result: Result<Change, ChangeError>)
        ensures
            match result {
                Ok(change) => {
                    &&& change_fault(schema, columns@, rows, diffs@) is None
                    &&& change == (Change {
                        records: RecordBatch { schema, columns, rows },
                        diffs,
                    })
                    &&& change.wf()
                },
                Err(error) => change_fault(schema, columns@, rows, diffs@) == Some(error),
            },
    {
        if rows == 0 {
            return Err(ChangeError::Empty);
        }
        if columns.len() != schema.fields.len() {
            return Err(ChangeError::ColumnCount);
        }
        if diffs.len() != rows {
            return Err(ChangeError::DiffCount);
        }
        let mut column: usize = 0;
        while column < columns.len()
            invariant
                rows != 0,
                columns@.len() == schema.fields@.len(),
                diffs@.len() == rows,
                column <= columns@.len(),
                forall|i: int|
                    0 <= i < column ==> (#[trigger] columns@[i]).values@.len() == rows,
            decreases columns@.len() - column,
        {
            if columns[column].values.len() != rows {
                assert(columns@[column as int].values@.len() != rows);
                return Err(ChangeError::ColumnLength);
            }
            column += 1;
        }
        let mut row: usize = 0;
        while row < diffs.len()
            invariant
                rows != 0,
                columns@.len() == schema.fields@.len(),
                diffs@.len() == rows,
                row <= diffs@.len(),
                forall|i: int|
                    0 <= i < columns@.len() ==> (#[trigger] columns@[i]).values@.len() == rows,
                forall|i: int| 0 <= i < row ==> #[trigger] diffs@[i] != 0,
            decreases diffs@.len() - row,
        {
            if diffs[row] == 0 {
                assert(diffs@[row as int] == 0);
                return Err(ChangeError::ZeroDiff);
            }
            row += 1;
        }
        Ok(Change { records: RecordBatch { schema, columns, rows }, diffs })
    }

    pub fn num_rows(&self) -> (rows: usize)
        ensures
            rows == self.records.rows,
    {
        self.records.rows
    }
}

/// How many events with a positive multiplicity the first `rows` rows hold.
pub open spec fn positives(diffs: Seq<i64>, rows: int) -> nat
    decreases rows,
{
    if rows <= 0 {
        0
    } else if diffs[rows - 1] > 0 {
        positives(diffs, rows - 1) + diffs[rows - 1] as nat
    } else {
        positives(diffs, rows - 1)
    }
}

/// How many events with a negative multiplicity the first `rows` rows hold.
pub open spec fn negatives(diffs: Seq<i64>, rows: int) -> nat
    decreases rows,
{
    if rows <= 0 {
        0
    } else if diffs[rows - 1] < 0 {
        negatives(diffs, rows - 1) + (-diffs[rows - 1]) as nat
    } else {
        negatives(diffs, rows - 1)
    }
}

/// How many events the first `rows` rows hold.
pub open spec fn events(diffs: Seq<i64>, rows: int) -> nat {
    positives(diffs, rows) + negatives(diffs, rows)
}

pub proof fn lemma_counts_grow(diffs: Seq<i64>, low: int, high: int)
    requires
        low <= high,
    ensures
        positives(diffs, low) <= positives(diffs, high),
        negatives(diffs, low) <= negatives(diffs, high),
    decreases high,
{
    if low < high && high > 0 {
        lemma_counts_grow(diffs, low, high - 1);
    }
}

pub proof fn lemma_row_events(diffs: Seq<i64>, row: int)
    requires
        0 <= row < diffs.len(),
    ensures
        events(diffs, row + 1) == events(diffs, row) + abs(diffs[row] as int),
{
}

/// The number of events in a change, or nothing where it exceeds `u64`.
pub fn count_events(diffs: &[i64]) -> (count: Option<u64>)
    ensures
        match count {
            Some(count) => count == events(diffs@, diffs@.len() as int),
            None => events(diffs@, diffs@.len() as int) > u64::MAX,
        },
{
    let mut total: u64 = 0;
    let mut row: usize = 0;
    while row < diffs.len()
        invariant
            row <= diffs@.len(),
            total == events(diffs@, row as int),
        decreases diffs@.len() - row,
    {
        let amount: u64 = magnitude(diffs[row]);
        proof {
            lemma_row_events(diffs@, row as int);
            lemma_counts_grow(diffs@, row + 1, diffs@.len() as int);
        }
        match total.checked_add(amount) {
            Some(sum) => {
                total = sum;
            },
            None => {
                return None;
            },
        }
        row += 1;
    }
    Some(total)
}

/// The number of events with a positive multiplicity, or nothing where it exceeds `u64`.
pub fn count_positives(diffs: &[i64]) -> (count: Option<u64>)
    ensures
        match count {
            Some(count) => count == positives(diffs@, diffs@.len() as int),
            None => positives(diffs@, diffs@.len() as int) > u64::MAX,
        },
{
    let mut total: u64 = 0;
    let mut row: usize = 0;
    while row < diffs.len()
        invariant
            row <= diffs@.len(),
            total == positives(diffs@, row as int),
        decreases diffs@.len() - row,
    {
        proof {
            lemma_counts_grow(diffs@, row + 1, diffs@.len() as int);
        }
        if diffs[row] > 0 {
            match total.checked_add(magnitude(diffs[row])) {
                Some(sum) => {
                    total = sum;
                },
                None => {
                    return None;
                },
            }
        }
        row += 1;
    }
    Some(total)
}

} // verus!
