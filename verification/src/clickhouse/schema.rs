//! How the fields of a schema become columns of ClickHouse.

use crate::change::{copy_type, field_models, DataType, Field, FieldModel, Schema, TypeModel};
use crate::clickhouse::config::identifier_fits;
use crate::clickhouse::error::{ClickHouseSchemaErrorModel, ClickHouseSinkSchemaError};
use crate::text::{holds_char, same_text, text_bytes};
use vstd::prelude::*;

verus! {

pub const MAX_LOGICAL_COLUMNS: usize = 4092;

/// The type of a column.
#[derive(Clone, Copy, Debug, PartialEq, Eq, Structural)]
pub enum StorageType {
    UInt8,
    UInt16,
    UInt32,
    UInt64,
    Int8,
    Int16,
    Int32,
    Int64,
    String,
}

/// The name of a type in SQL.
pub open spec fn sql_name(storage: StorageType) -> Seq<char> {
    match storage {
        StorageType::UInt8 => "UInt8"@,
        StorageType::UInt16 => "UInt16"@,
        StorageType::UInt32 => "UInt32"@,
        StorageType::UInt64 => "UInt64"@,
        StorageType::Int8 => "Int8"@,
        StorageType::Int16 => "Int16"@,
        StorageType::Int32 => "Int32"@,
        StorageType::Int64 => "Int64"@,
        StorageType::String => "String"@,
    }
}

impl StorageType {
    pub fn sql(self) -> (text: &'static str)
        ensures
            text@ == sql_name(self),
    {
        match self {
            StorageType::UInt8 => "UInt8",
            StorageType::UInt16 => "UInt16",
            StorageType::UInt32 => "UInt32",
            StorageType::UInt64 => "UInt64",
            StorageType::Int8 => "Int8",
            StorageType::Int16 => "Int16",
            StorageType::Int32 => "Int32",
            StorageType::Int64 => "Int64",
            StorageType::String => "String",
        }
    }
}

/// How a type is stored, unless it is not.
pub open spec fn storage_of(data_type: TypeModel) -> Option<StorageType> {
    match data_type {
        TypeModel::Boolean => Some(StorageType::UInt8),
        TypeModel::UInt8 => Some(StorageType::UInt8),
        TypeModel::Int8 => Some(StorageType::Int8),
        TypeModel::Int16 => Some(StorageType::Int16),
        TypeModel::Int32 => Some(StorageType::Int32),
        TypeModel::Date32 => Some(StorageType::Int32),
        TypeModel::Int64 => Some(StorageType::Int64),
        TypeModel::Timestamp(_, _) => Some(StorageType::Int64),
        TypeModel::UInt16 => Some(StorageType::UInt16),
        TypeModel::UInt32 => Some(StorageType::UInt32),
        TypeModel::UInt64 => Some(StorageType::UInt64),
        TypeModel::Null => Some(StorageType::String),
        TypeModel::Utf8 => Some(StorageType::String),
        TypeModel::Float32 => Some(StorageType::String),
        TypeModel::Float64 => Some(StorageType::String),
        TypeModel::Decimal128(_, _) => Some(StorageType::String),
        TypeModel::Binary => Some(StorageType::String),
        TypeModel::List(_) => Some(StorageType::String),
        TypeModel::Struct(_) => Some(StorageType::String),
        TypeModel::Other(_) => None,
    }
}

fn storage(data_type: &DataType) -> (found: Option<StorageType>)
    ensures
        found == storage_of(data_type@),
{
    match data_type {
        DataType::Boolean => Some(StorageType::UInt8),
        DataType::UInt8 => Some(StorageType::UInt8),
        DataType::Int8 => Some(StorageType::Int8),
        DataType::Int16 => Some(StorageType::Int16),
        DataType::Int32 => Some(StorageType::Int32),
        DataType::Date32 => Some(StorageType::Int32),
        DataType::Int64 => Some(StorageType::Int64),
        DataType::Timestamp(_, _) => Some(StorageType::Int64),
        DataType::UInt16 => Some(StorageType::UInt16),
        DataType::UInt32 => Some(StorageType::UInt32),
        DataType::UInt64 => Some(StorageType::UInt64),
        DataType::Null => Some(StorageType::String),
        DataType::Utf8 => Some(StorageType::String),
        DataType::Float32 => Some(StorageType::String),
        DataType::Float64 => Some(StorageType::String),
        DataType::Decimal128(_, _) => Some(StorageType::String),
        DataType::Binary => Some(StorageType::String),
        DataType::List(_) => Some(StorageType::String),
        DataType::Struct(_) => Some(StorageType::String),
        DataType::Other(_) => None,
    }
}

/// One column of the target.
#[derive(Debug)]
pub struct ColumnLayout {
    pub name: String,
    pub storage: StorageType,
    pub nullable: bool,
}

/// What a column is.
pub ghost struct ColumnModel {
    pub name: Seq<char>,
    pub storage: StorageType,
    pub nullable: bool,
}

impl View for ColumnLayout {
    type V = ColumnModel;

    open spec fn view(&self) -> ColumnModel {
        ColumnModel {
            name: self.name@,
            storage: self.storage,
            nullable: self.nullable,
        }
    }
}

/// The column of a field, unless its type is not stored.
pub open spec fn column_of(field: FieldModel) -> Option<ColumnModel> {
    match storage_of(field.data_type) {
        None => None,
        Some(storage) => Some(
            ColumnModel {
                name: field.name,
                storage,
                nullable: field.nullable || field.data_type is Null,
            },
        ),
    }
}

/// The columns of the first `count` fields.
pub open spec fn columns_of(fields: Seq<FieldModel>) -> Seq<ColumnModel> {
    fields.map_values(|field: FieldModel| column_of(field)->0)
}

impl ColumnLayout {
    pub fn try_new(field: &Field) -> (result: Result<ColumnLayout, ClickHouseSinkSchemaError>)
        ensures
            match result {
                Ok(column) => column_of(field@) == Some(column@),
                Err(error) => {
                    &&& column_of(field@) is None
                    &&& error@ == (ClickHouseSchemaErrorModel::UnsupportedType {
                        field: field.name@,
                        data_type: field.data_type@,
                    })
                },
            },
    {
        let null: bool = match &field.data_type {
            DataType::Null => true,
            _ => false,
        };
        match storage(&field.data_type) {
            None => Err(
                ClickHouseSinkSchemaError::UnsupportedType {
                    field: field.name.clone(),
                    data_type: copy_type(&field.data_type),
                },
            ),
            Some(storage) => Ok(
                ColumnLayout {
                    name: field.name.clone(),
                    storage,
                    nullable: field.nullable || null,
                    },
            ),
        }
    }
}

/// Whether a name is one of the columns that belong to the sink.
pub open spec fn technical_column(name: Seq<char>) -> bool {
    ||| name == "$dogpaddle.id"@
    ||| name == "$dogpaddle.hash"@
    ||| name == "$dogpaddle.version"@
    ||| name == "$dogpaddle.deleted"@
}

/// The first of the first `count` fields that has a name.
pub open spec fn named_before(fields: Seq<FieldModel>, name: Seq<char>, count: int) -> Option<int>
    decreases count,
{
    if count <= 0 {
        None
    } else {
        match named_before(fields, name, count - 1) {
            Some(index) => Some(index),
            None => if fields[count - 1].name == name {
                Some(count - 1)
            } else {
                None
            },
        }
    }
}

/// Why the field at `index` cannot be a column, if it cannot.
pub open spec fn name_fault(fields: Seq<FieldModel>, index: int) -> Option<
    ClickHouseSchemaErrorModel,
> {
    let name = fields[index].name;
    let field = index as usize;
    if !identifier_fits(name) {
        Some(ClickHouseSchemaErrorModel::InvalidFieldName { field, name })
    } else if technical_column(name) {
        Some(ClickHouseSchemaErrorModel::TechnicalColumnCollision { field, name })
    } else {
        match named_before(fields, name, index) {
            Some(first) => Some(
                ClickHouseSchemaErrorModel::DuplicateFieldName {
                    first: first as usize,
                    second: field,
                    name,
                },
            ),
            None => None,
        }
    }
}

/// The first reason among the first `count` fields.
pub open spec fn names_fault(fields: Seq<FieldModel>, count: int) -> Option<
    ClickHouseSchemaErrorModel,
>
    decreases count,
{
    if count <= 0 {
        None
    } else {
        match names_fault(fields, count - 1) {
            Some(fault) => Some(fault),
            None => name_fault(fields, count - 1),
        }
    }
}

/// The first of the first `count` fields whose type is not stored.
pub open spec fn type_fault(fields: Seq<FieldModel>, count: int) -> Option<
    ClickHouseSchemaErrorModel,
>
    decreases count,
{
    if count <= 0 {
        None
    } else {
        match type_fault(fields, count - 1) {
            Some(fault) => Some(fault),
            None => if column_of(fields[count - 1]) is None {
                Some(
                    ClickHouseSchemaErrorModel::UnsupportedType {
                        field: fields[count - 1].name,
                        data_type: fields[count - 1].data_type,
                    },
                )
            } else {
                None
            },
        }
    }
}

/// Why a schema cannot be laid out, if it cannot.
pub open spec fn layout_fault(fields: Seq<FieldModel>) -> Option<ClickHouseSchemaErrorModel> {
    let count = fields.len() as int;
    if count > MAX_LOGICAL_COLUMNS {
        Some(
            ClickHouseSchemaErrorModel::TooManyColumns {
                actual: count as usize,
                maximum: MAX_LOGICAL_COLUMNS,
            },
        )
    } else if names_fault(fields, count) is Some {
        names_fault(fields, count)
    } else {
        type_fault(fields, count)
    }
}

proof fn lemma_names_fault_stays(fields: Seq<FieldModel>, low: int, high: int)
    requires
        low <= high,
        names_fault(fields, low) is Some,
    ensures
        names_fault(fields, high) == names_fault(fields, low),
    decreases high - low,
{
    if low < high {
        lemma_names_fault_stays(fields, low, high - 1);
    }
}

proof fn lemma_type_fault_stays(fields: Seq<FieldModel>, low: int, high: int)
    requires
        low <= high,
        type_fault(fields, low) is Some,
    ensures
        type_fault(fields, high) == type_fault(fields, low),
    decreases high - low,
{
    if low < high {
        lemma_type_fault_stays(fields, low, high - 1);
    }
}

proof fn lemma_named_stays(fields: Seq<FieldModel>, name: Seq<char>, low: int, high: int)
    requires
        low <= high,
        named_before(fields, name, low) is Some,
    ensures
        named_before(fields, name, high) == named_before(fields, name, low),
    decreases high - low,
{
    if low < high {
        lemma_named_stays(fields, name, low, high - 1);
    }
}

/// The place of an equal name among the fields before `count`.
fn find_name(fields: &Vec<Field>, name: &str, count: usize) -> (found: Option<usize>)
    requires
        count <= fields@.len(),
    ensures
        match found {
            Some(index) => named_before(field_models(*fields), name@, count as int) == Some(
                index as int,
            ),
            None => named_before(field_models(*fields), name@, count as int) is None,
        },
{
    let ghost models = field_models(*fields);
    let mut index: usize = 0;
    while index < count
        invariant
            models == field_models(*fields),
            index <= count <= fields@.len(),
            named_before(models, name@, index as int) is None,
        decreases count - index,
    {
        assert(models[index as int] == fields@[index as int]@);
        if same_text(fields[index].name.as_str(), name) {
            proof {
                lemma_named_stays(models, name@, index + 1, count as int);
            }
            return Some(index);
        }
        index += 1;
    }
    None
}

fn is_technical_column(name: &str) -> (result: bool)
    ensures
        result == technical_column(name@),
{
    same_text(name, "$dogpaddle.id") || same_text(name, "$dogpaddle.hash") || same_text(
        name,
        "$dogpaddle.version",
    ) || same_text(name, "$dogpaddle.deleted")
}

fn validate_identifiers(schema: &Schema) -> (result: Result<(), ClickHouseSinkSchemaError>)
    ensures
        match result {
            Ok(_) => {
                &&& schema@.fields.len() <= MAX_LOGICAL_COLUMNS
                &&& names_fault(schema@.fields, schema@.fields.len() as int) is None
            },
            Err(error) => if schema@.fields.len() > MAX_LOGICAL_COLUMNS {
                error@ == (ClickHouseSchemaErrorModel::TooManyColumns {
                    actual: schema@.fields.len() as usize,
                    maximum: MAX_LOGICAL_COLUMNS,
                })
            } else {
                names_fault(schema@.fields, schema@.fields.len() as int) == Some(error@)
            },
        },
{
    let ghost fields = schema@.fields;
    let actual: usize = schema.fields.len();
    if actual > MAX_LOGICAL_COLUMNS {
        return Err(
            ClickHouseSinkSchemaError::TooManyColumns { actual, maximum: MAX_LOGICAL_COLUMNS },
        );
    }
    let mut index: usize = 0;
    while index < schema.fields.len()
        invariant
            fields == schema@.fields,
            fields.len() == schema.fields@.len(),
            fields.len() <= MAX_LOGICAL_COLUMNS,
            index <= fields.len(),
            names_fault(fields, index as int) is None,
        decreases fields.len() - index,
    {
        let name: &String = &schema.fields[index].name;
        assert(fields[index as int] == schema.fields@[index as int]@);
        let length: usize = text_bytes(name.as_str());
        let fault: Option<ClickHouseSinkSchemaError> = if length == 0 || length > 255 || holds_char(
            name.as_str(),
            '\0',
        ) {
            Some(ClickHouseSinkSchemaError::InvalidFieldName { field: index, name: name.clone() })
        } else if is_technical_column(name.as_str()) {
            Some(
                ClickHouseSinkSchemaError::TechnicalColumnCollision {
                    field: index,
                    name: name.clone(),
                },
            )
        } else {
            match find_name(&schema.fields, name.as_str(), index) {
                Some(first) => Some(
                    ClickHouseSinkSchemaError::DuplicateFieldName {
                        first,
                        second: index,
                        name: name.clone(),
                    },
                ),
                None => None,
            }
        };
        if let Some(error) = fault {
            proof {
                lemma_names_fault_stays(fields, index + 1, fields.len() as int);
            }
            return Err(error);
        }
        index += 1;
    }
    Ok(())
}

/// The views of some columns.
pub open spec fn column_views(columns: Seq<ColumnLayout>) -> Seq<ColumnModel> {
    columns.map_values(|column: ColumnLayout| column@)
}

/// The storage layout of one exact schema.
#[derive(Debug)]
pub struct ClickHouseLayout {
    pub schema: Schema,
    pub columns: Vec<ColumnLayout>,
}

impl ClickHouseLayout {
    /// The columns are those of the schema, which can be stored.
    pub open spec fn wf(&self) -> bool {
        &&& layout_fault(self.schema@.fields) is None
        &&& column_views(self.columns@) == columns_of(self.schema@.fields)
    }

    pub fn try_new(schema: Schema) -> (result: Result<ClickHouseLayout, ClickHouseSinkSchemaError>)
        ensures
            match result {
                Ok(layout) => {
                    &&& layout_fault(schema@.fields) is None
                    &&& layout.schema == schema
                    &&& layout.wf()
                },
                Err(error) => layout_fault(schema@.fields) == Some(error@),
            },
    {
        validate_identifiers(&schema)?;
        let ghost fields = schema@.fields;
        let mut columns: Vec<ColumnLayout> = Vec::new();
        let mut index: usize = 0;
        assert(column_views(columns@) =~= columns_of(fields).take(0));
        while index < schema.fields.len()
            invariant
                fields == schema@.fields,
                fields.len() == schema.fields@.len(),
                fields.len() <= MAX_LOGICAL_COLUMNS,
                names_fault(fields, fields.len() as int) is None,
                index <= fields.len(),
                type_fault(fields, index as int) is None,
                column_views(columns@) == columns_of(fields).take(index as int),
            decreases fields.len() - index,
        {
            assert(fields[index as int] == schema.fields@[index as int]@);
            let ghost before = columns@;
            match ColumnLayout::try_new(&schema.fields[index]) {
                Ok(column) => {
                    columns.push(column);
                    proof {
                        assert(column_views(columns@) =~= column_views(before).push(column@));
                        assert(columns_of(fields)[index as int] == column@);
                        assert(column_views(columns@) =~= columns_of(fields).take(index + 1));
                    }
                },
                Err(error) => {
                    proof {
                        lemma_type_fault_stays(fields, index + 1, fields.len() as int);
                    }
                    return Err(error);
                },
            }
            index += 1;
        }
        assert(columns_of(fields).take(index as int) =~= columns_of(fields));
        Ok(ClickHouseLayout { schema, columns })
    }
}

/// The type of a column in SQL.
pub open spec fn column_type(column: ColumnModel) -> Seq<char> {
    if column.nullable {
        "Nullable("@ + sql_name(column.storage) + ")"@
    } else {
        sql_name(column.storage)
    }
}

impl ColumnLayout {
    /// Whether the column holds values by their canonical bytes.
    pub fn encoded(&self) -> (result: bool)
        ensures
            result == (self@.storage == StorageType::String),
    {
        self.storage == StorageType::String
    }

    pub fn sql_type(&self) -> (text: String)
        ensures
            text@ == column_type(self@),
    {
        if self.nullable {
            let mut text: String = "Nullable(".to_owned();
            text.append(self.storage.sql());
            text.append(")");
            text
        } else {
            self.storage.sql().to_owned()
        }
    }
}

} // verus!
