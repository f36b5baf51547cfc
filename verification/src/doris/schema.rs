//! How the fields of a schema become columns of Apache Doris.

use crate::change::{copy_type, field_models, DataType, Field, FieldModel, Schema, TypeModel};
use crate::doris::config::identifier_fits;
use crate::doris::error::{DorisSchemaErrorModel, DorisSinkSchemaError};
use crate::text::{holds_char, lowered, same_ignoring_case, text_bytes};
use vstd::prelude::*;

verus! {

pub const MAX_LOGICAL_COLUMNS: usize = 1597;

/// How a column is stored.
#[derive(Clone, Copy, Debug, PartialEq, Eq, Structural)]
pub enum StorageType {
    Boolean,
    TinyInt,
    SmallInt,
    Int,
    BigInt,
    Utf8,
    Encoded,
    Null,
}

/// The name of a type in SQL.
pub open spec fn sql_name(storage: StorageType) -> Seq<char> {
    match storage {
        StorageType::Boolean => "BOOLEAN"@,
        StorageType::TinyInt => "TINYINT"@,
        StorageType::SmallInt => "SMALLINT"@,
        StorageType::Int => "INT"@,
        StorageType::BigInt => "BIGINT"@,
        StorageType::Utf8 => "STRING"@,
        StorageType::Encoded => "STRING"@,
        StorageType::Null => "STRING"@,
    }
}

/// The name of a type in the catalog.
pub open spec fn catalog_name(storage: StorageType) -> Seq<char> {
    match storage {
        StorageType::Boolean => "tinyint(1)"@,
        StorageType::TinyInt => "tinyint(4)"@,
        StorageType::SmallInt => "smallint(6)"@,
        StorageType::Int => "int(11)"@,
        StorageType::BigInt => "bigint(20)"@,
        StorageType::Utf8 => "string"@,
        StorageType::Encoded => "string"@,
        StorageType::Null => "string"@,
    }
}

impl StorageType {
    pub fn sql(self) -> (text: &'static str)
        ensures
            text@ == sql_name(self),
    {
        match self {
            StorageType::Boolean => "BOOLEAN",
            StorageType::TinyInt => "TINYINT",
            StorageType::SmallInt => "SMALLINT",
            StorageType::Int => "INT",
            StorageType::BigInt => "BIGINT",
            StorageType::Utf8 => "STRING",
            StorageType::Encoded => "STRING",
            StorageType::Null => "STRING",
        }
    }

    pub fn catalog_type(self) -> (text: &'static str)
        ensures
            text@ == catalog_name(self),
    {
        match self {
            StorageType::Boolean => "tinyint(1)",
            StorageType::TinyInt => "tinyint(4)",
            StorageType::SmallInt => "smallint(6)",
            StorageType::Int => "int(11)",
            StorageType::BigInt => "bigint(20)",
            StorageType::Utf8 => "string",
            StorageType::Encoded => "string",
            StorageType::Null => "string",
        }
    }
}

/// How a type is stored, unless it is not.
pub open spec fn storage_of(data_type: TypeModel) -> Option<StorageType> {
    match data_type {
        TypeModel::Null => Some(StorageType::Null),
        TypeModel::Boolean => Some(StorageType::Boolean),
        TypeModel::Int8 => Some(StorageType::TinyInt),
        TypeModel::Int16 => Some(StorageType::SmallInt),
        TypeModel::UInt8 => Some(StorageType::SmallInt),
        TypeModel::Int32 => Some(StorageType::Int),
        TypeModel::UInt16 => Some(StorageType::Int),
        TypeModel::Date32 => Some(StorageType::Int),
        TypeModel::Int64 => Some(StorageType::BigInt),
        TypeModel::UInt32 => Some(StorageType::BigInt),
        TypeModel::Timestamp(_, _) => Some(StorageType::BigInt),
        TypeModel::Utf8 => Some(StorageType::Utf8),
        TypeModel::UInt64 => Some(StorageType::Encoded),
        TypeModel::Float32 => Some(StorageType::Encoded),
        TypeModel::Float64 => Some(StorageType::Encoded),
        TypeModel::Decimal128(_, _) => Some(StorageType::Encoded),
        TypeModel::Binary => Some(StorageType::Encoded),
        TypeModel::List(_) => Some(StorageType::Encoded),
        TypeModel::Struct(_) => Some(StorageType::Encoded),
        TypeModel::Other(_) => None,
    }
}

fn storage(data_type: &DataType) -> (found: Option<StorageType>)
    ensures
        found == storage_of(data_type@),
{
    match data_type {
        DataType::Null => Some(StorageType::Null),
        DataType::Boolean => Some(StorageType::Boolean),
        DataType::Int8 => Some(StorageType::TinyInt),
        DataType::Int16 => Some(StorageType::SmallInt),
        DataType::UInt8 => Some(StorageType::SmallInt),
        DataType::Int32 => Some(StorageType::Int),
        DataType::UInt16 => Some(StorageType::Int),
        DataType::Date32 => Some(StorageType::Int),
        DataType::Int64 => Some(StorageType::BigInt),
        DataType::UInt32 => Some(StorageType::BigInt),
        DataType::Timestamp(_, _) => Some(StorageType::BigInt),
        DataType::Utf8 => Some(StorageType::Utf8),
        DataType::UInt64 => Some(StorageType::Encoded),
        DataType::Float32 => Some(StorageType::Encoded),
        DataType::Float64 => Some(StorageType::Encoded),
        DataType::Decimal128(_, _) => Some(StorageType::Encoded),
        DataType::Binary => Some(StorageType::Encoded),
        DataType::List(_) => Some(StorageType::Encoded),
        DataType::Struct(_) => Some(StorageType::Encoded),
        DataType::Other(_) => None,
    }
}

/// One column of the target.
#[derive(Debug)]
pub struct ColumnLayout {
    pub name: String,
    pub storage: StorageType,
    pub nullable: bool,
}

/// What a column is.
pub ghost struct ColumnModel {
    pub name: Seq<char>,
    pub storage: StorageType,
    pub nullable: bool,
}

impl View for ColumnLayout {
    type V = ColumnModel;

    open spec fn view(&self) -> ColumnModel {
        ColumnModel {
            name: self.name@,
            storage: self.storage,
            nullable: self.nullable,
        }
    }
}

/// The column of a field, unless its type is not stored.
pub open spec fn column_of(field: FieldModel) -> Option<ColumnModel> {
    match storage_of(field.data_type) {
        None => None,
        Some(storage) => Some(
            ColumnModel {
                name: field.name,
                storage,
                nullable: field.nullable || field.data_type is Null,
            },
        ),
    }
}

/// The columns of the first `count` fields.
pub open spec fn columns_of(fields: Seq<FieldModel>) -> Seq<ColumnModel> {
    fields.map_values(|field: FieldModel| column_of(field)->0)
}

impl ColumnLayout {
    pub fn try_new(field: &Field) -> (result: Result<ColumnLayout, DorisSinkSchemaError>)
        ensures
            match result {
                Ok(column) => column_of(field@) == Some(column@),
                Err(error) => {
                    &&& column_of(field@) is None
                    &&& error@ == (DorisSchemaErrorModel::UnsupportedType {
                        field: field.name@,
                        data_type: field.data_type@,
                    })
                },
            },
    {
        let null: bool = match &field.data_type {
            DataType::Null => true,
            _ => false,
        };
        match storage(&field.data_type) {
            None => Err(
                DorisSinkSchemaError::UnsupportedType {
                    field: field.name.clone(),
                    data_type: copy_type(&field.data_type),
                },
            ),
            Some(storage) => Ok(
                ColumnLayout {
                    name: field.name.clone(),
                    storage,
                    nullable: field.nullable || null,
                    },
            ),
        }
    }
}

/// Whether a name is, whatever its case, one of the columns that belong to the sink.
pub open spec fn technical_column(name: Seq<char>) -> bool {
    ||| lowered(name) == lowered("__dogpaddle_id"@)
    ||| lowered(name) == lowered("__dogpaddle_hash"@)
    ||| lowered(name) == lowered("__dogpaddle_deleted"@)
    ||| lowered(name) == lowered("$dogpaddle.id"@)
    ||| lowered(name) == lowered("$dogpaddle.hash"@)
}

/// The first of the first `count` fields that has a name, whatever its case.
pub open spec fn named_before(fields: Seq<FieldModel>, name: Seq<char>, count: int) -> Option<int>
    decreases count,
{
    if count <= 0 {
        None
    } else {
        match named_before(fields, name, count - 1) {
            Some(index) => Some(index),
            None => if lowered(fields[count - 1].name) == lowered(name) {
                Some(count - 1)
            } else {
                None
            },
        }
    }
}

/// Why the field at `index` cannot be a column, if it cannot.
pub open spec fn name_fault(fields: Seq<FieldModel>, index: int) -> Option<
    DorisSchemaErrorModel,
> {
    let name = fields[index].name;
    let field = index as usize;
    if !identifier_fits(name) {
        Some(DorisSchemaErrorModel::InvalidFieldName { field, name })
    } else if technical_column(name) {
        Some(DorisSchemaErrorModel::TechnicalColumnCollision { field, name })
    } else {
        match named_before(fields, name, index) {
            Some(first) => Some(
                DorisSchemaErrorModel::DuplicateFieldName {
                    first: first as usize,
                    second: field,
                    name,
                },
            ),
            None => None,
        }
    }
}

/// The first reason among the first `count` fields.
pub open spec fn names_fault(fields: Seq<FieldModel>, count: int) -> Option<
    DorisSchemaErrorModel,
>
    decreases count,
{
    if count <= 0 {
        None
    } else {
        match names_fault(fields, count - 1) {
            Some(fault) => Some(fault),
            None => name_fault(fields, count - 1),
        }
    }
}

/// The first of the first `count` fields whose type is not stored.
pub open spec fn type_fault(fields: Seq<FieldModel>, count: int) -> Option<
    DorisSchemaErrorModel,
>
    decreases count,
{
    if count <= 0 {
        None
    } else {
        match type_fault(fields, count - 1) {
            Some(fault) => Some(fault),
            None => if column_of(fields[count - 1]) is None {
                Some(
                    DorisSchemaErrorModel::UnsupportedType {
                        field: fields[count - 1].name,
                        data_type: fields[count - 1].data_type,
                    },
                )
            } else {
                None
            },
        }
    }
}

/// Why a schema cannot be laid out, if it cannot.
pub open spec fn layout_fault(fields: Seq<FieldModel>) -> Option<DorisSchemaErrorModel> {
    let count = fields.len() as int;
    if count > MAX_LOGICAL_COLUMNS {
        Some(
            DorisSchemaErrorModel::TooManyColumns {
                actual: count as usize,
                maximum: MAX_LOGICAL_COLUMNS,
            },
        )
    } else if names_fault(fields, count) is Some {
        names_fault(fields, count)
    } else {
        type_fault(fields, count)
    }
}

proof fn lemma_names_fault_stays(fields: Seq<FieldModel>, low: int, high: int)
    requires
        low <= high,
        names_fault(fields, low) is Some,
    ensures
        names_fault(fields, high) == names_fault(fields, low),
    decreases high - low,
{
    if low < high {
        lemma_names_fault_stays(fields, low, high - 1);
    }
}

proof fn lemma_type_fault_stays(fields: Seq<FieldModel>, low: int, high: int)
    requires
        low <= high,
        type_fault(fields, low) is Some,
    ensures
        type_fault(fields, high) == type_fault(fields, low),
    decreases high - low,
{
    if low < high {
        lemma_type_fault_stays(fields, low, high - 1);
    }
}

proof fn lemma_named_stays(fields: Seq<FieldModel>, name: Seq<char>, low: int, high: int)
    requires
        low <= high,
        named_before(fields, name, low) is Some,
    ensures
        named_before(fields, name, high) == named_before(fields, name, low),
    decreases high - low,
{
    if low < high {
        lemma_named_stays(fields, name, low, high - 1);
    }
}

/// The place of an equal name among the fields before `count`.
fn find_name(fields: &Vec<Field>, name: &str, count: usize) -> (found: Option<usize>)
    requires
        count <= fields@.len(),
    ensures
        match found {
            Some(index) => named_before(field_models(*fields), name@, count as int) == Some(
                index as int,
            ),
            None => named_before(field_models(*fields), name@, count as int) is None,
        },
{
    let ghost models = field_models(*fields);
    let mut index: usize = 0;
    while index < count
        invariant
            models == field_models(*fields),
            index <= count <= fields@.len(),
            named_before(models, name@, index as int) is None,
        decreases count - index,
    {
        assert(models[index as int] == fields@[index as int]@);
        if same_ignoring_case(fields[index].name.as_str(), name) {
            proof {
                lemma_named_stays(models, name@, index + 1, count as int);
            }
            return Some(index);
        }
        index += 1;
    }
    None
}

fn is_technical_column(name: &str) -> (result: bool)
    ensures
        result == technical_column(name@),
{
    same_ignoring_case(name, "__dogpaddle_id") || same_ignoring_case(name, "__dogpaddle_hash")
        || same_ignoring_case(name, "__dogpaddle_deleted")
        || same_ignoring_case(name, "$dogpaddle.id")
        || same_ignoring_case(name, "$dogpaddle.hash")
}

fn validate_identifiers(schema: &Schema) -> (result: Result<(), DorisSinkSchemaError>)
    ensures
        match result {
            Ok(_) => {
                &&& schema@.fields.len() <= MAX_LOGICAL_COLUMNS
                &&& names_fault(schema@.fields, schema@.fields.len() as int) is None
            },
            Err(error) => if schema@.fields.len() > MAX_LOGICAL_COLUMNS {
                error@ == (DorisSchemaErrorModel::TooManyColumns {
                    actual: schema@.fields.len() as usize,
                    maximum: MAX_LOGICAL_COLUMNS,
                })
            } else {
                names_fault(schema@.fields, schema@.fields.len() as int) == Some(error@)
            },
        },
{
    let ghost fields = schema@.fields;
    let actual: usize = schema.fields.len();
    if actual > MAX_LOGICAL_COLUMNS {
        return Err(
            DorisSinkSchemaError::TooManyColumns { actual, maximum: MAX_LOGICAL_COLUMNS },
        );
    }
    let mut index: usize = 0;
    while index < schema.fields.len()
        invariant
            fields == schema@.fields,
            fields.len() == schema.fields@.len(),
            fields.len() <= MAX_LOGICAL_COLUMNS,
            index <= fields.len(),
            names_fault(fields, index as int) is None,
        decreases fields.len() - index,
    {
        let name: &String = &schema.fields[index].name;
        assert(fields[index as int] == schema.fields@[index as int]@);
        let length: usize = text_bytes(name.as_str());
        let fault: Option<DorisSinkSchemaError> = if length == 0 || length > 64 || holds_char(
            name.as_str(),
            '\0',
        ) {
            Some(DorisSinkSchemaError::InvalidFieldName { field: index, name: name.clone() })
        } else if is_technical_column(name.as_str()) {
            Some(
                DorisSinkSchemaError::TechnicalColumnCollision {
                    field: index,
                    name: name.clone(),
                },
            )
        } else {
            match find_name(&schema.fields, name.as_str(), index) {
                Some(first) => Some(
                    DorisSinkSchemaError::DuplicateFieldName {
                        first,
                        second: index,
                        name: name.clone(),
                    },
                ),
                None => None,
            }
        };
        if let Some(error) = fault {
            proof {
                lemma_names_fault_stays(fields, index + 1, fields.len() as int);
            }
            return Err(error);
        }
        index += 1;
    }
    Ok(())
}

/// The views of some columns.
pub open spec fn column_views(columns: Seq<ColumnLayout>) -> Seq<ColumnModel> {
    columns.map_values(|column: ColumnLayout| column@)
}

/// The storage layout of one exact schema.
#[derive(Debug)]
pub struct DorisLayout {
    pub schema: Schema,
    pub columns: Vec<ColumnLayout>,
}

impl DorisLayout {
    /// The columns are those of the schema, which can be stored.
    pub open spec fn wf(&self) -> bool {
        &&& layout_fault(self.schema@.fields) is None
        &&& column_views(self.columns@) == columns_of(self.schema@.fields)
    }

    pub fn try_new(schema: Schema) -> (result: Result<DorisLayout, DorisSinkSchemaError>)
        ensures
            match result {
                Ok(layout) => {
                    &&& layout_fault(schema@.fields) is None
                    &&& layout.schema == schema
                    &&& layout.wf()
                },
                Err(error) => layout_fault(schema@.fields) == Some(error@),
            },
    {
        validate_identifiers(&schema)?;
        let ghost fields = schema@.fields;
        let mut columns: Vec<ColumnLayout> = Vec::new();
        let mut index: usize = 0;
        assert(column_views(columns@) =~= columns_of(fields).take(0));
        while index < schema.fields.len()
            invariant
                fields == schema@.fields,
                fields.len() == schema.fields@.len(),
                fields.len() <= MAX_LOGICAL_COLUMNS,
                names_fault(fields, fields.len() as int) is None,
                index <= fields.len(),
                type_fault(fields, index as int) is None,
                column_views(columns@) == columns_of(fields).take(index as int),
            decreases fields.len() - index,
        {
            assert(fields[index as int] == schema.fields@[index as int]@);
            let ghost before = columns@;
            match ColumnLayout::try_new(&schema.fields[index]) {
                Ok(column) => {
                    columns.push(column);
                    proof {
                        assert(column_views(columns@) =~= column_views(before).push(column@));
                        assert(columns_of(fields)[index as int] == column@);
                        assert(column_views(columns@) =~= columns_of(fields).take(index + 1));
                    }
                },
                Err(error) => {
                    proof {
                        lemma_type_fault_stays(fields, index + 1, fields.len() as int);
                    }
                    return Err(error);
                },
            }
            index += 1;
        }
        assert(columns_of(fields).take(index as int) =~= columns_of(fields));
        Ok(DorisLayout { schema, columns })
    }
}

} // verus!
