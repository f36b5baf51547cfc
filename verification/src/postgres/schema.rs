//! How the fields of a schema become columns of PostgreSQL.

use crate::change::{copy_type, field_models, DataType, Field, FieldModel, Schema, TypeModel};
use crate::postgres::config::identifier_fits;
use crate::postgres::error::{PostgresSchemaErrorModel, PostgresSinkSchemaError};
use crate::text::{holds_char, same_text, text_bytes};
use vstd::prelude::*;

verus! {

pub const MAX_LOGICAL_COLUMNS: usize = 1598;

/// The type of a column; bytes may have a fixed length.
#[derive(Clone, Copy, Debug, PartialEq, Eq, Structural)]
pub enum StorageType {
    Boolean,
    Int16,
    Int32,
    Int64,
    Bytes(Option<u64>),
}

/// The name of a type in SQL.
pub open spec fn sql_name(storage: StorageType) -> Seq<char> {
    match storage {
        StorageType::Boolean => "boolean"@,
        StorageType::Int16 => "smallint"@,
        StorageType::Int32 => "integer"@,
        StorageType::Int64 => "bigint"@,
        StorageType::Bytes(_) => "bytea"@,
    }
}

impl StorageType {
    pub fn sql(self) -> (text: &'static str)
        ensures
            text@ == sql_name(self),
    {
        match self {
            StorageType::Boolean => "boolean",
            StorageType::Int16 => "smallint",
            StorageType::Int32 => "integer",
            StorageType::Int64 => "bigint",
            StorageType::Bytes(_) => "bytea",
        }
    }
}

/// The range that the values of a column must keep to.
#[derive(Clone, Copy, Debug, PartialEq, Eq, Structural)]
pub enum ColumnCheck {
    Free,
    Null,
    Signed8,
    Unsigned8,
    Unsigned16,
    Unsigned32,
}

/// A check in SQL, behind the name of its column.
pub open spec fn check_text(check: ColumnCheck) -> Option<Seq<char>> {
    match check {
        ColumnCheck::Free => None,
        ColumnCheck::Null => Some("IS NULL"@),
        ColumnCheck::Signed8 => Some("BETWEEN -128 AND 127"@),
        ColumnCheck::Unsigned8 => Some("BETWEEN 0 AND 255"@),
        ColumnCheck::Unsigned16 => Some("BETWEEN 0 AND 65535"@),
        ColumnCheck::Unsigned32 => Some("BETWEEN 0 AND 4294967295"@),
    }
}

impl ColumnCheck {
    pub fn sql(self) -> (text: Option<&'static str>)
        ensures
            match text {
                Some(text) => check_text(self) == Some(text@),
                None => check_text(self) is None,
            },
    {
        match self {
            ColumnCheck::Free => None,
            ColumnCheck::Null => Some("IS NULL"),
            ColumnCheck::Signed8 => Some("BETWEEN -128 AND 127"),
            ColumnCheck::Unsigned8 => Some("BETWEEN 0 AND 255"),
            ColumnCheck::Unsigned16 => Some("BETWEEN 0 AND 65535"),
            ColumnCheck::Unsigned32 => Some("BETWEEN 0 AND 4294967295"),
        }
    }
}

/// How a type is stored, unless it is not.
pub open spec fn storage_of(data_type: TypeModel) -> Option<(StorageType, ColumnCheck)> {
    match data_type {
        TypeModel::Null => Some((StorageType::Bytes(None), ColumnCheck::Null)),
        TypeModel::Boolean => Some((StorageType::Boolean, ColumnCheck::Free)),
        TypeModel::Int8 => Some((StorageType::Int16, ColumnCheck::Signed8)),
        TypeModel::Int16 => Some((StorageType::Int16, ColumnCheck::Free)),
        TypeModel::Int32 => Some((StorageType::Int32, ColumnCheck::Free)),
        TypeModel::Date32 => Some((StorageType::Int32, ColumnCheck::Free)),
        TypeModel::Int64 => Some((StorageType::Int64, ColumnCheck::Free)),
        TypeModel::Timestamp(_, _) => Some((StorageType::Int64, ColumnCheck::Free)),
        TypeModel::UInt8 => Some((StorageType::Int16, ColumnCheck::Unsigned8)),
        TypeModel::UInt16 => Some((StorageType::Int32, ColumnCheck::Unsigned16)),
        TypeModel::UInt32 => Some((StorageType::Int64, ColumnCheck::Unsigned32)),
        TypeModel::UInt64 => Some((StorageType::Bytes(Some(8)), ColumnCheck::Free)),
        TypeModel::Float64 => Some((StorageType::Bytes(Some(8)), ColumnCheck::Free)),
        TypeModel::Float32 => Some((StorageType::Bytes(Some(4)), ColumnCheck::Free)),
        TypeModel::Decimal128(_, _) => Some((StorageType::Bytes(Some(16)), ColumnCheck::Free)),
        TypeModel::Utf8 => Some((StorageType::Bytes(None), ColumnCheck::Free)),
        TypeModel::Binary => Some((StorageType::Bytes(None), ColumnCheck::Free)),
        TypeModel::List(_) => Some((StorageType::Bytes(None), ColumnCheck::Free)),
        TypeModel::Struct(_) => Some((StorageType::Bytes(None), ColumnCheck::Free)),
        TypeModel::Other(_) => None,
    }
}

fn storage(data_type: &DataType) -> (found: Option<(StorageType, ColumnCheck)>)
    ensures
        found == storage_of(data_type@),
{
    match data_type {
        DataType::Null => Some((StorageType::Bytes(None), ColumnCheck::Null)),
        DataType::Boolean => Some((StorageType::Boolean, ColumnCheck::Free)),
        DataType::Int8 => Some((StorageType::Int16, ColumnCheck::Signed8)),
        DataType::Int16 => Some((StorageType::Int16, ColumnCheck::Free)),
        DataType::Int32 => Some((StorageType::Int32, ColumnCheck::Free)),
        DataType::Date32 => Some((StorageType::Int32, ColumnCheck::Free)),
        DataType::Int64 => Some((StorageType::Int64, ColumnCheck::Free)),
        DataType::Timestamp(_, _) => Some((StorageType::Int64, ColumnCheck::Free)),
        DataType::UInt8 => Some((StorageType::Int16, ColumnCheck::Unsigned8)),
        DataType::UInt16 => Some((StorageType::Int32, ColumnCheck::Unsigned16)),
        DataType::UInt32 => Some((StorageType::Int64, ColumnCheck::Unsigned32)),
        DataType::UInt64 => Some((StorageType::Bytes(Some(8)), ColumnCheck::Free)),
        DataType::Float64 => Some((StorageType::Bytes(Some(8)), ColumnCheck::Free)),
        DataType::Float32 => Some((StorageType::Bytes(Some(4)), ColumnCheck::Free)),
        DataType::Decimal128(_, _) => Some((StorageType::Bytes(Some(16)), ColumnCheck::Free)),
        DataType::Utf8 => Some((StorageType::Bytes(None), ColumnCheck::Free)),
        DataType::Binary => Some((StorageType::Bytes(None), ColumnCheck::Free)),
        DataType::List(_) => Some((StorageType::Bytes(None), ColumnCheck::Free)),
        DataType::Struct(_) => Some((StorageType::Bytes(None), ColumnCheck::Free)),
        DataType::Other(_) => None,
    }
}

/// One column of the target.
#[derive(Debug)]
pub struct ColumnLayout {
    pub name: String,
    pub storage: StorageType,
    pub nullable: bool,
    pub check: ColumnCheck,
}

/// What a column is.
pub ghost struct ColumnModel {
    pub name: Seq<char>,
    pub storage: StorageType,
    pub nullable: bool,
    pub check: ColumnCheck,
}

impl View for ColumnLayout {
    type V = ColumnModel;

    open spec fn view(&self) -> ColumnModel {
        ColumnModel {
            name: self.name@,
            storage: self.storage,
            nullable: self.nullable,
            check: self.check,
        }
    }
}

/// The column of a field, unless its type is not stored.
pub open spec fn column_of(field: FieldModel) -> Option<ColumnModel> {
    match storage_of(field.data_type) {
        None => None,
        Some((storage, check)) => Some(
            ColumnModel {
                name: field.name,
                storage,
                nullable: field.nullable || field.data_type is Null,
                check,
            },
        ),
    }
}

/// The columns of the first `count` fields.
pub open spec fn columns_of(fields: Seq<FieldModel>) -> Seq<ColumnModel> {
    fields.map_values(|field: FieldModel| column_of(field)->0)
}

impl ColumnLayout {
    pub fn try_new(field: &Field) -> (result: Result<ColumnLayout, PostgresSinkSchemaError>)
        ensures
            match result {
                Ok(column) => column_of(field@) == Some(column@),
                Err(error) => {
                    &&& column_of(field@) is None
                    &&& error@ == (PostgresSchemaErrorModel::UnsupportedType {
                        field: field.name@,
                        data_type: field.data_type@,
                    })
                },
            },
    {
        let null: bool = match &field.data_type {
            DataType::Null => true,
            _ => false,
        };
        match storage(&field.data_type) {
            None => Err(
                PostgresSinkSchemaError::UnsupportedType {
                    field: field.name.clone(),
                    data_type: copy_type(&field.data_type),
                },
            ),
            Some((storage, check)) => Ok(
                ColumnLayout {
                    name: field.name.clone(),
                    storage,
                    nullable: field.nullable || null,
                    check,
                },
            ),
        }
    }
}

/// Whether a name is one of the columns that PostgreSQL itself has.
pub open spec fn system_column(name: Seq<char>) -> bool {
    ||| name == "tableoid"@
    ||| name == "xmin"@
    ||| name == "cmin"@
    ||| name == "xmax"@
    ||| name == "cmax"@
    ||| name == "ctid"@
}

/// The first of the first `count` fields that has a name.
pub open spec fn named_before(fields: Seq<FieldModel>, name: Seq<char>, count: int) -> Option<int>
    decreases count,
{
    if count <= 0 {
        None
    } else {
        match named_before(fields, name, count - 1) {
            Some(index) => Some(index),
            None => if fields[count - 1].name == name {
                Some(count - 1)
            } else {
                None
            },
        }
    }
}

/// Why the field at `index` cannot be a column, if it cannot.
pub open spec fn name_fault(fields: Seq<FieldModel>, index: int) -> Option<
    PostgresSchemaErrorModel,
> {
    let name = fields[index].name;
    let field = index as usize;
    if !identifier_fits(name) {
        Some(PostgresSchemaErrorModel::InvalidFieldName { field, name })
    } else if name == "$dogpaddle.id"@ || name == "$dogpaddle.hash"@ {
        Some(PostgresSchemaErrorModel::TechnicalColumnCollision { field, name })
    } else if system_column(name) {
        Some(PostgresSchemaErrorModel::SystemColumnCollision { field, name })
    } else {
        match named_before(fields, name, index) {
            Some(first) => Some(
                PostgresSchemaErrorModel::DuplicateFieldName {
                    first: first as usize,
                    second: field,
                    name,
                },
            ),
            None => None,
        }
    }
}

/// The first reason among the first `count` fields.
pub open spec fn names_fault(fields: Seq<FieldModel>, count: int) -> Option<
    PostgresSchemaErrorModel,
>
    decreases count,
{
    if count <= 0 {
        None
    } else {
        match names_fault(fields, count - 1) {
            Some(fault) => Some(fault),
            None => name_fault(fields, count - 1),
        }
    }
}

/// The first of the first `count` fields whose type is not stored.
pub open spec fn type_fault(fields: Seq<FieldModel>, count: int) -> Option<
    PostgresSchemaErrorModel,
>
    decreases count,
{
    if count <= 0 {
        None
    } else {
        match type_fault(fields, count - 1) {
            Some(fault) => Some(fault),
            None => if column_of(fields[count - 1]) is None {
                Some(
                    PostgresSchemaErrorModel::UnsupportedType {
                        field: fields[count - 1].name,
                        data_type: fields[count - 1].data_type,
                    },
                )
            } else {
                None
            },
        }
    }
}

/// Why a schema cannot be laid out, if it cannot.
pub open spec fn layout_fault(fields: Seq<FieldModel>) -> Option<PostgresSchemaErrorModel> {
    let count = fields.len() as int;
    if count > MAX_LOGICAL_COLUMNS {
        Some(
            PostgresSchemaErrorModel::TooManyColumns {
                actual: count as usize,
                maximum: MAX_LOGICAL_COLUMNS,
            },
        )
    } else if names_fault(fields, count) is Some {
        names_fault(fields, count)
    } else {
        type_fault(fields, count)
    }
}

proof fn lemma_names_fault_stays(fields: Seq<FieldModel>, low: int, high: int)
    requires
        low <= high,
        names_fault(fields, low) is Some,
    ensures
        names_fault(fields, high) == names_fault(fields, low),
    decreases high - low,
{
    if low < high {
        lemma_names_fault_stays(fields, low, high - 1);
    }
}

proof fn lemma_type_fault_stays(fields: Seq<FieldModel>, low: int, high: int)
    requires
        low <= high,
        type_fault(fields, low) is Some,
    ensures
        type_fault(fields, high) == type_fault(fields, low),
    decreases high - low,
{
    if low < high {
        lemma_type_fault_stays(fields, low, high - 1);
    }
}

proof fn lemma_named_stays(fields: Seq<FieldModel>, name: Seq<char>, low: int, high: int)
    requires
        low <= high,
        named_before(fields, name, low) is Some,
    ensures
        named_before(fields, name, high) == named_before(fields, name, low),
    decreases high - low,
{
    if low < high {
        lemma_named_stays(fields, name, low, high - 1);
    }
}

/// The place of an equal name among the fields before `count`.
fn find_name(fields: &Vec<Field>, name: &str, count: usize) -> (found: Option<usize>)
    requires
        count <= fields@.len(),
    ensures
        match found {
            Some(index) => named_before(field_models(*fields), name@, count as int) == Some(
                index as int,
            ),
            None => named_before(field_models(*fields), name@, count as int) is None,
        },
{
    let ghost models = field_models(*fields);
    let mut index: usize = 0;
    while index < count
        invariant
            models == field_models(*fields),
            index <= count <= fields@.len(),
            named_before(models, name@, index as int) is None,
        decreases count - index,
    {
        assert(models[index as int] == fields@[index as int]@);
        if same_text(fields[index].name.as_str(), name) {
            proof {
                lemma_named_stays(models, name@, index + 1, count as int);
            }
            return Some(index);
        }
        index += 1;
    }
    None
}

fn is_system_column(name: &str) -> (result: bool)
    ensures
        result == system_column(name@),
{
    same_text(name, "tableoid") || same_text(name, "xmin") || same_text(name, "cmin") || same_text(
        name,
        "xmax",
    ) || same_text(name, "cmax") || same_text(name, "ctid")
}

fn validate_identifiers(schema: &Schema) -> (result: Result<(), PostgresSinkSchemaError>)
    ensures
        match result {
            Ok(_) => {
                &&& schema@.fields.len() <= MAX_LOGICAL_COLUMNS
                &&& names_fault(schema@.fields, schema@.fields.len() as int) is None
            },
            Err(error) => if schema@.fields.len() > MAX_LOGICAL_COLUMNS {
                error@ == (PostgresSchemaErrorModel::TooManyColumns {
                    actual: schema@.fields.len() as usize,
                    maximum: MAX_LOGICAL_COLUMNS,
                })
            } else {
                names_fault(schema@.fields, schema@.fields.len() as int) == Some(error@)
            },
        },
{
    let ghost fields = schema@.fields;
    let actual: usize = schema.fields.len();
    if actual > MAX_LOGICAL_COLUMNS {
        return Err(
            PostgresSinkSchemaError::TooManyColumns { actual, maximum: MAX_LOGICAL_COLUMNS },
        );
    }
    let mut index: usize = 0;
    while index < schema.fields.len()
        invariant
            fields == schema@.fields,
            fields.len() == schema.fields@.len(),
            fields.len() <= MAX_LOGICAL_COLUMNS,
            index <= fields.len(),
            names_fault(fields, index as int) is None,
        decreases fields.len() - index,
    {
        let name: &String = &schema.fields[index].name;
        assert(fields[index as int] == schema.fields@[index as int]@);
        let length: usize = text_bytes(name.as_str());
        let fault: Option<PostgresSinkSchemaError> = if length == 0 || length > 63 || holds_char(
            name.as_str(),
            '\0',
        ) {
            Some(PostgresSinkSchemaError::InvalidFieldName { field: index, name: name.clone() })
        } else if same_text(name.as_str(), "$dogpaddle.id") || same_text(
            name.as_str(),
            "$dogpaddle.hash",
        ) {
            Some(
                PostgresSinkSchemaError::TechnicalColumnCollision {
                    field: index,
                    name: name.clone(),
                },
            )
        } else if is_system_column(name.as_str()) {
            Some(
                PostgresSinkSchemaError::SystemColumnCollision {
                    field: index,
                    name: name.clone(),
                },
            )
        } else {
            match find_name(&schema.fields, name.as_str(), index) {
                Some(first) => Some(
                    PostgresSinkSchemaError::DuplicateFieldName {
                        first,
                        second: index,
                        name: name.clone(),
                    },
                ),
                None => None,
            }
        };
        if let Some(error) = fault {
            proof {
                lemma_names_fault_stays(fields, index + 1, fields.len() as int);
            }
            return Err(error);
        }
        index += 1;
    }
    Ok(())
}

/// The views of some columns.
pub open spec fn column_views(columns: Seq<ColumnLayout>) -> Seq<ColumnModel> {
    columns.map_values(|column: ColumnLayout| column@)
}

/// The storage layout of one exact schema.
#[derive(Debug)]
pub struct PostgresLayout {
    pub schema: Schema,
    pub columns: Vec<ColumnLayout>,
}

impl PostgresLayout {
    /// The columns are those of the schema, which can be stored.
    pub open spec fn wf(&self) -> bool {
        &&& layout_fault(self.schema@.fields) is None
        &&& column_views(self.columns@) == columns_of(self.schema@.fields)
    }

    pub fn try_new(schema: Schema) -> (result: Result<PostgresLayout, PostgresSinkSchemaError>)
        ensures
            match result {
                Ok(layout) => {
                    &&& layout_fault(schema@.fields) is None
                    &&& layout.schema == schema
                    &&& layout.wf()
                },
                Err(error) => layout_fault(schema@.fields) == Some(error@),
            },
    {
        validate_identifiers(&schema)?;
        let ghost fields = schema@.fields;
        let mut columns: Vec<ColumnLayout> = Vec::new();
        let mut index: usize = 0;
        assert(column_views(columns@) =~= columns_of(fields).take(0));
        while index < schema.fields.len()
            invariant
                fields == schema@.fields,
                fields.len() == schema.fields@.len(),
                fields.len() <= MAX_LOGICAL_COLUMNS,
                names_fault(fields, fields.len() as int) is None,
                index <= fields.len(),
                type_fault(fields, index as int) is None,
                column_views(columns@) == columns_of(fields).take(index as int),
            decreases fields.len() - index,
        {
            assert(fields[index as int] == schema.fields@[index as int]@);
            let ghost before = columns@;
            match ColumnLayout::try_new(&schema.fields[index]) {
                Ok(column) => {
                    columns.push(column);
                    proof {
                        assert(column_views(columns@) =~= column_views(before).push(column@));
                        assert(columns_of(fields)[index as int] == column@);
                        assert(column_views(columns@) =~= columns_of(fields).take(index + 1));
                    }
                },
                Err(error) => {
                    proof {
                        lemma_type_fault_stays(fields, index + 1, fields.len() as int);
                    }
                    return Err(error);
                },
            }
            index += 1;
        }
        assert(columns_of(fields).take(index as int) =~= columns_of(fields));
        Ok(PostgresLayout { schema, columns })
    }
}

} // verus!
