//! The definition of a SQLite sink: where its relation stands, and which schemas it takes.

use crate::bytes::{be_bytes, be_value, push_all, push_be, Cursor};
use crate::bytes::{lemma_be_bytes_len, lemma_be_round_trip, lemma_byte_ranges};
use crate::change::{DataType, Field, FieldModel, Schema, TypeModel};
use crate::text::{
    byte_len, chars_of, holds_char, lowered, same_text, starts_with, text_bytes, to_lower,
    utf8_text,
};
use vstd::prelude::*;
use vstd::utf8::{encode_utf8, encode_utf8_decode_utf8, encode_utf8_valid_utf8, valid_utf8};

verus! {

pub const TAG: u16 = 10;

pub const MAX_LOGICAL_COLUMNS: usize = 1998;

/// Why a schema cannot be stored in SQLite.
#[derive(Debug)]
pub enum SqliteSinkSchemaError {
    TooManyColumns { actual: usize, maximum: usize },
    FieldNameContainsNul { field: usize },
    TechnicalColumnCollision { field: usize, name: String },
    CaseInsensitiveFieldCollision { first: usize, second: usize },
    UnsupportedType { field: String, data_type: DataType },
}

/// What a `SqliteSinkSchemaError` says.
pub ghost enum SchemaErrorModel {
    TooManyColumns { actual: usize, maximum: usize },
    FieldNameContainsNul { field: usize },
    TechnicalColumnCollision { field: usize, name: Seq<char> },
    CaseInsensitiveFieldCollision { first: usize, second: usize },
    UnsupportedType { field: Seq<char>, data_type: TypeModel },
}

impl View for SqliteSinkSchemaError {
    type V = SchemaErrorModel;

    open spec fn view(&self) -> SchemaErrorModel {
        match *self {
            SqliteSinkSchemaError::TooManyColumns { actual, maximum } => {
                SchemaErrorModel::TooManyColumns { actual, maximum }
            },
            SqliteSinkSchemaError::FieldNameContainsNul { field } => {
                SchemaErrorModel::FieldNameContainsNul { field }
            },
            SqliteSinkSchemaError::TechnicalColumnCollision { field, name } => {
                SchemaErrorModel::TechnicalColumnCollision { field, name: name@ }
            },
            SqliteSinkSchemaError::CaseInsensitiveFieldCollision { first, second } => {
                SchemaErrorModel::CaseInsensitiveFieldCollision { first, second }
            },
            SqliteSinkSchemaError::UnsupportedType { field, data_type } => {
                SchemaErrorModel::UnsupportedType { field: field@, data_type: data_type@ }
            },
        }
    }
}

/// The first of the first `count` fields whose name is `name` but for the case of letters.
pub open spec fn same_name_before(fields: Seq<FieldModel>, name: Seq<char>, count: int) -> Option<
    int,
>
    decreases count,
{
    if count <= 0 {
        None
    } else {
        match same_name_before(fields, name, count - 1) {
            Some(index) => Some(index),
            None => if lowered(fields[count - 1].name) == lowered(name) {
                Some(count - 1)
            } else {
                None
            },
        }
    }
}

/// Why the field at `index` cannot be a column, if it cannot.
pub open spec fn field_fault(fields: Seq<FieldModel>, index: int) -> Option<SchemaErrorModel> {
    let name = fields[index].name;
    if name.contains('\0') {
        Some(SchemaErrorModel::FieldNameContainsNul { field: index as usize })
    } else if lowered(name) == "$dogpaddle.id"@ || lowered(name) == "$dogpaddle.hash"@ {
        Some(SchemaErrorModel::TechnicalColumnCollision { field: index as usize, name })
    } else {
        match same_name_before(fields, name, index) {
            Some(first) => Some(
                SchemaErrorModel::CaseInsensitiveFieldCollision {
                    first: first as usize,
                    second: index as usize,
                },
            ),
            None => None,
        }
    }
}

/// The first reason among the first `count` fields.
pub open spec fn fields_fault(fields: Seq<FieldModel>, count: int) -> Option<SchemaErrorModel>
    decreases count,
{
    if count <= 0 {
        None
    } else {
        match fields_fault(fields, count - 1) {
            Some(fault) => Some(fault),
            None => field_fault(fields, count - 1),
        }
    }
}

/// Why a schema cannot be that of the sink, the types of its fields aside.
pub open spec fn schema_fault(fields: Seq<FieldModel>) -> Option<SchemaErrorModel> {
    if fields.len() > MAX_LOGICAL_COLUMNS {
        Some(
            SchemaErrorModel::TooManyColumns {
                actual: fields.len() as usize,
                maximum: MAX_LOGICAL_COLUMNS,
            },
        )
    } else {
        fields_fault(fields, fields.len() as int)
    }
}

proof fn lemma_fields_fault_stays(fields: Seq<FieldModel>, low: int, high: int)
    requires
        low <= high,
        fields_fault(fields, low) is Some,
    ensures
        fields_fault(fields, high) == fields_fault(fields, low),
    decreases high - low,
{
    if low < high {
        lemma_fields_fault_stays(fields, low, high - 1);
    }
}

/// The place of an equal text among some texts.
fn find_text(texts: &Vec<String>, text: &str, Ghost(fields): Ghost<Seq<FieldModel>>, Ghost(name): Ghost<Seq<char>>) -> (found:
    Option<usize>)
    requires
        texts@.len() <= fields.len(),
        forall|i: int| 0 <= i < texts@.len() ==> (#[trigger] texts@[i])@ == lowered(fields[i].name),
        text@ == lowered(name),
    ensures
        match found {
            Some(index) => same_name_before(fields, name, texts@.len() as int) == Some(
                index as int,
            ),
            None => same_name_before(fields, name, texts@.len() as int) is None,
        },
{
    let mut index: usize = 0;
    while index < texts.len()
        invariant
            texts@.len() <= fields.len(),
            forall|i: int|
                0 <= i < texts@.len() ==> (#[trigger] texts@[i])@ == lowered(fields[i].name),
            text@ == lowered(name),
            index <= texts@.len(),
            same_name_before(fields, name, index as int) is None,
        decreases texts@.len() - index,
    {
        if same_text(texts[index].as_str(), text) {
            proof {
                lemma_same_name_stays(fields, name, index + 1, texts@.len() as int);
            }
            return Some(index);
        }
        index += 1;
    }
    None
}

proof fn lemma_same_name_stays(fields: Seq<FieldModel>, name: Seq<char>, low: int, high: int)
    requires
        low <= high,
        same_name_before(fields, name, low) is Some,
    ensures
        same_name_before(fields, name, high) == same_name_before(fields, name, low),
    decreases high - low,
{
    if low < high {
        lemma_same_name_stays(fields, name, low, high - 1);
    }
}

/// Whether a schema can be that of the sink, the types of its fields aside.
pub fn validate_input_schema(schema: &Schema) -> (result: Result<(), SqliteSinkSchemaError>)
    ensures
        match result {
            Ok(_) => schema_fault(schema@.fields) is None,
            Err(error) => schema_fault(schema@.fields) == Some(error@),
        },
{
    let ghost fields = schema@.fields;
    let actual: usize = schema.fields.len();
    if actual > MAX_LOGICAL_COLUMNS {
        return Err(
            SqliteSinkSchemaError::TooManyColumns { actual, maximum: MAX_LOGICAL_COLUMNS },
        );
    }
    let mut names: Vec<String> = Vec::new();
    let mut index: usize = 0;
    while index < schema.fields.len()
        invariant
            fields == schema@.fields,
            fields.len() == schema.fields@.len(),
            fields.len() <= MAX_LOGICAL_COLUMNS,
            index <= fields.len(),
            fields_fault(fields, index as int) is None,
            names@.len() == index,
            forall|i: int|
                0 <= i < names@.len() ==> (#[trigger] names@[i])@ == lowered(fields[i].name),
        decreases fields.len() - index,
    {
        let field: &Field = &schema.fields[index];
        assert(fields[index as int] == field@);
        let fault: Option<SqliteSinkSchemaError> = if holds_char(field.name.as_str(), '\0') {
            Some(SqliteSinkSchemaError::FieldNameContainsNul { field: index })
        } else {
            let normalized: String = to_lower(field.name.as_str());
            if same_text(normalized.as_str(), "$dogpaddle.id") || same_text(
                normalized.as_str(),
                "$dogpaddle.hash",
            ) {
                Some(
                    SqliteSinkSchemaError::TechnicalColumnCollision {
                        field: index,
                        name: field.name.clone(),
                    },
                )
            } else {
                match find_text(
                    &names,
                    normalized.as_str(),
                    Ghost(fields),
                    Ghost(field.name@),
                ) {
                    Some(first) => Some(
                        SqliteSinkSchemaError::CaseInsensitiveFieldCollision {
                            first,
                            second: index,
                        },
                    ),
                    None => {
                        names.push(normalized);
                        None
                    },
                }
            }
        };
        if let Some(error) = fault {
            proof {
                lemma_fields_fault_stays(fields, index + 1, fields.len() as int);
            }
            return Err(error);
        }
        index += 1;
    }
    Ok(())
}

/// Why a path and a table name do not define a SQLite sink.
#[derive(Clone, Copy, Debug, PartialEq, Eq, Structural)]
pub enum SqliteSinkDefinitionError {
    DatabasePathNotUtf8,
    InMemoryDatabase,
    DatabasePathNotAbsolute,
    DatabasePathContainsNul,
    DatabasePathTooLong,
    EmptyTableName,
    TableNameContainsNul,
    ReservedTableName,
    TableNameTooLong,
}

/// A sink that holds its relation in one table of a SQLite database file.
#[derive(Debug, PartialEq, Eq)]
pub struct SqliteSinkDefinition {
    database_path: String,
    table_name: String,
}

/// Why a path and a table name do not define a sink, if they do not.
pub open spec fn definition_fault(path: Seq<char>, table: Seq<char>) -> Option<
    SqliteSinkDefinitionError,
> {
    if path == ":memory:"@ {
        Some(SqliteSinkDefinitionError::InMemoryDatabase)
    } else if path.len() == 0 || path[0] != '/' {
        Some(SqliteSinkDefinitionError::DatabasePathNotAbsolute)
    } else if path.contains('\0') {
        Some(SqliteSinkDefinitionError::DatabasePathContainsNul)
    } else if byte_len(path) > u32::MAX {
        Some(SqliteSinkDefinitionError::DatabasePathTooLong)
    } else if table.len() == 0 {
        Some(SqliteSinkDefinitionError::EmptyTableName)
    } else if table.contains('\0') {
        Some(SqliteSinkDefinitionError::TableNameContainsNul)
    } else if "sqlite_"@.len() <= table.len() && lowered(table).take("sqlite_"@.len() as int)
        == "sqlite_"@ {
        Some(SqliteSinkDefinitionError::ReservedTableName)
    } else if byte_len(table) > u32::MAX {
        Some(SqliteSinkDefinitionError::TableNameTooLong)
    } else {
        None
    }
}

/// Whether a path begins at the root.
fn is_absolute(path: &str) -> (absolute: bool)
    ensures
        absolute == (path@.len() > 0 && path@[0] == '/'),
{
    let chars: Vec<char> = chars_of(path);
    chars.len() > 0 && chars[0] == '/'
}

fn validate_definition(path: &str, table: &str) -> (result: Result<(), SqliteSinkDefinitionError>)
    ensures
        match result {
            Ok(_) => definition_fault(path@, table@) is None,
            Err(error) => definition_fault(path@, table@) == Some(error),
        },
{
    if same_text(path, ":memory:") {
        return Err(SqliteSinkDefinitionError::InMemoryDatabase);
    }
    if !is_absolute(path) {
        return Err(SqliteSinkDefinitionError::DatabasePathNotAbsolute);
    }
    if holds_char(path, '\0') {
        return Err(SqliteSinkDefinitionError::DatabasePathContainsNul);
    }
    if text_bytes(path) as u64 > u32::MAX as u64 {
        return Err(SqliteSinkDefinitionError::DatabasePathTooLong);
    }
    if chars_of(table).len() == 0 {
        return Err(SqliteSinkDefinitionError::EmptyTableName);
    }
    if holds_char(table, '\0') {
        return Err(SqliteSinkDefinitionError::TableNameContainsNul);
    }
    if starts_with(to_lower(table).as_str(), "sqlite_") {
        return Err(SqliteSinkDefinitionError::ReservedTableName);
    }
    if text_bytes(table) as u64 > u32::MAX as u64 {
        return Err(SqliteSinkDefinitionError::TableNameTooLong);
    }
    Ok(())
}

/// How a text is stored: its length in four bytes, then the text in UTF-8.
pub open spec fn string_bytes(text: Seq<char>) -> Seq<u8> {
    be_bytes(byte_len(text), 4) + encode_utf8(text)
}

fn encode_string(text: &str, output: &mut Vec<u8>)
    requires
        byte_len(text@) <= u32::MAX,
    ensures
        final(output)@ == old(output)@ + string_bytes(text@),
{
    push_be(output, text.as_bytes().len() as u128, 4);
    push_all(output, text.as_bytes());
    assert(output@ =~= old(output)@ + string_bytes(text@));
}

impl SqliteSinkDefinition {
    pub closed spec fn path(&self) -> Seq<char> {
        self.database_path@
    }

    pub closed spec fn table(&self) -> Seq<char> {
        self.table_name@
    }

    /// The path and the table name define a sink.
    pub open spec fn wf(&self) -> bool {
        definition_fault(self.path(), self.table()) is None
    }

    /// Defines a sink by an absolute path and a table name.
    pub fn try_new(database_path: &str, table_name: &str) -> (result: Result<
        SqliteSinkDefinition,
        SqliteSinkDefinitionError,
    >)
        ensures
            match result {
                Ok(definition) => {
                    &&& definition_fault(database_path@, table_name@) is None
                    &&& definition.path() == database_path@
                    &&& definition.table() == table_name@
                    &&& definition.wf()
                },
                Err(error) => definition_fault(database_path@, table_name@) == Some(error),
            },
    {
        validate_definition(database_path, table_name)?;
        Ok(
            SqliteSinkDefinition {
                database_path: database_path.to_owned(),
                table_name: table_name.to_owned(),
            },
        )
    }

    /// Defines a sink by a path that may not be valid UTF-8, in which case it is not given.
    pub fn try_from_path(database_path: Option<&str>, table_name: &str) -> (result: Result<
        SqliteSinkDefinition,
        SqliteSinkDefinitionError,
    >)
        ensures
            match (database_path, result) {
                (None, Err(error)) => error == SqliteSinkDefinitionError::DatabasePathNotUtf8,
                (None, Ok(_)) => false,
                (Some(path), Ok(definition)) => {
                    &&& definition_fault(path@, table_name@) is None
                    &&& definition.path() == path@
                    &&& definition.table() == table_name@
                    &&& definition.wf()
                },
                (Some(path), Err(error)) => definition_fault(path@, table_name@) == Some(error),
            },
    {
        match database_path {
            Some(path) => SqliteSinkDefinition::try_new(path, table_name),
            None => Err(SqliteSinkDefinitionError::DatabasePathNotUtf8),
        }
    }

    /// The absolute path of the database file.
    pub fn database_path(&self) -> (path: &str)
        ensures
            path@ == self.path(),
    {
        self.database_path.as_str()
    }

    /// The name of the table.
    pub fn table_name(&self) -> (table: &str)
        ensures
            table@ == self.table(),
    {
        self.table_name.as_str()
    }

    pub fn persistence_tag(&self) -> (tag: u16)
        ensures
            tag == TAG,
    {
        TAG
    }

    /// Appends what is stored of the definition.
    pub fn encode_payload(&self, output: &mut Vec<u8>)
        requires
            self.wf(),
        ensures
            final(output)@ == old(output)@ + payload_bytes(self.path(), self.table()),
    {
        let ghost start = output@;
        encode_string(self.database_path.as_str(), output);
        encode_string(self.table_name.as_str(), output);
        assert(output@ =~= start + payload_bytes(self.path(), self.table()));
    }
}

/// What is stored of a definition.
pub open spec fn payload_bytes(path: Seq<char>, table: Seq<char>) -> Seq<u8> {
    string_bytes(path) + string_bytes(table)
}

/// Why a stored definition cannot be read.
#[derive(Clone, Copy, Debug, PartialEq, Eq, Structural)]
pub enum DefinitionCodecError {
    Truncated,
    TrailingBytes,
    InvalidPathUtf8,
    InvalidTableUtf8,
    InvalidDefinition,
}

/// The length of the text that stored bytes begin with.
pub open spec fn string_length(bytes: Seq<u8>) -> nat {
    be_value(bytes.subrange(0, 4))
}

/// The bytes of the text that stored bytes begin with.
pub open spec fn string_at(bytes: Seq<u8>) -> Seq<u8> {
    bytes.subrange(4, 4 + string_length(bytes) as int)
}

/// Why stored bytes do not begin with a text, if they do not.
pub open spec fn string_fault(bytes: Seq<u8>, invalid: DefinitionCodecError) -> Option<
    DefinitionCodecError,
> {
    if bytes.len() < 4 || bytes.len() < 4 + string_length(bytes) {
        Some(DefinitionCodecError::Truncated)
    } else if !valid_utf8(string_at(bytes)) {
        Some(invalid)
    } else {
        None
    }
}

/// Why a stored definition cannot be read, if it cannot.
pub open spec fn payload_fault(bytes: Seq<u8>) -> Option<DefinitionCodecError> {
    let rest = bytes.skip(4 + string_length(bytes) as int);
    if string_fault(bytes, DefinitionCodecError::InvalidPathUtf8) is Some {
        string_fault(bytes, DefinitionCodecError::InvalidPathUtf8)
    } else if string_fault(rest, DefinitionCodecError::InvalidTableUtf8) is Some {
        string_fault(rest, DefinitionCodecError::InvalidTableUtf8)
    } else if rest.len() > 4 + string_length(rest) {
        Some(DefinitionCodecError::TrailingBytes)
    } else {
        None
    }
}

fn decode_string(cursor: &mut Cursor<'_>, invalid: DefinitionCodecError) -> (result: Result<
    String,
    DefinitionCodecError,
>)
    requires
        old(cursor).wf(),
    ensures
        final(cursor).wf(),
        final(cursor).bytes == old(cursor).bytes,
        match result {
            Ok(text) => {
                &&& string_fault(old(cursor).rest(), invalid) is None
                &&& encode_utf8(text@) == string_at(old(cursor).rest())
                &&& final(cursor).rest() == old(cursor).rest().skip(
                    4 + string_length(old(cursor).rest()) as int,
                )
            },
            Err(error) => string_fault(old(cursor).rest(), invalid) == Some(error),
        },
{
    let ghost rest = cursor.rest();
    proof {
        lemma_byte_ranges();
    }
    let length: usize = match cursor.read_be(4) {
        Some(length) => {
            assert(rest.take(4) =~= rest.subrange(0, 4));
            length as usize
        },
        None => {
            return Err(DefinitionCodecError::Truncated);
        },
    };
    let bytes: Vec<u8> = match cursor.read_bytes(length) {
        Some(bytes) => bytes,
        None => {
            return Err(DefinitionCodecError::Truncated);
        },
    };
    proof {
        assert(rest.skip(4).take(length as int) =~= string_at(rest));
        assert(rest.skip(4).skip(length as int) =~= rest.skip(4 + length));
    }
    match utf8_text(bytes.as_slice()) {
        Some(text) => Ok(text),
        None => Err(invalid),
    }
}

/// Reads a stored definition.
pub fn decode_definition(payload: &[u8]) -> (result: Result<
    SqliteSinkDefinition,
    DefinitionCodecError,
>)
    ensures
        match result {
            Ok(definition) => {
                &&& payload_fault(payload@) is None
                &&& definition.wf()
                &&& payload@ == payload_bytes(definition.path(), definition.table())
            },
            Err(error) => match payload_fault(payload@) {
                Some(fault) => error == fault,
                None => {
                    &&& error == DefinitionCodecError::InvalidDefinition
                    &&& forall|path: Seq<char>, table: Seq<char>|
                        payload@ == #[trigger] payload_bytes(path, table) && byte_len(path)
                            <= u32::MAX && byte_len(table) <= u32::MAX ==> definition_fault(
                            path,
                            table,
                        ) is Some
                },
            },
        },
{
    let mut cursor: Cursor<'_> = Cursor::new(payload);
    let path: String = decode_string(&mut cursor, DefinitionCodecError::InvalidPathUtf8)?;
    let ghost rest = cursor.rest();
    let table: String = decode_string(&mut cursor, DefinitionCodecError::InvalidTableUtf8)?;
    if !cursor.at_end() {
        return Err(DefinitionCodecError::TrailingBytes);
    }
    proof {
        lemma_string_bytes(payload@, path@);
        lemma_string_bytes(rest, table@);
        assert(rest.take(4 + string_length(rest) as int) =~= rest);
        assert(payload@ =~= payload@.take(4 + string_length(payload@) as int) + rest);
    }
    match SqliteSinkDefinition::try_new(path.as_str(), table.as_str()) {
        Ok(definition) => Ok(definition),
        Err(_) => {
            proof {
                assert forall|other: Seq<char>, name: Seq<char>|
                    payload@ == #[trigger] payload_bytes(other, name) && byte_len(other)
                        <= u32::MAX && byte_len(name) <= u32::MAX implies definition_fault(
                    other,
                    name,
                ) is Some by {
                    lemma_payload_determines(path@, table@, other, name);
                }
            }
            Err(DefinitionCodecError::InvalidDefinition)
        },
    }
}

/// Bytes that a text was read from are those that it is stored as.
proof fn lemma_string_bytes(bytes: Seq<u8>, text: Seq<char>)
    requires
        bytes.len() >= 4 + string_length(bytes),
        encode_utf8(text) == string_at(bytes),
    ensures
        bytes.take(4 + string_length(bytes) as int) == string_bytes(text),
        byte_len(text) <= u32::MAX,
{
    lemma_byte_ranges();
    let head = bytes.subrange(0, 4);
    crate::bytes::lemma_be_value_inverse(head);
    crate::bytes::lemma_be_value_bound(head);
    assert(bytes.take(4 + string_length(bytes) as int) =~= head + string_at(bytes));
}

/// What is stored of a definition determines it.
proof fn lemma_payload_determines(
    path: Seq<char>,
    table: Seq<char>,
    other_path: Seq<char>,
    other_table: Seq<char>,
)
    requires
        payload_bytes(path, table) == payload_bytes(other_path, other_table),
        byte_len(path) <= u32::MAX,
        byte_len(table) <= u32::MAX,
        byte_len(other_path) <= u32::MAX,
        byte_len(other_table) <= u32::MAX,
    ensures
        path == other_path,
        table == other_table,
{
    let bytes = payload_bytes(path, table);
    lemma_string_read_back(path, string_bytes(table));
    lemma_string_read_back(other_path, string_bytes(other_table));
    encode_utf8_decode_utf8(path);
    encode_utf8_decode_utf8(other_path);
    assert(path == other_path);
    let rest = bytes.skip(4 + byte_len(path) as int);
    assert(string_bytes(table) + Seq::<u8>::empty() =~= string_bytes(table));
    assert(string_bytes(other_table) + Seq::<u8>::empty() =~= string_bytes(other_table));
    lemma_string_read_back(table, Seq::empty());
    lemma_string_read_back(other_table, Seq::empty());
    encode_utf8_decode_utf8(table);
    encode_utf8_decode_utf8(other_table);
}

proof fn lemma_string_read_back(text: Seq<char>, tail: Seq<u8>)
    requires
        byte_len(text) <= u32::MAX,
    ensures
        string_fault(string_bytes(text) + tail, DefinitionCodecError::Truncated) is None,
        string_length(string_bytes(text) + tail) == byte_len(text),
        string_at(string_bytes(text) + tail) == encode_utf8(text),
        (string_bytes(text) + tail).skip(4 + byte_len(text) as int) == tail,
{
    lemma_byte_ranges();
    lemma_be_bytes_len(byte_len(text), 4);
    lemma_be_round_trip(byte_len(text), 4);
    encode_utf8_valid_utf8(text);
    let bytes = string_bytes(text) + tail;
    assert(bytes.subrange(0, 4) =~= be_bytes(byte_len(text), 4));
    assert(bytes.subrange(4, 4 + byte_len(text) as int) =~= encode_utf8(text));
    assert(bytes.skip(4 + byte_len(text) as int) =~= tail);
}

/// A stored definition reads back as it was written.
pub proof fn law_definition_round_trip(path: Seq<char>, table: Seq<char>)
    requires
        definition_fault(path, table) is None,
    ensures
        payload_fault(payload_bytes(path, table)) is None,
        string_at(payload_bytes(path, table)) == encode_utf8(path),
        string_at(
            payload_bytes(path, table).skip(
                4 + string_length(payload_bytes(path, table)) as int,
            ),
        ) == encode_utf8(table),
{
    lemma_string_read_back(path, string_bytes(table));
    lemma_string_read_back(table, Seq::empty());
    assert(string_bytes(table) + Seq::<u8>::empty() =~= string_bytes(table));
    let bytes = payload_bytes(path, table);
    let rest = bytes.skip(4 + string_length(bytes) as int);
    assert(rest == string_bytes(table));
    lemma_be_bytes_len(byte_len(table), 4);
}

} // verus!
