//! The SQL of a SQLite relation: its layout, and the statements that read and write it.

use crate::change::{copy_type, field_models, DataType, Field, FieldModel, Schema, TypeModel};
use crate::sqlite::definition::{SchemaErrorModel, SqliteSinkSchemaError};
use crate::text::{
    decimal, decimal_text, join, join_two, joined, push_decimal, push_texts, replace, replaced,
    signed_decimal, signed_decimal_text, views,
};
use vstd::prelude::*;

verus! {

/// The column of the technical ID.
pub open spec fn id_column() -> Seq<char> {
    quoted("$dogpaddle.id"@)
}

/// The column of the row hash.
pub open spec fn hash_column() -> Seq<char> {
    quoted("$dogpaddle.hash"@)
}

/// An identifier in double quotes, its own quotes doubled.
pub open spec fn quoted(identifier: Seq<char>) -> Seq<char> {
    "\""@ + replaced(identifier, '"', "\"\""@) + "\""@
}

pub fn quote_identifier(identifier: &str) -> (text: String)
    ensures
        text@ == quoted(identifier@),
{
    let mut text: String = "\"".to_owned();
    text.append(replace(identifier, '"', "\"\"").as_str());
    text.append("\"");
    text
}

/// A check that a column holds an integer within a range.
pub open spec fn range_check(name: Seq<char>, min: int, max: int) -> Seq<char> {
    "typeof("@ + name + ") = 'integer' AND "@ + name + " BETWEEN "@ + signed_decimal(min)
        + " AND "@ + signed_decimal(max)
}

fn integer_range(name: &str, min: i64, max: i64) -> (text: String)
    ensures
        text@ == range_check(name@, min as int, max as int),
{
    let mut text: String = "typeof(".to_owned();
    text.append(name);
    text.append(") = 'integer' AND ");
    text.append(name);
    text.append(" BETWEEN ");
    text.append(signed_decimal_text(min).as_str());
    text.append(" AND ");
    text.append(signed_decimal_text(max).as_str());
    text
}

/// A check that a column holds a blob, of `length` bytes where that is given.
pub open spec fn blob_rule(name: Seq<char>, length: Option<u64>) -> Seq<char> {
    match length {
        Some(length) => "typeof("@ + name + ") = 'blob' AND length("@ + name + ") = "@ + decimal(
            length as nat,
        ),
        None => "typeof("@ + name + ") = 'blob'"@,
    }
}

fn blob_check(name: &str, length: Option<u64>) -> (text: String)
    ensures
        text@ == blob_rule(name@, length),
{
    let mut text: String = "typeof(".to_owned();
    text.append(name);
    match length {
        Some(length) => {
            text.append(") = 'blob' AND length(");
            text.append(name);
            text.append(") = ");
            push_decimal(&mut text, length);
        },
        None => {
            text.append(") = 'blob'");
        },
    }
    text
}

/// A check that a column holds a value of one storage class.
pub open spec fn class_rule(name: Seq<char>, class: Seq<char>) -> Seq<char> {
    "typeof("@ + name + class
}

fn class_check(name: &str, class: &str) -> (text: String)
    ensures
        text@ == class_rule(name@, class@),
{
    let mut text: String = "typeof(".to_owned();
    text.append(name);
    text.append(class);
    text
}

/// How a type is stored: the declared type of the column, and what its values must satisfy.
pub open spec fn storage_of(name: Seq<char>, data_type: TypeModel) -> Option<
    (Seq<char>, Seq<char>),
> {
    match data_type {
        TypeModel::Boolean => Some(
            (
                "INTEGER"@,
                "typeof("@ + name + ") = 'integer' AND "@ + name + " IN (0, 1)"@,
            ),
        ),
        TypeModel::Int8 => Some(("INTEGER"@, range_check(name, -128, 127))),
        TypeModel::Int16 => Some(("INTEGER"@, range_check(name, -32768, 32767))),
        TypeModel::Int32 => Some(("INTEGER"@, range_check(name, -2147483648, 2147483647))),
        TypeModel::Date32 => Some(("INTEGER"@, range_check(name, -2147483648, 2147483647))),
        TypeModel::Int64 => Some(("INTEGER"@, class_rule(name, ") = 'integer'"@))),
        TypeModel::Timestamp(_, _) => Some(("INTEGER"@, class_rule(name, ") = 'integer'"@))),
        TypeModel::UInt8 => Some(("INTEGER"@, range_check(name, 0, 255))),
        TypeModel::UInt16 => Some(("INTEGER"@, range_check(name, 0, 65535))),
        TypeModel::UInt32 => Some(("INTEGER"@, range_check(name, 0, 4294967295))),
        TypeModel::UInt64 => Some(("BLOB"@, blob_rule(name, Some(8)))),
        TypeModel::Float64 => Some(("BLOB"@, blob_rule(name, Some(8)))),
        TypeModel::Float32 => Some(("BLOB"@, blob_rule(name, Some(4)))),
        TypeModel::Decimal128(_, _) => Some(("BLOB"@, blob_rule(name, Some(16)))),
        TypeModel::Utf8 => Some(("TEXT COLLATE BINARY"@, class_rule(name, ") = 'text'"@))),
        TypeModel::Binary => Some(("BLOB"@, blob_rule(name, None))),
        TypeModel::List(_) => Some(("BLOB"@, blob_rule(name, None))),
        TypeModel::Struct(_) => Some(("BLOB"@, blob_rule(name, None))),
        TypeModel::Null => None,
        TypeModel::Other(_) => None,
    }
}

fn storage(name: &str, data_type: &DataType) -> (found: Option<(String, String)>)
    ensures
        match found {
            Some((class, check)) => storage_of(name@, data_type@) == Some((class@, check@)),
            None => storage_of(name@, data_type@) is None,
        },
{
    let integer: String = "INTEGER".to_owned();
    let blob: String = "BLOB".to_owned();
    match data_type {
        DataType::Boolean => {
            let mut check: String = "typeof(".to_owned();
            check.append(name);
            check.append(") = 'integer' AND ");
            check.append(name);
            check.append(" IN (0, 1)");
            Some((integer, check))
        },
        DataType::Int8 => Some((integer, integer_range(name, -128, 127))),
        DataType::Int16 => Some((integer, integer_range(name, -32768, 32767))),
        DataType::Int32 => Some((integer, integer_range(name, -2147483648, 2147483647))),
        DataType::Date32 => Some((integer, integer_range(name, -2147483648, 2147483647))),
        DataType::Int64 => Some((integer, class_check(name, ") = 'integer'"))),
        DataType::Timestamp(_, _) => Some((integer, class_check(name, ") = 'integer'"))),
        DataType::UInt8 => Some((integer, integer_range(name, 0, 255))),
        DataType::UInt16 => Some((integer, integer_range(name, 0, 65535))),
        DataType::UInt32 => Some((integer, integer_range(name, 0, 4294967295))),
        DataType::UInt64 => Some((blob, blob_check(name, Some(8)))),
        DataType::Float64 => Some((blob, blob_check(name, Some(8)))),
        DataType::Float32 => Some((blob, blob_check(name, Some(4)))),
        DataType::Decimal128(_, _) => Some((blob, blob_check(name, Some(16)))),
        DataType::Utf8 => Some(
            ("TEXT COLLATE BINARY".to_owned(), class_check(name, ") = 'text'")),
        ),
        DataType::Binary => Some((blob, blob_check(name, None))),
        DataType::List(_) => Some((blob, blob_check(name, None))),
        DataType::Struct(_) => Some((blob, blob_check(name, None))),
        DataType::Null => None,
        DataType::Other(_) => None,
    }
}

/// The definition of the column of a field, unless its type cannot be stored.
pub open spec fn column_sql(field: FieldModel) -> Option<Seq<char>> {
    let name = quoted(field.name);
    if field.data_type is Null {
        Some(name + " BLOB CHECK("@ + name + " IS NULL)"@)
    } else {
        match storage_of(name, field.data_type) {
            None => None,
            Some((class, check)) => if field.nullable {
                Some(
                    name + " "@ + class + " CHECK("@ + name + " IS NULL OR ("@ + check + "))"@,
                )
            } else {
                Some(name + " "@ + class + " NOT NULL CHECK("@ + check + ")"@)
            },
        }
    }
}

pub fn column_definition(field: &Field) -> (result: Result<String, SqliteSinkSchemaError>)
    ensures
        match result {
            Ok(text) => column_sql(field@) == Some(text@),
            Err(error) => {
                &&& column_sql(field@) is None
                &&& error@ == (SchemaErrorModel::UnsupportedType {
                    field: field.name@,
                    data_type: field.data_type@,
                })
            },
        },
{
    let name: String = quote_identifier(field.name.as_str());
    let mut text: String = name.clone();
    if let DataType::Null = &field.data_type {
        text.append(" BLOB CHECK(");
        text.append(name.as_str());
        text.append(" IS NULL)");
        return Ok(text);
    }
    match storage(name.as_str(), &field.data_type) {
        None => Err(
            SqliteSinkSchemaError::UnsupportedType {
                field: field.name.clone(),
                data_type: copy_type(&field.data_type),
            },
        ),
        Some((class, check)) => {
            text.append(" ");
            text.append(class.as_str());
            if field.nullable {
                text.append(" CHECK(");
                text.append(name.as_str());
                text.append(" IS NULL OR (");
                text.append(check.as_str());
                text.append("))");
            } else {
                text.append(" NOT NULL CHECK(");
                text.append(check.as_str());
                text.append(")");
            }
            Ok(text)
        },
    }
}

/// The numbered parameters from `first` to before `end`.
pub open spec fn parameters(first: nat, end: nat) -> Seq<Seq<char>> {
    Seq::new(
        if end >= first {
            (end - first) as nat
        } else {
            0
        },
        |i: int| "?"@ + decimal((first + i) as nat),
    )
}

fn parameter_list(first: u64, end: u64) -> (list: Vec<String>)
    ensures
        views(list@) == parameters(first as nat, end as nat),
{
    let mut list: Vec<String> = Vec::new();
    let mut next: u64 = first;
    assert(views(list@) =~= parameters(first as nat, first as nat));
    while next < end
        invariant
            first <= next,
            next <= end || first > end && next == first,
            views(list@) == parameters(first as nat, next as nat),
        decreases end - next,
    {
        let ghost before = list@;
        let mut text: String = "?".to_owned();
        push_decimal(&mut text, next);
        list.push(text);
        assert(views(list@) =~= views(before).push(text@));
        next += 1;
        assert(views(list@) =~= parameters(first as nat, next as nat));
    }
    assert(views(list@) =~= parameters(first as nat, end as nat));
    list
}

/// The quoted names of some fields.
pub open spec fn quoted_names(fields: Seq<FieldModel>) -> Seq<Seq<char>> {
    fields.map_values(|field: FieldModel| quoted(field.name))
}

fn quote_names(fields: &Vec<Field>) -> (names: Vec<String>)
    ensures
        views(names@) == quoted_names(field_models(*fields)),
{
    let mut names: Vec<String> = Vec::new();
    let ghost models = field_models(*fields);
    let mut index: usize = 0;
    assert(views(names@) =~= quoted_names(models).take(0));
    while index < fields.len()
        invariant
            models == field_models(*fields),
            index <= fields@.len(),
            views(names@) == quoted_names(models).take(index as int),
        decreases fields@.len() - index,
    {
        let ghost before = names@;
        let name: String = quote_identifier(fields[index].name.as_str());
        names.push(name);
        proof {
            assert(views(names@) =~= views(before).push(name@));
            assert(models[index as int] == fields@[index as int]@);
            assert(quoted_names(models)[index as int] == name@);
        }
        index += 1;
        assert(views(names@) =~= quoted_names(models).take(index as int));
    }
    assert(quoted_names(models).take(index as int) =~= quoted_names(models));
    names
}

/// The definitions of the two technical columns.
pub open spec fn technical_definitions() -> Seq<Seq<char>> {
    let hash = hash_column();
    seq![
        id_column() + " INTEGER PRIMARY KEY"@,
        hash + " BLOB NOT NULL CHECK(typeof("@ + hash + ") = 'blob' AND length("@ + hash
            + ") = 16)"@,
    ]
}

/// The definitions of the columns of the first `count` fields, behind the technical ones.
pub open spec fn definitions(fields: Seq<FieldModel>, count: int) -> Seq<Seq<char>>
    decreases count,
{
    if count <= 0 {
        technical_definitions()
    } else {
        definitions(fields, count - 1).push(column_sql(fields[count - 1])->0)
    }
}

/// The first of some fields whose type cannot be stored.
pub open spec fn first_unsupported(fields: Seq<FieldModel>, count: int) -> Option<FieldModel>
    decreases count,
{
    if count <= 0 {
        None
    } else {
        match first_unsupported(fields, count - 1) {
            Some(field) => Some(field),
            None => if column_sql(fields[count - 1]) is None {
                Some(fields[count - 1])
            } else {
                None
            },
        }
    }
}

proof fn lemma_unsupported_stays(fields: Seq<FieldModel>, low: int, high: int)
    requires
        low <= high,
        first_unsupported(fields, low) is Some,
    ensures
        first_unsupported(fields, high) == first_unsupported(fields, low),
    decreases high - low,
{
    if low < high {
        lemma_unsupported_stays(fields, low, high - 1);
    }
}

/// The name of the hash index of a table.
pub open spec fn index_of(table: Seq<char>) -> Seq<char> {
    "$dogpaddle.hash_index."@ + table
}

/// The statement that creates the table.
pub open spec fn create_table_sql(table: Seq<char>, fields: Seq<FieldModel>) -> Seq<char> {
    "CREATE TABLE "@ + quoted(table) + " ("@ + joined(
        definitions(fields, fields.len() as int),
        ", "@,
    ) + ") STRICT"@
}

/// The statement that creates the hash index.
pub open spec fn create_index_sql(table: Seq<char>) -> Seq<char> {
    "CREATE INDEX "@ + quoted(index_of(table)) + " ON "@ + quoted(table) + "("@ + hash_column()
        + ")"@
}

/// The statement that inserts a row, unless its ID is there already.
pub open spec fn insert_sql(table: Seq<char>, fields: Seq<FieldModel>) -> Seq<char> {
    "INSERT INTO "@ + quoted(table) + " ("@ + joined(
        seq![id_column(), hash_column()] + quoted_names(fields),
        ", "@,
    ) + ") VALUES ("@ + joined(parameters(1, fields.len() + 3), ", "@) + ") ON CONFLICT("@
        + id_column() + ") DO NOTHING"@
}

/// The condition that a stored row is the given one, hash and values alike.
pub open spec fn row_predicate(fields: Seq<FieldModel>) -> Seq<char> {
    "("@ + joined(seq![hash_column()] + quoted_names(fields), ", "@) + ") IS ("@ + joined(
        parameters(1, fields.len() + 2),
        ", "@,
    ) + ")"@
}

/// The statement that selects the smallest IDs of a row.
pub open spec fn select_sql(table: Seq<char>, fields: Seq<FieldModel>) -> Seq<char> {
    "SELECT "@ + id_column() + " FROM "@ + quoted(table) + " WHERE "@ + row_predicate(fields)
        + " ORDER BY "@ + id_column() + " LIMIT ?"@ + decimal(fields.len() + 2)
}

/// The statement that counts the instances of a row up to a limit.
pub open spec fn count_sql(table: Seq<char>, fields: Seq<FieldModel>) -> Seq<char> {
    "SELECT COUNT(*) FROM (SELECT 1 FROM "@ + quoted(table) + " WHERE "@ + row_predicate(fields)
        + " LIMIT ?"@ + decimal(fields.len() + 2) + ")"@
}

/// The SQL of one relation.
#[derive(Debug)]
pub struct SqlPlan {
    pub table_name: String,
    pub index_name: String,
    pub create_table: String,
    pub create_index: String,
    pub insert: String,
    pub select_matching_ids: String,
    pub count_matches: String,
    pub delete_prefix: String,
    pub has_rows: String,
}

impl SqlPlan {
    /// The plan holds the statements for `table` with these fields.
    pub open spec fn speaks_of(&self, table: Seq<char>, fields: Seq<FieldModel>) -> bool {
        &&& self.table_name@ == table
        &&& self.index_name@ == index_of(table)
        &&& self.create_table@ == create_table_sql(table, fields)
        &&& self.create_index@ == create_index_sql(table)
        &&& self.insert@ == insert_sql(table, fields)
        &&& self.select_matching_ids@ == select_sql(table, fields)
        &&& self.count_matches@ == count_sql(table, fields)
        &&& self.delete_prefix@ == "DELETE FROM "@ + quoted(table) + " WHERE "@ + id_column()
            + " IN "@
        &&& self.has_rows@ == "SELECT EXISTS(SELECT 1 FROM "@ + quoted(table) + " LIMIT 1)"@
    }

    pub fn try_new(table_name: &str, schema: &Schema) -> (result: Result<
        SqlPlan,
        SqliteSinkSchemaError,
    >)
        requires
            schema.fields@.len() < 0x1_0000_0000,
        ensures
            match result {
                Ok(plan) => {
                    &&& first_unsupported(schema@.fields, schema@.fields.len() as int) is None
                    &&& plan.speaks_of(table_name@, schema@.fields)
                },
                Err(error) => {
                    &&& first_unsupported(schema@.fields, schema@.fields.len() as int) is Some
                    &&& error@ == (SchemaErrorModel::UnsupportedType {
                        field: first_unsupported(schema@.fields, schema@.fields.len() as int)->0.name,
                        data_type: first_unsupported(schema@.fields, schema@.fields.len() as int)->0.data_type,
                    })
                },
            },
    {
        let ghost fields = schema@.fields;
        let quoted_table: String = quote_identifier(table_name);
        let index_name: String = join_two("$dogpaddle.hash_index.", table_name);
        let quoted_index: String = quote_identifier(index_name.as_str());
        let quoted_id: String = quote_identifier("$dogpaddle.id");
        let quoted_hash: String = quote_identifier("$dogpaddle.hash");

        let mut columns: Vec<String> = Vec::new();
        columns.push(join_two(quoted_id.as_str(), " INTEGER PRIMARY KEY"));
        let mut hash_definition: String = quoted_hash.clone();
        hash_definition.append(" BLOB NOT NULL CHECK(typeof(");
        hash_definition.append(quoted_hash.as_str());
        hash_definition.append(") = 'blob' AND length(");
        hash_definition.append(quoted_hash.as_str());
        hash_definition.append(") = 16)");
        columns.push(hash_definition);
        assert(views(columns@) =~= technical_definitions());
        let mut index: usize = 0;
        while index < schema.fields.len()
            invariant
                fields == schema@.fields,
                fields.len() == schema.fields@.len(),
                index <= fields.len(),
                first_unsupported(fields, index as int) is None,
                views(columns@) == definitions(fields, index as int),
            decreases fields.len() - index,
        {
            assert(fields[index as int] == schema.fields@[index as int]@);
            let ghost before = columns@;
            match column_definition(&schema.fields[index]) {
                Ok(text) => {
                    columns.push(text);
                    assert(views(columns@) =~= views(before).push(text@));
                },
                Err(error) => {
                    proof {
                        lemma_unsupported_stays(fields, index + 1, fields.len() as int);
                    }
                    return Err(error);
                },
            }
            index += 1;
        }
        let mut create_table: String = "CREATE TABLE ".to_owned();
        create_table.append(quoted_table.as_str());
        create_table.append(" (");
        create_table.append(join(columns.as_slice(), ", ").as_str());
        create_table.append(") STRICT");

        let mut create_index: String = "CREATE INDEX ".to_owned();
        create_index.append(quoted_index.as_str());
        create_index.append(" ON ");
        create_index.append(quoted_table.as_str());
        create_index.append("(");
        create_index.append(quoted_hash.as_str());
        create_index.append(")");

        let logical: Vec<String> = quote_names(&schema.fields);
        let count: u64 = schema.fields.len() as u64;
        let mut all: Vec<String> = Vec::new();
        all.push(quoted_id.clone());
        all.push(quoted_hash.clone());
        assert(views(all@) =~= seq![id_column(), hash_column()]);
        push_texts(&mut all, &logical);
        let mut insert: String = "INSERT INTO ".to_owned();
        insert.append(quoted_table.as_str());
        insert.append(" (");
        insert.append(join(all.as_slice(), ", ").as_str());
        insert.append(") VALUES (");
        insert.append(join(parameter_list(1, count + 3).as_slice(), ", ").as_str());
        insert.append(") ON CONFLICT(");
        insert.append(quoted_id.as_str());
        insert.append(") DO NOTHING");

        let mut row: Vec<String> = Vec::new();
        row.push(quoted_hash.clone());
        assert(views(row@) =~= seq![hash_column()]);
        push_texts(&mut row, &logical);
        let mut predicate: String = "(".to_owned();
        predicate.append(join(row.as_slice(), ", ").as_str());
        predicate.append(") IS (");
        predicate.append(join(parameter_list(1, count + 2).as_slice(), ", ").as_str());
        predicate.append(")");

        let limit: String = decimal_text(count + 2);
        let mut select_matching_ids: String = "SELECT ".to_owned();
        select_matching_ids.append(quoted_id.as_str());
        select_matching_ids.append(" FROM ");
        select_matching_ids.append(quoted_table.as_str());
        select_matching_ids.append(" WHERE ");
        select_matching_ids.append(predicate.as_str());
        select_matching_ids.append(" ORDER BY ");
        select_matching_ids.append(quoted_id.as_str());
        select_matching_ids.append(" LIMIT ?");
        select_matching_ids.append(limit.as_str());

        let mut count_matches: String = "SELECT COUNT(*) FROM (SELECT 1 FROM ".to_owned();
        count_matches.append(quoted_table.as_str());
        count_matches.append(" WHERE ");
        count_matches.append(predicate.as_str());
        count_matches.append(" LIMIT ?");
        count_matches.append(limit.as_str());
        count_matches.append(")");

        let mut delete_prefix: String = "DELETE FROM ".to_owned();
        delete_prefix.append(quoted_table.as_str());
        delete_prefix.append(" WHERE ");
        delete_prefix.append(quoted_id.as_str());
        delete_prefix.append(" IN ");

        let mut has_rows: String = "SELECT EXISTS(SELECT 1 FROM ".to_owned();
        has_rows.append(quoted_table.as_str());
        has_rows.append(" LIMIT 1)");

        Ok(
            SqlPlan {
                table_name: table_name.to_owned(),
                index_name,
                create_table,
                create_index,
                insert,
                select_matching_ids,
                count_matches,
                delete_prefix,
                has_rows,
            },
        )
    }
}

} // verus!
