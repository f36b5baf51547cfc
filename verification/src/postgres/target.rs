//! The SQL of a PostgreSQL relation: its layout, and the statements that read and write it.

use crate::postgres::config::{hash_index_name, primary_key_name, PostgresTargetSpec, SpecModel};
use crate::postgres::schema::{
    check_text, column_views, sql_name, ColumnCheck, ColumnLayout, ColumnModel, PostgresLayout,
    StorageType, MAX_LOGICAL_COLUMNS,
};
use crate::relation::batch::MAX_MUTATIONS_PER_BATCH;
use crate::relation::row::{blake3_digest, blake3_hash};
use crate::sqlite::target::{quote_identifier, quoted};
use crate::text::{
    decimal, hex, hex_four, hex_four_text, hex_of, join, join_two, joined, push_decimal, push_texts,
    replace, replaced, views,
};
use vstd::prelude::*;
use vstd::utf8::encode_utf8;

verus! {

/// An object of a schema.
pub open spec fn qualified_name(schema: Seq<char>, object: Seq<char>) -> Seq<char> {
    quoted(schema) + "."@ + quoted(object)
}

fn qualified(schema: &str, object: &str) -> (text: String)
    ensures
        text@ == qualified_name(schema@, object@),
{
    let mut text: String = quote_identifier(schema);
    text.append(".");
    text.append(quote_identifier(object).as_str());
    text
}

/// A text in single quotes, its own quotes doubled.
pub open spec fn literal(value: Seq<char>) -> Seq<char> {
    "'"@ + replaced(value, '\'', "''"@) + "'"@
}

fn quote_literal(value: &str) -> (text: String)
    ensures
        text@ == literal(value@),
{
    let mut text: String = "'".to_owned();
    text.append(replace(value, '\'', "''").as_str());
    text.append("'");
    text
}

/// The column of the technical ID.
pub open spec fn id_name() -> Seq<char> {
    quoted("$dogpaddle.id"@)
}

/// The column of the row hash.
pub open spec fn hash_name() -> Seq<char> {
    quoted("$dogpaddle.hash"@)
}

/// What the values of a column must satisfy, if anything.
pub open spec fn condition_of(name: Seq<char>, column: ColumnModel) -> Option<Seq<char>> {
    match check_text(column.check) {
        Some(check) => Some(name + " "@ + check),
        None => match column.storage {
            StorageType::Bytes(Some(length)) => Some(
                "octet_length("@ + name + ") = "@ + decimal(length as nat),
            ),
            _ => None,
        },
    }
}

fn condition(name: &str, column: &ColumnLayout) -> (text: Option<String>)
    ensures
        match text {
            Some(text) => condition_of(name@, column@) == Some(text@),
            None => condition_of(name@, column@) is None,
        },
{
    match column.check.sql() {
        Some(check) => {
            let mut text: String = name.to_owned();
            text.append(" ");
            text.append(check);
            Some(text)
        },
        None => match column.storage {
            StorageType::Bytes(Some(length)) => {
                let mut text: String = "octet_length(".to_owned();
                text.append(name);
                text.append(") = ");
                push_decimal(&mut text, length);
                Some(text)
            },
            _ => None,
        },
    }
}

/// The name of the constraint on the column at `index`.
pub open spec fn constraint_name(index: nat, sink_id: Seq<char>) -> Seq<char> {
    "$dogpaddle.c."@ + hex_four(index) + "."@ + sink_id
}

/// The type of a column, and whether it may be null.
pub open spec fn column_head(column: ColumnModel) -> Seq<char> {
    let head = quoted(column.name) + " "@ + sql_name(column.storage);
    if column.nullable {
        head
    } else {
        head + " NOT NULL"@
    }
}

/// The definition of the column at `index`.
pub open spec fn column_sql(index: nat, column: ColumnModel, sink_id: Seq<char>) -> Seq<char> {
    let name = quoted(column.name);
    match condition_of(name, column) {
        None => column_head(column),
        Some(condition) => {
            let checked = if column.nullable && column.check != ColumnCheck::Null {
                name + " IS NULL OR ("@ + condition + ")"@
            } else {
                condition
            };
            column_head(column) + " CONSTRAINT "@ + quoted(constraint_name(index, sink_id))
                + " CHECK ("@ + checked + ")"@
        },
    }
}

fn column_definition(index: u16, column: &ColumnLayout, sink_id: &str) -> (text: String)
    ensures
        text@ == column_sql(index as nat, column@, sink_id@),
{
    let name: String = quote_identifier(column.name.as_str());
    let mut text: String = name.clone();
    text.append(" ");
    text.append(column.storage.sql());
    if !column.nullable {
        text.append(" NOT NULL");
    }
    match condition(name.as_str(), column) {
        None => text,
        Some(condition) => {
            let mut constraint: String = "$dogpaddle.c.".to_owned();
            constraint.append(hex_four_text(index).as_str());
            constraint.append(".");
            constraint.append(sink_id);
            let checked: String = if column.nullable && column.check != ColumnCheck::Null {
                let mut checked: String = name.clone();
                checked.append(" IS NULL OR (");
                checked.append(condition.as_str());
                checked.append(")");
                checked
            } else {
                condition
            };
            text.append(" CONSTRAINT ");
            text.append(quote_identifier(constraint.as_str()).as_str());
            text.append(" CHECK (");
            text.append(checked.as_str());
            text.append(")");
            text
        },
    }
}

/// The definitions of the two technical columns and of the first `count` columns.
pub open spec fn column_definitions(
    columns: Seq<ColumnModel>,
    sink_id: Seq<char>,
    count: int,
) -> Seq<Seq<char>>
    decreases count,
{
    if count <= 0 {
        seq![id_name() + " bigint NOT NULL"@, hash_name() + " bytea NOT NULL"@]
    } else {
        column_definitions(columns, sink_id, count - 1).push(
            column_sql((count - 1) as nat, columns[count - 1], sink_id),
        )
    }
}

/// The constraints of the table as a whole.
pub open spec fn table_constraints(sink_id: Seq<char>) -> Seq<Seq<char>> {
    seq![
        "CONSTRAINT "@ + quoted(primary_key_name(sink_id)) + " PRIMARY KEY ("@ + id_name() + ")"@,
        "CONSTRAINT "@ + quoted("$dogpaddle.id_check."@ + sink_id) + " CHECK ("@ + id_name()
            + " > 0)"@,
        "CONSTRAINT "@ + quoted("$dogpaddle.hash_check."@ + sink_id) + " CHECK (octet_length("@
            + hash_name() + ") = 16)"@,
    ]
}

/// The statement that creates the table.
pub open spec fn create_target_sql(model: SpecModel, columns: Seq<ColumnModel>) -> Seq<char> {
    "CREATE TABLE "@ + qualified_name(model.schema, model.table) + " ("@ + joined(
        column_definitions(columns, model.sink_id, columns.len() as int) + table_constraints(
            model.sink_id,
        ),
        ", "@,
    ) + ")"@
}

/// The statement that creates the hash index.
pub open spec fn create_index_sql(model: SpecModel) -> Seq<char> {
    "CREATE INDEX "@ + quoted(hash_index_name(model.sink_id)) + " ON "@ + qualified_name(
        model.schema,
        model.table,
    ) + " USING btree ("@ + hash_name() + ", "@ + id_name() + ")"@
}

/// The mark by which a layout is recognised: a digest of the statements that create it.
pub open spec fn marker_text(model: SpecModel, columns: Seq<ColumnModel>) -> Seq<char> {
    "dogpaddle.postgres-relation.v2:"@ + hex_of(
        blake3_digest(
            encode_utf8(
                create_target_sql(model, columns) + "\0"@ + create_index_sql(model),
            ),
        ),
    )
}

/// The statements that create the layout and mark it.
pub open spec fn initialize_sql(model: SpecModel, columns: Seq<ColumnModel>) -> Seq<char> {
    let mark = literal(marker_text(model, columns));
    create_target_sql(model, columns) + "; "@ + create_index_sql(model) + "; COMMENT ON TABLE "@
        + qualified_name(model.schema, model.table) + " IS "@ + mark + "; COMMENT ON INDEX "@
        + qualified_name(model.schema, primary_key_name(model.sink_id)) + " IS "@ + mark
        + "; COMMENT ON INDEX "@ + qualified_name(model.schema, hash_index_name(model.sink_id))
        + " IS "@ + mark
}

/// The quoted names of some columns.
pub open spec fn quoted_columns(columns: Seq<ColumnModel>) -> Seq<Seq<char>> {
    columns.map_values(|column: ColumnModel| quoted(column.name))
}

/// The types of some columns.
pub open spec fn column_types(columns: Seq<ColumnModel>) -> Seq<Seq<char>> {
    columns.map_values(|column: ColumnModel| sql_name(column.storage))
}

/// The names of the request columns that stand for logical columns.
pub open spec fn request_columns(count: nat) -> Seq<Seq<char>> {
    Seq::new(count, |i: int| "c"@ + decimal(i as nat))
}

/// The condition that a stored row has the values of the request.
pub open spec fn exact_match(names: Seq<Seq<char>>, count: int) -> Seq<char>
    decreases count,
{
    if count <= 0 {
        Seq::empty()
    } else {
        exact_match(names, count - 1) + " AND (target."@ + names[count - 1] + " = request.c"@
            + decimal((count - 1) as nat) + " OR (target."@ + names[count - 1]
            + " IS NULL AND request.c"@ + decimal((count - 1) as nat) + " IS NULL))"@
    }
}

/// The condition that a stored row has not the expected values.
pub open spec fn differs(names: Seq<Seq<char>>, count: int) -> Seq<char>
    decreases count,
{
    if count <= 0 {
        Seq::empty()
    } else {
        differs(names, count - 1) + " OR target."@ + names[count - 1]
            + " IS DISTINCT FROM expected.c"@ + decimal((count - 1) as nat)
    }
}

/// Where the instances of a requested row are found.
pub open spec fn matching_sql(model: SpecModel, columns: Seq<ColumnModel>) -> Seq<char> {
    "FROM ONLY "@ + qualified_name(model.schema, model.table) + " AS target WHERE target."@
        + hash_name() + " = request.hash"@ + exact_match(
        quoted_columns(columns),
        columns.len() as int,
    )
}

/// What stands before the requested rows in a lookup.
pub open spec fn lookup_head(model: SpecModel, columns: Seq<ColumnModel>) -> Seq<char> {
    "SELECT request.n, CASE WHEN cardinality(selected.ids) = request.take AND request.needed > request.take THEN (SELECT count(*) FROM (SELECT 1 "@
        + matching_sql(model, columns)
        + " LIMIT request.needed) AS counted) ELSE cardinality(selected.ids)::bigint END, selected.ids FROM (VALUES "@
}

/// What stands behind the requested rows in a lookup.
pub open spec fn lookup_tail(model: SpecModel, columns: Seq<ColumnModel>) -> Seq<char> {
    ") AS request ("@ + joined(
        seq!["n"@, "needed"@, "take"@, "hash"@] + request_columns(columns.len()),
        ", "@,
    ) + ") CROSS JOIN LATERAL (SELECT ARRAY(SELECT target."@ + id_name() + " "@ + matching_sql(
        model,
        columns,
    ) + " ORDER BY target."@ + id_name()
        + " LIMIT request.take) AS ids OFFSET 0) AS selected ORDER BY request.n"@
}

/// What stands behind the expected rows in a search for other rows under the same IDs.
pub open spec fn mismatch_tail(model: SpecModel, columns: Seq<ColumnModel>) -> Seq<char> {
    ") AS expected ("@ + joined(
        seq!["ids"@, "hash"@] + request_columns(columns.len()),
        ", "@,
    ) + ") JOIN ONLY "@ + qualified_name(model.schema, model.table) + " AS target ON target."@
        + id_name() + " = ANY(expected.ids) WHERE target."@ + hash_name()
        + " IS DISTINCT FROM expected.hash"@ + differs(
        quoted_columns(columns),
        columns.len() as int,
    ) + ")"@
}

/// What stands before the rows of an insertion.
pub open spec fn insert_head(model: SpecModel, columns: Seq<ColumnModel>) -> Seq<char> {
    "INSERT INTO "@ + qualified_name(model.schema, model.table) + " ("@ + joined(
        seq![id_name(), hash_name()] + quoted_columns(columns),
        ", "@,
    ) + ") VALUES "@
}

/// The parameters of the row at `row`, each with its type.
pub open spec fn row_parameters(row: nat, types: Seq<Seq<char>>) -> Seq<Seq<char>> {
    Seq::new(
        types.len(),
        |c: int| "$"@ + decimal((row * types.len() + c + 1) as nat) + "::"@ + types[c],
    )
}

/// The row at `row` as a tuple, behind its number where it has one.
pub open spec fn row_tuple(row: nat, types: Seq<Seq<char>>, ordinal: bool) -> Seq<char> {
    let parameters = joined(row_parameters(row, types), ", "@);
    if ordinal {
        "("@ + decimal(row) + ", "@ + parameters + ")"@
    } else {
        "("@ + parameters + ")"@
    }
}

/// Rows as tuples.
pub open spec fn row_tuples(rows: nat, types: Seq<Seq<char>>, ordinal: bool) -> Seq<char> {
    joined(Seq::new(rows, |r: int| row_tuple(r as nat, types, ordinal)), ", "@)
}

fn tuple_text(row: u64, types: &Vec<String>, ordinal: bool) -> (text: String)
    requires
        row * types@.len() + types@.len() + 1 <= u64::MAX,
    ensures
        text@ == row_tuple(row as nat, views(types@), ordinal),
{
    let ghost names = views(types@);
    let mut parameters: Vec<String> = Vec::new();
    let mut column: usize = 0;
    let first: u64 = row * types.len() as u64;
    assert(views(parameters@) =~= row_parameters(row as nat, names).take(0));
    while column < types.len()
        invariant
            names == views(types@),
            column <= types@.len(),
            first == row * types@.len(),
            first + types@.len() + 1 <= u64::MAX,
            views(parameters@) == row_parameters(row as nat, names).take(column as int),
        decreases types@.len() - column,
    {
        let ghost before = parameters@;
        let mut text: String = "$".to_owned();
        push_decimal(&mut text, first + column as u64 + 1);
        text.append("::");
        text.append(types[column].as_str());
        parameters.push(text);
        proof {
            assert(views(parameters@) =~= views(before).push(text@));
            assert(names[column as int] == types@[column as int]@);
            assert(row_parameters(row as nat, names)[column as int] == text@);
            assert(views(parameters@) =~= row_parameters(row as nat, names).take(column + 1));
        }
        column += 1;
    }
    assert(row_parameters(row as nat, names).take(column as int) =~= row_parameters(
        row as nat,
        names,
    ));
    let mut text: String = "(".to_owned();
    if ordinal {
        push_decimal(&mut text, row);
        text.append(", ");
    }
    text.append(join(parameters.as_slice(), ", ").as_str());
    text.append(")");
    text
}

/// Rows as tuples of numbered parameters.
fn write_values(rows: usize, types: &Vec<String>, ordinal: bool) -> (text: String)
    requires
        rows * types@.len() <= 0x1_0000,
        rows <= 0x1_0000,
        types@.len() <= 0x1_0000,
    ensures
        text@ == row_tuples(rows as nat, views(types@), ordinal),
{
    let ghost names = views(types@);
    let ghost expected = Seq::new(rows as nat, |r: int| row_tuple(r as nat, names, ordinal));
    let mut tuples: Vec<String> = Vec::new();
    let mut row: usize = 0;
    assert(views(tuples@) =~= expected.take(0));
    while row < rows
        invariant
            names == views(types@),
            expected == Seq::new(rows as nat, |r: int| row_tuple(r as nat, names, ordinal)),
            row <= rows <= 0x1_0000,
            types@.len() <= 0x1_0000,
            views(tuples@) == expected.take(row as int),
        decreases rows - row,
    {
        let ghost before = tuples@;
        assert(row * types@.len() <= 0x1_0000 * 0x1_0000) by (nonlinear_arith)
            requires
                0 <= row <= 0x1_0000,
                0 <= types@.len() <= 0x1_0000,
        ;
        let tuple: String = tuple_text(row as u64, types, ordinal);
        tuples.push(tuple);
        proof {
            assert(views(tuples@) =~= views(before).push(tuple@));
            assert(expected[row as int] == tuple@);
            assert(views(tuples@) =~= expected.take(row + 1));
        }
        row += 1;
    }
    assert(expected.take(row as int) =~= expected);
    join(tuples.as_slice(), ", ")
}

/// The SQL of one relation.
#[derive(Debug)]
pub struct SqlPlan {
    pub table_name: String,
    pub marker: String,
    pub initialize: String,
    pub insert_prefix: String,
    pub insert_suffix: String,
    pub parameter_types: Vec<String>,
    pub lookup_prefix: String,
    pub lookup_suffix: String,
    pub mismatch_suffix: String,
    pub delete: String,
    pub target_empty: String,
}

/// How many rows with `width` parameters each fit one statement.
pub open spec fn rows_per_statement(width: nat) -> nat {
    let fit = 65535nat / width;
    if fit <= MAX_MUTATIONS_PER_BATCH {
        fit
    } else {
        MAX_MUTATIONS_PER_BATCH as nat
    }
}

fn rows_fitting(width: usize) -> (rows: usize)
    requires
        width > 0,
    ensures
        rows == rows_per_statement(width as nat),
{
    let fit: usize = 65535 / width;
    if fit <= MAX_MUTATIONS_PER_BATCH {
        fit
    } else {
        MAX_MUTATIONS_PER_BATCH
    }
}

proof fn lemma_rows_fit(width: nat, rows: nat)
    requires
        width > 0,
        rows <= rows_per_statement(width),
    ensures
        rows * width <= 65535,
        rows <= 1024,
{
    assert(rows * width <= 65535) by (nonlinear_arith)
        requires
            width > 0,
            rows <= 65535nat / width,
    ;
}

impl SqlPlan {
    /// The plan holds the statements for a target with these columns.
    pub open spec fn speaks_of(&self, model: SpecModel, columns: Seq<ColumnModel>) -> bool {
        let target = qualified_name(model.schema, model.table);
        &&& self.table_name@ == model.table
        &&& self.marker@ == marker_text(model, columns)
        &&& self.initialize@ == initialize_sql(model, columns)
        &&& self.insert_prefix@ == insert_head(model, columns)
        &&& self.insert_suffix@ == " ON CONFLICT ("@ + id_name() + ") DO NOTHING"@
        &&& views(self.parameter_types@) == seq!["bigint"@, "bytea"@] + column_types(columns)
        &&& self.lookup_prefix@ == lookup_head(model, columns)
        &&& self.lookup_suffix@ == lookup_tail(model, columns)
        &&& self.mismatch_suffix@ == mismatch_tail(model, columns)
        &&& self.delete@ == "DELETE FROM ONLY "@ + target + " WHERE "@ + id_name()
            + " = ANY($1::bigint[])"@
        &&& self.target_empty@ == "SELECT NOT EXISTS(SELECT 1 FROM ONLY "@ + target + ")"@
    }

    /// At least the two technical parameters, and not more than a table has columns.
    pub open spec fn wf(&self) -> bool {
        2 <= self.parameter_types@.len() <= 2 + MAX_LOGICAL_COLUMNS
    }

    pub fn insert_batch_size(&self) -> (rows: usize)
        requires
            self.wf(),
        ensures
            rows == rows_per_statement(self.parameter_types@.len()),
    {
        rows_fitting(self.parameter_types.len())
    }

    pub fn lookup_batch_size(&self) -> (rows: usize)
        requires
            self.wf(),
        ensures
            rows == rows_per_statement(self.parameter_types@.len() + 1),
    {
        rows_fitting(self.parameter_types.len() + 1)
    }

    pub fn mismatch_batch_size(&self) -> (rows: usize)
        requires
            self.wf(),
        ensures
            rows == rows_per_statement(self.parameter_types@.len()),
    {
        rows_fitting(self.parameter_types.len())
    }

    /// The statement that inserts `rows` rows.
    pub fn insert_statement(&self, rows: usize) -> (text: String)
        requires
            self.wf(),
            1 <= rows <= rows_per_statement(self.parameter_types@.len()),
        ensures
            text@ == self.insert_prefix@ + row_tuples(
                rows as nat,
                views(self.parameter_types@),
                false,
            ) + self.insert_suffix@,
    {
        proof {
            lemma_rows_fit(self.parameter_types@.len(), rows as nat);
        }
        let mut text: String = self.insert_prefix.clone();
        text.append(write_values(rows, &self.parameter_types, false).as_str());
        text.append(self.insert_suffix.as_str());
        text
    }

    /// The statement that looks `rows` rows up.
    pub fn lookup_statement(&self, rows: usize) -> (text: String)
        requires
            self.wf(),
            1 <= rows <= rows_per_statement(self.parameter_types@.len() + 1),
        ensures
            text@ == self.lookup_prefix@ + row_tuples(
                rows as nat,
                seq!["bigint"@] + views(self.parameter_types@),
                true,
            ) + self.lookup_suffix@,
    {
        let mut types: Vec<String> = Vec::new();
        types.push("bigint".to_owned());
        assert(views(types@) =~= seq!["bigint"@]);
        push_texts(&mut types, &self.parameter_types);
        proof {
            assert(views(types@).len() == types@.len());
            assert(views(self.parameter_types@).len() == self.parameter_types@.len());
            lemma_rows_fit(self.parameter_types@.len() + 1, rows as nat);
        }
        let mut text: String = self.lookup_prefix.clone();
        text.append(write_values(rows, &types, true).as_str());
        text.append(self.lookup_suffix.as_str());
        text
    }

    /// The statement that finds out whether one of `rows` rows would meet other values under
    /// one of its IDs.
    pub fn mismatch_statement(&self, rows: usize) -> (text: String)
        requires
            self.wf(),
            1 <= rows <= rows_per_statement(self.parameter_types@.len()),
        ensures
            text@ == "SELECT EXISTS(SELECT 1 FROM (VALUES "@ + row_tuples(
                rows as nat,
                views(self.parameter_types@).update(0, "bigint[]"@),
                false,
            ) + self.mismatch_suffix@,
    {
        let mut types: Vec<String> = Vec::new();
        push_texts(&mut types, &self.parameter_types);
        proof {
            assert(views(types@) =~= views(self.parameter_types@));
            assert(views(types@).len() == types@.len());
            assert(views(self.parameter_types@).len() == self.parameter_types@.len());
            lemma_rows_fit(self.parameter_types@.len(), rows as nat);
        }
        let ghost before = types@;
        let arrays: String = "bigint[]".to_owned();
        types.set(0, arrays);
        assert(views(types@) =~= views(before).update(0, arrays@));
        let mut text: String = "SELECT EXISTS(SELECT 1 FROM (VALUES ".to_owned();
        text.append(write_values(rows, &types, false).as_str());
        text.append(self.mismatch_suffix.as_str());
        text
    }
}

fn quote_columns(columns: &Vec<ColumnLayout>) -> (names: Vec<String>)
    ensures
        views(names@) == quoted_columns(column_views(columns@)),
{
    let ghost models = column_views(columns@);
    let mut names: Vec<String> = Vec::new();
    let mut index: usize = 0;
    assert(views(names@) =~= quoted_columns(models).take(0));
    while index < columns.len()
        invariant
            models == column_views(columns@),
            index <= columns@.len(),
            views(names@) == quoted_columns(models).take(index as int),
        decreases columns@.len() - index,
    {
        let ghost before = names@;
        let name: String = quote_identifier(columns[index].name.as_str());
        names.push(name);
        proof {
            assert(views(names@) =~= views(before).push(name@));
            assert(models[index as int] == columns@[index as int]@);
            assert(quoted_columns(models)[index as int] == name@);
            assert(views(names@) =~= quoted_columns(models).take(index + 1));
        }
        index += 1;
    }
    assert(quoted_columns(models).take(index as int) =~= quoted_columns(models));
    names
}

fn type_list(columns: &Vec<ColumnLayout>) -> (types: Vec<String>)
    ensures
        views(types@) == seq!["bigint"@, "bytea"@] + column_types(column_views(columns@)),
        types@.len() == 2 + columns@.len(),
{
    let ghost models = column_views(columns@);
    let ghost fixed = seq!["bigint"@, "bytea"@];
    let mut types: Vec<String> = Vec::new();
    types.push("bigint".to_owned());
    types.push("bytea".to_owned());
    let mut index: usize = 0;
    assert(views(types@) =~= fixed + column_types(models).take(0));
    while index < columns.len()
        invariant
            models == column_views(columns@),
            index <= columns@.len(),
            types@.len() == 2 + index,
            views(types@) == fixed + column_types(models).take(index as int),
        decreases columns@.len() - index,
    {
        let ghost before = types@;
        let text: String = columns[index].storage.sql().to_owned();
        types.push(text);
        proof {
            assert(views(types@) =~= views(before).push(text@));
            assert(models[index as int] == columns@[index as int]@);
            assert(column_types(models)[index as int] == text@);
            assert(views(types@) =~= fixed + column_types(models).take(index + 1));
        }
        index += 1;
    }
    assert(column_types(models).take(index as int) =~= column_types(models));
    types
}

fn request_list(first: Vec<String>, count: usize) -> (names: Vec<String>)
    ensures
        views(names@) == views(first@) + request_columns(count as nat),
{
    let ghost fixed = views(first@);
    let mut names: Vec<String> = first;
    let mut index: usize = 0;
    assert(views(names@) =~= fixed + request_columns(0));
    while index < count
        invariant
            index <= count,
            views(names@) == fixed + request_columns(index as nat),
        decreases count - index,
    {
        let ghost before = names@;
        let mut text: String = "c".to_owned();
        push_decimal(&mut text, index as u64);
        names.push(text);
        index += 1;
        proof {
            assert(views(names@) =~= views(before).push(text@));
            assert(views(names@) =~= fixed + request_columns(index as nat));
        }
    }
    names
}

fn exact_text(names: &Vec<String>) -> (text: String)
    ensures
        text@ == exact_match(views(names@), names@.len() as int),
{
    let mut text: String = String::new();
    let mut index: usize = 0;
    while index < names.len()
        invariant
            index <= names@.len(),
            text@ == exact_match(views(names@), index as int),
        decreases names@.len() - index,
    {
        assert(views(names@)[index as int] == names@[index as int]@);
        text.append(" AND (target.");
        text.append(names[index].as_str());
        text.append(" = request.c");
        push_decimal(&mut text, index as u64);
        text.append(" OR (target.");
        text.append(names[index].as_str());
        text.append(" IS NULL AND request.c");
        push_decimal(&mut text, index as u64);
        text.append(" IS NULL))");
        index += 1;
    }
    text
}

fn differs_text(names: &Vec<String>) -> (text: String)
    ensures
        text@ == differs(views(names@), names@.len() as int),
{
    let mut text: String = String::new();
    let mut index: usize = 0;
    while index < names.len()
        invariant
            index <= names@.len(),
            text@ == differs(views(names@), index as int),
        decreases names@.len() - index,
    {
        assert(views(names@)[index as int] == names@[index as int]@);
        text.append(" OR target.");
        text.append(names[index].as_str());
        text.append(" IS DISTINCT FROM expected.c");
        push_decimal(&mut text, index as u64);
        index += 1;
    }
    text
}

fn definition_list(columns: &Vec<ColumnLayout>, sink_id: &str) -> (definitions: Vec<String>)
    requires
        columns@.len() <= MAX_LOGICAL_COLUMNS,
    ensures
        views(definitions@) == column_definitions(
            column_views(columns@),
            sink_id@,
            columns@.len() as int,
        ),
{
    let ghost models = column_views(columns@);
    let mut definitions: Vec<String> = Vec::new();
    definitions.push(join_two(quote_identifier("$dogpaddle.id").as_str(), " bigint NOT NULL"));
    definitions.push(join_two(quote_identifier("$dogpaddle.hash").as_str(), " bytea NOT NULL"));
    let mut index: usize = 0;
    assert(views(definitions@) =~= column_definitions(models, sink_id@, 0));
    while index < columns.len()
        invariant
            models == column_views(columns@),
            columns@.len() <= MAX_LOGICAL_COLUMNS,
            index <= columns@.len(),
            views(definitions@) == column_definitions(models, sink_id@, index as int),
        decreases columns@.len() - index,
    {
        let ghost before = definitions@;
        assert(models[index as int] == columns@[index as int]@);
        let text: String = column_definition(index as u16, &columns[index], sink_id);
        definitions.push(text);
        assert(views(definitions@) =~= views(before).push(text@));
        index += 1;
    }
    definitions
}

fn constraint_list(sink_id: &str) -> (constraints: Vec<String>)
    ensures
        views(constraints@) == table_constraints(sink_id@),
{
    let id: String = quote_identifier("$dogpaddle.id");
    let hash: String = quote_identifier("$dogpaddle.hash");
    let mut key: String = "CONSTRAINT ".to_owned();
    key.append(quote_identifier(join_two("$dogpaddle.pk.", sink_id).as_str()).as_str());
    key.append(" PRIMARY KEY (");
    key.append(id.as_str());
    key.append(")");
    let mut positive: String = "CONSTRAINT ".to_owned();
    positive.append(quote_identifier(join_two("$dogpaddle.id_check.", sink_id).as_str()).as_str());
    positive.append(" CHECK (");
    positive.append(id.as_str());
    positive.append(" > 0)");
    let mut width: String = "CONSTRAINT ".to_owned();
    width.append(quote_identifier(join_two("$dogpaddle.hash_check.", sink_id).as_str()).as_str());
    width.append(" CHECK (octet_length(");
    width.append(hash.as_str());
    width.append(") = 16)");
    let mut constraints: Vec<String> = Vec::new();
    constraints.push(key);
    constraints.push(positive);
    constraints.push(width);
    assert(views(constraints@) =~= table_constraints(sink_id@));
    constraints
}

impl SqlPlan {
    /// The statements for a target and a layout.
    pub fn new(spec: &PostgresTargetSpec, layout: &PostgresLayout) -> (plan: SqlPlan)
        requires
            layout.wf(),
        ensures
            plan.speaks_of(spec@, column_views(layout.columns@)),
            plan.wf(),
    {
        let ghost model = spec@;
        let ghost columns = column_views(layout.columns@);
        proof {
            assert(columns.len() == crate::postgres::schema::columns_of(layout.schema@.fields).len());
            assert(layout.columns@.len() == columns.len());
        }
        let target: String = qualified(spec.schema(), spec.table());
        let hash_index_text: String = spec.hash_index();
        let hash_index: String = qualified(spec.schema(), hash_index_text.as_str());
        let key_text: String = spec.primary_key();
        let key: String = qualified(spec.schema(), key_text.as_str());
        let id: String = quote_identifier("$dogpaddle.id");
        let hash: String = quote_identifier("$dogpaddle.hash");

        let mut definitions: Vec<String> = definition_list(&layout.columns, spec.sink_id());
        let constraints: Vec<String> = constraint_list(spec.sink_id());
        push_texts(&mut definitions, &constraints);
        let mut create_target: String = "CREATE TABLE ".to_owned();
        create_target.append(target.as_str());
        create_target.append(" (");
        create_target.append(join(definitions.as_slice(), ", ").as_str());
        create_target.append(")");
        let mut create_index: String = "CREATE INDEX ".to_owned();
        create_index.append(quote_identifier(hash_index_text.as_str()).as_str());
        create_index.append(" ON ");
        create_index.append(target.as_str());
        create_index.append(" USING btree (");
        create_index.append(hash.as_str());
        create_index.append(", ");
        create_index.append(id.as_str());
        create_index.append(")");

        let mut layout_text: String = create_target.clone();
        layout_text.append("\0");
        layout_text.append(create_index.as_str());
        let digest: Vec<u8> = blake3_hash(layout_text.as_str().as_bytes());
        let marker: String = join_two(
            "dogpaddle.postgres-relation.v2:",
            hex(digest.as_slice()).as_str(),
        );
        let mark: String = quote_literal(marker.as_str());
        let mut initialize: String = create_target.clone();
        initialize.append("; ");
        initialize.append(create_index.as_str());
        initialize.append("; COMMENT ON TABLE ");
        initialize.append(target.as_str());
        initialize.append(" IS ");
        initialize.append(mark.as_str());
        initialize.append("; COMMENT ON INDEX ");
        initialize.append(key.as_str());
        initialize.append(" IS ");
        initialize.append(mark.as_str());
        initialize.append("; COMMENT ON INDEX ");
        initialize.append(hash_index.as_str());
        initialize.append(" IS ");
        initialize.append(mark.as_str());

        let logical: Vec<String> = quote_columns(&layout.columns);
        assert(views(logical@).len() == logical@.len());
        let mut all: Vec<String> = Vec::new();
        all.push(id.clone());
        all.push(hash.clone());
        assert(views(all@) =~= seq![id_name(), hash_name()]);
        push_texts(&mut all, &logical);
        let mut insert_prefix: String = "INSERT INTO ".to_owned();
        insert_prefix.append(target.as_str());
        insert_prefix.append(" (");
        insert_prefix.append(join(all.as_slice(), ", ").as_str());
        insert_prefix.append(") VALUES ");
        let mut insert_suffix: String = " ON CONFLICT (".to_owned();
        insert_suffix.append(id.as_str());
        insert_suffix.append(") DO NOTHING");
        let parameter_types: Vec<String> = type_list(&layout.columns);

        let mut matching: String = "FROM ONLY ".to_owned();
        matching.append(target.as_str());
        matching.append(" AS target WHERE target.");
        matching.append(hash.as_str());
        matching.append(" = request.hash");
        matching.append(exact_text(&logical).as_str());
        let mut request_head: Vec<String> = Vec::new();
        request_head.push("n".to_owned());
        request_head.push("needed".to_owned());
        request_head.push("take".to_owned());
        request_head.push("hash".to_owned());
        assert(views(request_head@) =~= seq!["n"@, "needed"@, "take"@, "hash"@]);
        let request: Vec<String> = request_list(request_head, layout.columns.len());
        let mut lookup_suffix: String = ") AS request (".to_owned();
        lookup_suffix.append(join(request.as_slice(), ", ").as_str());
        lookup_suffix.append(") CROSS JOIN LATERAL (SELECT ARRAY(SELECT target.");
        lookup_suffix.append(id.as_str());
        lookup_suffix.append(" ");
        lookup_suffix.append(matching.as_str());
        lookup_suffix.append(" ORDER BY target.");
        lookup_suffix.append(id.as_str());
        lookup_suffix.append(
            " LIMIT request.take) AS ids OFFSET 0) AS selected ORDER BY request.n",
        );
        let mut lookup_prefix: String =
            "SELECT request.n, CASE WHEN cardinality(selected.ids) = request.take AND request.needed > request.take THEN (SELECT count(*) FROM (SELECT 1 ".to_owned();
        lookup_prefix.append(matching.as_str());
        lookup_prefix.append(
            " LIMIT request.needed) AS counted) ELSE cardinality(selected.ids)::bigint END, selected.ids FROM (VALUES ",
        );

        let mut expected_head: Vec<String> = Vec::new();
        expected_head.push("ids".to_owned());
        expected_head.push("hash".to_owned());
        assert(views(expected_head@) =~= seq!["ids"@, "hash"@]);
        let expected: Vec<String> = request_list(expected_head, layout.columns.len());
        let mut mismatch_suffix: String = ") AS expected (".to_owned();
        mismatch_suffix.append(join(expected.as_slice(), ", ").as_str());
        mismatch_suffix.append(") JOIN ONLY ");
        mismatch_suffix.append(target.as_str());
        mismatch_suffix.append(" AS target ON target.");
        mismatch_suffix.append(id.as_str());
        mismatch_suffix.append(" = ANY(expected.ids) WHERE target.");
        mismatch_suffix.append(hash.as_str());
        mismatch_suffix.append(" IS DISTINCT FROM expected.hash");
        mismatch_suffix.append(differs_text(&logical).as_str());
        mismatch_suffix.append(")");

        let mut delete: String = "DELETE FROM ONLY ".to_owned();
        delete.append(target.as_str());
        delete.append(" WHERE ");
        delete.append(id.as_str());
        delete.append(" = ANY($1::bigint[])");
        let mut target_empty: String = "SELECT NOT EXISTS(SELECT 1 FROM ONLY ".to_owned();
        target_empty.append(target.as_str());
        target_empty.append(")");
        SqlPlan {
            table_name: spec.table().to_owned(),
            marker,
            initialize,
            insert_prefix,
            insert_suffix,
            parameter_types,
            lookup_prefix,
            lookup_suffix,
            mismatch_suffix,
            delete,
            target_empty,
        }
    }
}

} // verus!
