//! The SQL of an Apache Doris relation.

use crate::doris::config::{marker_name, state_name, DorisTargetSpec, SpecModel};
use crate::doris::row::{
    bytes_literal, bytes_text, cell_literal, value_views, CellModel, DorisValue, EncodedRow,
};
use crate::doris::schema::{column_views, sql_name, ColumnLayout, ColumnModel};
use crate::relation::plan::Lookup;
use crate::text::{
    decimal, decimal_text, join, join_two, joined, push_decimal, push_texts, replace, replaced,
    views,
};
use vstd::prelude::*;

verus! {

/// A name in backquotes.
pub open spec fn quoted(name: Seq<char>) -> Seq<char> {
    "`"@ + replaced(name, '`', "``"@) + "`"@
}

pub fn quote(name: &str) -> (text: String)
    ensures
        text@ == quoted(name@),
{
    let mut text: String = "`".to_owned();
    text.append(replace(name, '`', "``").as_str());
    text.append("`");
    text
}

/// A text in single quotes.
pub open spec fn literal(value: Seq<char>) -> Seq<char> {
    "'"@ + replaced(replaced(value, '\\', "\\\\"@), '\'', "''"@) + "'"@
}

pub fn quote_literal(value: &str) -> (text: String)
    ensures
        text@ == literal(value@),
{
    let mut text: String = "'".to_owned();
    text.append(replace(replace(value, '\\', "\\\\").as_str(), '\'', "''").as_str());
    text.append("'");
    text
}

/// An object of a database.
pub open spec fn qualified_name(database: Seq<char>, object: Seq<char>) -> Seq<char> {
    quoted(database) + "."@ + quoted(object)
}

pub fn qualified(database: &str, object: &str) -> (text: String)
    ensures
        text@ == qualified_name(database@, object@),
{
    let mut text: String = quote(database);
    text.append(".");
    text.append(quote(object).as_str());
    text
}

/// The state table of a sink.
pub open spec fn state_object(model: SpecModel) -> Seq<char> {
    qualified_name(model.database, state_name(model.sink_id))
}

pub fn state_of(spec: &DorisTargetSpec) -> (text: String)
    ensures
        text@ == state_object(spec@),
{
    qualified(spec.database(), spec.state_table().as_str())
}

/// The quoted names of columns.
pub open spec fn quoted_columns(columns: Seq<ColumnModel>) -> Seq<Seq<char>> {
    columns.map_values(|column: ColumnModel| quoted(column.name))
}

fn quote_columns(columns: &Vec<ColumnLayout>) -> (names: Vec<String>)
    ensures
        views(names@) == quoted_columns(column_views(columns@)),
{
    let ghost models = column_views(columns@);
    let mut names: Vec<String> = Vec::new();
    let mut index: usize = 0;
    assert(views(names@) =~= quoted_columns(models).take(0));
    while index < columns.len()
        invariant
            models == column_views(columns@),
            index <= columns@.len(),
            views(names@) == quoted_columns(models).take(index as int),
        decreases columns@.len() - index,
    {
        let ghost before = names@;
        let name: String = quote(columns[index].name.as_str());
        names.push(name);
        proof {
            assert(views(names@) =~= views(before).push(name@));
            assert(models[index as int] == columns@[index as int]@);
            assert(quoted_columns(models)[index as int] == name@);
            assert(views(names@) =~= quoted_columns(models).take(index + 1));
        }
        index += 1;
    }
    assert(quoted_columns(models).take(index as int) =~= quoted_columns(models));
    names
}

/// The columns of the state table, in order.
pub open spec fn selected(columns: Seq<ColumnModel>) -> Seq<char> {
    joined(
        seq![
            quoted("__dogpaddle_id"@),
            quoted("__dogpaddle_hash"@),
            quoted("__dogpaddle_deleted"@),
        ] + quoted_columns(columns),
        ","@,
    )
}

pub fn selected_columns(columns: &Vec<ColumnLayout>) -> (text: String)
    ensures
        text@ == selected(column_views(columns@)),
{
    let mut names: Vec<String> = Vec::new();
    names.push(quote("__dogpaddle_id"));
    names.push(quote("__dogpaddle_hash"));
    names.push(quote("__dogpaddle_deleted"));
    assert(views(names@) =~= seq![
        quoted("__dogpaddle_id"@),
        quoted("__dogpaddle_hash"@),
        quoted("__dogpaddle_deleted"@),
    ]);
    let rest: Vec<String> = quote_columns(columns);
    push_texts(&mut names, &rest);
    join(names.as_slice(), ",")
}

/// A column under another name.
pub open spec fn renamed(name: Seq<char>, public: Seq<char>) -> Seq<char> {
    quoted(name) + " AS "@ + quoted(public)
}

fn rename(name: &str, public: &str) -> (text: String)
    ensures
        text@ == renamed(name@, public@),
{
    let mut text: String = quote(name);
    text.append(" AS ");
    text.append(quote(public).as_str());
    text
}

/// The columns that the view shows, in order.
pub open spec fn selected_public(columns: Seq<ColumnModel>) -> Seq<char> {
    joined(
        seq![
            renamed("__dogpaddle_id"@, "$dogpaddle.id"@),
            renamed("__dogpaddle_hash"@, "$dogpaddle.hash"@),
        ] + quoted_columns(columns),
        ","@,
    )
}

pub fn selected_public_columns(columns: &Vec<ColumnLayout>) -> (text: String)
    ensures
        text@ == selected_public(column_views(columns@)),
{
    let mut names: Vec<String> = Vec::new();
    names.push(rename("__dogpaddle_id", "$dogpaddle.id"));
    names.push(rename("__dogpaddle_hash", "$dogpaddle.hash"));
    assert(views(names@) =~= seq![
        renamed("__dogpaddle_id"@, "$dogpaddle.id"@),
        renamed("__dogpaddle_hash"@, "$dogpaddle.hash"@),
    ]);
    let rest: Vec<String> = quote_columns(columns);
    push_texts(&mut names, &rest);
    join(names.as_slice(), ",")
}

/// The definition of a column.
pub open spec fn column_definition(column: ColumnModel) -> Seq<char> {
    quoted(column.name) + " "@ + sql_name(column.storage) + " "@ + (if column.nullable {
        "NULL"@
    } else {
        "NOT NULL"@
    })
}

/// The definitions of columns.
pub open spec fn column_definitions(columns: Seq<ColumnModel>) -> Seq<Seq<char>> {
    columns.map_values(|column: ColumnModel| column_definition(column))
}

fn define_columns(columns: &Vec<ColumnLayout>) -> (texts: Vec<String>)
    ensures
        views(texts@) == column_definitions(column_views(columns@)),
{
    let ghost models = column_views(columns@);
    let mut texts: Vec<String> = Vec::new();
    let mut index: usize = 0;
    assert(views(texts@) =~= column_definitions(models).take(0));
    while index < columns.len()
        invariant
            models == column_views(columns@),
            index <= columns@.len(),
            views(texts@) == column_definitions(models).take(index as int),
        decreases columns@.len() - index,
    {
        let ghost before = texts@;
        let mut text: String = quote(columns[index].name.as_str());
        text.append(" ");
        text.append(columns[index].storage.sql());
        text.append(" ");
        text.append(
            if columns[index].nullable {
                "NULL"
            } else {
                "NOT NULL"
            },
        );
        texts.push(text);
        proof {
            assert(views(texts@) =~= views(before).push(text@));
            assert(models[index as int] == columns@[index as int]@);
            assert(column_definitions(models)[index as int] == text@);
            assert(views(texts@) =~= column_definitions(models).take(index + 1));
        }
        index += 1;
    }
    assert(column_definitions(models).take(index as int) =~= column_definitions(models));
    texts
}

/// What the state table is made of: its columns and the index of the hashes.
pub open spec fn state_parts(columns: Seq<ColumnModel>) -> Seq<Seq<char>> {
    seq![
        quoted("__dogpaddle_id"@) + " BIGINT NOT NULL"@,
        quoted("__dogpaddle_hash"@) + " CHAR(32) NOT NULL"@,
        quoted("__dogpaddle_deleted"@) + " TINYINT NOT NULL"@,
    ] + column_definitions(columns) + seq![
        "INDEX "@ + quoted("__dogpaddle_hash_idx"@) + " ("@ + quoted("__dogpaddle_hash"@)
            + ") USING INVERTED"@,
    ]
}

/// The statement that creates the state table.
pub open spec fn state_sql(model: SpecModel, columns: Seq<ColumnModel>) -> Seq<char> {
    "CREATE TABLE "@ + state_object(model) + " ("@ + joined(state_parts(columns), ","@)
        + ") UNIQUE KEY("@ + quoted("__dogpaddle_id"@) + ") COMMENT "@ + literal(
        marker_name(model.sink_id),
    ) + " DISTRIBUTED BY HASH("@ + quoted("__dogpaddle_id"@)
        + ") BUCKETS 1 PROPERTIES (\"enable_unique_key_merge_on_write\" = \"true\", "@
        + "\"function_column.sequence_col\" = "@ + literal("__dogpaddle_deleted"@) + ")"@
}

fn with_suffix(name: &str, suffix: &str) -> (text: String)
    ensures
        text@ == quoted(name@) + suffix@,
{
    let mut text: String = quote(name);
    text.append(suffix);
    text
}

pub fn create_state_sql(spec: &DorisTargetSpec, columns: &Vec<ColumnLayout>) -> (text: String)
    ensures
        text@ == state_sql(spec@, column_views(columns@)),
{
    let mut parts: Vec<String> = Vec::new();
    parts.push(with_suffix("__dogpaddle_id", " BIGINT NOT NULL"));
    parts.push(with_suffix("__dogpaddle_hash", " CHAR(32) NOT NULL"));
    parts.push(with_suffix("__dogpaddle_deleted", " TINYINT NOT NULL"));
    let rest: Vec<String> = define_columns(columns);
    push_texts(&mut parts, &rest);
    let mut index: String = "INDEX ".to_owned();
    index.append(quote("__dogpaddle_hash_idx").as_str());
    index.append(" (");
    index.append(quote("__dogpaddle_hash").as_str());
    index.append(") USING INVERTED");
    let ghost before = parts@;
    parts.push(index);
    proof {
        assert(views(parts@) =~= views(before).push(index@));
        assert(views(parts@) =~= state_parts(column_views(columns@)));
    }
    let mut text: String = "CREATE TABLE ".to_owned();
    text.append(state_of(spec).as_str());
    text.append(" (");
    text.append(join(parts.as_slice(), ",").as_str());
    text.append(") UNIQUE KEY(");
    text.append(quote("__dogpaddle_id").as_str());
    text.append(") COMMENT ");
    text.append(quote_literal(spec.marker().as_str()).as_str());
    text.append(" DISTRIBUTED BY HASH(");
    text.append(quote("__dogpaddle_id").as_str());
    text.append(") BUCKETS 1 PROPERTIES (\"enable_unique_key_merge_on_write\" = \"true\", ");
    text.append("\"function_column.sequence_col\" = ");
    text.append(quote_literal("__dogpaddle_deleted").as_str());
    text.append(")");
    text
}

/// The statement that creates the view.
pub open spec fn view_sql(model: SpecModel, columns: Seq<ColumnModel>) -> Seq<char> {
    "CREATE VIEW "@ + qualified_name(model.database, model.table) + " AS SELECT "@
        + selected_public(columns) + " FROM "@ + state_object(model) + " WHERE "@ + quoted(
        "__dogpaddle_deleted"@,
    ) + " = 0"@
}

pub fn create_view_sql(spec: &DorisTargetSpec, columns: &Vec<ColumnLayout>) -> (text: String)
    ensures
        text@ == view_sql(spec@, column_views(columns@)),
{
    let mut text: String = "CREATE VIEW ".to_owned();
    text.append(qualified(spec.database(), spec.table()).as_str());
    text.append(" AS SELECT ");
    text.append(selected_public_columns(columns).as_str());
    text.append(" FROM ");
    text.append(state_of(spec).as_str());
    text.append(" WHERE ");
    text.append(quote("__dogpaddle_deleted").as_str());
    text.append(" = 0");
    text
}

/// The state table in the catalog, without quotes.
pub open spec fn source_name(model: SpecModel) -> Seq<char> {
    "internal."@ + model.database + "."@ + state_name(model.sink_id)
}

/// The columns of the view in the catalog, without white space and quotes.
pub open spec fn source_columns(model: SpecModel, columns: Seq<ColumnModel>) -> Seq<Seq<char>> {
    seq![
        source_name(model) + ".__dogpaddle_idAS$dogpaddle.id"@,
        source_name(model) + ".__dogpaddle_hashAS$dogpaddle.hash"@,
    ] + columns.map_values(|column: ColumnModel| source_name(model) + "."@ + column.name)
}

/// The query of the view in the catalog, without white space and quotes.
pub open spec fn view_definition(model: SpecModel, columns: Seq<ColumnModel>) -> Seq<char> {
    "SELECT"@ + joined(source_columns(model, columns), ","@) + "FROM"@ + source_name(model)
        + "WHERE"@ + source_name(model) + ".__dogpaddle_deleted=0"@
}

pub fn expected_view_definition(spec: &DorisTargetSpec, columns: &Vec<ColumnLayout>) -> (text: String)
    ensures
        text@ == view_definition(spec@, column_views(columns@)),
{
    let ghost models = column_views(columns@);
    let ghost expected = source_columns(spec@, models);
    let mut source: String = "internal.".to_owned();
    source.append(spec.database());
    source.append(".");
    source.append(spec.state_table().as_str());
    let mut parts: Vec<String> = Vec::new();
    parts.push(join_two(source.as_str(), ".__dogpaddle_idAS$dogpaddle.id"));
    parts.push(join_two(source.as_str(), ".__dogpaddle_hashAS$dogpaddle.hash"));
    let mut index: usize = 0;
    assert(views(parts@) =~= expected.take(2));
    while index < columns.len()
        invariant
            models == column_views(columns@),
            expected == source_columns(spec@, models),
            source@ == source_name(spec@),
            index <= columns@.len(),
            views(parts@) == expected.take(2 + index),
        decreases columns@.len() - index,
    {
        let ghost before = parts@;
        let mut part: String = source.clone();
        part.append(".");
        part.append(columns[index].name.as_str());
        parts.push(part);
        proof {
            assert(views(parts@) =~= views(before).push(part@));
            assert(models[index as int] == columns@[index as int]@);
            assert(expected[2 + index] == part@);
            assert(views(parts@) =~= expected.take(2 + index + 1));
        }
        index += 1;
    }
    assert(expected.take(2 + index) =~= expected);
    let mut text: String = "SELECT".to_owned();
    text.append(join(parts.as_slice(), ",").as_str());
    text.append("FROM");
    text.append(source.as_str());
    text.append("WHERE");
    text.append(source.as_str());
    text.append(".__dogpaddle_deleted=0");
    text
}

/// The conditions on a row that a lookup asks for.
pub open spec fn predicate_parts(columns: Seq<ColumnModel>) -> Seq<Seq<char>> {
    seq![quoted("__dogpaddle_hash"@) + " = ?"@] + columns.map_values(
        |column: ColumnModel| quoted(column.name) + " <=> ?"@,
    )
}

pub fn row_predicate(columns: &Vec<ColumnLayout>) -> (text: String)
    ensures
        text@ == joined(predicate_parts(column_views(columns@)), " AND "@),
{
    let ghost models = column_views(columns@);
    let mut parts: Vec<String> = Vec::new();
    parts.push(with_suffix("__dogpaddle_hash", " = ?"));
    let mut index: usize = 0;
    assert(views(parts@) =~= predicate_parts(models).take(1));
    while index < columns.len()
        invariant
            models == column_views(columns@),
            index <= columns@.len(),
            views(parts@) == predicate_parts(models).take(1 + index),
        decreases columns@.len() - index,
    {
        let ghost before = parts@;
        let part: String = with_suffix(columns[index].name.as_str(), " <=> ?");
        parts.push(part);
        proof {
            assert(views(parts@) =~= views(before).push(part@));
            assert(models[index as int] == columns@[index as int]@);
            assert(predicate_parts(models)[1 + index] == part@);
            assert(views(parts@) =~= predicate_parts(models).take(1 + index + 1));
        }
        index += 1;
    }
    assert(predicate_parts(models).take(1 + index) =~= predicate_parts(models));
    join(parts.as_slice(), " AND ")
}

/// One lookup as a part of a statement.
pub open spec fn clause_sql(
    model: SpecModel,
    request: nat,
    needed: u64,
    take: usize,
    predicate: Seq<char>,
) -> Seq<char> {
    "(SELECT "@ + decimal(request)
        + " AS n, id, count FROM (SELECT id, count(id) OVER () AS count FROM ((SELECT "@ + quoted(
        "__dogpaddle_id"@,
    ) + " AS id FROM "@ + state_object(model) + " WHERE "@ + quoted("__dogpaddle_deleted"@)
        + " = 0 AND "@ + predicate + " ORDER BY "@ + quoted("__dogpaddle_id"@) + " LIMIT "@
        + decimal(needed as nat)
        + ") UNION ALL SELECT CAST(NULL AS BIGINT) AS id) AS matched) AS counted ORDER BY id IS NULL, id LIMIT "@
        + decimal(take as nat) + ")"@
}

pub fn lookup_clause(
    spec: &DorisTargetSpec,
    request_index: usize,
    request: &Lookup,
    predicate: &str,
) -> (text: String)
    ensures
        text@ == clause_sql(
            spec@,
            request_index as nat,
            request.needed,
            request.take,
            predicate@,
        ),
{
    let mut text: String = "(SELECT ".to_owned();
    push_decimal(&mut text, request_index as u64);
    text.append(" AS n, id, count FROM (SELECT id, count(id) OVER () AS count FROM ((SELECT ");
    text.append(quote("__dogpaddle_id").as_str());
    text.append(" AS id FROM ");
    text.append(state_of(spec).as_str());
    text.append(" WHERE ");
    text.append(quote("__dogpaddle_deleted").as_str());
    text.append(" = 0 AND ");
    text.append(predicate);
    text.append(" ORDER BY ");
    text.append(quote("__dogpaddle_id").as_str());
    text.append(" LIMIT ");
    push_decimal(&mut text, request.needed);
    text.append(
        ") UNION ALL SELECT CAST(NULL AS BIGINT) AS id) AS matched) AS counted ORDER BY id IS NULL, id LIMIT ",
    );
    push_decimal(&mut text, request.take as u64);
    text.append(")");
    text
}

/// The statement that answers lookups.
pub open spec fn lookup_sql(clauses: Seq<Seq<char>>) -> Seq<char> {
    joined(clauses, " UNION ALL "@) + " ORDER BY n, id IS NULL, id"@
}

pub fn lookup_statement(clauses: &Vec<String>) -> (text: String)
    ensures
        text@ == lookup_sql(views(clauses@)),
{
    let mut text: String = join(clauses.as_slice(), " UNION ALL ");
    text.append(" ORDER BY n, id IS NULL, id");
    text
}

/// As many marks for parameters.
pub open spec fn marks(count: nat) -> Seq<Seq<char>> {
    Seq::new(count, |i: int| "?"@)
}

/// The query for what the state table holds under some IDs.
pub open spec fn stored_sql(model: SpecModel, columns: Seq<ColumnModel>, ids: nat) -> Seq<char> {
    "SELECT "@ + selected(columns) + " FROM "@ + state_object(model) + " WHERE "@ + quoted(
        "__dogpaddle_id"@,
    ) + " IN ("@ + joined(marks(ids), ","@) + ") ORDER BY "@ + quoted("__dogpaddle_id"@)
}

pub fn stored_statement(spec: &DorisTargetSpec, columns: &Vec<ColumnLayout>, ids: usize) -> (text:
    String)
    ensures
        text@ == stored_sql(spec@, column_views(columns@), ids as nat),
{
    let mut parts: Vec<String> = Vec::new();
    let mut index: usize = 0;
    assert(views(parts@) =~= marks(0));
    while index < ids
        invariant
            index <= ids,
            views(parts@) == marks(index as nat),
        decreases ids - index,
    {
        let ghost before = parts@;
        let part: String = "?".to_owned();
        parts.push(part);
        index += 1;
        proof {
            assert(views(parts@) =~= views(before).push(part@));
            assert(views(parts@) =~= marks(index as nat));
        }
    }
    let mut text: String = "SELECT ".to_owned();
    text.append(selected_columns(columns).as_str());
    text.append(" FROM ");
    text.append(state_of(spec).as_str());
    text.append(" WHERE ");
    text.append(quote("__dogpaddle_id").as_str());
    text.append(" IN (");
    text.append(join(parts.as_slice(), ",").as_str());
    text.append(") ORDER BY ");
    text.append(quote("__dogpaddle_id").as_str());
    text
}

/// The head of a statement that writes rows to the state table.
pub open spec fn insert_head(model: SpecModel, columns: Seq<ColumnModel>) -> Seq<char> {
    "INSERT INTO "@ + state_object(model) + " ("@ + selected(columns) + ") VALUES "@
}

pub fn insert_prefix(spec: &DorisTargetSpec, columns: &Vec<ColumnLayout>) -> (text: String)
    ensures
        text@ == insert_head(spec@, column_views(columns@)),
{
    let mut text: String = "INSERT INTO ".to_owned();
    text.append(state_of(spec).as_str());
    text.append(" (");
    text.append(selected_columns(columns).as_str());
    text.append(") VALUES ");
    text
}

/// The literals of some values.
pub open spec fn cell_literals(cells: Seq<CellModel>) -> Seq<Seq<char>> {
    cells.map_values(|cell: CellModel| cell_literal(cell))
}

fn literals(values: &Vec<DorisValue>) -> (texts: Vec<String>)
    ensures
        views(texts@) == cell_literals(value_views(values@)),
{
    let ghost cells = value_views(values@);
    let mut texts: Vec<String> = Vec::new();
    let mut index: usize = 0;
    assert(views(texts@) =~= cell_literals(cells).take(0));
    while index < values.len()
        invariant
            cells == value_views(values@),
            index <= values@.len(),
            views(texts@) == cell_literals(cells).take(index as int),
        decreases values@.len() - index,
    {
        let ghost before = texts@;
        let text: String = values[index].value_literal();
        texts.push(text);
        proof {
            assert(views(texts@) =~= views(before).push(text@));
            assert(cells[index as int] == values@[index as int]@);
            assert(cell_literals(cells)[index as int] == text@);
            assert(views(texts@) =~= cell_literals(cells).take(index + 1));
        }
        index += 1;
    }
    assert(cell_literals(cells).take(index as int) =~= cell_literals(cells));
    texts
}

/// A row of the state table in a statement.
pub open spec fn mutation_tuple(
    id: u64,
    deleted: bool,
    hash: Seq<u8>,
    cells: Seq<CellModel>,
) -> Seq<char> {
    let flag = if deleted {
        decimal(1)
    } else {
        decimal(0)
    };
    "("@ + joined(
        seq![decimal(id as nat), bytes_text(hash), flag] + cell_literals(cells),
        ","@,
    ) + ")"@
}

pub fn mutation_values(id: u64, deleted: bool, row: &EncodedRow) -> (text: String)
    ensures
        text@ == mutation_tuple(id, deleted, row.hash@, value_views(row.values@)),
{
    let flag: u64 = if deleted {
        1
    } else {
        0
    };
    let mut parts: Vec<String> = Vec::new();
    parts.push(decimal_text(id));
    parts.push(bytes_literal(row.hash.as_slice()));
    parts.push(decimal_text(flag));
    assert(views(parts@) =~= seq![decimal(id as nat), bytes_text(row.hash@), decimal(flag as nat)]);
    let rest: Vec<String> = literals(&row.values);
    push_texts(&mut parts, &rest);
    let mut text: String = "(".to_owned();
    text.append(join(parts.as_slice(), ",").as_str());
    text.append(")");
    text
}

} // verus!
