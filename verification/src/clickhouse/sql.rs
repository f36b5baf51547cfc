//! The SQL of a ClickHouse relation.

use crate::clickhouse::config::{
    literal, marker_name, state_name, string_literal, ClickHouseTargetSpec, SpecModel,
};
use crate::clickhouse::row::{
    cell_json, cell_literal, value_views, CellModel, ClickHouseValue, EncodedRow,
};
use crate::clickhouse::schema::{column_type, column_views, ColumnLayout, ColumnModel};
use crate::json::{json_string, json_text};
use crate::relation::plan::Lookup;
use crate::text::{
    decimal, decimal_text, join, joined, push_decimal, push_texts, replace, replaced, views,
};
use vstd::prelude::*;

verus! {

/// A name in backquotes.
pub open spec fn quoted(name: Seq<char>) -> Seq<char> {
    "`"@ + replaced(replaced(name, '\\', "\\\\"@), '`', "\\`"@) + "`"@
}

pub fn quote(name: &str) -> (text: String)
    ensures
        text@ == quoted(name@),
{
    let mut text: String = "`".to_owned();
    text.append(replace(replace(name, '\\', "\\\\").as_str(), '`', "\\`").as_str());
    text.append("`");
    text
}

/// An object of a database.
pub open spec fn qualified_name(database: Seq<char>, object: Seq<char>) -> Seq<char> {
    quoted(database) + "."@ + quoted(object)
}

pub fn qualified(database: &str, object: &str) -> (text: String)
    ensures
        text@ == qualified_name(database@, object@),
{
    let mut text: String = quote(database);
    text.append(".");
    text.append(quote(object).as_str());
    text
}

/// The state table of a sink.
pub open spec fn state_object(model: SpecModel) -> Seq<char> {
    qualified_name(model.database, state_name(model.sink_id))
}

pub fn state_of(spec: &ClickHouseTargetSpec) -> (text: String)
    ensures
        text@ == state_object(spec@),
{
    qualified(spec.database(), spec.state_table().as_str())
}

/// The quoted names of columns.
pub open spec fn quoted_columns(columns: Seq<ColumnModel>) -> Seq<Seq<char>> {
    columns.map_values(|column: ColumnModel| quoted(column.name))
}

/// The columns of the state table that belong to the sink.
pub open spec fn technical_columns() -> Seq<Seq<char>> {
    seq![
        quoted("$dogpaddle.id"@),
        quoted("$dogpaddle.hash"@),
        quoted("$dogpaddle.version"@),
        quoted("$dogpaddle.deleted"@),
    ]
}

/// The columns of the state table, in order.
pub open spec fn selected(columns: Seq<ColumnModel>) -> Seq<char> {
    joined(technical_columns() + quoted_columns(columns), ","@)
}

/// The columns that the view shows, in order.
pub open spec fn selected_public(columns: Seq<ColumnModel>) -> Seq<char> {
    joined(technical_columns().take(2) + quoted_columns(columns), ","@)
}

fn quote_columns(columns: &Vec<ColumnLayout>) -> (names: Vec<String>)
    ensures
        views(names@) == quoted_columns(column_views(columns@)),
{
    let ghost models = column_views(columns@);
    let mut names: Vec<String> = Vec::new();
    let mut index: usize = 0;
    assert(views(names@) =~= quoted_columns(models).take(0));
    while index < columns.len()
        invariant
            models == column_views(columns@),
            index <= columns@.len(),
            views(names@) == quoted_columns(models).take(index as int),
        decreases columns@.len() - index,
    {
        let ghost before = names@;
        let name: String = quote(columns[index].name.as_str());
        names.push(name);
        proof {
            assert(views(names@) =~= views(before).push(name@));
            assert(models[index as int] == columns@[index as int]@);
            assert(quoted_columns(models)[index as int] == name@);
            assert(views(names@) =~= quoted_columns(models).take(index + 1));
        }
        index += 1;
    }
    assert(quoted_columns(models).take(index as int) =~= quoted_columns(models));
    names
}

pub fn selected_columns(columns: &Vec<ColumnLayout>) -> (text: String)
    ensures
        text@ == selected(column_views(columns@)),
{
    let mut names: Vec<String> = Vec::new();
    names.push(quote("$dogpaddle.id"));
    names.push(quote("$dogpaddle.hash"));
    names.push(quote("$dogpaddle.version"));
    names.push(quote("$dogpaddle.deleted"));
    assert(views(names@) =~= technical_columns());
    let rest: Vec<String> = quote_columns(columns);
    push_texts(&mut names, &rest);
    join(names.as_slice(), ",")
}

pub fn selected_public_columns(columns: &Vec<ColumnLayout>) -> (text: String)
    ensures
        text@ == selected_public(column_views(columns@)),
{
    let mut names: Vec<String> = Vec::new();
    names.push(quote("$dogpaddle.id"));
    names.push(quote("$dogpaddle.hash"));
    assert(views(names@) =~= technical_columns().take(2));
    let rest: Vec<String> = quote_columns(columns);
    push_texts(&mut names, &rest);
    join(names.as_slice(), ",")
}

/// The definitions of columns.
pub open spec fn column_definitions(columns: Seq<ColumnModel>) -> Seq<Seq<char>> {
    columns.map_values(|column: ColumnModel| quoted(column.name) + " "@ + column_type(column))
}

fn define_columns(columns: &Vec<ColumnLayout>) -> (texts: Vec<String>)
    ensures
        views(texts@) == column_definitions(column_views(columns@)),
{
    let ghost models = column_views(columns@);
    let mut texts: Vec<String> = Vec::new();
    let mut index: usize = 0;
    assert(views(texts@) =~= column_definitions(models).take(0));
    while index < columns.len()
        invariant
            models == column_views(columns@),
            index <= columns@.len(),
            views(texts@) == column_definitions(models).take(index as int),
        decreases columns@.len() - index,
    {
        let ghost before = texts@;
        let mut text: String = quote(columns[index].name.as_str());
        text.append(" ");
        text.append(columns[index].sql_type().as_str());
        texts.push(text);
        proof {
            assert(views(texts@) =~= views(before).push(text@));
            assert(models[index as int] == columns@[index as int]@);
            assert(column_definitions(models)[index as int] == text@);
            assert(views(texts@) =~= column_definitions(models).take(index + 1));
        }
        index += 1;
    }
    assert(column_definitions(models).take(index as int) =~= column_definitions(models));
    texts
}

/// What the state table is made of: its columns and the index of the hashes.
pub open spec fn state_parts(columns: Seq<ColumnModel>) -> Seq<Seq<char>> {
    seq![
        quoted("$dogpaddle.id"@) + " UInt64"@,
        quoted("$dogpaddle.hash"@) + " FixedString(32)"@,
        quoted("$dogpaddle.version"@) + " UInt8"@,
        quoted("$dogpaddle.deleted"@) + " UInt8"@,
    ] + column_definitions(columns) + seq![
        "INDEX "@ + quoted("$dogpaddle.hash.index"@) + " "@ + quoted("$dogpaddle.hash"@)
            + " TYPE set(0) GRANULARITY 1"@,
    ]
}

/// The statement that creates the state table.
pub open spec fn state_sql(model: SpecModel, columns: Seq<ColumnModel>) -> Seq<char> {
    "CREATE TABLE "@ + state_object(model) + " ("@ + joined(state_parts(columns), ","@)
        + ") ENGINE = ReplacingMergeTree("@ + quoted("$dogpaddle.version"@) + ") ORDER BY "@
        + quoted("$dogpaddle.id"@)
        + " SETTINGS fsync_after_insert = 1, fsync_part_directory = 1 COMMENT "@ + literal(
        marker_name(model.sink_id),
    )
}

fn with_suffix(name: &str, suffix: &str) -> (text: String)
    ensures
        text@ == quoted(name@) + suffix@,
{
    let mut text: String = quote(name);
    text.append(suffix);
    text
}

pub fn create_state_sql(spec: &ClickHouseTargetSpec, columns: &Vec<ColumnLayout>) -> (text: String)
    ensures
        text@ == state_sql(spec@, column_views(columns@)),
{
    let mut parts: Vec<String> = Vec::new();
    parts.push(with_suffix("$dogpaddle.id", " UInt64"));
    parts.push(with_suffix("$dogpaddle.hash", " FixedString(32)"));
    parts.push(with_suffix("$dogpaddle.version", " UInt8"));
    parts.push(with_suffix("$dogpaddle.deleted", " UInt8"));
    let ghost fixed = views(parts@);
    let rest: Vec<String> = define_columns(columns);
    push_texts(&mut parts, &rest);
    let mut index: String = "INDEX ".to_owned();
    index.append(quote("$dogpaddle.hash.index").as_str());
    index.append(" ");
    index.append(quote("$dogpaddle.hash").as_str());
    index.append(" TYPE set(0) GRANULARITY 1");
    let ghost before = parts@;
    parts.push(index);
    proof {
        assert(views(parts@) =~= views(before).push(index@));
        assert(views(parts@) =~= state_parts(column_views(columns@)));
    }
    let mut text: String = "CREATE TABLE ".to_owned();
    text.append(state_of(spec).as_str());
    text.append(" (");
    text.append(join(parts.as_slice(), ",").as_str());
    text.append(") ENGINE = ReplacingMergeTree(");
    text.append(quote("$dogpaddle.version").as_str());
    text.append(") ORDER BY ");
    text.append(quote("$dogpaddle.id").as_str());
    text.append(" SETTINGS fsync_after_insert = 1, fsync_part_directory = 1 COMMENT ");
    text.append(string_literal(spec.marker().as_str()).as_str());
    text
}

/// The statement that creates the view.
pub open spec fn view_sql(model: SpecModel, columns: Seq<ColumnModel>) -> Seq<char> {
    "CREATE VIEW "@ + qualified_name(model.database, model.table) + " AS SELECT "@
        + selected_public(columns) + " FROM "@ + state_object(model) + " FINAL WHERE "@ + quoted(
        "$dogpaddle.deleted"@,
    ) + " = 0"@
}

pub fn create_view_sql(spec: &ClickHouseTargetSpec, columns: &Vec<ColumnLayout>) -> (text: String)
    ensures
        text@ == view_sql(spec@, column_views(columns@)),
{
    let mut text: String = "CREATE VIEW ".to_owned();
    text.append(qualified(spec.database(), spec.table()).as_str());
    text.append(" AS SELECT ");
    text.append(selected_public_columns(columns).as_str());
    text.append(" FROM ");
    text.append(state_of(spec).as_str());
    text.append(" FINAL WHERE ");
    text.append(quote("$dogpaddle.deleted").as_str());
    text.append(" = 0");
    text
}

/// The name and the type of the value at `index` of a lookup.
pub open spec fn request_column(index: nat, column: ColumnModel) -> Seq<char> {
    "v"@ + decimal(index) + " "@ + column_type(column)
}

/// The names and types of what a lookup is made of.
pub open spec fn request_columns(columns: Seq<ColumnModel>) -> Seq<Seq<char>> {
    seq!["n UInt64"@, "needed UInt64"@, "take UInt64"@, "hash FixedString(32)"@] + Seq::new(
        columns.len(),
        |i: int| request_column(i as nat, columns[i]),
    )
}

fn request_list(columns: &Vec<ColumnLayout>) -> (texts: Vec<String>)
    ensures
        views(texts@) == request_columns(column_views(columns@)),
{
    let ghost models = column_views(columns@);
    let ghost fixed = seq!["n UInt64"@, "needed UInt64"@, "take UInt64"@, "hash FixedString(32)"@];
    let mut texts: Vec<String> = Vec::new();
    texts.push("n UInt64".to_owned());
    texts.push("needed UInt64".to_owned());
    texts.push("take UInt64".to_owned());
    texts.push("hash FixedString(32)".to_owned());
    let mut index: usize = 0;
    assert(views(texts@) =~= fixed);
    assert(views(texts@) =~= request_columns(models).take(4));
    while index < columns.len()
        invariant
            models == column_views(columns@),
            index <= columns@.len(),
            views(texts@) == request_columns(models).take(4 + index),
        decreases columns@.len() - index,
    {
        let ghost before = texts@;
        let mut text: String = "v".to_owned();
        push_decimal(&mut text, index as u64);
        text.append(" ");
        text.append(columns[index].sql_type().as_str());
        texts.push(text);
        proof {
            assert(views(texts@) =~= views(before).push(text@));
            assert(models[index as int] == columns@[index as int]@);
            assert(request_columns(models)[4 + index] == text@);
            assert(views(texts@) =~= request_columns(models).take(4 + index + 1));
        }
        index += 1;
    }
    assert(request_columns(models).take(4 + index) =~= request_columns(models));
    texts
}

/// When a stored row is the one that a lookup asks for.
pub open spec fn join_parts(columns: Seq<ColumnModel>) -> Seq<Seq<char>> {
    seq!["s.hash = r.hash"@] + Seq::new(
        columns.len(),
        |i: int|
            "isNotDistinctFrom(s."@ + quoted(columns[i].name) + ", r.v"@ + decimal(i as nat)
                + ")"@,
    )
}

pub fn lookup_join_predicate(columns: &Vec<ColumnLayout>) -> (text: String)
    ensures
        text@ == joined(join_parts(column_views(columns@)), " AND "@),
{
    let ghost models = column_views(columns@);
    let mut texts: Vec<String> = Vec::new();
    texts.push("s.hash = r.hash".to_owned());
    let mut index: usize = 0;
    assert(views(texts@) =~= join_parts(models).take(1));
    while index < columns.len()
        invariant
            models == column_views(columns@),
            index <= columns@.len(),
            views(texts@) == join_parts(models).take(1 + index),
        decreases columns@.len() - index,
    {
        let ghost before = texts@;
        let mut text: String = "isNotDistinctFrom(s.".to_owned();
        text.append(quote(columns[index].name.as_str()).as_str());
        text.append(", r.v");
        push_decimal(&mut text, index as u64);
        text.append(")");
        texts.push(text);
        proof {
            assert(views(texts@) =~= views(before).push(text@));
            assert(models[index as int] == columns@[index as int]@);
            assert(join_parts(models)[1 + index] == text@);
            assert(views(texts@) =~= join_parts(models).take(1 + index + 1));
        }
        index += 1;
    }
    assert(join_parts(models).take(1 + index) =~= join_parts(models));
    join(texts.as_slice(), " AND ")
}

/// The first `count` columns, each behind a comma.
pub open spec fn listed(columns: Seq<ColumnModel>, count: int) -> Seq<char>
    decreases count,
{
    if count <= 0 {
        Seq::empty()
    } else {
        listed(columns, count - 1) + ","@ + quoted(columns[count - 1].name)
    }
}

pub fn lookup_state_columns(columns: &Vec<ColumnLayout>) -> (text: String)
    ensures
        text@ == listed(column_views(columns@), columns@.len() as int),
{
    let ghost models = column_views(columns@);
    let mut text: String = String::new();
    let mut index: usize = 0;
    while index < columns.len()
        invariant
            models == column_views(columns@),
            index <= columns@.len(),
            text@ == listed(models, index as int),
        decreases columns@.len() - index,
    {
        assert(models[index as int] == columns@[index as int]@);
        text.append(",");
        text.append(quote(columns[index].name.as_str()).as_str());
        index += 1;
    }
    text
}

/// The literals of some values.
pub open spec fn cell_literals(cells: Seq<CellModel>) -> Seq<Seq<char>> {
    cells.map_values(|cell: CellModel| cell_literal(cell))
}

fn literals(values: &Vec<ClickHouseValue>) -> (texts: Vec<String>)
    ensures
        views(texts@) == cell_literals(value_views(values@)),
{
    let ghost cells = value_views(values@);
    let mut texts: Vec<String> = Vec::new();
    let mut index: usize = 0;
    assert(views(texts@) =~= cell_literals(cells).take(0));
    while index < values.len()
        invariant
            cells == value_views(values@),
            index <= values@.len(),
            views(texts@) == cell_literals(cells).take(index as int),
        decreases values@.len() - index,
    {
        let ghost before = texts@;
        let text: String = values[index].value_literal();
        texts.push(text);
        proof {
            assert(views(texts@) =~= views(before).push(text@));
            assert(cells[index as int] == values@[index as int]@);
            assert(cell_literals(cells)[index as int] == text@);
            assert(views(texts@) =~= cell_literals(cells).take(index + 1));
        }
        index += 1;
    }
    assert(cell_literals(cells).take(index as int) =~= cell_literals(cells));
    texts
}

/// One lookup: its number, how many rows it needs and takes, and the row.
pub open spec fn lookup_tuple(
    request: nat,
    needed: u64,
    take: usize,
    hash: Seq<char>,
    cells: Seq<CellModel>,
) -> Seq<char> {
    "("@ + joined(
        seq![decimal(request), decimal(needed as nat), decimal(take as nat), literal(hash)]
            + cell_literals(cells),
        ","@,
    ) + ")"@
}

pub fn lookup_row(request_index: usize, request: &Lookup, row: &EncodedRow) -> (text: String)
    ensures
        text@ == lookup_tuple(
            request_index as nat,
            request.needed,
            request.take,
            row.hash@,
            value_views(row.values@),
        ),
{
    let mut parts: Vec<String> = Vec::new();
    parts.push(decimal_text(request_index as u64));
    parts.push(decimal_text(request.needed));
    parts.push(decimal_text(request.take as u64));
    parts.push(string_literal(row.hash.as_str()));
    let ghost fixed = seq![
        decimal(request_index as nat),
        decimal(request.needed as nat),
        decimal(request.take as nat),
        literal(row.hash@),
    ];
    assert(views(parts@) =~= fixed);
    let rest: Vec<String> = literals(&row.values);
    push_texts(&mut parts, &rest);
    let mut text: String = "(".to_owned();
    text.append(join(parts.as_slice(), ",").as_str());
    text.append(")");
    text
}

/// The statement that answers lookups.
pub open spec fn lookup_sql(
    model: SpecModel,
    columns: Seq<ColumnModel>,
    rows: Seq<Seq<char>>,
) -> Seq<char> {
    "WITH requests AS (SELECT * FROM values("@ + literal(joined(request_columns(columns), ","@))
        + ", "@ + joined(rows, ","@)
        + ")) SELECT r.n, least(countIf(isNotNull(s.id)), any(r.needed)) AS count, "@
        + "arraySlice(arraySort(groupArrayIf(assumeNotNull(s.id), isNotNull(s.id))), 1, any(r.take)) AS ids "@
        + "FROM requests AS r LEFT JOIN (SELECT "@ + quoted("$dogpaddle.id"@) + " AS id, "@
        + quoted("$dogpaddle.hash"@) + " AS hash"@ + listed(columns, columns.len() as int)
        + " FROM "@ + state_object(model) + " FINAL WHERE "@ + quoted("$dogpaddle.deleted"@)
        + " = 0 AND "@ + quoted("$dogpaddle.hash"@) + " IN (SELECT hash FROM requests)) AS s ON "@
        + joined(join_parts(columns), " AND "@)
        + " GROUP BY r.n ORDER BY r.n SETTINGS join_use_nulls = 1 FORMAT JSONCompactEachRow"@
}

pub fn lookup_statement(
    spec: &ClickHouseTargetSpec,
    columns: &Vec<ColumnLayout>,
    rows: &Vec<String>,
) -> (text: String)
    ensures
        text@ == lookup_sql(spec@, column_views(columns@), views(rows@)),
{
    let mut text: String = "WITH requests AS (SELECT * FROM values(".to_owned();
    let requests: Vec<String> = request_list(columns);
    text.append(string_literal(join(requests.as_slice(), ",").as_str()).as_str());
    text.append(", ");
    text.append(join(rows.as_slice(), ",").as_str());
    text.append(")) SELECT r.n, least(countIf(isNotNull(s.id)), any(r.needed)) AS count, ");
    text.append(
        "arraySlice(arraySort(groupArrayIf(assumeNotNull(s.id), isNotNull(s.id))), 1, any(r.take)) AS ids ",
    );
    text.append("FROM requests AS r LEFT JOIN (SELECT ");
    text.append(quote("$dogpaddle.id").as_str());
    text.append(" AS id, ");
    text.append(quote("$dogpaddle.hash").as_str());
    text.append(" AS hash");
    text.append(lookup_state_columns(columns).as_str());
    text.append(" FROM ");
    text.append(state_of(spec).as_str());
    text.append(" FINAL WHERE ");
    text.append(quote("$dogpaddle.deleted").as_str());
    text.append(" = 0 AND ");
    text.append(quote("$dogpaddle.hash").as_str());
    text.append(" IN (SELECT hash FROM requests)) AS s ON ");
    text.append(lookup_join_predicate(columns).as_str());
    text.append(" GROUP BY r.n ORDER BY r.n SETTINGS join_use_nulls = 1 FORMAT JSONCompactEachRow");
    text
}

/// The numbers in decimal digits.
pub open spec fn decimals(ids: Seq<u64>) -> Seq<Seq<char>> {
    ids.map_values(|id: u64| decimal(id as nat))
}

/// The query for what the state table holds under some IDs.
pub open spec fn stored_sql(
    model: SpecModel,
    columns: Seq<ColumnModel>,
    ids: Seq<u64>,
) -> Seq<char> {
    "SELECT "@ + selected(columns) + " FROM "@ + state_object(model) + " FINAL WHERE "@ + quoted(
        "$dogpaddle.id"@,
    ) + " IN ("@ + joined(decimals(ids), ","@) + ") ORDER BY "@ + quoted("$dogpaddle.id"@)
        + " FORMAT JSONCompactEachRow"@
}

pub fn stored_statement(
    spec: &ClickHouseTargetSpec,
    columns: &Vec<ColumnLayout>,
    ids: &Vec<u64>,
) -> (text: String)
    ensures
        text@ == stored_sql(spec@, column_views(columns@), ids@),
{
    let mut numbers: Vec<String> = Vec::new();
    let mut index: usize = 0;
    assert(views(numbers@) =~= decimals(ids@).take(0));
    while index < ids.len()
        invariant
            index <= ids@.len(),
            views(numbers@) == decimals(ids@).take(index as int),
        decreases ids@.len() - index,
    {
        let ghost before = numbers@;
        let number: String = decimal_text(ids[index]);
        numbers.push(number);
        proof {
            assert(views(numbers@) =~= views(before).push(number@));
            assert(decimals(ids@)[index as int] == number@);
            assert(views(numbers@) =~= decimals(ids@).take(index + 1));
        }
        index += 1;
    }
    assert(decimals(ids@).take(index as int) =~= decimals(ids@));
    let mut text: String = "SELECT ".to_owned();
    text.append(selected_columns(columns).as_str());
    text.append(" FROM ");
    text.append(state_of(spec).as_str());
    text.append(" FINAL WHERE ");
    text.append(quote("$dogpaddle.id").as_str());
    text.append(" IN (");
    text.append(join(numbers.as_slice(), ",").as_str());
    text.append(") ORDER BY ");
    text.append(quote("$dogpaddle.id").as_str());
    text.append(" FORMAT JSONCompactEachRow");
    text
}

/// The values as JSON.
pub open spec fn cell_jsons(cells: Seq<CellModel>) -> Seq<Seq<char>> {
    cells.map_values(|cell: CellModel| cell_json(cell))
}

/// The elements of a row of the state table in JSON: its ID, its hash, its version, whether it is
/// deleted, and its values.
pub open spec fn row_elements(
    id: u64,
    hash: Seq<char>,
    deleted: bool,
    cells: Seq<CellModel>,
) -> Seq<Seq<char>> {
    let flag = if deleted {
        decimal(1)
    } else {
        decimal(0)
    };
    seq![decimal(id as nat), json_string(hash), flag, flag] + cell_jsons(cells)
}

/// A row of the state table as a JSON array.
pub open spec fn row_json(id: u64, hash: Seq<char>, deleted: bool, cells: Seq<CellModel>) -> Seq<
    char,
> {
    "["@ + joined(row_elements(id, hash, deleted, cells), ","@) + "]"@
}

pub fn row_text(id: u64, deleted: bool, row: &EncodedRow) -> (text: String)
    ensures
        text@ == row_json(id, row.hash@, deleted, value_views(row.values@)),
{
    let ghost cells = value_views(row.values@);
    let flag: u64 = if deleted {
        1
    } else {
        0
    };
    let mut parts: Vec<String> = Vec::new();
    parts.push(decimal_text(id));
    parts.push(json_text(row.hash.as_str()));
    parts.push(decimal_text(flag));
    parts.push(decimal_text(flag));
    let ghost fixed = seq![
        decimal(id as nat),
        json_string(row.hash@),
        decimal(flag as nat),
        decimal(flag as nat),
    ];
    let mut index: usize = 0;
    assert(views(parts@) =~= fixed + cell_jsons(cells).take(0));
    while index < row.values.len()
        invariant
            cells == value_views(row.values@),
            index <= row.values@.len(),
            views(parts@) == fixed + cell_jsons(cells).take(index as int),
        decreases row.values@.len() - index,
    {
        let ghost before = parts@;
        let part: String = row.values[index].json();
        parts.push(part);
        proof {
            assert(views(parts@) =~= views(before).push(part@));
            assert(cells[index as int] == row.values@[index as int]@);
            assert(cell_jsons(cells)[index as int] == part@);
            assert(views(parts@) =~= fixed + cell_jsons(cells).take(index + 1));
        }
        index += 1;
    }
    assert(cell_jsons(cells).take(index as int) =~= cell_jsons(cells));
    let mut text: String = "[".to_owned();
    text.append(join(parts.as_slice(), ",").as_str());
    text.append("]");
    text
}

/// The head of a statement that writes rows to the state table.
pub open spec fn insert_head(model: SpecModel, columns: Seq<ColumnModel>) -> Seq<char> {
    "INSERT INTO "@ + state_object(model) + " ("@ + selected(columns)
        + ") SETTINGS async_insert = 0, wait_for_async_insert = 1, max_insert_block_size = 1048576 FORMAT JSONCompactEachRow\n"@
}

pub fn insert_prefix(spec: &ClickHouseTargetSpec, columns: &Vec<ColumnLayout>) -> (text: String)
    ensures
        text@ == insert_head(spec@, column_views(columns@)),
{
    let mut text: String = "INSERT INTO ".to_owned();
    text.append(state_of(spec).as_str());
    text.append(" (");
    text.append(selected_columns(columns).as_str());
    text.append(
        ") SETTINGS async_insert = 0, wait_for_async_insert = 1, max_insert_block_size = 1048576 FORMAT JSONCompactEachRow\n",
    );
    text
}

/// The query for the columns of the state table.
pub open spec fn columns_sql(model: SpecModel) -> Seq<char> {
    "SELECT name, type FROM system.columns WHERE database = "@ + literal(model.database)
        + " AND table = "@ + literal(state_name(model.sink_id))
        + " ORDER BY position FORMAT JSONEachRow"@
}

pub fn columns_query(spec: &ClickHouseTargetSpec) -> (text: String)
    ensures
        text@ == columns_sql(spec@),
{
    let mut text: String = "SELECT name, type FROM system.columns WHERE database = ".to_owned();
    text.append(string_literal(spec.database()).as_str());
    text.append(" AND table = ");
    text.append(string_literal(spec.state_table().as_str()).as_str());
    text.append(" ORDER BY position FORMAT JSONEachRow");
    text
}

/// The query for the indexes of the state table.
pub open spec fn indexes_sql(model: SpecModel) -> Seq<char> {
    "SELECT name, type_full, expr, granularity FROM system.data_skipping_indices WHERE database = "@
        + literal(model.database) + " AND table = "@ + literal(state_name(model.sink_id))
        + " FORMAT JSONEachRow"@
}

pub fn indexes_query(spec: &ClickHouseTargetSpec) -> (text: String)
    ensures
        text@ == indexes_sql(spec@),
{
    let mut text: String = "SELECT name, type_full, expr, granularity FROM system.data_skipping_indices WHERE database = ".to_owned();
    text.append(string_literal(spec.database()).as_str());
    text.append(" AND table = ");
    text.append(string_literal(spec.state_table().as_str()).as_str());
    text.append(" FORMAT JSONEachRow");
    text
}

/// The query for the number of columns of the view.
pub open spec fn view_columns_sql(model: SpecModel) -> Seq<char> {
    "SELECT count() FROM system.columns WHERE database = "@ + literal(model.database)
        + " AND table = "@ + literal(model.table) + " FORMAT TabSeparatedRaw"@
}

pub fn view_columns_query(spec: &ClickHouseTargetSpec) -> (text: String)
    ensures
        text@ == view_columns_sql(spec@),
{
    let mut text: String = "SELECT count() FROM system.columns WHERE database = ".to_owned();
    text.append(string_literal(spec.database()).as_str());
    text.append(" AND table = ");
    text.append(string_literal(spec.table()).as_str());
    text.append(" FORMAT TabSeparatedRaw");
    text
}

/// The query for what the server knows of an object.
pub open spec fn metadata_sql(model: SpecModel, name: Seq<char>) -> Seq<char> {
    "SELECT engine, comment, create_table_query, sorting_key, primary_key, engine_full FROM system.tables WHERE database = "@
        + literal(model.database) + " AND name = "@ + literal(name) + " FORMAT JSONEachRow"@
}

pub fn metadata_query(spec: &ClickHouseTargetSpec, name: &str) -> (text: String)
    ensures
        text@ == metadata_sql(spec@, name@),
{
    let mut text: String = "SELECT engine, comment, create_table_query, sorting_key, primary_key, engine_full FROM system.tables WHERE database = ".to_owned();
    text.append(string_literal(spec.database()).as_str());
    text.append(" AND name = ");
    text.append(string_literal(name).as_str());
    text.append(" FORMAT JSONEachRow");
    text
}

/// The query for the objects of the sink.
pub open spec fn objects_sql(model: SpecModel) -> Seq<char> {
    "SELECT name, engine FROM system.tables WHERE database = "@ + literal(model.database)
        + " AND name IN ("@ + literal(model.table) + ", "@ + literal(state_name(model.sink_id))
        + ") FORMAT JSONEachRow"@
}

pub fn objects_query(spec: &ClickHouseTargetSpec) -> (text: String)
    ensures
        text@ == objects_sql(spec@),
{
    let mut text: String = "SELECT name, engine FROM system.tables WHERE database = ".to_owned();
    text.append(string_literal(spec.database()).as_str());
    text.append(" AND name IN (");
    text.append(string_literal(spec.table()).as_str());
    text.append(", ");
    text.append(string_literal(spec.state_table().as_str()).as_str());
    text.append(") FORMAT JSONEachRow");
    text
}

/// The query for the number of rows in the state table.
pub open spec fn count_sql(model: SpecModel) -> Seq<char> {
    "SELECT count() FROM "@ + state_object(model) + " FORMAT TabSeparatedRaw"@
}

pub fn count_query(spec: &ClickHouseTargetSpec) -> (text: String)
    ensures
        text@ == count_sql(spec@),
{
    let mut text: String = "SELECT count() FROM ".to_owned();
    text.append(state_of(spec).as_str());
    text.append(" FORMAT TabSeparatedRaw");
    text
}

} // verus!
