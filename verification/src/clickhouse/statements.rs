//! What the statements of a ClickHouse relation say.

use crate::change::{FieldModel, RecordBatch, ValueModel};
use crate::clickhouse::config::{literal, literal_byte, literal_bytes, state_name, SpecModel};
use crate::clickhouse::meaning::{law_encoded_row_is_read, lemma_column_exists, value_in};
use crate::clickhouse::row::{cell_json, cell_literal, cell_of, cells_of, row_digest, CellModel};
use crate::clickhouse::schema::{
    column_of, column_type, column_views, columns_of, sql_name, ClickHouseLayout, ColumnModel,
    StorageType,
};
use crate::clickhouse::sql::{
    cell_jsons, cell_literals, column_definitions, insert_head, join_parts, listed, lookup_sql,
    lookup_tuple, qualified_name, quoted, quoted_columns, request_columns, row_elements, row_json,
    state_object, state_parts, state_sql, stored_sql, technical_columns, view_sql,
};
use crate::clickhouse::target::{
    action_lines, element_numbers, encodable, expected_columns, json_same, line_matches, line_row,
    lookup_ends, lookup_limits, row_same, tuple_sizes, tuples, ActionModel, StoredModel,
};
use crate::encoding::{base64_text, tells};
use crate::json::{json_array, json_content, json_string};
use crate::reading::{
    begins, behind, ends, hex_value, holds_part, law_decimal_is_read, law_escaped_name_is_read,
    law_signed_decimal_is_read, lemma_begins, lemma_begins_not, lemma_digits_hold, lemma_holds_part,
    lemma_word, number_in, object_in, quoted_in, word_in,
};
use crate::relation::identity::row_measured;
use crate::relation::plan::Lookup;
use crate::relation::row::{canonical, value_fault};
use crate::sqlite::row::encode_fault;
use crate::text::{all_digits, decimal, hex_digit, is_digit, joined, parsed_u64, signed_decimal};
use crate::relation::pack::{law_each_row_lies_in_one_piece, lies_in};
use vstd::prelude::*;
use vstd::utf8::{decode_utf8, encode_utf8, encode_utf8_decode_utf8};

verus! {

/// A name in backquotes is read as itself.
pub proof fn law_quoted_name_is_read(name: Seq<char>, rest: Seq<char>)
    requires
        rest.len() == 0 || rest[0] != '`',
    ensures
        quoted_in(quoted(name) + rest, '`', true) == Some((name, rest)),
{
    reveal_strlit("`");
    reveal_strlit("\\`");
    reveal_strlit("\\\\");
    assert("`"@ =~= seq!['`']);
    assert("\\`"@ =~= seq!['\\', '`']);
    assert("\\\\"@ =~= seq!['\\', '\\']);
    law_escaped_name_is_read(name, rest, '`', seq!['\\', '`']);
}

/// The byte that a text in single quotes goes on with, and how many characters stand for it.
pub open spec fn byte_in(text: Seq<char>) -> (u8, int) {
    if text[0] != '\\' {
        (text[0] as u8, 1)
    } else if text[1] == 'n' {
        (0x0a, 2)
    } else if text[1] == 'r' {
        (0x0d, 2)
    } else if text[1] == 't' {
        (0x09, 2)
    } else if text[1] == 'x' {
        ((16 * hex_value(text[2]) + hex_value(text[3])) as u8, 4)
    } else {
        (text[1] as u8, 2)
    }
}

/// The bytes between here and the closing quote, and what stands behind that.
pub open spec fn literal_body(text: Seq<char>) -> Option<(Seq<u8>, Seq<char>)>
    decreases text.len(),
{
    if text.len() == 0 {
        None
    } else if text[0] == '\'' {
        Some((Seq::empty(), text.skip(1)))
    } else {
        let (byte, length) = byte_in(text);
        if text.len() < length {
            None
        } else {
            match literal_body(text.skip(length)) {
                Some((bytes, rest)) => Some((seq![byte] + bytes, rest)),
                None => None,
            }
        }
    }
}

/// The text that stands in single quotes at the start of a text, and what stands behind it.
pub open spec fn literal_in(text: Seq<char>) -> Option<(Seq<char>, Seq<char>)> {
    if text.len() > 0 && text[0] == '\'' {
        match literal_body(text.skip(1)) {
            Some((bytes, rest)) => Some((decode_utf8(bytes), rest)),
            None => None,
        }
    } else {
        None
    }
}

proof fn lemma_literal_front(bytes: Seq<u8>)
    requires
        bytes.len() > 0,
    ensures
        literal_bytes(bytes) == literal_byte(bytes[0]) + literal_bytes(bytes.skip(1)),
    decreases bytes.len(),
{
    if bytes.len() == 1 {
        assert(bytes.drop_last() =~= Seq::empty());
        assert(bytes.skip(1) =~= Seq::empty());
        assert(literal_bytes(bytes) =~= literal_byte(bytes[0]) + literal_bytes(bytes.skip(1)));
    } else {
        lemma_literal_front(bytes.drop_last());
        assert(bytes.drop_last().skip(1) =~= bytes.skip(1).drop_last());
        assert(bytes.skip(1).last() == bytes.last());
        assert(literal_bytes(bytes) =~= literal_byte(bytes[0]) + literal_bytes(bytes.skip(1)));
    }
}

proof fn lemma_byte_read(byte: u8, rest: Seq<char>)
    ensures
        ({
            let text = literal_byte(byte) + rest;
            &&& byte_in(text) == (byte, literal_byte(byte).len() as int)
            &&& literal_byte(byte).len() > 0
            &&& text[0] != '\''
        }),
{
    reveal_strlit("\\\\");
    reveal_strlit("\\'");
    reveal_strlit("\\n");
    reveal_strlit("\\r");
    reveal_strlit("\\t");
    reveal_strlit("\\x");
    let text = literal_byte(byte) + rest;
    if byte < 0x20 || byte > 0x7e {
        if byte != 0x0a && byte != 0x0d && byte != 0x09 {
            assert(text[2] == hex_digit((byte / 16) as nat));
            assert(text[3] == hex_digit((byte % 16) as nat));
            assert(hex_value(hex_digit((byte / 16) as nat)) == byte / 16);
            assert(hex_value(hex_digit((byte % 16) as nat)) == byte % 16);
        }
    }
}

proof fn lemma_literal_body(bytes: Seq<u8>, rest: Seq<char>)
    ensures
        literal_body(literal_bytes(bytes) + (seq!['\''] + rest)) == Some((bytes, rest)),
    decreases bytes.len(),
{
    let end = seq!['\''] + rest;
    let text = literal_bytes(bytes) + end;
    if bytes.len() == 0 {
        assert(text =~= end);
        assert(text.skip(1) =~= rest);
        assert(bytes =~= Seq::empty());
    } else {
        let own = literal_byte(bytes[0]);
        let more = literal_bytes(bytes.skip(1)) + end;
        lemma_literal_front(bytes);
        lemma_byte_read(bytes[0], more);
        lemma_literal_body(bytes.skip(1), rest);
        assert(text =~= own + more);
        assert(text.skip(own.len() as int) =~= more);
        assert(seq![bytes[0]] + bytes.skip(1) =~= bytes);
    }
}

/// A text in single quotes is read as itself, whatever it holds.
pub proof fn law_literal_is_read(value: Seq<char>, rest: Seq<char>)
    ensures
        literal_in(literal(value) + rest) == Some((value, rest)),
{
    reveal_strlit("'");
    let bytes = encode_utf8(value);
    let text = literal(value) + rest;
    encode_utf8_decode_utf8(value);
    lemma_literal_body(bytes, rest);
    assert(text.skip(1) =~= literal_bytes(bytes) + (seq!['\''] + rest));
}

/// The value that stands in a statement.
pub open spec fn cell_in(text: Seq<char>) -> Option<CellModel> {
    if text == "NULL"@ {
        Some(CellModel::Null)
    } else {
        match literal_in(text) {
            Some((value, _)) => Some(CellModel::Text(value)),
            None => match number_in(text) {
                Some(number) => if number < 0 {
                    Some(CellModel::Negative(number as i64))
                } else {
                    Some(CellModel::Unsigned(number as u64))
                },
                None => None,
            },
        }
    }
}

/// Whether a signed value is below zero, as only such values are.
pub open spec fn signed_well(cell: CellModel) -> bool {
    cell matches CellModel::Negative(value) ==> value < 0
}

proof fn lemma_number_text(number: int)
    ensures
        signed_decimal(number) != "NULL"@,
        literal_in(signed_decimal(number)) is None,
        number_in(signed_decimal(number)) == Some(number),
{
    let text = signed_decimal(number);
    law_signed_decimal_is_read(number);
    lemma_digits_hold(number, 'N');
    lemma_digits_hold(number, '\'');
    reveal_strlit("NULL");
    if text == "NULL"@ {
        assert(text[0] == 'N');
        assert(text.contains('N'));
    }
    if text.len() > 0 && text[0] == '\'' {
        assert(text.contains('\''));
    }
}

/// A value that stands in a statement is read as itself.
pub proof fn law_cell_literal_is_read(cell: CellModel)
    requires
        signed_well(cell),
    ensures
        cell_in(cell_literal(cell)) == Some(cell),
{
    match cell {
        CellModel::Null => {},
        CellModel::Unsigned(value) => {
            lemma_number_text(value as int);
        },
        CellModel::Negative(value) => {
            lemma_number_text(value as int);
        },
        CellModel::Text(value) => {
            law_literal_is_read(value, Seq::empty());
            assert(literal(value) + Seq::<char>::empty() =~= literal(value));
            reveal_strlit("'");
            reveal_strlit("NULL");
            assert(literal(value)[0] == '\'');
            assert("NULL"@[0] == 'N');
        },
    }
}

/// A row that is written reads back as what was to be written, where the elements of a JSON array
/// and the text of a JSON string do: its ID, its hash, whether it is deleted, and its values.
pub proof fn law_written_row_is_read(
    id: u64,
    deleted: bool,
    hash: Seq<char>,
    cells: Seq<CellModel>,
)
    requires
        ({
            let elements = row_elements(id, hash, deleted, cells);
            json_array("["@ + joined(elements, ","@) + "]"@) == Some(elements)
        }),
        json_content(json_string(hash)) == Some(hash),
        json_content(decimal(id as nat)) is None,
        json_content(decimal(0)) is None,
        json_content(decimal(1)) is None,
    ensures
        match line_row(row_json(id, hash, deleted, cells), cells.len()) {
            Ok(stored) => {
                &&& stored.id == id
                &&& stored.deleted == deleted
                &&& row_same(stored, hash, cells)
            },
            Err(_) => false,
        },
{
    let elements = row_elements(id, hash, deleted, cells);
    lemma_parsed(id as nat);
    lemma_parsed(0);
    lemma_parsed(1);
    assert(elements.skip(4) =~= cell_jsons(cells));
}

proof fn lemma_parsed(number: nat)
    requires
        number <= u64::MAX,
    ensures
        parsed_u64(decimal(number)) == Some(number as u64),
{
    law_decimal_is_read(number);
    lemma_digits_hold(number as int, '+');
    let text = decimal(number);
    if text.len() > 0 && text[0] == '+' {
        assert(text.contains('+'));
    }
    if !all_digits(text) {
        lemma_digits_hold(number as int, 'N');
    }
    lemma_plain(number);
}

proof fn lemma_plain(number: nat)
    ensures
        all_digits(decimal(number)),
    decreases number,
{
    if number >= 10 {
        lemma_plain(number / 10);
        assert forall|i: int| 0 <= i < decimal(number).len() implies is_digit(
            #[trigger] decimal(number)[i],
        ) by {
            if i < decimal(number / 10).len() {
                assert(decimal(number)[i] == decimal(number / 10)[i]);
            }
        }
    }
}

/// A statement reads those rows of the state table, one for each ID, whose mark is a number.
pub open spec fn reads_marked(text: Seq<char>, model: SpecModel, mark: int) -> bool {
    exists|digits: Seq<char>|
        {
            let filter = " FROM "@ + state_object(model) + " FINAL WHERE "@ + quoted(
                "$dogpaddle.deleted"@,
            ) + " = "@ + digits;
            &&& #[trigger] number_in(digits) == Some(mark)
            &&& ends(text, filter) || holds_part(text, filter + " AND "@)
        }
}

/// The view shows the rows that were written as inserted, and a lookup looks for them among the
/// same rows: both read the rows with the mark of a row that is not deleted. A deleted row has
/// another mark, and a greater version, by which it replaces the row that was inserted.
pub proof fn law_inserted_rows_are_seen(
    model: SpecModel,
    columns: Seq<ColumnModel>,
    rows: Seq<Seq<char>>,
    id: u64,
    hash: Seq<char>,
    cells: Seq<CellModel>,
)
    ensures
        ({
            let live = row_elements(id, hash, false, cells);
            let dead = row_elements(id, hash, true, cells);
            let mark = number_in(live[3]);
            &&& mark is Some
            &&& number_in(dead[3]) is Some
            &&& number_in(dead[3]) != mark
            &&& number_in(live[2]) is Some
            &&& number_in(dead[2]) is Some
            &&& number_in(live[2])->0 < number_in(dead[2])->0
            &&& reads_marked(view_sql(model, columns), model, mark->0)
            &&& reads_marked(lookup_sql(model, columns, rows), model, mark->0)
            &&& holds_part(
                state_sql(model, columns),
                ") ENGINE = ReplacingMergeTree("@ + technical_columns()[2] + ") ORDER BY "@
                    + technical_columns()[0] + " "@,
            )
        }),
{
    law_decimal_is_read(0);
    law_decimal_is_read(1);
    lemma_view(model, columns);
    lemma_lookup_filter(model, columns, rows);
    lemma_engine(model, columns);
    assert(number_in(decimal(0)) == Some(0int));
}

proof fn lemma_engine(model: SpecModel, columns: Seq<ColumnModel>)
    ensures
        holds_part(
            state_sql(model, columns),
            ") ENGINE = ReplacingMergeTree("@ + quoted("$dogpaddle.version"@) + ") ORDER BY "@
                + quoted("$dogpaddle.id"@) + " "@,
        ),
{
    let settings = " SETTINGS fsync_after_insert = 1, fsync_part_directory = 1 COMMENT "@;
    let part = ") ENGINE = ReplacingMergeTree("@ + quoted("$dogpaddle.version"@) + ") ORDER BY "@
        + quoted("$dogpaddle.id"@) + " "@;
    let before = "CREATE TABLE "@ + state_object(model) + " ("@ + joined(state_parts(columns), ","@);
    let after = settings.skip(1) + literal(
        crate::clickhouse::config::marker_name(model.sink_id),
    );
    assert(settings =~= " "@ + settings.skip(1)) by {
        reveal_strlit(" SETTINGS fsync_after_insert = 1, fsync_part_directory = 1 COMMENT ");
        reveal_strlit(" ");
    }
    assert(state_sql(model, columns) =~= before + part + after);
    lemma_holds_part(before, part, after);
}

proof fn lemma_view(model: SpecModel, columns: Seq<ColumnModel>)
    ensures
        ends(
            view_sql(model, columns),
            " FROM "@ + state_object(model) + " FINAL WHERE "@ + quoted("$dogpaddle.deleted"@)
                + " = "@ + decimal(0),
        ),
{
    let text = view_sql(model, columns);
    let filter = " FROM "@ + state_object(model) + " FINAL WHERE "@ + quoted("$dogpaddle.deleted"@)
        + " = "@ + decimal(0);
    reveal_strlit(" = 0");
    reveal_strlit(" = ");
    assert(decimal(0) =~= seq!['0']);
    assert(" = 0"@ =~= " = "@ + decimal(0));
    assert(text.skip(text.len() - filter.len()) =~= filter);
}

/// What stands in a lookup before the state table.
spec fn lookup_front(columns: Seq<ColumnModel>, rows: Seq<Seq<char>>) -> Seq<char> {
    "WITH requests AS (SELECT * FROM values("@ + literal(joined(request_columns(columns), ","@))
        + ", "@ + joined(rows, ","@)
        + ")) SELECT r.n, least(countIf(isNotNull(s.id)), any(r.needed)) AS count, "@
        + "arraySlice(arraySort(groupArrayIf(assumeNotNull(s.id), isNotNull(s.id))), 1, any(r.take)) AS ids "@
        + "FROM requests AS r LEFT JOIN (SELECT "@ + quoted("$dogpaddle.id"@) + " AS id, "@
        + quoted("$dogpaddle.hash"@) + " AS hash"@ + listed(columns, columns.len() as int)
}

/// What stands in a lookup behind the mark.
spec fn lookup_back(columns: Seq<ColumnModel>) -> Seq<char> {
    quoted("$dogpaddle.hash"@) + " IN (SELECT hash FROM requests)) AS s ON "@ + joined(
        join_parts(columns),
        " AND "@,
    ) + " GROUP BY r.n ORDER BY r.n SETTINGS join_use_nulls = 1 FORMAT JSONCompactEachRow"@
}

proof fn lemma_lookup_filter(model: SpecModel, columns: Seq<ColumnModel>, rows: Seq<Seq<char>>)
    ensures
        lookup_sql(model, columns, rows) == lookup_front(columns, rows) + (" FROM "@ + state_object(
            model,
        ) + " FINAL WHERE "@ + quoted("$dogpaddle.deleted"@) + " = "@ + decimal(0) + " AND "@)
            + lookup_back(columns),
        holds_part(
            lookup_sql(model, columns, rows),
            " FROM "@ + state_object(model) + " FINAL WHERE "@ + quoted("$dogpaddle.deleted"@)
                + " = "@ + decimal(0) + " AND "@,
        ),
{
    let part = " FROM "@ + state_object(model) + " FINAL WHERE "@ + quoted("$dogpaddle.deleted"@)
        + " = "@ + decimal(0) + " AND "@;
    assert(decimal(0) =~= seq!['0']);
    assert(" = 0 AND "@ =~= " = "@ + decimal(0) + " AND "@) by {
        reveal_strlit(" = 0 AND ");
        reveal_strlit(" = ");
        reveal_strlit(" AND ");
    }
    let before = lookup_front(columns, rows);
    let after = lookup_back(columns);
    assert(lookup_sql(model, columns, rows) =~= before + part + after);
    lemma_holds_part(before, part, after);
}

/// A request is given by its number, how many rows it needs and takes, its hash and its values,
/// under the names that the lookup uses for them.
pub proof fn law_request_names_its_values(
    fields: Seq<FieldModel>,
    request: nat,
    needed: u64,
    take: usize,
    hash: Seq<char>,
    cells: Seq<CellModel>,
    i: int,
)
    requires
        forall|c: int| 0 <= c < fields.len() ==> column_of(#[trigger] fields[c]) is Some,
        cells.len() == fields.len(),
        0 <= i < fields.len(),
        signed_well(cells[i]),
    ensures
        exists|parts: Seq<Seq<char>>|
            {
                let names = request_columns(columns_of(fields));
                &&& lookup_tuple(request, needed, take, hash, cells) == "("@ + #[trigger] joined(
                    parts,
                    ","@,
                ) + ")"@
                &&& parts.len() == names.len() == fields.len() + 4
                &&& word_in(names[0]) == "n"@
                &&& number_in(parts[0]) == Some(request as int)
                &&& word_in(names[1]) == "needed"@
                &&& number_in(parts[1]) == Some(needed as int)
                &&& word_in(names[2]) == "take"@
                &&& number_in(parts[2]) == Some(take as int)
                &&& word_in(names[3]) == "hash"@
                &&& literal_in(parts[3]) == Some((hash, Seq::<char>::empty()))
                &&& names[4 + i] == word_in(names[4 + i]) + " "@ + column_type(
                    column_of(fields[i])->0,
                )
                &&& cell_in(parts[4 + i]) == Some(cells[i])
                &&& compares(
                    join_parts(columns_of(fields))[1 + i],
                    fields[i].name,
                    word_in(names[4 + i]),
                )
                &&& join_parts(columns_of(fields))[0] == "s."@ + word_in(names[3]) + " = r."@
                    + word_in(names[3])
            },
{
    let columns = columns_of(fields);
    let names = request_columns(columns);
    let parts = seq![decimal(request), decimal(needed as nat), decimal(take as nat), literal(hash)]
        + cell_literals(cells);
    law_decimal_is_read(request);
    law_decimal_is_read(needed as nat);
    law_decimal_is_read(take as nat);
    law_literal_is_read(hash, Seq::empty());
    assert(literal(hash) + Seq::<char>::empty() =~= literal(hash));
    law_cell_literal_is_read(cells[i]);
    lemma_request_names();
    assert(column_of(fields[i]) is Some);
    assert(columns[i] == column_of(fields[i])->0);
    lemma_request_column(i as nat, columns[i]);
    lemma_compares(fields[i].name, i as nat);
    assert(parts[4 + i] == cell_literal(cells[i]));
    assert(lookup_tuple(request, needed, take, hash, cells) == "("@ + joined(parts, ","@) + ")"@);
    reveal_strlit("s.hash = r.hash");
    reveal_strlit("s.");
    reveal_strlit(" = r.");
    reveal_strlit("hash");
    assert("s.hash = r.hash"@ =~= "s."@ + "hash"@ + " = r."@ + "hash"@);
}

/// A condition finds a column of the stored row equal to a value of the request, null or not.
pub open spec fn compares(text: Seq<char>, column: Seq<char>, value: Seq<char>) -> bool {
    begins(text, "isNotDistinctFrom(s."@) && quoted_in(
        behind(text, "isNotDistinctFrom(s."@),
        '`',
        true,
    ) == Some((column, ", r."@ + value + ")"@))
}

proof fn lemma_compares(name: Seq<char>, index: nat)
    ensures
        compares(
            "isNotDistinctFrom(s."@ + quoted(name) + ", r.v"@ + decimal(index) + ")"@,
            name,
            "v"@ + decimal(index),
        ),
{
    let rest = ", r."@ + ("v"@ + decimal(index)) + ")"@;
    assert(", r.v"@ =~= ", r."@ + "v"@ && rest[0] == ',') by {
        reveal_strlit(", r.v");
        reveal_strlit(", r.");
        reveal_strlit("v");
    }
    let head = "isNotDistinctFrom(s."@;
    law_quoted_name_is_read(name, rest);
    lemma_begins(head, quoted(name) + rest);
    assert(head + quoted(name) + ", r.v"@ + decimal(index) + ")"@ =~= head + (quoted(name)
        + rest));
}

proof fn lemma_request_column(index: nat, column: ColumnModel)
    ensures
        word_in("v"@ + decimal(index) + " "@ + column_type(column)) == "v"@ + decimal(index),
{
    let word = "v"@ + decimal(index);
    let rest = " "@ + column_type(column);
    reveal_strlit("v");
    reveal_strlit(" ");
    lemma_digits_hold(index as int, ' ');
    assert forall|i: int| 0 <= i < word.len() implies word[i] != ' ' by {
        if i > 0 {
            assert(decimal(index).contains(decimal(index)[i - 1]));
        }
    }
    lemma_word(word, rest);
    assert(word + " "@ + column_type(column) =~= word + rest);
}

proof fn lemma_request_names()
    ensures
        word_in("n UInt64"@) == "n"@,
        word_in("needed UInt64"@) == "needed"@,
        word_in("take UInt64"@) == "take"@,
        word_in("hash FixedString(32)"@) == "hash"@,
{
    reveal_strlit("n UInt64");
    reveal_strlit("needed UInt64");
    reveal_strlit("take UInt64");
    reveal_strlit("hash FixedString(32)");
    reveal_strlit("n");
    reveal_strlit("needed");
    reveal_strlit("take");
    reveal_strlit("hash");
    reveal_strlit(" UInt64");
    reveal_strlit(" FixedString(32)");
    assert("n UInt64"@ =~= "n"@ + " UInt64"@);
    assert("needed UInt64"@ =~= "needed"@ + " UInt64"@);
    assert("take UInt64"@ =~= "take"@ + " UInt64"@);
    assert("hash FixedString(32)"@ =~= "hash"@ + " FixedString(32)"@);
    lemma_word("n"@, " UInt64"@);
    lemma_word("needed"@, " UInt64"@);
    lemma_word("take"@, " UInt64"@);
    lemma_word("hash"@, " FixedString(32)"@);
}

/// A lookup answers each of its requests, also one without a row: it counts the stored rows that
/// all conditions find, up to the number that is needed, and gives the smallest of their IDs up
/// to the number that is to be taken, in the order of the requests.
pub proof fn law_lookup_answers_each_request(
    model: SpecModel,
    columns: Seq<ColumnModel>,
    rows: Seq<Seq<char>>,
)
    ensures
        ({
            let text = lookup_sql(model, columns, rows);
            &&& begins(
                text,
                "WITH requests AS (SELECT * FROM values("@ + literal(
                    joined(request_columns(columns), ","@),
                ) + ", "@ + joined(rows, ","@)
                    + ")) SELECT r.n, least(countIf(isNotNull(s.id)), any(r.needed)) AS count, "@
                    + "arraySlice(arraySort(groupArrayIf(assumeNotNull(s.id), isNotNull(s.id))), 1, any(r.take)) AS ids "@
                    + "FROM requests AS r LEFT JOIN (SELECT "@ + technical_columns()[0]
                    + " AS id, "@ + technical_columns()[1] + " AS hash"@ + listed(
                    columns,
                    columns.len() as int,
                ) + " FROM "@,
            )
            &&& ends(
                text,
                " AND "@ + technical_columns()[1] + " IN (SELECT hash FROM requests)) AS s ON "@
                    + joined(join_parts(columns), " AND "@)
                    + " GROUP BY r.n ORDER BY r.n SETTINGS join_use_nulls = 1 FORMAT JSONCompactEachRow"@,
            )
        }),
{
    lemma_lookup_filter(model, columns, rows);
    lemma_lookup_end(model, columns, rows);
    let head = lookup_front(columns, rows) + " FROM "@;
    assert(lookup_sql(model, columns, rows).take(head.len() as int) =~= head);
}

/// The columns that a lookup compares are selected under their own names.
pub proof fn law_lookup_selects_each_column(columns: Seq<ColumnModel>, i: int)
    requires
        0 <= i < columns.len(),
    ensures
        holds_part(listed(columns, columns.len() as int), ","@ + quoted(columns[i].name)),
{
    lemma_listed(columns, columns.len() as int, i);
}

proof fn lemma_listed(columns: Seq<ColumnModel>, count: int, i: int)
    requires
        0 <= i < count <= columns.len(),
    ensures
        holds_part(listed(columns, count), ","@ + quoted(columns[i].name)),
    decreases count,
{
    let before = listed(columns, count - 1);
    let own = ","@ + quoted(columns[count - 1].name);
    assert(listed(columns, count) =~= before + own);
    if i == count - 1 {
        assert(before + own + Seq::<char>::empty() =~= before + own);
        lemma_holds_part(before, own, Seq::empty());
    } else {
        lemma_listed(columns, count - 1, i);
        let part = ","@ + quoted(columns[i].name);
        let place = choose|place: int|
            0 <= place && #[trigger] crate::text::stands_at(before, part, place);
        assert((before + own).subrange(place, place + part.len() as int) =~= before.subrange(
            place,
            place + part.len() as int,
        ));
        assert(crate::text::stands_at(before + own, part, place));
    }
}

proof fn lemma_lookup_end(model: SpecModel, columns: Seq<ColumnModel>, rows: Seq<Seq<char>>)
    ensures
        ends(lookup_sql(model, columns, rows), " AND "@ + lookup_back(columns)),
        " AND "@ + lookup_back(columns) == " AND "@ + quoted("$dogpaddle.hash"@)
            + " IN (SELECT hash FROM requests)) AS s ON "@ + joined(join_parts(columns), " AND "@)
            + " GROUP BY r.n ORDER BY r.n SETTINGS join_use_nulls = 1 FORMAT JSONCompactEachRow"@,
{
    lemma_lookup_filter(model, columns, rows);
    let text = lookup_sql(model, columns, rows);
    let end = " AND "@ + lookup_back(columns);
    assert(text.skip(text.len() - end.len()) =~= end);
    assert(end =~= " AND "@ + quoted("$dogpaddle.hash"@)
        + " IN (SELECT hash FROM requests)) AS s ON "@ + joined(join_parts(columns), " AND "@)
        + " GROUP BY r.n ORDER BY r.n SETTINGS join_use_nulls = 1 FORMAT JSONCompactEachRow"@);
}

/// What the definition of a column demands of its values.
pub ghost struct ColumnRule {
    pub sort: Seq<char>,
    pub nullable: bool,
}

/// The name of a column and what its definition demands, if a text is a definition.
pub open spec fn definition_in(text: Seq<char>) -> Option<(Seq<char>, ColumnRule)> {
    match quoted_in(text, '`', true) {
        Some((name, rest)) => if !begins(rest, " "@) {
            None
        } else {
            let sort = rest.skip(1);
            if begins(sort, "Nullable("@) && sort.last() == ')' {
                Some(
                    (
                        name,
                        ColumnRule { sort: behind(sort, "Nullable("@).drop_last(), nullable: true },
                    ),
                )
            } else {
                Some((name, ColumnRule { sort, nullable: false }))
            }
        },
        None => None,
    }
}

/// The integer of a value, if it is one.
pub open spec fn integer_of(cell: CellModel) -> Option<int> {
    match cell {
        CellModel::Unsigned(value) => Some(value as int),
        CellModel::Negative(value) => Some(value as int),
        _ => None,
    }
}

/// The numbers that a type of integers holds.
pub open spec fn range_of(sort: Seq<char>) -> Option<(int, int)> {
    if sort == "UInt8"@ {
        Some((0, u8::MAX as int))
    } else if sort == "UInt16"@ {
        Some((0, u16::MAX as int))
    } else if sort == "UInt32"@ {
        Some((0, u32::MAX as int))
    } else if sort == "UInt64"@ {
        Some((0, u64::MAX as int))
    } else if sort == "Int8"@ {
        Some((i8::MIN as int, i8::MAX as int))
    } else if sort == "Int16"@ {
        Some((i16::MIN as int, i16::MAX as int))
    } else if sort == "Int32"@ {
        Some((i32::MIN as int, i32::MAX as int))
    } else if sort == "Int64"@ {
        Some((i64::MIN as int, i64::MAX as int))
    } else {
        None
    }
}

/// Whether a column admits a value.
pub open spec fn admits(rule: ColumnRule, cell: CellModel) -> bool {
    match cell {
        CellModel::Null => rule.nullable,
        CellModel::Text(_) => rule.sort == "String"@,
        _ => match range_of(rule.sort) {
            Some((low, high)) => low <= integer_of(cell)->0 <= high,
            None => false,
        },
    }
}

proof fn lemma_sorts()
    ensures
        range_of(sql_name(StorageType::UInt8)) == Some((0int, u8::MAX as int)),
        range_of(sql_name(StorageType::UInt16)) == Some((0int, u16::MAX as int)),
        range_of(sql_name(StorageType::UInt32)) == Some((0int, u32::MAX as int)),
        range_of(sql_name(StorageType::UInt64)) == Some((0int, u64::MAX as int)),
        range_of(sql_name(StorageType::Int8)) == Some((i8::MIN as int, i8::MAX as int)),
        range_of(sql_name(StorageType::Int16)) == Some((i16::MIN as int, i16::MAX as int)),
        range_of(sql_name(StorageType::Int32)) == Some((i32::MIN as int, i32::MAX as int)),
        range_of(sql_name(StorageType::Int64)) == Some((i64::MIN as int, i64::MAX as int)),
        forall|storage: StorageType| !begins(#[trigger] sql_name(storage), "Nullable("@),
{
    reveal_strlit("UInt8");
    reveal_strlit("UInt16");
    reveal_strlit("UInt32");
    reveal_strlit("UInt64");
    reveal_strlit("Int8");
    reveal_strlit("Int16");
    reveal_strlit("Int32");
    reveal_strlit("Int64");
    reveal_strlit("String");
    reveal_strlit("Nullable(");
    assert("UInt8"@.len() == 5 && "UInt8"@[0] == 'U');
    assert("UInt16"@.len() == 6 && "UInt16"@[4] == '1');
    assert("UInt32"@.len() == 6 && "UInt32"@[4] == '3');
    assert("UInt64"@.len() == 6 && "UInt64"@[4] == '6');
    assert("Int8"@.len() == 4);
    assert("Int16"@.len() == 5 && "Int16"@[0] == 'I' && "Int16"@[3] == '1');
    assert("Int32"@.len() == 5 && "Int32"@[0] == 'I' && "Int32"@[3] == '3');
    assert("Int64"@.len() == 5 && "Int64"@[0] == 'I' && "Int64"@[3] == '6');
    assert forall|storage: StorageType| !begins(#[trigger] sql_name(storage), "Nullable("@) by {
        lemma_begins_not(sql_name(storage), "Nullable("@, 8);
    }
}

proof fn lemma_column(column: ColumnModel)
    ensures
        definition_in(quoted(column.name) + " "@ + column_type(column)) == Some(
            (column.name, ColumnRule { sort: sql_name(column.storage), nullable: column.nullable }),
        ),
{
    let sort = sql_name(column.storage);
    let rest = " "@ + column_type(column);
    lemma_sorts();
    reveal_strlit(" ");
    law_quoted_name_is_read(column.name, rest);
    lemma_begins(" "@, column_type(column));
    assert(quoted(column.name) + " "@ + column_type(column) =~= quoted(column.name) + rest);
    assert(rest.skip(1) =~= column_type(column));
    if column.nullable {
        reveal_strlit(")");
        lemma_begins("Nullable("@, sort + ")"@);
        assert(column_type(column) =~= "Nullable("@ + (sort + ")"@));
        assert((sort + ")"@).drop_last() =~= sort);
    }
}

/// The state table admits every value of its schema: the definition of a column bears the name
/// of its field, is nullable exactly where the field is, and has a type that holds the values.
pub proof fn law_table_admits_its_values(field: FieldModel, value: ValueModel, path: Seq<char>)
    requires
        column_of(field) is Some,
        value_fault(field, value, path) is None,
    ensures
        ({
            let column = column_of(field)->0;
            match definition_in(column_definitions(seq![column])[0]) {
                Some((name, rule)) => {
                    &&& name == field.name
                    &&& rule.nullable <==> field.nullable || field.data_type is Null
                    &&& admits(rule, cell_of(column.storage, value))
                },
                None => false,
            }
        }),
{
    lemma_column(column_of(field)->0);
    lemma_sorts();
}

/// The columns of the state table, in order.
pub open spec fn table_columns(fields: Seq<FieldModel>) -> Seq<Seq<char>> {
    seq![
        "$dogpaddle.id"@,
        "$dogpaddle.hash"@,
        "$dogpaddle.version"@,
        "$dogpaddle.deleted"@,
    ] + fields.map_values(|field: FieldModel| field.name)
}

/// The names of the columns of the state table, in quotes.
pub open spec fn quoted_table_columns(fields: Seq<FieldModel>) -> Seq<Seq<char>> {
    table_columns(fields).map_values(|name: Seq<char>| quoted(name))
}

proof fn lemma_technical(name: Seq<char>, sort: Seq<char>, text: Seq<char>)
    requires
        !begins(sort, "Nullable("@),
        text == " "@ + sort,
    ensures
        definition_in(quoted(name) + text) == Some((name, ColumnRule { sort, nullable: false })),
{
    reveal_strlit(" ");
    law_quoted_name_is_read(name, text);
    lemma_begins(" "@, sort);
    assert(text.skip(1) =~= sort);
}

proof fn lemma_technical_sorts()
    ensures
        " UInt64"@ == " "@ + "UInt64"@,
        " FixedString(32)"@ == " "@ + "FixedString(32)"@,
        " UInt8"@ == " "@ + "UInt8"@,
        !begins("UInt64"@, "Nullable("@),
        !begins("FixedString(32)"@, "Nullable("@),
        !begins("UInt8"@, "Nullable("@),
{
    reveal_strlit(" ");
    reveal_strlit(" UInt64");
    reveal_strlit("UInt64");
    reveal_strlit(" FixedString(32)");
    reveal_strlit("FixedString(32)");
    reveal_strlit(" UInt8");
    reveal_strlit("UInt8");
    reveal_strlit("Nullable(");
    assert(" UInt64"@ =~= " "@ + "UInt64"@);
    assert(" FixedString(32)"@ =~= " "@ + "FixedString(32)"@);
    assert(" UInt8"@ =~= " "@ + "UInt8"@);
    lemma_begins_not("UInt64"@, "Nullable("@, 0);
    lemma_begins_not("FixedString(32)"@, "Nullable("@, 0);
    lemma_begins_not("UInt8"@, "Nullable("@, 0);
}

/// The state table is created with a column for each field of the schema in its order, behind
/// the ID, the hash, the version and the mark, which are never null.
pub proof fn law_state_table_is_created(model: SpecModel, fields: Seq<FieldModel>, k: int)
    requires
        forall|i: int| 0 <= i < fields.len() ==> column_of(#[trigger] fields[i]) is Some,
        0 <= k < fields.len() + 4,
    ensures
        ({
            let columns = columns_of(fields);
            let parts = state_parts(columns);
            &&& parts.len() == fields.len() + 5
            &&& match definition_in(parts[k]) {
                Some((name, rule)) => {
                    &&& name == table_columns(fields)[k]
                    &&& k < 4 ==> !rule.nullable
                    &&& k == 0 ==> rule.sort == "UInt64"@
                    &&& k == 1 ==> rule.sort == "FixedString(32)"@
                    &&& k == 2 || k == 3 ==> rule.sort == "UInt8"@
                },
                None => false,
            }
            &&& begins(
                state_sql(model, columns),
                "CREATE TABLE "@ + qualified_name(model.database, state_name(model.sink_id))
                    + " ("@ + joined(parts, ","@) + ")"@,
            )
        }),
{
    let columns = columns_of(fields);
    let parts = state_parts(columns);
    lemma_technical_sorts();
    lemma_technical("$dogpaddle.id"@, "UInt64"@, " UInt64"@);
    lemma_technical("$dogpaddle.hash"@, "FixedString(32)"@, " FixedString(32)"@);
    lemma_technical("$dogpaddle.version"@, "UInt8"@, " UInt8"@);
    lemma_technical("$dogpaddle.deleted"@, "UInt8"@, " UInt8"@);
    if k >= 4 {
        assert(column_of(fields[k - 4]) is Some);
        assert(columns[k - 4] == column_of(fields[k - 4])->0);
        assert(parts[k] == column_definitions(columns)[k - 4]);
        lemma_column(columns[k - 4]);
    }
    lemma_state_head(model, columns);
}

proof fn lemma_state_head(model: SpecModel, columns: Seq<ColumnModel>)
    ensures
        begins(
            state_sql(model, columns),
            "CREATE TABLE "@ + state_object(model) + " ("@ + joined(state_parts(columns), ","@)
                + ")"@,
        ),
{
    let text = state_sql(model, columns);
    let head = "CREATE TABLE "@ + state_object(model) + " ("@ + joined(state_parts(columns), ","@)
        + ")"@;
    let engine = ") ENGINE = ReplacingMergeTree("@;
    assert(engine =~= ")"@ + engine.skip(1)) by {
        reveal_strlit(") ENGINE = ReplacingMergeTree(");
        reveal_strlit(")");
    }
    assert(text.take(head.len() as int) =~= head);
}

/// A text is a head, an object of the database, and an end.
pub open spec fn speaks_of_object(
    text: Seq<char>,
    head: Seq<char>,
    database: Seq<char>,
    object: Seq<char>,
    end: Seq<char>,
) -> bool {
    begins(text, head) && object_in(behind(text, head), '`', true) == Some(
        ((database, object), end),
    )
}

proof fn lemma_speaks(head: Seq<char>, database: Seq<char>, object: Seq<char>, end: Seq<char>)
    requires
        end.len() == 0 || end[0] != '`',
    ensures
        speaks_of_object(
            head + qualified_name(database, object) + end,
            head,
            database,
            object,
            end,
        ),
{
    reveal_strlit(".");
    let name = qualified_name(database, object);
    let rest = "."@ + (quoted(object) + end);
    assert(name + end =~= quoted(database) + rest);
    law_quoted_name_is_read(database, rest);
    lemma_begins("."@, quoted(object) + end);
    law_quoted_name_is_read(object, end);
    lemma_begins(head, name + end);
    assert(head + name + end =~= head + (name + end));
}

/// Rows are written to, and read from, the columns of the state table in their order, so that
/// what is read under an ID is what was written there. Of several rows under an ID one is read.
pub proof fn law_rows_name_the_columns(
    model: SpecModel,
    fields: Seq<FieldModel>,
    ids: Seq<u64>,
    i: int,
)
    requires
        forall|c: int| 0 <= c < fields.len() ==> column_of(#[trigger] fields[c]) is Some,
        0 <= i < ids.len(),
    ensures
        ({
            let columns = columns_of(fields);
            let names = joined(quoted_table_columns(fields), ","@);
            let table = state_name(model.sink_id);
            let numbers = crate::clickhouse::sql::decimals(ids);
            &&& speaks_of_object(
                insert_head(model, columns),
                "INSERT INTO "@,
                model.database,
                table,
                " ("@ + names
                    + ") SETTINGS async_insert = 0, wait_for_async_insert = 1, max_insert_block_size = 1048576 FORMAT JSONCompactEachRow\n"@,
            )
            &&& speaks_of_object(
                stored_sql(model, columns, ids),
                "SELECT "@ + names + " FROM "@,
                model.database,
                table,
                " FINAL WHERE "@ + quoted(table_columns(fields)[0]) + " IN ("@ + joined(
                    numbers,
                    ","@,
                ) + ") ORDER BY "@ + quoted(table_columns(fields)[0])
                    + " FORMAT JSONCompactEachRow"@,
            )
            &&& numbers.len() == ids.len()
            &&& number_in(numbers[i]) == Some(ids[i] as int)
        }),
{
    let columns = columns_of(fields);
    let names = joined(quoted_table_columns(fields), ","@);
    let table = state_name(model.sink_id);
    law_decimal_is_read(ids[i] as nat);
    assert(quoted_table_columns(fields) =~= technical_columns() + quoted_columns(columns));
    let end = " ("@ + names
        + ") SETTINGS async_insert = 0, wait_for_async_insert = 1, max_insert_block_size = 1048576 FORMAT JSONCompactEachRow\n"@;
    assert(end[0] != '`') by {
        reveal_strlit(" (");
    }
    lemma_speaks("INSERT INTO "@, model.database, table, end);
    assert(insert_head(model, columns) =~= "INSERT INTO "@ + state_object(model) + end);
    let tail = " FINAL WHERE "@ + quoted("$dogpaddle.id"@) + " IN ("@ + joined(
        crate::clickhouse::sql::decimals(ids),
        ","@,
    ) + ") ORDER BY "@ + quoted("$dogpaddle.id"@) + " FORMAT JSONCompactEachRow"@;
    assert(tail[0] != '`') by {
        reveal_strlit(" FINAL WHERE ");
    }
    lemma_speaks("SELECT "@ + names + " FROM "@, model.database, table, tail);
    assert(stored_sql(model, columns, ids) =~= ("SELECT "@ + names + " FROM "@) + state_object(
        model,
    ) + tail);
}

/// The view bears the name of the relation and shows the ID, the hash and the columns of the
/// fields under their own names, in the order of the schema.
pub proof fn law_view_shows_the_fields(model: SpecModel, fields: Seq<FieldModel>)
    requires
        forall|i: int| 0 <= i < fields.len() ==> column_of(#[trigger] fields[i]) is Some,
    ensures
        ({
            let shown = quoted_table_columns(fields).take(2) + quoted_table_columns(fields).skip(4);
            begins(
                view_sql(model, columns_of(fields)),
                "CREATE VIEW "@ + qualified_name(model.database, model.table) + " AS SELECT "@
                    + joined(shown, ","@) + " FROM "@,
            )
        }),
{
    let columns = columns_of(fields);
    let text = view_sql(model, columns);
    let shown = quoted_table_columns(fields).take(2) + quoted_table_columns(fields).skip(4);
    assert(shown =~= technical_columns().take(2) + quoted_columns(columns));
    let head = "CREATE VIEW "@ + qualified_name(model.database, model.table) + " AS SELECT "@
        + joined(shown, ","@) + " FROM "@;
    assert(text.take(head.len() as int) =~= head);
}

/// The lookup that stands at a place in a statement states its own request: its number, the
/// numbers that the request needs and takes, and the hash and the values of its own row.
pub proof fn law_lookup_states_its_request(
    layout: ClickHouseLayout,
    batch: RecordBatch,
    requests: Seq<Lookup>,
    start: int,
    end: int,
    i: int,
    column: int,
)
    requires
        layout.wf(),
        batch.wf(),
        0 <= i,
        0 <= start <= start + i < end <= requests.len(),
        encode_fault(layout.schema, batch, requests[start + i].row_index as int) is None,
        row_measured(batch, requests[start + i].row_index as int),
        0 <= column < batch.columns@.len(),
        ({
            let row = requests[start + i].row_index as int;
            let bytes = canonical(batch.columns@[column].values@[row]@);
            tells(base64_text(bytes), bytes)
        }),
    ensures
        exists|parts: Seq<Seq<char>>|
            {
                let request = requests[start + i];
                let row = request.row_index as int;
                let names = request_columns(column_views(layout.columns@));
                &&& tuples(layout, batch, requests, start, end)[i] == "("@ + #[trigger] joined(
                    parts,
                    ","@,
                ) + ")"@
                &&& parts.len() == names.len()
                &&& word_in(names[0]) == "n"@
                &&& number_in(parts[0]) == Some(start + i)
                &&& word_in(names[1]) == "needed"@
                &&& number_in(parts[1]) == Some(request.needed as int)
                &&& word_in(names[2]) == "take"@
                &&& number_in(parts[2]) == Some(request.take as int)
                &&& word_in(names[3]) == "hash"@
                &&& literal_in(parts[3]) == Some((row_digest(batch, row), Seq::<char>::empty()))
                &&& cell_in(parts[4 + column]) is Some
                &&& value_in(layout.schema@.fields[column], cell_in(parts[4 + column])->0) == Some(
                    batch.columns@[column].values@[row]@,
                )
                &&& compares(
                    join_parts(column_views(layout.columns@))[1 + column],
                    layout.schema@.fields[column].name,
                    word_in(names[4 + column]),
                )
            },
        tuples(layout, batch, requests, start, end).len() == end - start,
{
    let fields = layout.schema@.fields;
    let request = requests[start + i];
    let row = request.row_index as int;
    let cells = cells_of(layout, batch, row, batch.columns@.len());
    assert(batch.schema@.fields.len() == batch.schema.fields@.len());
    assert(column_views(layout.columns@).len() == columns_of(fields).len());
    assert forall|c: int| 0 <= c < fields.len() implies column_of(#[trigger] fields[c]) is Some by {
        lemma_column_exists(fields, fields.len() as int, c);
    }
    law_request_names_its_values(
        fields,
        (start + i) as nat,
        request.needed,
        request.take,
        row_digest(batch, row),
        cells,
        column,
    );
    law_encoded_row_is_read(layout, batch, row, column);
}

/// One line of a reply is read as what was found for its lookup: the count and all the IDs, where
/// the elements of a JSON array are read as they were written.
pub proof fn law_reply_line_is_read(
    line: Seq<char>,
    list: Seq<char>,
    request: u64,
    count: u64,
    ids: Seq<u64>,
)
    requires
        json_array(line) == Some(seq![decimal(request as nat), decimal(count as nat), list]),
        json_array(list) == Some(crate::clickhouse::sql::decimals(ids)),
        forall|number: u64| json_content(#[trigger] decimal(number as nat)) is None,
    ensures
        line_matches(line, request as nat) == Some((count, ids)),
        forall|other: nat| other != request ==> line_matches(line, other) is None,
{
    let numbers = crate::clickhouse::sql::decimals(ids);
    lemma_parsed(request as nat);
    lemma_parsed(count as nat);
    assert(json_content(decimal(request as nat)) is None);
    assert(json_content(decimal(count as nat)) is None);
    lemma_ids(ids, ids.len() as int);
    assert(ids.take(ids.len() as int) =~= ids);
}

proof fn lemma_ids(ids: Seq<u64>, count: int)
    requires
        0 <= count <= ids.len(),
        forall|number: u64| json_content(#[trigger] decimal(number as nat)) is None,
    ensures
        element_numbers(crate::clickhouse::sql::decimals(ids), count) == Some(ids.take(count)),
    decreases count,
{
    if count > 0 {
        lemma_ids(ids, count - 1);
        lemma_parsed(ids[count - 1] as nat);
        assert(json_content(decimal(ids[count - 1] as nat)) is None);
        assert(ids.take(count - 1).push(ids[count - 1]) =~= ids.take(count));
    } else {
        assert(ids.take(0) =~= Seq::empty());
    }
}

/// The statement that writes a batch holds the row of each action, on a line of its own, and
/// nothing else.
pub proof fn law_payload_writes_each_row(actions: Seq<ActionModel>, count: int, index: int)
    requires
        0 <= index < count <= actions.len(),
    ensures
        ({
            let action = actions[index];
            &&& holds_part(
                action_lines(actions, count),
                row_json(action.id, action.hash, action.deleted, action.cells) + "\n"@,
            )
            &&& action_lines(actions, count) == line_texts(actions.take(count)).flatten()
        }),
    decreases count,
{
    let before = action_lines(actions, count - 1);
    let last = actions[count - 1];
    let own = row_json(last.id, last.hash, last.deleted, last.cells) + "\n"@;
    let texts = line_texts(actions.take(count));
    assert(action_lines(actions, count) =~= before + own);
    assert(texts.drop_last() =~= line_texts(actions.take(count - 1)));
    assert(texts.last() == own);
    lemma_flatten(texts);
    if index == count - 1 {
        assert(before + own + Seq::<char>::empty() =~= before + own);
        lemma_holds_part(before, own, Seq::empty());
        if count > 1 {
            law_payload_writes_each_row(actions, count - 1, 0);
        } else {
            assert(texts.drop_last() =~= Seq::empty());
            assert(texts.drop_last().flatten() =~= Seq::empty());
            assert(before =~= Seq::empty());
        }
    } else {
        law_payload_writes_each_row(actions, count - 1, index);
        let action = actions[index];
        let part = row_json(action.id, action.hash, action.deleted, action.cells) + "\n"@;
        let place = choose|place: int|
            0 <= place && #[trigger] crate::text::stands_at(before, part, place);
        assert((before + own).subrange(place, place + part.len() as int) =~= before.subrange(
            place,
            place + part.len() as int,
        ));
        assert(crate::text::stands_at(before + own, part, place));
    }
}

proof fn lemma_flatten(texts: Seq<Seq<char>>)
    requires
        texts.len() > 0,
    ensures
        texts.flatten() == texts.drop_last().flatten() + texts.last(),
{
    texts.lemma_flatten_and_flatten_alt_are_equivalent();
    texts.drop_last().lemma_flatten_and_flatten_alt_are_equivalent();
}

/// The rows of actions as lines.
pub open spec fn line_texts(actions: Seq<ActionModel>) -> Seq<Seq<char>> {
    actions.map_values(
        |action: ActionModel|
            row_json(action.id, action.hash, action.deleted, action.cells) + "\n"@,
    )
}

/// The catalog has to say of the state table what its creation says: the same columns in the same
/// order, each with the type of its definition.
pub proof fn law_created_columns_are_expected(fields: Seq<FieldModel>, k: int)
    requires
        forall|i: int| 0 <= i < fields.len() ==> column_of(#[trigger] fields[i]) is Some,
        0 <= k < fields.len() + 4,
    ensures
        ({
            let columns = columns_of(fields);
            let expected = expected_columns(columns);
            &&& expected.len() == state_parts(columns).len() - 1
            &&& match definition_in(state_parts(columns)[k]) {
                Some((name, rule)) => {
                    &&& expected[k].0 == name
                    &&& expected[k].1 == (if rule.nullable {
                        "Nullable("@ + rule.sort + ")"@
                    } else {
                        rule.sort
                    })
                },
                None => false,
            }
        }),
{
    let columns = columns_of(fields);
    let parts = state_parts(columns);
    lemma_technical_sorts();
    lemma_technical("$dogpaddle.id"@, "UInt64"@, " UInt64"@);
    lemma_technical("$dogpaddle.hash"@, "FixedString(32)"@, " FixedString(32)"@);
    lemma_technical("$dogpaddle.version"@, "UInt8"@, " UInt8"@);
    lemma_technical("$dogpaddle.deleted"@, "UInt8"@, " UInt8"@);
    if k >= 4 {
        assert(column_of(fields[k - 4]) is Some);
        assert(columns[k - 4] == column_of(fields[k - 4])->0);
        assert(parts[k] == column_definitions(columns)[k - 4]);
        lemma_column(columns[k - 4]);
    }
}

/// A stored row is taken for another one only where both have the same hash and each stored value
/// is the other: a number is not taken for another number, nor a text for another text, nor a
/// null for anything else.
pub proof fn law_other_row_is_not_recognised(
    stored: StoredModel,
    hash: Seq<char>,
    cells: Seq<CellModel>,
    own: Seq<CellModel>,
    i: int,
)
    requires
        stored.values == cell_jsons(own),
        row_same(stored, hash, cells),
        0 <= i < cells.len(),
        signed_well(cells[i]),
        signed_well(own[i]),
        forall|number: int| json_content(#[trigger] signed_decimal(number)) is None,
        forall|text: Seq<char>| json_content(#[trigger] json_string(text)) == Some(text),
        json_content("null"@) is None,
    ensures
        stored.hash == hash,
        own.len() == cells.len(),
        (own[i] is Text <==> cells[i] is Text) || own[i] is Null || cells[i] is Null ==> own[i]
            == cells[i],
{
    let a = own[i];
    let b = cells[i];
    assert(json_same(stored.values[i], b));
    assert(stored.values[i] == cell_json(a));
    if let CellModel::Text(left) = a {
        assert(json_content(json_string(left)) == Some(left));
    }
    if let CellModel::Text(right) = b {
        assert(json_content(json_string(right)) == Some(right));
    }
    if integer_of(a) is Some {
        lemma_integer_json(a);
    }
    if integer_of(b) is Some {
        lemma_integer_json(b);
    }
    lemma_null_json();
}

proof fn lemma_integer_json(cell: CellModel)
    requires
        integer_of(cell) is Some,
        forall|number: int| json_content(#[trigger] signed_decimal(number)) is None,
    ensures
        cell_json(cell) == signed_decimal(integer_of(cell)->0),
        number_in(cell_json(cell)) == integer_of(cell),
        json_content(cell_json(cell)) is None,
{
    law_signed_decimal_is_read(integer_of(cell)->0);
    assert(json_content(signed_decimal(integer_of(cell)->0)) is None);
}

proof fn lemma_null_json()
    ensures
        number_in("null"@) is None,
{
    reveal_strlit("null");
    assert("null"@[0] == 'n');
    assert(!is_digit("null"@[0]));
}

/// The state table bears the mark by which it is recognised, and its engine is the one that is
/// expected of it.
pub proof fn law_state_table_is_marked(model: SpecModel, columns: Seq<ColumnModel>)
    ensures
        ends(
            state_sql(model, columns),
            " COMMENT "@ + literal(crate::clickhouse::config::marker_name(model.sink_id)),
        ),
        holds_part(
            state_sql(model, columns),
            "ReplacingMergeTree("@ + technical_columns()[2] + ") ORDER BY "@
                + technical_columns()[0]
                + " SETTINGS fsync_after_insert = 1, fsync_part_directory = 1"@,
        ),
        begins(
            crate::clickhouse::target::expected_engine(),
            "ReplacingMergeTree("@ + technical_columns()[2] + ") ORDER BY "@
                + technical_columns()[0]
                + " SETTINGS fsync_after_insert = 1, fsync_part_directory = 1"@,
        ),
{
    let text = state_sql(model, columns);
    let mark = literal(crate::clickhouse::config::marker_name(model.sink_id));
    let settings = " SETTINGS fsync_after_insert = 1, fsync_part_directory = 1"@;
    let engine = "ReplacingMergeTree("@;
    let part = engine + quoted("$dogpaddle.version"@) + ") ORDER BY "@ + quoted("$dogpaddle.id"@)
        + settings;
    assert(" SETTINGS fsync_after_insert = 1, fsync_part_directory = 1 COMMENT "@ =~= settings
        + " COMMENT "@
        && " SETTINGS fsync_after_insert = 1, fsync_part_directory = 1, index_granularity = 8192"@
        =~= settings + ", index_granularity = 8192"@ && ") ENGINE = ReplacingMergeTree("@
        =~= ") ENGINE = "@ + engine) by {
        reveal_strlit(" SETTINGS fsync_after_insert = 1, fsync_part_directory = 1 COMMENT ");
        reveal_strlit(" SETTINGS fsync_after_insert = 1, fsync_part_directory = 1");
        reveal_strlit(" COMMENT ");
        reveal_strlit(
            " SETTINGS fsync_after_insert = 1, fsync_part_directory = 1, index_granularity = 8192",
        );
        reveal_strlit(", index_granularity = 8192");
        reveal_strlit(") ENGINE = ReplacingMergeTree(");
        reveal_strlit(") ENGINE = ");
        reveal_strlit("ReplacingMergeTree(");
    }
    let before = "CREATE TABLE "@ + state_object(model) + " ("@ + joined(state_parts(columns), ","@)
        + ") ENGINE = "@;
    let after = " COMMENT "@ + mark;
    assert(text =~= before + part + after);
    lemma_holds_part(before, part, after);
    assert(text.skip(text.len() - after.len()) =~= after);
    lemma_begins(part, ", index_granularity = 8192"@);
    assert(crate::clickhouse::target::expected_engine() =~= part + ", index_granularity = 8192"@);
}

proof fn lemma_all_encodable(
    layout: ClickHouseLayout,
    batch: RecordBatch,
    requests: Seq<Lookup>,
    count: int,
)
    requires
        0 <= count <= requests.len(),
        forall|i: int|
            0 <= i < count ==> encode_fault(
                layout.schema,
                batch,
                (#[trigger] requests[i]).row_index as int,
            ) is None,
    ensures
        encodable(layout, batch, requests, count) == count,
    decreases count,
{
    if count > 0 {
        lemma_all_encodable(layout, batch, requests, count - 1);
    }
}

/// Where each row can be encoded, every lookup is sent, and in one statement only.
pub proof fn law_every_lookup_is_sent(
    layout: ClickHouseLayout,
    batch: RecordBatch,
    requests: Seq<Lookup>,
    index: int,
)
    requires
        forall|i: int|
            0 <= i < requests.len() ==> encode_fault(
                layout.schema,
                batch,
                (#[trigger] requests[i]).row_index as int,
            ) is None,
        0 <= index < requests.len(),
    ensures
        ({
            let stops = lookup_ends(layout, batch, requests);
            &&& exists|i: int| 0 <= i < stops.len() && #[trigger] lies_in(stops, i, index)
            &&& forall|i: int, j: int|
                0 <= i < stops.len() && 0 <= j < stops.len() && #[trigger] lies_in(stops, i, index)
                    && #[trigger] lies_in(stops, j, index) ==> i == j
        }),
{
    let count = requests.len() as int;
    lemma_all_encodable(layout, batch, requests, count);
    let sizes = tuple_sizes(layout, batch, requests, count);
    let limits = lookup_limits();
    let stops = crate::relation::pack::pieces(sizes, 0, limits);
    law_each_row_lies_in_one_piece(sizes, limits, index);
    assert(lookup_ends(layout, batch, requests) == stops);
    let found = choose|i: int| 0 <= i < stops.len() && #[trigger] lies_in(stops, i, index);
    assert(lies_in(lookup_ends(layout, batch, requests), found, index));
}

} // verus!
