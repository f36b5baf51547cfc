//! What the statements of an Apache Doris relation say.

use crate::change::{FieldModel, RecordBatch, ValueModel};
use crate::doris::config::{marker_name, state_name, SpecModel};
use crate::doris::meaning::value_in;
use crate::doris::row::{bytes_text, cell_literal, cell_of, row_digest, CellModel};
use crate::doris::schema::{
    column_of, column_views, columns_of, sql_name, ColumnModel, DorisLayout, StorageType,
};
use crate::doris::sql::{
    cell_literals, clause_sql, column_definition, insert_head, literal, mutation_tuple,
    predicate_parts, qualified_name, quoted, quoted_columns, state_object, state_parts, state_sql,
    stored_sql, view_sql,
};
use crate::doris::target::{
    action_tuples, cells_same, clause_sizes, clauses, encodable, expected_columns, line_row,
    lookup_ends, lookup_limits, matches_in, parameters_at, parameters_of, reply_fault, row_same,
    statement_sql, write_ends, write_move, writes_through, ActionModel, MatchModel, MatchRow,
    StoredModel, WriteCommand, WriteEvent, WritePhase,
};
use crate::reading::{
    begins, behind, bytes_in, ends, holds_part, law_decimal_is_read, law_doubled_name_is_read,
    law_hex_is_read, law_joined_parts_are_read, law_signed_decimal_is_read, lemma_begins,
    lemma_digits_hold, lemma_holds_part, lemma_word, number_in, object_in, quoted_in, word_in,
};
use crate::relation::pack::{law_each_row_lies_in_one_piece, lies_in, piece_start};
use crate::relation::plan::Lookup;
use crate::relation::row::value_fault;
use crate::text::{decimal, hex_of, joined, parts_of, signed_decimal};
use crate::sqlite::row::encode_fault;
use vstd::prelude::*;

verus! {

/// A name in backquotes is read as itself.
pub proof fn law_quoted_name_is_read(name: Seq<char>, rest: Seq<char>)
    requires
        rest.len() == 0 || rest[0] != '`',
    ensures
        quoted_in(quoted(name) + rest, '`', false) == Some((name, rest)),
{
    reveal_strlit("`");
    reveal_strlit("``");
    assert("`"@ =~= seq!['`']);
    assert("``"@ =~= seq!['`', '`']);
    law_doubled_name_is_read(name, rest, '`');
}

/// The value that stands in a statement.
pub open spec fn cell_in(text: Seq<char>) -> CellModel {
    if text == "NULL"@ {
        CellModel::Null
    } else if begins(text, "X'"@) && text.last() == '\'' {
        CellModel::Bytes(bytes_in(behind(text, "X'"@).drop_last()))
    } else {
        match number_in(text) {
            Some(number) => if number < 0 {
                CellModel::Int(number as i64)
            } else {
                CellModel::UInt(number as u64)
            },
            None => CellModel::Other,
        }
    }
}

/// The values of a row in round brackets.
pub open spec fn cells_in(text: Seq<char>) -> Seq<CellModel> {
    parts_of(text.subrange(1, text.len() - 1), ',').map_values(|part: Seq<char>| cell_in(part))
}

proof fn lemma_number_cell(number: int)
    requires
        i64::MIN <= number <= u64::MAX,
    ensures
        cell_in(signed_decimal(number)) == (if number < 0 {
            CellModel::Int(number as i64)
        } else {
            CellModel::UInt(number as u64)
        }),
        !signed_decimal(number).contains(','),
{
    let text = signed_decimal(number);
    law_signed_decimal_is_read(number);
    lemma_digits_hold(number, ',');
    lemma_digits_hold(number, 'N');
    lemma_digits_hold(number, 'X');
    reveal_strlit("NULL");
    reveal_strlit("X'");
    if text == "NULL"@ {
        assert(text[0] == 'N');
        assert(text.contains('N'));
    }
    if begins(text, "X'"@) {
        assert(text.take(2)[0] == 'X');
        assert(text.contains('X'));
    }
}

proof fn lemma_hex_holds(bytes: Seq<u8>)
    ensures
        !hex_of(bytes).contains(','),
    decreases bytes.len(),
{
    if bytes.len() > 0 {
        lemma_hex_holds(bytes.drop_last());
        let before = hex_of(bytes.drop_last());
        let text = hex_of(bytes);
        assert forall|i: int| 0 <= i < text.len() implies text[i] != ',' by {
            if i < before.len() {
                assert(text[i] == before[i]);
                assert(before.contains(before[i]));
            }
        }
    }
}

proof fn lemma_bytes_cell(bytes: Seq<u8>)
    ensures
        cell_in(bytes_text(bytes)) == CellModel::Bytes(bytes),
        !bytes_text(bytes).contains(','),
{
    let text = bytes_text(bytes);
    reveal_strlit("X'");
    reveal_strlit("'");
    reveal_strlit("NULL");
    law_hex_is_read(bytes);
    lemma_hex_holds(bytes);
    assert(text =~= "X'"@ + (hex_of(bytes) + "'"@));
    lemma_begins("X'"@, hex_of(bytes) + "'"@);
    assert((hex_of(bytes) + "'"@).drop_last() =~= hex_of(bytes));
    assert(text[0] == 'X');
    assert("NULL"@[0] == 'N');
    assert forall|i: int| 0 <= i < text.len() implies text[i] != ',' by {
        if 2 <= i < text.len() - 1 {
            assert(text[i] == hex_of(bytes)[i - 2]);
            assert(hex_of(bytes).contains(hex_of(bytes)[i - 2]));
        }
    }
}

/// A value that stands in a statement is read as the same value.
pub proof fn law_literal_is_read(cell: CellModel)
    requires
        !(cell is Other),
    ensures
        cells_same(cell_in(cell_literal(cell)), cell),
        !cell_literal(cell).contains(','),
{
    match cell {
        CellModel::Null => {
            reveal_strlit("NULL");
        },
        CellModel::Int(value) => {
            lemma_number_cell(value as int);
        },
        CellModel::UInt(value) => {
            lemma_number_cell(value as int);
        },
        CellModel::Bytes(bytes) => {
            lemma_bytes_cell(bytes);
        },
        CellModel::Other => {},
    }
}

/// The parts of a row in a statement.
spec fn tuple_parts(id: u64, deleted: bool, hash: Seq<u8>, cells: Seq<CellModel>) -> Seq<
    Seq<char>,
> {
    parts_of(
        mutation_tuple(id, deleted, hash, cells).subrange(
            1,
            mutation_tuple(id, deleted, hash, cells).len() - 1,
        ),
        ',',
    )
}

proof fn lemma_tuple(id: u64, deleted: bool, hash: Seq<u8>, cells: Seq<CellModel>)
    requires
        forall|i: int| 0 <= i < cells.len() ==> !((#[trigger] cells[i]) is Other),
    ensures
        ({
            let parts = tuple_parts(id, deleted, hash, cells);
            &&& parts.len() == cells.len() + 3
            &&& parts[0] == decimal(id as nat)
            &&& parts[1] == bytes_text(hash)
            &&& number_in(parts[2]) == Some(
                if deleted {
                    1int
                } else {
                    0int
                },
            )
            &&& cell_in(parts[2]) == CellModel::UInt(
                if deleted {
                    1
                } else {
                    0
                },
            )
            &&& forall|i: int|
                0 <= i < cells.len() ==> #[trigger] parts[3 + i] == cell_literal(cells[i])
        }),
{
    let mark: nat = if deleted {
        1
    } else {
        0
    };
    let parts = seq![decimal(id as nat), bytes_text(hash), decimal(mark)] + cell_literals(cells);
    let text = mutation_tuple(id, deleted, hash, cells);
    reveal_strlit("(");
    reveal_strlit(")");
    reveal_strlit(",");
    assert(","@ =~= seq![',']);
    assert(text.subrange(1, text.len() - 1) =~= joined(parts, seq![',']));
    lemma_number_cell(id as int);
    lemma_bytes_cell(hash);
    lemma_number_cell(mark as int);
    law_decimal_is_read(mark);
    assert forall|i: int| 0 <= i < parts.len() implies !(#[trigger] parts[i]).contains(',') by {
        if i >= 3 {
            assert(parts[i] == cell_literal(cells[i - 3]));
            law_literal_is_read(cells[i - 3]);
        }
    }
    law_joined_parts_are_read(parts, ',');
}

/// A row that is written reads back as what was to be written: its ID, its hash, whether it is
/// deleted, and its values.
pub proof fn law_written_row_is_read(
    id: u64,
    deleted: bool,
    hash: Seq<u8>,
    cells: Seq<CellModel>,
)
    requires
        forall|i: int| 0 <= i < cells.len() ==> !((#[trigger] cells[i]) is Other),
    ensures
        match line_row(cells_in(mutation_tuple(id, deleted, hash, cells))) {
            Ok(stored) => {
                &&& stored.id == id
                &&& stored.deleted == deleted
                &&& row_same(stored, hash, cells)
            },
            Err(_) => false,
        },
{
    let parts = tuple_parts(id, deleted, hash, cells);
    let read = cells_in(mutation_tuple(id, deleted, hash, cells));
    lemma_tuple(id, deleted, hash, cells);
    lemma_number_cell(id as int);
    lemma_bytes_cell(hash);
    assert(read.len() == parts.len());
    assert(read[0] == cell_in(parts[0]));
    assert(read[1] == cell_in(parts[1]));
    assert(read[2] == cell_in(parts[2]));
    let stored = line_row(read)->Ok_0;
    assert forall|i: int| 0 <= i < cells.len() implies cells_same(
        #[trigger] stored.values[i],
        cells[i],
    ) by {
        assert(parts[3 + i] == cell_literal(cells[i]));
        assert(stored.values[i] == cell_in(parts[3 + i]));
        law_literal_is_read(cells[i]);
    }
}

/// A statement reads the rows of the state table whose mark is a number, and no others.
pub open spec fn reads_marked(text: Seq<char>, model: SpecModel, mark: int) -> bool {
    exists|digits: Seq<char>|
        {
            let filter = " FROM "@ + state_object(model) + " WHERE "@ + quoted(
                "__dogpaddle_deleted"@,
            ) + " = "@ + digits;
            &&& #[trigger] number_in(digits) == Some(mark)
            &&& ends(text, filter) || holds_part(text, filter + " AND "@)
        }
}

/// The mark of a row in a statement.
pub open spec fn mark_of(tuple: Seq<char>) -> Option<int> {
    number_in(parts_of(tuple.subrange(1, tuple.len() - 1), ',')[2])
}

/// The view shows the rows that were written as inserted, and a lookup looks for them among the
/// same rows: both read the rows with the mark of a row that is not deleted. A deleted row has
/// another mark.
pub proof fn law_inserted_rows_are_seen(
    model: SpecModel,
    columns: Seq<ColumnModel>,
    request: nat,
    needed: u64,
    take: usize,
    predicate: Seq<char>,
    id: u64,
    hash: Seq<u8>,
    cells: Seq<CellModel>,
)
    requires
        forall|i: int| 0 <= i < cells.len() ==> !((#[trigger] cells[i]) is Other),
    ensures
        ({
            let live = mark_of(mutation_tuple(id, false, hash, cells));
            let dead = mark_of(mutation_tuple(id, true, hash, cells));
            &&& live is Some
            &&& dead is Some
            &&& live != dead
            &&& reads_marked(view_sql(model, columns), model, live->0)
            &&& !reads_at_end(view_sql(model, columns), model, dead->0)
            &&& reads_marked(clause_sql(model, request, needed, take, predicate), model, live->0)
        }),
{
    lemma_tuple(id, false, hash, cells);
    lemma_tuple(id, true, hash, cells);
    let zero = decimal(0);
    law_decimal_is_read(0);
    assert(zero =~= seq!['0']);
    let filter = " FROM "@ + state_object(model) + " WHERE "@ + quoted("__dogpaddle_deleted"@)
        + " = "@ + zero;
    lemma_view(model, columns);
    lemma_clause_filter(model, request, needed, take, predicate);
    assert(number_in(zero) == Some(0int));
    lemma_view_end(model, columns);
}

/// The end of a statement demands that the mark is a number.
pub open spec fn reads_at_end(text: Seq<char>, model: SpecModel, mark: int) -> bool {
    ends(text, " = "@ + decimal(mark as nat))
}

proof fn lemma_view_end(model: SpecModel, columns: Seq<ColumnModel>)
    ensures
        !reads_at_end(view_sql(model, columns), model, 1),
{
    let text = view_sql(model, columns);
    reveal_strlit(" = 0");
    reveal_strlit(" = ");
    let one = " = "@ + decimal(1);
    assert(decimal(1) =~= seq!['1']);
    if ends(text, one) {
        assert(text.last() == '0');
        assert(text.skip(text.len() - one.len()).last() == '1');
    }
}

proof fn lemma_view(model: SpecModel, columns: Seq<ColumnModel>)
    ensures
        ends(
            view_sql(model, columns),
            " FROM "@ + state_object(model) + " WHERE "@ + quoted("__dogpaddle_deleted"@) + " = "@
                + decimal(0),
        ),
{
    let text = view_sql(model, columns);
    let filter = " FROM "@ + state_object(model) + " WHERE "@ + quoted("__dogpaddle_deleted"@)
        + " = "@ + decimal(0);
    reveal_strlit(" = 0");
    reveal_strlit(" = ");
    assert(decimal(0) =~= seq!['0']);
    assert(" = 0"@ =~= " = "@ + decimal(0));
    assert(text.skip(text.len() - filter.len()) =~= filter);
}

proof fn lemma_clause_filter(
    model: SpecModel,
    request: nat,
    needed: u64,
    take: usize,
    predicate: Seq<char>,
)
    ensures
        holds_part(
            clause_sql(model, request, needed, take, predicate),
            " FROM "@ + state_object(model) + " WHERE "@ + quoted("__dogpaddle_deleted"@) + " = "@
                + decimal(0) + " AND "@,
        ),
{
    let text = clause_sql(model, request, needed, take, predicate);
    let part = " FROM "@ + state_object(model) + " WHERE "@ + quoted("__dogpaddle_deleted"@)
        + " = "@ + decimal(0) + " AND "@;
    reveal_strlit(" AS id FROM ");
    reveal_strlit(" AS id");
    reveal_strlit(" FROM ");
    reveal_strlit(" = 0 AND ");
    reveal_strlit(" = ");
    reveal_strlit(" AND ");
    assert(decimal(0) =~= seq!['0']);
    assert(" AS id FROM "@ =~= " AS id"@ + " FROM "@);
    assert(" = 0 AND "@ =~= " = "@ + decimal(0) + " AND "@);
    let before = "(SELECT "@ + decimal(request)
        + " AS n, id, count FROM (SELECT id, count(id) OVER () AS count FROM ((SELECT "@ + quoted(
        "__dogpaddle_id"@,
    ) + " AS id"@;
    let after = predicate + " ORDER BY "@ + quoted("__dogpaddle_id"@) + " LIMIT "@ + decimal(
        needed as nat,
    )
        + ") UNION ALL SELECT CAST(NULL AS BIGINT) AS id) AS matched) AS counted ORDER BY id IS NULL, id LIMIT "@
        + decimal(take as nat) + ")"@;
    assert(text =~= before + part + after);
    lemma_holds_part(before, part, after);
}

/// A lookup is answered under its number. It counts the rows that a predicate selects by their
/// IDs, the smallest first, up to the number that is needed, and gives the smallest IDs up to the
/// number that is to be taken.
pub proof fn law_lookup_keeps_its_limits(
    model: SpecModel,
    request: nat,
    needed: u64,
    take: usize,
    predicate: Seq<char>,
)
    ensures
        ({
            let text = clause_sql(model, request, needed, take, predicate);
            let number = word_in(behind(text, "(SELECT "@));
            let last = text.skip(text.len() - decimal(take as nat).len() - 1).drop_last();
            &&& begins(text, "(SELECT "@)
            &&& number_in(number) == Some(request as int)
            &&& begins(behind(text, "(SELECT "@ + number), " AS n, id, count FROM "@)
            &&& holds_part(
                text,
                " AND "@ + predicate + " ORDER BY "@ + quoted("__dogpaddle_id"@) + " LIMIT "@
                    + decimal(needed as nat) + ")"@,
            )
            &&& number_in(last) == Some(take as int)
            &&& ends(text, " ORDER BY id IS NULL, id LIMIT "@ + last + ")"@)
        }),
{
    lemma_lookup_number(model, request, needed, take, predicate);
    lemma_lookup_needed(model, request, needed, take, predicate);
    lemma_lookup_take(model, request, needed, take, predicate);
}

/// The end of a lookup before the number that is to be taken.
spec fn union_text() -> Seq<char> {
    ") UNION ALL SELECT CAST(NULL AS BIGINT) AS id) AS matched) AS counted ORDER BY id IS NULL, id LIMIT "@
}

/// What stands in a lookup between its number and its predicate.
spec fn source_text(model: SpecModel) -> Seq<char> {
    " AS n, id, count FROM (SELECT id, count(id) OVER () AS count FROM ((SELECT "@ + quoted(
        "__dogpaddle_id"@,
    ) + " AS id FROM "@ + state_object(model) + " WHERE "@ + quoted("__dogpaddle_deleted"@)
}

#[verifier::rlimit(40)]
proof fn lemma_lookup_number(
    model: SpecModel,
    request: nat,
    needed: u64,
    take: usize,
    predicate: Seq<char>,
)
    ensures
        ({
            let text = clause_sql(model, request, needed, take, predicate);
            let number = word_in(behind(text, "(SELECT "@));
            &&& begins(text, "(SELECT "@)
            &&& number_in(number) == Some(request as int)
            &&& begins(behind(text, "(SELECT "@ + number), " AS n, id, count FROM "@)
        }),
{
    let text = clause_sql(model, request, needed, take, predicate);
    let number = decimal(request);
    let named = " AS n, id, count FROM "@;
    let open = " AS n, id, count FROM (SELECT id, count(id) OVER () AS count FROM ((SELECT "@;
    let head = "(SELECT "@;
    let rest = quoted("__dogpaddle_id"@) + " AS id FROM "@ + state_object(model) + " WHERE "@
        + quoted("__dogpaddle_deleted"@) + " = 0 AND "@ + predicate + " ORDER BY "@ + quoted(
        "__dogpaddle_id"@,
    ) + " LIMIT "@ + decimal(needed as nat) + union_text() + decimal(take as nat) + ")"@;
    assert(text =~= head + number + open + rest);
    lemma_named(open, named);
    let more = open.skip(named.len() as int);
    lemma_regroup(head, number, named, more, rest);
    lemma_numbered(head, number, named, more + rest, request);
}

proof fn lemma_regroup(a: Seq<char>, b: Seq<char>, c: Seq<char>, d: Seq<char>, e: Seq<char>)
    ensures
        a + b + (c + d) + e == a + (b + (c + (d + e))),
{
    assert(a + b + (c + d) + e =~= a + (b + (c + (d + e))));
}

proof fn lemma_named(open: Seq<char>, named: Seq<char>)
    requires
        open
            == " AS n, id, count FROM (SELECT id, count(id) OVER () AS count FROM ((SELECT "@,
        named == " AS n, id, count FROM "@,
    ensures
        open == named + open.skip(named.len() as int),
        named.len() > 0,
        named[0] == ' ',
{
    reveal_strlit(" AS n, id, count FROM (SELECT id, count(id) OVER () AS count FROM ((SELECT ");
    reveal_strlit(" AS n, id, count FROM ");
    assert(open =~= named + open.skip(named.len() as int));
}

proof fn lemma_numbered(
    head: Seq<char>,
    number: Seq<char>,
    named: Seq<char>,
    rest: Seq<char>,
    request: nat,
)
    requires
        number == decimal(request),
        named.len() > 0,
        named[0] == ' ',
    ensures
        ({
            let text = head + (number + (named + rest));
            &&& begins(text, head)
            &&& word_in(behind(text, head)) == number
            &&& number_in(number) == Some(request as int)
            &&& begins(behind(text, head + number), named)
        }),
{
    let text = head + (number + (named + rest));
    law_decimal_is_read(request);
    lemma_digits_hold(request as int, ' ');
    lemma_begins(head, number + (named + rest));
    lemma_word(number, named + rest);
    lemma_begins(head + number, named + rest);
    assert(text =~= (head + number) + (named + rest));
    lemma_begins(named, rest);
}

proof fn lemma_lookup_needed(
    model: SpecModel,
    request: nat,
    needed: u64,
    take: usize,
    predicate: Seq<char>,
)
    ensures
        holds_part(
            clause_sql(model, request, needed, take, predicate),
            " AND "@ + predicate + " ORDER BY "@ + quoted("__dogpaddle_id"@) + " LIMIT "@ + decimal(
                needed as nat,
            ) + ")"@,
        ),
{
    let text = clause_sql(model, request, needed, take, predicate);
    let part = " AND "@ + predicate + " ORDER BY "@ + quoted("__dogpaddle_id"@) + " LIMIT "@
        + decimal(needed as nat) + ")"@;
    let mark = " = 0"@;
    let union = union_text();
    assert(" = 0 AND "@ =~= mark + " AND "@ && union =~= ")"@ + union.skip(1)) by {
        reveal_strlit(" = 0 AND ");
        reveal_strlit(" = 0");
        reveal_strlit(" AND ");
        reveal_strlit(")");
        reveal_strlit(
            ") UNION ALL SELECT CAST(NULL AS BIGINT) AS id) AS matched) AS counted ORDER BY id IS NULL, id LIMIT ",
        );
    }
    let before = "(SELECT "@ + decimal(request) + source_text(model) + mark;
    let after = union.skip(1) + decimal(take as nat) + ")"@;
    assert(text =~= before + part + after);
    lemma_holds_part(before, part, after);
}

proof fn lemma_lookup_take(
    model: SpecModel,
    request: nat,
    needed: u64,
    take: usize,
    predicate: Seq<char>,
)
    ensures
        ({
            let text = clause_sql(model, request, needed, take, predicate);
            let last = text.skip(text.len() - decimal(take as nat).len() - 1).drop_last();
            &&& number_in(last) == Some(take as int)
            &&& ends(text, " ORDER BY id IS NULL, id LIMIT "@ + last + ")"@)
        }),
{
    let text = clause_sql(model, request, needed, take, predicate);
    let last = decimal(take as nat);
    let order = " ORDER BY id IS NULL, id LIMIT "@;
    let union = union_text();
    law_decimal_is_read(take as nat);
    assert(union =~= union.take(union.len() - order.len()) + order && ")"@.len() == 1) by {
        reveal_strlit(
            ") UNION ALL SELECT CAST(NULL AS BIGINT) AS id) AS matched) AS counted ORDER BY id IS NULL, id LIMIT ",
        );
        reveal_strlit(" ORDER BY id IS NULL, id LIMIT ");
        reveal_strlit(")");
    }
    assert(text.skip(text.len() - last.len() - 1) =~= last + ")"@);
    assert((last + ")"@).drop_last() =~= last);
    let end = order + last + ")"@;
    let front = text.take(text.len() - (union + last + ")"@).len());
    assert(text =~= front + (union + last + ")"@));
    assert(text.skip(text.len() - end.len()) =~= end);
}

/// Each parameter of a lookup is compared with its own column: the hash with the hash, and each
/// value of the row, null or not, with the column of the same field.
pub proof fn law_lookup_compares_each_column(
    fields: Seq<FieldModel>,
    batch: RecordBatch,
    requests: Seq<Lookup>,
    index: int,
    column: int,
)
    requires
        0 <= column < fields.len() == batch.columns@.len(),
        column_of(fields[column]) is Some,
        0 <= index < requests.len(),
    ensures
        ({
            let parts = predicate_parts(columns_of(fields));
            let values = parameters_at(batch, requests, index);
            let row = requests[index].row_index as int;
            &&& parts.len() == values.len()
            &&& quoted_in(parts[0], '`', false) == Some(("__dogpaddle_hash"@, " = ?"@))
            &&& values[0] == CellModel::Bytes(row_digest(batch, row))
            &&& quoted_in(parts[1 + column], '`', false) == Some((fields[column].name, " <=> ?"@))
            &&& values[1 + column] == cell_of(batch.columns@[column].values@[row]@)
        }),
{
    reveal_strlit(" = ?");
    reveal_strlit(" <=> ?");
    law_quoted_name_is_read("__dogpaddle_hash"@, " = ?"@);
    law_quoted_name_is_read(fields[column].name, " <=> ?"@);
}

/// What the definition of a column demands of its values.
pub ghost struct ColumnRule {
    pub sort: Seq<char>,
    pub nullable: bool,
}

/// The name of a column and what its definition demands, if a text is a definition.
pub open spec fn definition_in(text: Seq<char>) -> Option<(Seq<char>, ColumnRule)> {
    match quoted_in(text, '`', false) {
        Some((name, rest)) => if !begins(rest, " "@) {
            None
        } else {
            let sort = word_in(rest.skip(1));
            let tail = rest.skip(1).skip(sort.len() as int);
            if tail == " NOT NULL"@ {
                Some((name, ColumnRule { sort, nullable: false }))
            } else if tail == " NULL"@ {
                Some((name, ColumnRule { sort, nullable: true }))
            } else {
                None
            }
        },
        None => None,
    }
}

/// The integer of a value, if it is one.
pub open spec fn integer_of(cell: CellModel) -> Option<int> {
    match cell {
        CellModel::Int(value) => Some(value as int),
        CellModel::UInt(value) => Some(value as int),
        _ => None,
    }
}

/// Whether a column admits a value.
pub open spec fn admits(rule: ColumnRule, cell: CellModel) -> bool {
    if cell is Null {
        rule.nullable
    } else if rule.sort == "STRING"@ {
        cell is Bytes
    } else {
        integer_of(cell) matches Some(number) && if rule.sort == "BOOLEAN"@ {
            0 <= number <= 1
        } else if rule.sort == "TINYINT"@ {
            i8::MIN <= number <= i8::MAX
        } else if rule.sort == "SMALLINT"@ {
            i16::MIN <= number <= i16::MAX
        } else if rule.sort == "INT"@ {
            i32::MIN <= number <= i32::MAX
        } else {
            rule.sort == "BIGINT"@ && i64::MIN <= number <= i64::MAX
        }
    }
}

proof fn lemma_sorts()
    ensures
        forall|storage: StorageType| !(#[trigger] sql_name(storage)).contains(' '),
        "BOOLEAN"@ != "STRING"@,
        "TINYINT"@ != "STRING"@,
        "TINYINT"@ != "BOOLEAN"@,
        "SMALLINT"@ != "STRING"@,
        "SMALLINT"@ != "BOOLEAN"@,
        "SMALLINT"@ != "TINYINT"@,
        "INT"@ != "STRING"@,
        "INT"@ != "BOOLEAN"@,
        "INT"@ != "TINYINT"@,
        "INT"@ != "SMALLINT"@,
        "BIGINT"@ != "STRING"@,
        "BIGINT"@ != "BOOLEAN"@,
        "BIGINT"@ != "TINYINT"@,
        "BIGINT"@ != "SMALLINT"@,
        "BIGINT"@ != "INT"@,
{
    reveal_strlit("BOOLEAN");
    reveal_strlit("TINYINT");
    reveal_strlit("SMALLINT");
    reveal_strlit("INT");
    reveal_strlit("BIGINT");
    reveal_strlit("STRING");
    assert("TINYINT"@[0] == 'T');
    assert("BOOLEAN"@[0] == 'B');
    assert("STRING"@[0] == 'S');
    assert("BIGINT"@[0] == 'B');
    assert("BOOLEAN"@.len() == 7);
    assert("SMALLINT"@.len() == 8);
    assert("INT"@.len() == 3);
    assert("BIGINT"@.len() == 6);
    assert("STRING"@.len() == 6);
}

proof fn lemma_definition(name: Seq<char>, sort: Seq<char>, nullable: bool, tail: Seq<char>)
    requires
        !sort.contains(' '),
        tail == (if nullable {
            " NULL"@
        } else {
            " NOT NULL"@
        }),
    ensures
        definition_in(quoted(name) + (" "@ + (sort + tail))) == Some(
            (name, ColumnRule { sort, nullable }),
        ),
{
    let rest = " "@ + (sort + tail);
    reveal_strlit(" ");
    reveal_strlit(" NULL");
    reveal_strlit(" NOT NULL");
    law_quoted_name_is_read(name, rest);
    lemma_begins(" "@, sort + tail);
    assert(rest.skip(1) =~= sort + tail);
    lemma_word(sort, tail);
    assert((sort + tail).skip(sort.len() as int) =~= tail);
}

/// The state table admits every value of its schema: the definition of a column bears the name
/// of its field, is nullable exactly where the field is, and has a type that holds the values.
pub proof fn law_table_admits_its_values(field: FieldModel, value: ValueModel, path: Seq<char>)
    requires
        column_of(field) is Some,
        value_fault(field, value, path) is None,
    ensures
        match definition_in(column_definition(column_of(field)->0)) {
            Some((name, rule)) => {
                &&& name == field.name
                &&& rule.nullable <==> field.nullable || field.data_type is Null
                &&& admits(rule, cell_of(value))
            },
            None => false,
        },
{
    let column = column_of(field)->0;
    let tail = if column.nullable {
        " NULL"@
    } else {
        " NOT NULL"@
    };
    lemma_column(column);
    lemma_sorts();
}

proof fn lemma_column(column: ColumnModel)
    ensures
        definition_in(column_definition(column)) == Some(
            (column.name, ColumnRule { sort: sql_name(column.storage), nullable: column.nullable }),
        ),
{
    let tail = if column.nullable {
        " NULL"@
    } else {
        " NOT NULL"@
    };
    let sort = sql_name(column.storage);
    assert(!sort.contains(' ')) by {
        lemma_sorts();
    }
    reveal_strlit(" ");
    reveal_strlit("NULL");
    reveal_strlit("NOT NULL");
    reveal_strlit(" NULL");
    reveal_strlit(" NOT NULL");
    assert(" NULL"@ =~= " "@ + "NULL"@);
    assert(" NOT NULL"@ =~= " "@ + "NOT NULL"@);
    lemma_definition(column.name, sort, column.nullable, tail);
    assert(column_definition(column) =~= quoted(column.name) + (" "@ + (sort + tail)));
}

/// The columns of the state table, in order.
pub open spec fn table_columns(fields: Seq<FieldModel>) -> Seq<Seq<char>> {
    seq!["__dogpaddle_id"@, "__dogpaddle_hash"@, "__dogpaddle_deleted"@] + fields.map_values(
        |field: FieldModel| field.name,
    )
}

/// The names of the columns of the state table, in quotes.
pub open spec fn quoted_table_columns(fields: Seq<FieldModel>) -> Seq<Seq<char>> {
    table_columns(fields).map_values(|name: Seq<char>| quoted(name))
}

/// A text is a head, an object of the database, and an end.
pub open spec fn speaks_of_object(
    text: Seq<char>,
    head: Seq<char>,
    database: Seq<char>,
    object: Seq<char>,
    end: Seq<char>,
) -> bool {
    begins(text, head) && object_in(behind(text, head), '`', false) == Some(
        ((database, object), end),
    )
}

proof fn lemma_speaks(head: Seq<char>, database: Seq<char>, object: Seq<char>, end: Seq<char>)
    requires
        end.len() == 0 || end[0] != '`',
    ensures
        speaks_of_object(
            head + qualified_name(database, object) + end,
            head,
            database,
            object,
            end,
        ),
{
    reveal_strlit(".");
    let name = qualified_name(database, object);
    let rest = "."@ + (quoted(object) + end);
    assert(name + end =~= quoted(database) + rest);
    law_quoted_name_is_read(database, rest);
    lemma_begins("."@, quoted(object) + end);
    law_quoted_name_is_read(object, end);
    lemma_begins(head, name + end);
    assert(head + name + end =~= head + (name + end));
}

proof fn lemma_technical()
    ensures
        definition_in(quoted("__dogpaddle_id"@) + " BIGINT NOT NULL"@) == Some(
            ("__dogpaddle_id"@, ColumnRule { sort: "BIGINT"@, nullable: false }),
        ),
        definition_in(quoted("__dogpaddle_hash"@) + " CHAR(32) NOT NULL"@) == Some(
            ("__dogpaddle_hash"@, ColumnRule { sort: "CHAR(32)"@, nullable: false }),
        ),
        definition_in(quoted("__dogpaddle_deleted"@) + " TINYINT NOT NULL"@) == Some(
            ("__dogpaddle_deleted"@, ColumnRule { sort: "TINYINT"@, nullable: false }),
        ),
{
    reveal_strlit(" BIGINT NOT NULL");
    reveal_strlit(" CHAR(32) NOT NULL");
    reveal_strlit(" TINYINT NOT NULL");
    reveal_strlit(" NOT NULL");
    reveal_strlit(" ");
    reveal_strlit("BIGINT");
    reveal_strlit("CHAR(32)");
    reveal_strlit("TINYINT");
    lemma_definition("__dogpaddle_id"@, "BIGINT"@, false, " NOT NULL"@);
    lemma_definition("__dogpaddle_hash"@, "CHAR(32)"@, false, " NOT NULL"@);
    lemma_definition("__dogpaddle_deleted"@, "TINYINT"@, false, " NOT NULL"@);
    assert(" BIGINT NOT NULL"@ =~= " "@ + ("BIGINT"@ + " NOT NULL"@));
    assert(" CHAR(32) NOT NULL"@ =~= " "@ + ("CHAR(32)"@ + " NOT NULL"@));
    assert(" TINYINT NOT NULL"@ =~= " "@ + ("TINYINT"@ + " NOT NULL"@));
}

/// The state table is created with a column for each field of the schema in its order, behind
/// the ID, which is its key, the hash and the mark, which are never null. The mark also decides
/// which of two rows with the same ID stays.
pub proof fn law_state_table_is_created(model: SpecModel, fields: Seq<FieldModel>, k: int)
    requires
        forall|i: int| 0 <= i < fields.len() ==> column_of(#[trigger] fields[i]) is Some,
        0 <= k < fields.len() + 3,
    ensures
        ({
            let columns = columns_of(fields);
            let parts = state_parts(columns);
            let text = state_sql(model, columns);
            let definitions = " ("@ + joined(parts, ","@) + ") UNIQUE KEY("@ + quoted(
                "__dogpaddle_id"@,
            ) + ")"@;
            &&& parts.len() == fields.len() + 4
            &&& match definition_in(parts[k]) {
                Some((name, rule)) => {
                    &&& name == table_columns(fields)[k]
                    &&& k < 3 ==> !rule.nullable
                    &&& k == 0 ==> rule.sort == "BIGINT"@
                    &&& k == 1 ==> rule.sort == "CHAR(32)"@
                    &&& k == 2 ==> rule.sort == "TINYINT"@
                },
                None => false,
            }
            &&& begins(
                text,
                "CREATE TABLE "@ + qualified_name(model.database, state_name(model.sink_id))
                    + definitions,
            )
            &&& ends(
                text,
                "\"function_column.sequence_col\" = "@ + crate::doris::sql::literal(
                    table_columns(fields)[2],
                ) + ")"@,
            )
        }),
{
    let columns = columns_of(fields);
    let parts = state_parts(columns);
    lemma_technical();
    if k >= 3 {
        assert(column_of(fields[k - 3]) is Some);
        assert(columns[k - 3] == column_of(fields[k - 3])->0);
        assert(parts[k] == column_definition(columns[k - 3]));
        lemma_column(columns[k - 3]);
    }
    lemma_state_head(model, columns);
    lemma_state_end(model, columns);
}

proof fn lemma_state_head(model: SpecModel, columns: Seq<ColumnModel>)
    ensures
        begins(
            state_sql(model, columns),
            "CREATE TABLE "@ + state_object(model) + (" ("@ + joined(state_parts(columns), ","@)
                + ") UNIQUE KEY("@ + quoted("__dogpaddle_id"@) + ")"@),
        ),
{
    let text = state_sql(model, columns);
    let head = "CREATE TABLE "@ + state_object(model) + (" ("@ + joined(state_parts(columns), ","@)
        + ") UNIQUE KEY("@ + quoted("__dogpaddle_id"@) + ")"@);
    assert(") COMMENT "@ =~= ")"@ + ") COMMENT "@.skip(1)) by {
        reveal_strlit(") COMMENT ");
        reveal_strlit(")");
    }
    assert(text.take(head.len() as int) =~= head);
}

proof fn lemma_state_end(model: SpecModel, columns: Seq<ColumnModel>)
    ensures
        ends(
            state_sql(model, columns),
            "\"function_column.sequence_col\" = "@ + crate::doris::sql::literal(
                "__dogpaddle_deleted"@,
            ) + ")"@,
        ),
{
    let text = state_sql(model, columns);
    let end = "\"function_column.sequence_col\" = "@ + crate::doris::sql::literal(
        "__dogpaddle_deleted"@,
    ) + ")"@;
    assert(text.skip(text.len() - end.len()) =~= end);
}

/// Rows are written to, and read from, the columns of the state table in their order, so that
/// what is read under an ID is what was written there.
pub proof fn law_rows_name_the_columns(model: SpecModel, fields: Seq<FieldModel>, ids: nat)
    requires
        forall|i: int| 0 <= i < fields.len() ==> column_of(#[trigger] fields[i]) is Some,
    ensures
        ({
            let columns = columns_of(fields);
            let names = joined(quoted_table_columns(fields), ","@);
            let table = state_name(model.sink_id);
            &&& speaks_of_object(
                insert_head(model, columns),
                "INSERT INTO "@,
                model.database,
                table,
                " ("@ + names + ") VALUES "@,
            )
            &&& speaks_of_object(
                stored_sql(model, columns, ids),
                "SELECT "@ + names + " FROM "@,
                model.database,
                table,
                " WHERE "@ + quoted(table_columns(fields)[0]) + " IN ("@ + joined(
                    Seq::new(ids, |i: int| "?"@),
                    ","@,
                ) + ") ORDER BY "@ + quoted(table_columns(fields)[0]),
            )
        }),
{
    let columns = columns_of(fields);
    let names = joined(quoted_table_columns(fields), ","@);
    let table = state_name(model.sink_id);
    assert(quoted_table_columns(fields) =~= seq![
        quoted("__dogpaddle_id"@),
        quoted("__dogpaddle_hash"@),
        quoted("__dogpaddle_deleted"@),
    ] + quoted_columns(columns));
    let end = " ("@ + names + ") VALUES "@;
    assert(end[0] != '`') by {
        reveal_strlit(" (");
    }
    lemma_speaks("INSERT INTO "@, model.database, table, end);
    assert(insert_head(model, columns) =~= "INSERT INTO "@ + state_object(model) + end);
    let marks = Seq::new(ids, |i: int| "?"@);
    assert(marks =~= crate::doris::sql::marks(ids));
    let tail = " WHERE "@ + quoted("__dogpaddle_id"@) + " IN ("@ + joined(marks, ","@)
        + ") ORDER BY "@ + quoted("__dogpaddle_id"@);
    assert(tail[0] != '`') by {
        reveal_strlit(" WHERE ");
    }
    lemma_speaks("SELECT "@ + names + " FROM "@, model.database, table, tail);
    assert(stored_sql(model, columns, ids) =~= ("SELECT "@ + names + " FROM "@) + state_object(
        model,
    ) + tail);
}

/// The view bears the name of the relation and shows the ID and the hash under their public
/// names, and the columns of the fields under their own, in the order of the schema.
pub proof fn law_view_shows_the_fields(model: SpecModel, fields: Seq<FieldModel>)
    requires
        forall|i: int| 0 <= i < fields.len() ==> column_of(#[trigger] fields[i]) is Some,
    ensures
        ({
            let columns = columns_of(fields);
            let shown = seq![
                quoted(table_columns(fields)[0]) + " AS "@ + quoted("$dogpaddle.id"@),
                quoted(table_columns(fields)[1]) + " AS "@ + quoted("$dogpaddle.hash"@),
            ] + quoted_table_columns(fields).skip(3);
            begins(
                view_sql(model, columns),
                "CREATE VIEW "@ + qualified_name(model.database, model.table) + " AS SELECT "@
                    + joined(shown, ","@) + " FROM "@,
            )
        }),
{
    let columns = columns_of(fields);
    let text = view_sql(model, columns);
    let shown = seq![
        quoted(table_columns(fields)[0]) + " AS "@ + quoted("$dogpaddle.id"@),
        quoted(table_columns(fields)[1]) + " AS "@ + quoted("$dogpaddle.hash"@),
    ] + quoted_table_columns(fields).skip(3);
    assert(shown =~= seq![
        crate::doris::sql::renamed("__dogpaddle_id"@, "$dogpaddle.id"@),
        crate::doris::sql::renamed("__dogpaddle_hash"@, "$dogpaddle.hash"@),
    ] + quoted_columns(columns));
    let head = "CREATE VIEW "@ + qualified_name(model.database, model.table) + " AS SELECT "@
        + joined(shown, ","@) + " FROM "@;
    assert(text.take(head.len() as int) =~= head);
}

/// Each row that is to be written stands in one of the statements, and in one place there.
#[verifier::rlimit(80)]
#[verifier::spinoff_prover]
pub proof fn law_statements_write_each_row_once(
    model: SpecModel,
    columns: Seq<ColumnModel>,
    actions: Seq<ActionModel>,
    index: int,
)
    requires
        0 <= index < actions.len(),
    ensures
        ({
            let stops = write_ends(model, columns, actions);
            &&& exists|i: int| 0 <= i < stops.len() && #[trigger] lies_in(stops, i, index)
            &&& forall|i: int, j: int|
                0 <= i < stops.len() && 0 <= j < stops.len() && #[trigger] lies_in(
                    stops,
                    i,
                    index,
                ) && #[trigger] lies_in(stops, j, index) ==> i == j
            &&& forall|i: int|
                0 <= i < stops.len() && #[trigger] lies_in(stops, i, index) ==> writes_row(
                    statement_sql(model, columns, actions, piece_start(stops, i), stops[i]),
                    model,
                    columns,
                    actions[index],
                    index - piece_start(stops, i),
                    stops[i] - piece_start(stops, i),
                )
        }),
{
    let stops = write_ends(model, columns, actions);
    let sizes = crate::doris::target::action_sizes(actions);
    let limits = crate::doris::target::write_limits(insert_head(model, columns), columns.len());
    crate::relation::pack::lemma_pieces_cover(sizes, 0, limits);
    law_each_row_lies_in_one_piece(sizes, limits, index);
    assert forall|i: int|
        0 <= i < stops.len() && #[trigger] lies_in(stops, i, index) implies writes_row(
        statement_sql(model, columns, actions, piece_start(stops, i), stops[i]),
        model,
        columns,
        actions[index],
        index - piece_start(stops, i),
        stops[i] - piece_start(stops, i),
    ) by {
        let start = piece_start(stops, i);
        let rows = action_tuples(actions).subrange(start, stops[i]);
        assert(stops[i] <= actions.len());
        if i > 0 {
            assert(0 < stops[i - 1]);
        }
        assert(rows[index - start] == action_tuples(actions)[index]);
        assert(statement_sql(model, columns, actions, start, stops[i]) == insert_head(
            model,
            columns,
        ) + joined(rows, ","@));
    }
}

/// A statement writes as many rows, and a row at a place among them.
pub open spec fn writes_row(
    text: Seq<char>,
    model: SpecModel,
    columns: Seq<ColumnModel>,
    action: ActionModel,
    place: int,
    count: int,
) -> bool {
    exists|rows: Seq<Seq<char>>|
        {
            &&& text == insert_head(model, columns) + #[trigger] joined(rows, ","@)
            &&& rows.len() == count
            &&& 0 <= place < count
            &&& rows[place] == mutation_tuple(
                action.id,
                action.deleted,
                action.hash,
                action.cells,
            )
        }
}

/// The rows of a reply that tell what was found for a lookup: a row for each ID, or one without
/// an ID where there is none.
pub open spec fn rows_of_match(request: u64, found: MatchModel) -> Seq<MatchRow> {
    if found.ids.len() == 0 {
        seq![MatchRow { request, id: None, count: found.count }]
    } else {
        Seq::new(
            found.ids.len(),
            |i: int| MatchRow { request, id: Some(found.ids[i]), count: found.count },
        )
    }
}

/// The rows of a reply that tell what was found for some lookups.
pub open spec fn reply_of(found: Seq<MatchModel>, start: nat) -> Seq<MatchRow>
    decreases found.len(),
{
    if found.len() == 0 {
        Seq::empty()
    } else {
        reply_of(found.drop_last(), start) + rows_of_match(
            (start + found.len() - 1) as u64,
            found.last(),
        )
    }
}

proof fn lemma_prefix_read(rows: Seq<MatchRow>, more: Seq<MatchRow>, start: nat, count: int)
    requires
        0 <= count <= rows.len(),
    ensures
        matches_in(rows + more, start, count) == matches_in(rows, start, count),
    decreases count,
{
    if count > 0 {
        lemma_prefix_read(rows, more, start, count - 1);
        assert((rows + more)[count - 1] == rows[count - 1]);
    }
}

proof fn lemma_match_read(
    before: Seq<MatchModel>,
    found: MatchModel,
    rows: Seq<MatchRow>,
    start: nat,
    count: int,
)
    requires
        matches_in(rows, start, rows.len() as int) == Ok::<Seq<MatchModel>, Seq<char>>(before),
        start + before.len() < usize::MAX,
        found.ids.len() == 0 <==> found.count == 0,
        0 < count <= rows_of_match((start + before.len()) as u64, found).len(),
    ensures
        ({
            let own = rows_of_match((start + before.len()) as u64, found);
            matches_in(rows + own, start, rows.len() + count) == Ok::<Seq<MatchModel>, Seq<char>>(
                before.push(
                    MatchModel {
                        count: found.count,
                        ids: if found.ids.len() == 0 {
                            Seq::empty()
                        } else {
                            found.ids.take(count)
                        },
                    },
                ),
            )
        }),
    decreases count,
{
    let own = rows_of_match((start + before.len()) as u64, found);
    let all = rows + own;
    assert(all[rows.len() + count - 1] == own[count - 1]);
    if count == 1 {
        lemma_prefix_read(rows, own, start, rows.len() as int);
        let opened = before.push(MatchModel { count: found.count, ids: Seq::empty() });
        assert(opened.drop_last() =~= before);
        if found.ids.len() > 0 {
            assert(Seq::<u64>::empty().push(found.ids[0]) =~= found.ids.take(1));
        }
    } else {
        lemma_match_read(before, found, rows, start, count - 1);
        let opened = before.push(
            MatchModel { count: found.count, ids: found.ids.take(count - 1) },
        );
        assert(opened.drop_last() =~= before);
        assert(found.ids.take(count - 1).push(found.ids[count - 1]) =~= found.ids.take(count));
    }
}

/// A reply is read as what was found: for each lookup the count and all the IDs, in order.
pub proof fn law_reply_is_read(found: Seq<MatchModel>, start: nat)
    requires
        start + found.len() < usize::MAX,
        forall|i: int|
            0 <= i < found.len() ==> ((#[trigger] found[i]).ids.len() == 0 <==> found[i].count
                == 0),
    ensures
        ({
            let rows = reply_of(found, start);
            &&& matches_in(rows, start, rows.len() as int) == Ok::<Seq<MatchModel>, Seq<char>>(
                found,
            )
            &&& reply_fault(rows, start, found.len()) is None
        }),
    decreases found.len(),
{
    if found.len() > 0 {
        let before = found.drop_last();
        assert forall|i: int| 0 <= i < before.len() implies ((#[trigger] before[i]).ids.len() == 0
            <==> before[i].count == 0) by {
            assert(before[i] == found[i]);
        }
        law_reply_is_read(before, start);
        let last = found[found.len() - 1];
        assert(found.last() == last);
        let rows = reply_of(before, start);
        let own = rows_of_match((start + before.len()) as u64, last);
        lemma_match_read(before, last, rows, start, own.len() as int);
        if last.ids.len() > 0 {
            assert(last.ids.take(own.len() as int) =~= last.ids);
        } else {
            assert(last.ids =~= Seq::empty());
        }
        assert(before.push(last) =~= found);
    } else {
        assert(found =~= Seq::empty());
    }
}

/// The lookup that stands at a place in a statement states its own request: its number, and the
/// numbers that the request needs and takes, with the parameters of its own row.
pub proof fn law_lookup_states_its_request(
    model: SpecModel,
    columns: Seq<ColumnModel>,
    batch: RecordBatch,
    requests: Seq<Lookup>,
    start: int,
    end: int,
    i: int,
)
    requires
        0 <= start <= start + i < end <= requests.len(),
        0 <= i,
    ensures
        ({
            let text = clauses(model, columns, requests, start, end)[i];
            let number = word_in(behind(text, "(SELECT "@));
            let request = requests[start + i];
            let take = decimal(request.take as nat);
            &&& clauses(model, columns, requests, start, end).len() == end - start
            &&& number_in(number) == Some(start + i)
            &&& holds_part(
                text,
                " AND "@ + joined(predicate_parts(columns), " AND "@) + " ORDER BY "@ + quoted(
                    "__dogpaddle_id"@,
                ) + " LIMIT "@ + decimal(request.needed as nat) + ")"@,
            )
            &&& ends(text, " ORDER BY id IS NULL, id LIMIT "@ + take + ")"@)
            &&& parameters_of(batch, requests, start, end).len() == (end - start) * (1
                + batch.columns@.len())
            &&& parameters_of(batch, requests, start, end).subrange(
                i * (1 + batch.columns@.len()),
                (i + 1) * (1 + batch.columns@.len()),
            ) == parameters_at(batch, requests, start + i)
        }),
{
    let request = requests[start + i];
    let predicate = joined(predicate_parts(columns), " AND "@);
    lemma_lookup_number(model, (start + i) as nat, request.needed, request.take, predicate);
    lemma_lookup_needed(model, (start + i) as nat, request.needed, request.take, predicate);
    lemma_lookup_end(model, (start + i) as nat, request.needed, request.take, predicate);
    lemma_parameters(batch, requests, start, end, i);
}

proof fn lemma_lookup_end(
    model: SpecModel,
    request: nat,
    needed: u64,
    take: usize,
    predicate: Seq<char>,
)
    ensures
        ends(
            clause_sql(model, request, needed, take, predicate),
            " ORDER BY id IS NULL, id LIMIT "@ + decimal(take as nat) + ")"@,
        ),
{
    let text = clause_sql(model, request, needed, take, predicate);
    let last = decimal(take as nat);
    lemma_lookup_take(model, request, needed, take, predicate);
    assert(")"@.len() == 1) by {
        reveal_strlit(")");
    }
    assert(text.skip(text.len() - last.len() - 1) =~= last + ")"@);
    assert((last + ")"@).drop_last() =~= last);
}

proof fn lemma_parameters(
    batch: RecordBatch,
    requests: Seq<Lookup>,
    start: int,
    end: int,
    i: int,
)
    requires
        0 <= i,
        start + i < end,
    ensures
        ({
            let width = 1 + batch.columns@.len();
            let all = parameters_of(batch, requests, start, end);
            &&& all.len() == (end - start) * width
            &&& 0 <= i * width <= (i + 1) * width <= all.len()
            &&& all.subrange(i * width, (i + 1) * width) == parameters_at(
                batch,
                requests,
                start + i,
            )
        }),
    decreases end - start,
{
    let width = 1 + batch.columns@.len() as int;
    let before = parameters_of(batch, requests, start, end - 1);
    let own = parameters_at(batch, requests, end - 1);
    let all = parameters_of(batch, requests, start, end);
    assert(own.len() == width);
    if end - 1 > start {
        if start + i < end - 1 {
            lemma_parameters(batch, requests, start, end - 1, i);
        } else {
            lemma_parameters(batch, requests, start, end - 1, 0);
        }
    } else {
        assert(before =~= Seq::empty());
        assert((end - 1 - start) * width == 0) by (nonlinear_arith)
            requires
                end - 1 - start == 0,
        ;
    }
    assert(before.len() == (end - 1 - start) * width);
    assert((end - start) * width == (end - 1 - start) * width + width) by (nonlinear_arith);
    assert((i + 1) * width == i * width + width) by (nonlinear_arith);
    assert(0 <= i * width) by (nonlinear_arith)
        requires
            0 <= i,
            0 <= width,
    ;
    if start + i < end - 1 {
        assert(all.subrange(i * width, (i + 1) * width) =~= before.subrange(
            i * width,
            (i + 1) * width,
        ));
    } else {
        assert(i == end - 1 - start);
        assert(all.subrange(i * width, (i + 1) * width) =~= own);
    }
}

/// The catalog has to say of the state table what its creation says: the same columns in the same
/// order, each nullable where its definition is.
pub proof fn law_created_columns_are_expected(fields: Seq<FieldModel>, k: int)
    requires
        forall|i: int| 0 <= i < fields.len() ==> column_of(#[trigger] fields[i]) is Some,
        0 <= k < fields.len() + 3,
    ensures
        ({
            let columns = columns_of(fields);
            let expected = expected_columns(columns);
            &&& expected.len() == state_parts(columns).len() - 1
            &&& match definition_in(state_parts(columns)[k]) {
                Some((name, rule)) => {
                    &&& expected[k].name == name
                    &&& expected[k].nullable == (if rule.nullable {
                        "YES"@
                    } else {
                        "NO"@
                    })
                    &&& catalog_fits(rule.sort, expected[k].column_type)
                },
                None => false,
            }
        }),
{
    let columns = columns_of(fields);
    lemma_technical();
    if k >= 3 {
        assert(column_of(fields[k - 3]) is Some);
        assert(columns[k - 3] == column_of(fields[k - 3])->0);
        assert(state_parts(columns)[k] == column_definition(columns[k - 3]));
        lemma_column(columns[k - 3]);
    }
}

/// The catalog calls a type by another name.
pub open spec fn catalog_fits(sort: Seq<char>, catalog: Seq<char>) -> bool {
    ||| sort == "BOOLEAN"@ && catalog == "tinyint(1)"@
    ||| sort == "TINYINT"@ && catalog == "tinyint(4)"@
    ||| sort == "SMALLINT"@ && catalog == "smallint(6)"@
    ||| sort == "INT"@ && catalog == "int(11)"@
    ||| sort == "BIGINT"@ && catalog == "bigint(20)"@
    ||| sort == "STRING"@ && catalog == "string"@
    ||| sort == "CHAR(32)"@ && catalog == "char(32)"@
}

/// A stored row is taken for another one only where both have the same hash, and each stored
/// value stands for the same value of its field as the other.
pub proof fn law_other_row_is_not_recognised(
    stored: StoredModel,
    hash: Seq<u8>,
    cells: Seq<CellModel>,
    field: FieldModel,
    i: int,
)
    requires
        row_same(stored, hash, cells),
        0 <= i < cells.len(),
    ensures
        stored.hash == hash,
        stored.values.len() == cells.len(),
        value_in(field, stored.values[i]) == value_in(field, cells[i]),
        stored.values[i] is Null <==> cells[i] is Null,
{
    assert(cells_same(stored.values[i], cells[i]));
}

/// A text in single quotes is read as itself.
pub proof fn law_text_literal_is_read(value: Seq<char>, rest: Seq<char>)
    requires
        rest.len() == 0 || rest[0] != '\'',
    ensures
        quoted_in(literal(value) + rest, '\'', true) == Some((value, rest)),
{
    reveal_strlit("'");
    reveal_strlit("''");
    reveal_strlit("\\\\");
    assert("'"@ =~= seq!['\'']);
    assert("''"@ =~= seq!['\'', '\'']);
    assert("\\\\"@ =~= seq!['\\', '\\']);
    crate::reading::law_escaped_name_is_read(value, rest, '\'', seq!['\'', '\'']);
}

/// The state table bears the mark by which it is recognised.
pub proof fn law_state_table_is_marked(model: SpecModel, columns: Seq<ColumnModel>)
    ensures
        holds_part(
            state_sql(model, columns),
            ") COMMENT "@ + literal(marker_name(model.sink_id)) + " DISTRIBUTED BY HASH("@ + quoted(
                "__dogpaddle_id"@,
            ) + ") BUCKETS 1 PROPERTIES (\"enable_unique_key_merge_on_write\" = \"true\", "@,
        ),
{
    let part = ") COMMENT "@ + literal(marker_name(model.sink_id)) + " DISTRIBUTED BY HASH("@
        + quoted("__dogpaddle_id"@)
        + ") BUCKETS 1 PROPERTIES (\"enable_unique_key_merge_on_write\" = \"true\", "@;
    let before = "CREATE TABLE "@ + state_object(model) + " ("@ + joined(state_parts(columns), ","@)
        + ") UNIQUE KEY("@ + quoted("__dogpaddle_id"@);
    let after = "\"function_column.sequence_col\" = "@ + literal("__dogpaddle_deleted"@) + ")"@;
    assert(state_sql(model, columns) =~= before + part + after);
    lemma_holds_part(before, part, after);
}

/// Where nothing fails, a write of several statements begins a transaction, runs each statement
/// once and in order, and commits.
pub proof fn law_statements_run_in_order(
    statements: nat,
    phases: Seq<WritePhase>,
    events: Seq<WriteEvent>,
    k: int,
)
    requires
        1 < statements < usize::MAX,
        writes_through(statements, phases, events),
        forall|i: int| 0 <= i < events.len() ==> #[trigger] events[i] == WriteEvent::Succeeded,
        0 <= k < phases.len(),
        k <= statements + 2,
    ensures
        write_move(statements, phases[k], events[k]).0 == (if k == 0 {
            WriteCommand::Begin
        } else if k <= statements {
            WriteCommand::Execute { statement: (k - 1) as usize }
        } else if k == statements + 1 {
            WriteCommand::Commit
        } else {
            WriteCommand::Finish
        }),
        phases[k] == (if k == 0 {
            WritePhase::Start
        } else if k <= statements + 1 {
            WritePhase::Open { done: (k - 1) as usize }
        } else {
            WritePhase::Closing
        }),
    decreases k,
{
    assert(events[k] == WriteEvent::Succeeded);
    if k > 0 {
        law_statements_run_in_order(statements, phases, events, k - 1);
        assert(events[k - 1] == WriteEvent::Succeeded);
        assert(phases[k] == write_move(statements, phases[k - 1], events[k - 1]).1);
    }
}

proof fn lemma_all_encodable(
    layout: DorisLayout,
    batch: RecordBatch,
    requests: Seq<Lookup>,
    count: int,
)
    requires
        0 <= count <= requests.len(),
        forall|i: int|
            0 <= i < count ==> encode_fault(
                layout.schema,
                batch,
                (#[trigger] requests[i]).row_index as int,
            ) is None,
    ensures
        encodable(layout, batch, requests, count) == count,
    decreases count,
{
    if count > 0 {
        lemma_all_encodable(layout, batch, requests, count - 1);
    }
}

/// Where each row can be encoded, every lookup is sent, and in one statement only.
pub proof fn law_every_lookup_is_sent(
    model: SpecModel,
    layout: DorisLayout,
    batch: RecordBatch,
    requests: Seq<Lookup>,
    index: int,
)
    requires
        forall|i: int|
            0 <= i < requests.len() ==> encode_fault(
                layout.schema,
                batch,
                (#[trigger] requests[i]).row_index as int,
            ) is None,
        0 <= index < requests.len(),
    ensures
        ({
            let stops = lookup_ends(model, layout, batch, requests);
            &&& exists|i: int| 0 <= i < stops.len() && #[trigger] lies_in(stops, i, index)
            &&& forall|i: int, j: int|
                0 <= i < stops.len() && 0 <= j < stops.len() && #[trigger] lies_in(stops, i, index)
                    && #[trigger] lies_in(stops, j, index) ==> i == j
        }),
{
    let count = requests.len() as int;
    lemma_all_encodable(layout, batch, requests, count);
    let sizes = clause_sizes(model, column_views(layout.columns@), requests, count);
    let limits = lookup_limits(column_views(layout.columns@).len());
    let stops = crate::relation::pack::pieces(sizes, 0, limits);
    law_each_row_lies_in_one_piece(sizes, limits, index);
    assert(lookup_ends(model, layout, batch, requests) == stops);
    let found = choose|i: int| 0 <= i < stops.len() && #[trigger] lies_in(stops, i, index);
    assert(lies_in(lookup_ends(model, layout, batch, requests), found, index));
}

} // verus!
