//! What the statements of a SQLite relation say.

use crate::change::FieldModel;
use crate::postgres::admission::lemma_quoted_is_read;
use crate::reading::{begins, behind, law_decimal_is_read, lemma_begins, number_in, quoted_in};
use crate::sqlite::admission::{
    definition_in, holds_hashes, law_definition_names_its_field, law_hash_column_holds_hashes,
};
use crate::sqlite::target::{
    column_sql, definitions, hash_column, id_column, index_of, parameters, quoted, quoted_names,
    row_predicate, technical_definitions, SqlPlan,
};
use crate::sqlite::write::{delete_sql, select_row_sql};
use crate::text::{decimal, joined};
use vstd::prelude::*;

verus! {

/// The columns of the table, in order.
pub open spec fn table_columns(fields: Seq<FieldModel>) -> Seq<Seq<char>> {
    seq!["$dogpaddle.id"@, "$dogpaddle.hash"@] + fields.map_values(|field: FieldModel| field.name)
}

/// The names of the columns of the table, in quotes.
pub open spec fn quoted_table_columns(fields: Seq<FieldModel>) -> Seq<Seq<char>> {
    table_columns(fields).map_values(|name: Seq<char>| quoted(name))
}

/// A text is a head, the table, and an end.
pub open spec fn speaks_of_table(
    text: Seq<char>,
    head: Seq<char>,
    table: Seq<char>,
    end: Seq<char>,
) -> bool {
    begins(text, head) && quoted_in(behind(text, head), '"', false) == Some((table, end))
}

proof fn lemma_speaks(head: Seq<char>, table: Seq<char>, end: Seq<char>)
    requires
        end.len() == 0 || end[0] != '"',
    ensures
        speaks_of_table(head + quoted(table) + end, head, table, end),
{
    lemma_quoted_is_read(table, end);
    lemma_begins(head, quoted(table) + end);
    assert(head + quoted(table) + end =~= head + (quoted(table) + end));
}

/// The parameters of a statement are numbered one after the other.
pub proof fn law_parameters_are_numbered(first: nat, end: nat, k: int)
    requires
        0 <= k < end - first,
    ensures
        parameters(first, end).len() == end - first,
        begins(parameters(first, end)[k], "?"@),
        number_in(behind(parameters(first, end)[k], "?"@)) == Some(first + k),
{
    lemma_begins("?"@, decimal((first + k) as nat));
    law_decimal_is_read((first + k) as nat);
}

proof fn lemma_predicate(fields: Seq<FieldModel>)
    ensures
        row_predicate(fields) == "("@ + joined(quoted_table_columns(fields).skip(1), ", "@)
            + ") IS ("@ + joined(parameters(1, fields.len() + 2), ", "@) + ")"@,
{
    assert(seq![hash_column()] + quoted_names(fields) =~= quoted_table_columns(fields).skip(1));
}

/// A lookup finds the rows whose hash and whose values, null or not, are the given ones, the
/// parameters in the order of the columns, and selects the smallest IDs up to a limit. The count
/// looks for the same rows up to the same limit.
pub proof fn law_lookup_finds_equal_rows(plan: SqlPlan, table: Seq<char>, fields: Seq<FieldModel>)
    requires
        plan.speaks_of(table, fields),
    ensures
        ({
            let same = " WHERE ("@ + joined(quoted_table_columns(fields).skip(1), ", "@)
                + ") IS ("@ + joined(parameters(1, fields.len() + 2), ", "@) + ")"@;
            let limit = " LIMIT ?"@ + decimal(fields.len() + 2);
            let id = quoted(table_columns(fields)[0]);
            &&& speaks_of_table(
                plan.select_matching_ids@,
                "SELECT "@ + id + " FROM "@,
                table,
                same + " ORDER BY "@ + id + limit,
            )
            &&& speaks_of_table(
                plan.count_matches@,
                "SELECT COUNT(*) FROM (SELECT 1 FROM "@,
                table,
                same + limit + ")"@,
            )
            &&& number_in(decimal(fields.len() + 2)) == Some(fields.len() as int + 2)
        }),
{
    let same = " WHERE ("@ + joined(quoted_table_columns(fields).skip(1), ", "@) + ") IS ("@
        + joined(parameters(1, fields.len() + 2), ", "@) + ")"@;
    let limit = " LIMIT ?"@ + decimal(fields.len() + 2);
    let id = id_column();
    lemma_predicate(fields);
    law_decimal_is_read(fields.len() + 2);
    assert(same =~= " WHERE "@ + row_predicate(fields) && same[0] == ' ') by {
        reveal_strlit(" WHERE (");
        reveal_strlit(" WHERE ");
        reveal_strlit("(");
        assert(" WHERE ("@ =~= " WHERE "@ + "("@);
    }
    let first = same + " ORDER BY "@ + id + limit;
    let second = same + limit + ")"@;
    lemma_speaks("SELECT "@ + id + " FROM "@, table, first);
    assert(plan.select_matching_ids@ =~= ("SELECT "@ + id + " FROM "@) + quoted(table) + first);
    lemma_speaks("SELECT COUNT(*) FROM (SELECT 1 FROM "@, table, second);
    assert(plan.count_matches@ =~= "SELECT COUNT(*) FROM (SELECT 1 FROM "@ + quoted(table)
        + second);
}

/// An insertion names the columns of the table in their order, with a parameter for each, and
/// leaves a row alone whose ID is there. A deletion takes the rows with the given IDs.
pub proof fn law_writes_go_by_the_id(
    plan: SqlPlan,
    table: Seq<char>,
    fields: Seq<FieldModel>,
    count: nat,
)
    requires
        plan.speaks_of(table, fields),
    ensures
        ({
            let id = quoted(table_columns(fields)[0]);
            &&& speaks_of_table(
                plan.insert@,
                "INSERT INTO "@,
                table,
                " ("@ + joined(quoted_table_columns(fields), ", "@) + ") VALUES ("@ + joined(
                    parameters(1, fields.len() + 3),
                    ", "@,
                ) + ") ON CONFLICT("@ + id + ") DO NOTHING"@,
            )
            &&& parameters(1, fields.len() + 3).len() == quoted_table_columns(fields).len()
            &&& speaks_of_table(
                delete_sql(plan.delete_prefix@, count),
                "DELETE FROM "@,
                table,
                " WHERE "@ + id + " IN ("@ + joined(Seq::new(count, |i: int| "?"@), ", "@) + ")"@,
            )
            &&& speaks_of_table(
                select_row_sql(plan.table_name@),
                "SELECT * FROM "@,
                table,
                " WHERE "@ + id + " = ?1"@,
            )
            &&& speaks_of_table(
                plan.has_rows@,
                "SELECT EXISTS(SELECT 1 FROM "@,
                table,
                " LIMIT 1)"@,
            )
        }),
{
    let id = id_column();
    assert(quoted_table_columns(fields) =~= seq![id_column(), hash_column()] + quoted_names(
        fields,
    ));
    let insert = " ("@ + joined(quoted_table_columns(fields), ", "@) + ") VALUES ("@ + joined(
        parameters(1, fields.len() + 3),
        ", "@,
    ) + ") ON CONFLICT("@ + id + ") DO NOTHING"@;
    let marks = joined(Seq::new(count, |i: int| "?"@), ", "@);
    let delete = " WHERE "@ + id + " IN ("@ + marks + ")"@;
    let select = " WHERE "@ + id + " = ?1"@;
    assert(insert[0] == ' ' && delete[0] == ' ' && select[0] == ' ' && " LIMIT 1)"@[0] == ' ') by {
        reveal_strlit(" (");
        reveal_strlit(" WHERE ");
        reveal_strlit(" LIMIT 1)");
    }
    lemma_speaks("INSERT INTO "@, table, insert);
    assert(plan.insert@ =~= "INSERT INTO "@ + quoted(table) + insert);
    lemma_speaks("DELETE FROM "@, table, delete);
    assert(" IN ("@ =~= " IN "@ + "("@) by {
        reveal_strlit(" IN (");
        reveal_strlit(" IN ");
        reveal_strlit("(");
    }
    assert(delete_sql(plan.delete_prefix@, count) =~= "DELETE FROM "@ + quoted(table) + delete);
    lemma_speaks("SELECT * FROM "@, table, select);
    assert(select_row_sql(table) =~= "SELECT * FROM "@ + quoted(table) + select);
    lemma_speaks("SELECT EXISTS(SELECT 1 FROM "@, table, " LIMIT 1)"@);
}

proof fn lemma_definitions(fields: Seq<FieldModel>, count: int, k: int)
    requires
        0 <= count <= fields.len(),
        0 <= k < count,
    ensures
        definitions(fields, count).len() == count + 2,
        definitions(fields, count)[2 + k] == column_sql(fields[k])->0,
        definitions(fields, count)[0] == id_column() + " INTEGER PRIMARY KEY"@,
        definitions(fields, count)[1] == technical_definitions()[1],
    decreases count,
{
    reveal_with_fuel(definitions, 2);
    if k < count - 1 {
        lemma_definitions(fields, count - 1, k);
    } else if count > 1 {
        lemma_definitions(fields, count - 1, 0);
    }
}

/// The table is created with a column for each field of the schema in its order, behind the ID,
/// which is its key, and the hash, and holds values of the declared types only. The index is on
/// the hash.
pub proof fn law_table_is_created(
    plan: SqlPlan,
    table: Seq<char>,
    fields: Seq<FieldModel>,
    k: int,
)
    requires
        plan.speaks_of(table, fields),
        forall|i: int| 0 <= i < fields.len() ==> column_sql(#[trigger] fields[i]) is Some,
        0 <= k < fields.len(),
    ensures
        ({
            let parts = definitions(fields, fields.len() as int);
            &&& speaks_of_table(
                plan.create_table@,
                "CREATE TABLE "@,
                table,
                " ("@ + joined(parts, ", "@) + ") STRICT"@,
            )
            &&& parts.len() == fields.len() + 2
            &&& quoted_in(parts[0], '"', false) == Some(
                (table_columns(fields)[0], " INTEGER PRIMARY KEY"@),
            )
            &&& holds_hashes(parts[1], table_columns(fields)[1])
            &&& definition_in(parts[2 + k]) is Some
            &&& (definition_in(parts[2 + k])->0).0 == table_columns(fields)[2 + k]
            &&& speaks_of_table(
                plan.create_index@,
                "CREATE INDEX "@ + quoted(index_of(table)) + " ON "@,
                table,
                "("@ + quoted(table_columns(fields)[1]) + ")"@,
            )
        }),
{
    let parts = definitions(fields, fields.len() as int);
    let end = " ("@ + joined(parts, ", "@) + ") STRICT"@;
    let index = "("@ + hash_column() + ")"@;
    assert(end[0] == ' ' && index[0] == '(' && " INTEGER PRIMARY KEY"@[0] == ' ') by {
        reveal_strlit(" (");
        reveal_strlit("(");
        reveal_strlit(" INTEGER PRIMARY KEY");
    }
    lemma_definitions(fields, fields.len() as int, k);
    assert(column_sql(fields[k]) is Some);
    law_definition_names_its_field(fields[k]);
    law_hash_column_holds_hashes();
    lemma_quoted_is_read("$dogpaddle.id"@, " INTEGER PRIMARY KEY"@);
    lemma_speaks("CREATE TABLE "@, table, end);
    assert(plan.create_table@ =~= "CREATE TABLE "@ + quoted(table) + end);
    lemma_speaks("CREATE INDEX "@ + quoted(index_of(table)) + " ON "@, table, index);
    assert(plan.create_index@ =~= ("CREATE INDEX "@ + quoted(index_of(table)) + " ON "@) + quoted(
        table,
    ) + index);
}

} // verus!
