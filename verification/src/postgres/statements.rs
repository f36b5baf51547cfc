//! What the statements of a PostgreSQL relation say.

use crate::change::FieldModel;
use crate::postgres::admission::{
    bracketed, definition_in, lemma_quoted_is_read, lemma_rule_of_column, ColumnRule,
};
use crate::postgres::config::{owned_names, primary_key_name, SpecModel};
use crate::postgres::schema::{column_of, columns_of, ColumnModel};
use crate::postgres::target::{
    column_definitions, column_sql, column_types, constraint_name, create_index_sql,
    create_target_sql, differs, exact_match, hash_name, id_name, initialize_sql, insert_head,
    literal, lookup_head, lookup_tail, marker_text, matching_sql, mismatch_tail, qualified_name,
    quoted_columns, request_columns, row_parameters, table_constraints, SqlPlan,
};
use crate::reading::{
    begins, behind, ends, holds_part, law_decimal_is_read, lemma_begins, lemma_digits_hold,
    lemma_holds_part, lemma_word, number_in, quoted_in, word_in,
};
use crate::sqlite::target::quoted;
use crate::text::{decimal, hex_digit, hex_four, joined, views};
use vstd::prelude::*;

verus! {

/// The object of a schema that a text begins with, and what stands behind it.
pub open spec fn object_in(text: Seq<char>) -> Option<((Seq<char>, Seq<char>), Seq<char>)> {
    match quoted_in(text, '"', false) {
        Some((schema, rest)) => if begins(rest, "."@) {
            match quoted_in(behind(rest, "."@), '"', false) {
                Some((object, end)) => Some(((schema, object), end)),
                None => None,
            }
        } else {
            None
        },
        None => None,
    }
}

/// A text is a head, the table of a relation, and an end.
pub open spec fn speaks_of_table(
    text: Seq<char>,
    head: Seq<char>,
    model: SpecModel,
    end: Seq<char>,
) -> bool {
    begins(text, head) && object_in(behind(text, head)) == Some(((model.schema, model.table), end))
}

proof fn lemma_object(schema: Seq<char>, object: Seq<char>, end: Seq<char>)
    requires
        end.len() == 0 || end[0] != '"',
    ensures
        object_in(qualified_name(schema, object) + end) == Some(((schema, object), end)),
{
    reveal_strlit(".");
    let rest = "."@ + (quoted(object) + end);
    assert(qualified_name(schema, object) + end =~= quoted(schema) + rest);
    lemma_quoted_is_read(schema, rest);
    lemma_begins("."@, quoted(object) + end);
    lemma_quoted_is_read(object, end);
}

proof fn lemma_speaks(head: Seq<char>, model: SpecModel, end: Seq<char>)
    requires
        end.len() == 0 || end[0] != '"',
    ensures
        speaks_of_table(
            head + qualified_name(model.schema, model.table) + end,
            head,
            model,
            end,
        ),
{
    let object = qualified_name(model.schema, model.table);
    lemma_object(model.schema, model.table, end);
    lemma_begins(head, object + end);
    assert(head + object + end =~= head + (object + end));
}

/// The columns of a table by its technical ones and the fields of its schema.
pub open spec fn table_columns(fields: Seq<FieldModel>) -> Seq<Seq<char>> {
    seq!["$dogpaddle.id"@, "$dogpaddle.hash"@] + fields.map_values(|field: FieldModel| field.name)
}

/// What a constraint of a whole table demands: what stands behind its name.
pub open spec fn constraint_in(text: Seq<char>) -> Option<Seq<char>> {
    if begins(text, "CONSTRAINT "@) {
        match quoted_in(behind(text, "CONSTRAINT "@), '"', false) {
            Some((_, rest)) => Some(rest),
            None => None,
        }
    } else {
        None
    }
}

/// Whether a constraint makes a column the key of its table.
pub open spec fn keys_on(constraint: Seq<char>, column: Seq<char>) -> bool {
    match bracketed(constraint, " PRIMARY KEY ("@) {
        Some(name) => quoted_in(name, '"', false) == Some((column, Seq::<char>::empty())),
        None => false,
    }
}

/// Whether a constraint demands that a number in a column is above another.
pub open spec fn demands_above(constraint: Seq<char>, column: Seq<char>, bound: int) -> bool {
    match bracketed(constraint, " CHECK ("@) {
        Some(check) => match quoted_in(check, '"', false) {
            Some((name, rest)) => name == column && begins(rest, " > "@) && number_in(
                behind(rest, " > "@),
            ) == Some(bound),
            None => false,
        },
        None => false,
    }
}

/// Whether a constraint demands that a column holds as many bytes.
pub open spec fn demands_length(constraint: Seq<char>, column: Seq<char>, length: int) -> bool {
    match bracketed(constraint, " CHECK ("@) {
        Some(check) => begins(check, "octet_length("@) && match quoted_in(
            behind(check, "octet_length("@),
            '"',
            false,
        ) {
            Some((name, rest)) => name == column && begins(rest, ") = "@) && number_in(
                behind(rest, ") = "@),
            ) == Some(length),
            None => false,
        },
        None => false,
    }
}

/// A statement creates the table of a relation out of parts: a definition for each column in
/// order, the technical ones first and never null, and constraints: the ID is a key and
/// positive, and the hash has its length.
pub open spec fn creates_table(
    text: Seq<char>,
    model: SpecModel,
    fields: Seq<FieldModel>,
    parts: Seq<Seq<char>>,
) -> bool {
    let count = fields.len() as int;
    &&& speaks_of_table(text, "CREATE TABLE "@, model, " ("@ + joined(parts, ", "@) + ")"@)
    &&& parts.len() == count + 5
    &&& forall|k: int|
        0 <= k < count + 2 ==> (match definition_in(#[trigger] parts[k]) {
            Some((name, rule)) => {
                &&& name == table_columns(fields)[k]
                &&& k < 2 ==> rule.not_null && rule.check is None
                &&& k == 0 ==> rule.sort == "bigint"@
                &&& k == 1 ==> rule.sort == "bytea"@
            },
            None => false,
        })
    &&& constraint_in(parts[count + 2]) is Some
    &&& keys_on(constraint_in(parts[count + 2])->0, "$dogpaddle.id"@)
    &&& constraint_in(parts[count + 3]) is Some
    &&& demands_above(constraint_in(parts[count + 3])->0, "$dogpaddle.id"@, 0)
    &&& constraint_in(parts[count + 4]) is Some
    &&& demands_length(constraint_in(parts[count + 4])->0, "$dogpaddle.hash"@, 16)
}

/// The parts of the statement that creates the table of a relation.
pub open spec fn table_parts(model: SpecModel, fields: Seq<FieldModel>) -> Seq<Seq<char>> {
    column_definitions(columns_of(fields), model.sink_id, fields.len() as int) + table_constraints(
        model.sink_id,
    )
}

proof fn lemma_definitions(columns: Seq<ColumnModel>, sink_id: Seq<char>, count: int, k: int)
    requires
        0 <= count <= columns.len(),
        0 <= k < count + 2,
    ensures
        column_definitions(columns, sink_id, count).len() == count + 2,
        column_definitions(columns, sink_id, count)[k] == (if k == 0 {
            id_name() + " bigint NOT NULL"@
        } else if k == 1 {
            hash_name() + " bytea NOT NULL"@
        } else {
            column_sql((k - 2) as nat, columns[k - 2], sink_id)
        }),
    decreases count,
{
    if count > 0 {
        if k < count + 1 {
            lemma_definitions(columns, sink_id, count - 1, k);
        } else {
            lemma_definitions(columns, sink_id, count - 1, 0);
        }
    }
}

proof fn lemma_technical_definitions()
    ensures
        definition_in(id_name() + " bigint NOT NULL"@) == Some(
            (
                "$dogpaddle.id"@,
                ColumnRule { sort: "bigint"@, not_null: true, check: None::<Seq<char>> },
            ),
        ),
        definition_in(hash_name() + " bytea NOT NULL"@) == Some(
            (
                "$dogpaddle.hash"@,
                ColumnRule { sort: "bytea"@, not_null: true, check: None::<Seq<char>> },
            ),
        ),
{
    reveal_strlit(" bigint NOT NULL");
    reveal_strlit(" bytea NOT NULL");
    reveal_strlit("bigint");
    reveal_strlit("bytea");
    reveal_strlit(" ");
    reveal_strlit(" NOT NULL");
    let empty = Seq::<char>::empty();
    crate::postgres::admission::lemma_head("$dogpaddle.id"@, "bigint"@, true, empty);
    crate::postgres::admission::lemma_head("$dogpaddle.hash"@, "bytea"@, true, empty);
    assert(" bigint NOT NULL"@ =~= " "@ + ("bigint"@ + (" NOT NULL"@ + empty)));
    assert(" bytea NOT NULL"@ =~= " "@ + ("bytea"@ + (" NOT NULL"@ + empty)));
}

proof fn lemma_constraints(sink_id: Seq<char>)
    ensures
        ({
            let parts = table_constraints(sink_id);
            &&& parts.len() == 3
            &&& constraint_in(parts[0]) is Some
            &&& keys_on(constraint_in(parts[0])->0, "$dogpaddle.id"@)
            &&& constraint_in(parts[1]) is Some
            &&& demands_above(constraint_in(parts[1])->0, "$dogpaddle.id"@, 0)
            &&& constraint_in(parts[2]) is Some
            &&& demands_length(constraint_in(parts[2])->0, "$dogpaddle.hash"@, 16)
        }),
{
    let parts = table_constraints(sink_id);
    let empty = Seq::<char>::empty();
    reveal_strlit("CONSTRAINT ");
    reveal_strlit(" PRIMARY KEY (");
    reveal_strlit(" CHECK (");
    reveal_strlit(" CHECK (octet_length(");
    reveal_strlit("octet_length(");
    reveal_strlit(") = 16)");
    reveal_strlit(") = ");
    reveal_strlit(" > 0)");
    reveal_strlit(" > ");
    reveal_strlit(")");
    let key = " PRIMARY KEY ("@ + (id_name() + ")"@);
    let name = primary_key_name(sink_id);
    assert(parts[0] =~= "CONSTRAINT "@ + (quoted(name) + key));
    lemma_begins("CONSTRAINT "@, quoted(name) + key);
    lemma_quoted_is_read(name, key);
    lemma_begins(" PRIMARY KEY ("@, id_name() + ")"@);
    assert((id_name() + ")"@).drop_last() =~= id_name() + empty);
    lemma_quoted_is_read("$dogpaddle.id"@, empty);
    assert(id_name() + empty =~= id_name());
    lemma_positive(sink_id);
    lemma_length(sink_id);
}

proof fn lemma_positive(sink_id: Seq<char>)
    ensures
        constraint_in(table_constraints(sink_id)[1]) is Some,
        demands_above(constraint_in(table_constraints(sink_id)[1])->0, "$dogpaddle.id"@, 0),
{
    reveal_strlit("CONSTRAINT ");
    reveal_strlit(" CHECK (");
    reveal_strlit(" > 0)");
    reveal_strlit(" > ");
    let zero = decimal(0);
    law_decimal_is_read(0);
    let name = "$dogpaddle.id_check."@ + sink_id;
    let check = id_name() + (" > "@ + zero);
    let rest = " CHECK ("@ + (check + seq![')']);
    assert(zero =~= seq!['0']);
    assert(" > 0)"@ =~= " > "@ + zero + seq![')']);
    assert(table_constraints(sink_id)[1] =~= "CONSTRAINT "@ + (quoted(name) + rest));
    lemma_begins("CONSTRAINT "@, quoted(name) + rest);
    lemma_quoted_is_read(name, rest);
    lemma_begins(" CHECK ("@, check + seq![')']);
    assert((check + seq![')']).drop_last() =~= check);
    lemma_quoted_is_read("$dogpaddle.id"@, " > "@ + zero);
    lemma_begins(" > "@, zero);
}

proof fn lemma_length(sink_id: Seq<char>)
    ensures
        constraint_in(table_constraints(sink_id)[2]) is Some,
        demands_length(constraint_in(table_constraints(sink_id)[2])->0, "$dogpaddle.hash"@, 16),
{
    reveal_strlit("CONSTRAINT ");
    reveal_strlit(" CHECK (");
    reveal_strlit(" CHECK (octet_length(");
    reveal_strlit("octet_length(");
    reveal_strlit(") = 16)");
    reveal_strlit(") = ");
    let sixteen = decimal(16);
    law_decimal_is_read(16);
    reveal_with_fuel(decimal, 3);
    assert(sixteen =~= seq!['1', '6']);
    let name = "$dogpaddle.hash_check."@ + sink_id;
    let tail = ") = "@ + sixteen;
    let check = "octet_length("@ + (hash_name() + tail);
    let rest = " CHECK ("@ + (check + seq![')']);
    assert(") = 16)"@ =~= tail + seq![')']);
    assert(" CHECK (octet_length("@ =~= " CHECK ("@ + "octet_length("@);
    assert(table_constraints(sink_id)[2] =~= "CONSTRAINT "@ + (quoted(name) + rest));
    lemma_begins("CONSTRAINT "@, quoted(name) + rest);
    lemma_quoted_is_read(name, rest);
    lemma_begins(" CHECK ("@, check + seq![')']);
    assert((check + seq![')']).drop_last() =~= check);
    lemma_begins("octet_length("@, hash_name() + tail);
    lemma_quoted_is_read("$dogpaddle.hash"@, tail);
    lemma_begins(") = "@, sixteen);
}

proof fn lemma_part(model: SpecModel, fields: Seq<FieldModel>, k: int)
    requires
        0 <= k < fields.len() + 2,
        forall|i: int| 0 <= i < fields.len() ==> column_of(#[trigger] fields[i]) is Some,
    ensures
        table_parts(model, fields).len() == fields.len() + 5,
        match definition_in(table_parts(model, fields)[k]) {
            Some((name, rule)) => {
                &&& name == table_columns(fields)[k]
                &&& k < 2 ==> rule.not_null && rule.check is None
                &&& rule.sort == (seq!["bigint"@, "bytea"@] + column_types(columns_of(fields)))[k]
            },
            None => false,
        },
{
    let columns = columns_of(fields);
    let parts = table_parts(model, fields);
    lemma_definitions(columns, model.sink_id, fields.len() as int, k);
    assert(parts[k] == column_definitions(columns, model.sink_id, fields.len() as int)[k]);
    if k >= 2 {
        assert(column_of(fields[k - 2]) is Some);
        assert(columns[k - 2] == column_of(fields[k - 2])->0);
        lemma_rule_of_column((k - 2) as nat, columns[k - 2], model.sink_id);
        assert(table_columns(fields)[k] == fields[k - 2].name);
    } else {
        lemma_technical_definitions();
    }
}

proof fn lemma_created(model: SpecModel, fields: Seq<FieldModel>)
    ensures
        speaks_of_table(
            create_target_sql(model, columns_of(fields)),
            "CREATE TABLE "@,
            model,
            " ("@ + joined(table_parts(model, fields), ", "@) + ")"@,
        ),
{
    let end = " ("@ + joined(table_parts(model, fields), ", "@) + ")"@;
    let object = qualified_name(model.schema, model.table);
    assert(end[0] != '"') by {
        reveal_strlit(" (");
    }
    lemma_speaks("CREATE TABLE "@, model, end);
    assert(create_target_sql(model, columns_of(fields)) =~= "CREATE TABLE "@ + object + end);
}

proof fn lemma_initialize(model: SpecModel, columns: Seq<ColumnModel>)
    ensures
        begins(initialize_sql(model, columns), create_target_sql(model, columns) + "; "@),
{
    let table = create_target_sql(model, columns) + "; "@;
    let text = initialize_sql(model, columns);
    assert(text.take(table.len() as int) =~= table);
}

/// Initializing a relation begins by creating its table, with a column for each field of the
/// schema in its order, behind the two technical ones.
pub proof fn law_table_is_created(model: SpecModel, fields: Seq<FieldModel>)
    requires
        forall|i: int| 0 <= i < fields.len() ==> column_of(#[trigger] fields[i]) is Some,
    ensures
        creates_table(
            create_target_sql(model, columns_of(fields)),
            model,
            fields,
            table_parts(model, fields),
        ),
        begins(
            initialize_sql(model, columns_of(fields)),
            create_target_sql(model, columns_of(fields)) + "; "@,
        ),
{
    let parts = table_parts(model, fields);
    let count = fields.len() as int;
    lemma_created(model, fields);
    lemma_initialize(model, columns_of(fields));
    lemma_part(model, fields, 0);
    assert forall|k: int| 0 <= k < count + 2 implies (match definition_in(#[trigger] parts[k]) {
        Some((name, rule)) => {
            &&& name == table_columns(fields)[k]
            &&& k < 2 ==> rule.not_null && rule.check is None
            &&& k == 0 ==> rule.sort == "bigint"@
            &&& k == 1 ==> rule.sort == "bytea"@
        },
        None => false,
    }) by {
        lemma_part(model, fields, k);
    }
    lemma_constraints(model.sink_id);
    assert(parts[count + 2] == table_constraints(model.sink_id)[0]);
    assert(parts[count + 3] == table_constraints(model.sink_id)[1]);
    assert(parts[count + 4] == table_constraints(model.sink_id)[2]);
}

/// The names of the columns of a table, in quotes.
pub open spec fn quoted_table_columns(fields: Seq<FieldModel>) -> Seq<Seq<char>> {
    table_columns(fields).map_values(|name: Seq<char>| quoted(name))
}

/// An insertion names the columns of the table in their order, and its parameters have the types
/// of these columns.
pub proof fn law_insert_names_the_columns(
    plan: SqlPlan,
    model: SpecModel,
    fields: Seq<FieldModel>,
    k: int,
)
    requires
        forall|i: int| 0 <= i < fields.len() ==> column_of(#[trigger] fields[i]) is Some,
        plan.speaks_of(model, columns_of(fields)),
        0 <= k < fields.len() + 2,
    ensures
        speaks_of_table(
            plan.insert_prefix@,
            "INSERT INTO "@,
            model,
            " ("@ + joined(quoted_table_columns(fields), ", "@) + ") VALUES "@,
        ),
        plan.parameter_types@.len() == fields.len() + 2,
        match definition_in(table_parts(model, fields)[k]) {
            Some((name, rule)) => {
                &&& quoted_table_columns(fields)[k] == quoted(name)
                &&& plan.parameter_types@[k]@ == rule.sort
            },
            None => false,
        },
{
    let columns = columns_of(fields);
    let names = quoted_table_columns(fields);
    let types = views(plan.parameter_types@);
    assert(types.len() == plan.parameter_types@.len());
    assert(types[k] == plan.parameter_types@[k]@);
    lemma_part(model, fields, k);
    assert(names =~= seq![id_name(), hash_name()] + quoted_columns(columns));
    lemma_insert_head(model, columns);
}

proof fn lemma_insert_head(model: SpecModel, columns: Seq<ColumnModel>)
    ensures
        ({
            let names = seq![id_name(), hash_name()] + quoted_columns(columns);
            speaks_of_table(
                insert_head(model, columns),
                "INSERT INTO "@,
                model,
                " ("@ + joined(names, ", "@) + ") VALUES "@,
            )
        }),
{
    let names = seq![id_name(), hash_name()] + quoted_columns(columns);
    let end = " ("@ + joined(names, ", "@) + ") VALUES "@;
    let object = qualified_name(model.schema, model.table);
    assert(end[0] != '"') by {
        reveal_strlit(" (");
    }
    lemma_speaks("INSERT INTO "@, model, end);
    assert(insert_head(model, columns) =~= "INSERT INTO "@ + object + end);
}

/// A parameter is a number behind a dollar sign, and a type behind two colons.
pub open spec fn is_parameter(text: Seq<char>, number: int, sort: Seq<char>) -> bool {
    exists|digits: Seq<char>|
        text == "$"@ + digits + "::"@ + sort && number_in(digits) == Some(number)
}

/// The parameters of the rows of a statement are numbered from one on, row by row, each with the
/// type of its column.
pub proof fn law_parameters_are_numbered(row: nat, types: Seq<Seq<char>>, column: int)
    requires
        0 <= column < types.len(),
    ensures
        row_parameters(row, types).len() == types.len(),
        is_parameter(
            row_parameters(row, types)[column],
            row * types.len() + column + 1,
            types[column],
        ),
{
    let number = (row * types.len() + column + 1) as nat;
    law_decimal_is_read(number);
    assert(row_parameters(row, types)[column] == "$"@ + decimal(number) + "::"@ + types[column]);
}

/// The column of the table and the column of the request that a condition finds equal, or both
/// null, if it is such a condition.
pub open spec fn sameness_in(text: Seq<char>) -> Option<(Seq<char>, Seq<char>)> {
    if !begins(text, "(target."@) {
        None
    } else {
        match quoted_in(behind(text, "(target."@), '"', false) {
            Some((column, rest)) => if !begins(rest, " = request."@) {
                None
            } else {
                let request = word_in(behind(rest, " = request."@));
                if behind(rest, " = request."@) == request + " OR (target."@ + quoted(column)
                    + " IS NULL AND request."@ + request + " IS NULL))"@ {
                    Some((column, request))
                } else {
                    None
                }
            },
            None => None,
        }
    }
}

/// Conditions that are demanded one after the other.
pub open spec fn demanded(conditions: Seq<Seq<char>>, count: int) -> Seq<char>
    decreases count,
{
    if count <= 0 {
        Seq::empty()
    } else {
        demanded(conditions, count - 1) + " AND "@ + conditions[count - 1]
    }
}

/// The condition that a column is the same in the table and in the request.
pub open spec fn same_column(name: Seq<char>, index: nat) -> Seq<char> {
    let request = "c"@ + decimal(index);
    "(target."@ + name + " = request."@ + request + " OR (target."@ + name
        + " IS NULL AND request."@ + request + " IS NULL))"@
}

proof fn lemma_same_column(name: Seq<char>, index: nat)
    ensures
        sameness_in(same_column(quoted(name), index)) == Some(
            (name, request_columns(index + 1)[index as int]),
        ),
{
    let request = "c"@ + decimal(index);
    let tail = " OR (target."@ + quoted(name) + " IS NULL AND request."@ + request + " IS NULL))"@;
    let rest = " = request."@ + (request + tail);
    let text = same_column(quoted(name), index);
    assert(text =~= "(target."@ + (quoted(name) + rest));
    lemma_begins("(target."@, quoted(name) + rest);
    assert(rest[0] == ' ') by {
        reveal_strlit(" = request.");
    }
    lemma_quoted_is_read(name, rest);
    lemma_begins(" = request."@, request + tail);
    assert(!request.contains(' ')) by {
        reveal_strlit("c");
        lemma_digits_hold(index as int, ' ');
        assert forall|i: int| 0 <= i < request.len() implies request[i] != ' ' by {
            if i > 0 {
                assert(decimal(index).contains(decimal(index)[i - 1]));
            }
        }
    }
    assert(tail[0] == ' ') by {
        reveal_strlit(" OR (target.");
    }
    lemma_word(request, tail);
    assert(request + tail =~= request + " OR (target."@ + quoted(name) + " IS NULL AND request."@
        + request + " IS NULL))"@);
}

proof fn lemma_exact_match(names: Seq<Seq<char>>, conditions: Seq<Seq<char>>, count: int)
    requires
        0 <= count <= names.len() == conditions.len(),
        forall|i: int|
            0 <= i < names.len() ==> #[trigger] conditions[i] == same_column(names[i], i as nat),
    ensures
        exact_match(names, count) == demanded(conditions, count),
    decreases count,
{
    if count > 0 {
        lemma_exact_match(names, conditions, count - 1);
        let before = exact_match(names, count - 1);
        let index = (count - 1) as nat;
        let name = names[count - 1];
        let request = "c"@ + decimal(index);
        assert(conditions[count - 1] == same_column(name, index));
        reveal_strlit(" AND (target.");
        reveal_strlit(" AND ");
        reveal_strlit("(target.");
        reveal_strlit(" = request.c");
        reveal_strlit(" = request.");
        reveal_strlit(" IS NULL AND request.c");
        reveal_strlit(" IS NULL AND request.");
        reveal_strlit("c");
        assert(" AND (target."@ =~= " AND "@ + "(target."@);
        assert(" = request.c"@ =~= " = request."@ + "c"@);
        assert(" IS NULL AND request.c"@ =~= " IS NULL AND request."@ + "c"@);
        let part = " AND (target."@ + name + " = request.c"@ + decimal(index) + " OR (target."@
            + name + " IS NULL AND request.c"@ + decimal(index) + " IS NULL))"@;
        assert(part =~= " AND "@ + same_column(name, index));
        assert(exact_match(names, count) =~= before + part);
        assert(demanded(conditions, count) =~= before + (" AND "@ + conditions[count - 1]));
    }
}

/// The rows of the table that a text selects: those in which the hash is that of the request,
/// and in which conditions hold.
pub open spec fn selects_same(
    text: Seq<char>,
    model: SpecModel,
    conditions: Seq<Seq<char>>,
) -> bool {
    speaks_of_table(
        text,
        "FROM ONLY "@,
        model,
        " AS target WHERE target."@ + quoted("$dogpaddle.hash"@) + " = request.hash"@ + demanded(
            conditions,
            conditions.len() as int,
        ),
    )
}

/// The conditions that find a row in the table: one for each field.
pub open spec fn row_conditions(fields: Seq<FieldModel>) -> Seq<Seq<char>> {
    Seq::new(fields.len(), |i: int| same_column(quoted(fields[i].name), i as nat))
}

/// A lookup finds the rows that are equal to the requested one: it compares the hash, and each
/// column of the table with the value of the same column in the request, null with null. It
/// counts these rows up to the number that is needed, and selects the smallest IDs of the same
/// rows up to the number that is to be taken. The request names its values in the order in
/// which they are given.
pub proof fn law_lookup_finds_equal_rows(
    plan: SqlPlan,
    model: SpecModel,
    fields: Seq<FieldModel>,
    matching: Seq<char>,
    i: int,
)
    requires
        forall|i: int| 0 <= i < fields.len() ==> column_of(#[trigger] fields[i]) is Some,
        plan.speaks_of(model, columns_of(fields)),
        matching == matching_sql(model, columns_of(fields)),
        0 <= i < fields.len(),
    ensures
        selects_same(matching, model, row_conditions(fields)),
        sameness_in(row_conditions(fields)[i]) == Some(
            (fields[i].name, request_columns(fields.len())[i]),
        ),
        holds_part(
            plan.lookup_prefix@,
            "(SELECT count(*) FROM (SELECT 1 "@ + matching + " LIMIT request.needed)"@,
        ),
        holds_part(
            plan.lookup_suffix@,
            "ARRAY(SELECT target."@ + quoted("$dogpaddle.id"@) + " "@ + matching
                + " ORDER BY target."@ + quoted("$dogpaddle.id"@) + " LIMIT request.take)"@,
        ),
        begins(
            plan.lookup_suffix@,
            ") AS request ("@ + joined(
                seq!["n"@, "needed"@, "take"@, "hash"@] + request_columns(fields.len()),
                ", "@,
            ) + ")"@,
        ),
{
    let columns = columns_of(fields);
    let names = quoted_columns(columns);
    let conditions = row_conditions(fields);
    assert forall|j: int| 0 <= j < names.len() implies #[trigger] conditions[j] == same_column(
        names[j],
        j as nat,
    ) by {
        assert(column_of(fields[j]) is Some);
    }
    lemma_exact_match(names, conditions, names.len() as int);
    lemma_matching(model, columns, conditions);
    lemma_same_column(fields[i].name, i as nat);
    assert(request_columns((i + 1) as nat)[i] == request_columns(fields.len())[i]);
    lemma_lookup_head(model, columns);
    lemma_lookup_tail(model, columns);
}

proof fn lemma_matching(
    model: SpecModel,
    columns: Seq<ColumnModel>,
    conditions: Seq<Seq<char>>,
)
    requires
        conditions.len() == columns.len(),
        exact_match(quoted_columns(columns), columns.len() as int) == demanded(
            conditions,
            columns.len() as int,
        ),
    ensures
        selects_same(matching_sql(model, columns), model, conditions),
{
    let end = " AS target WHERE target."@ + quoted("$dogpaddle.hash"@) + " = request.hash"@
        + demanded(conditions, conditions.len() as int);
    let object = qualified_name(model.schema, model.table);
    assert(end[0] != '"') by {
        reveal_strlit(" AS target WHERE target.");
    }
    lemma_speaks("FROM ONLY "@, model, end);
    assert(matching_sql(model, columns) =~= "FROM ONLY "@ + object + end);
}

proof fn lemma_lookup_head(model: SpecModel, columns: Seq<ColumnModel>)
    ensures
        holds_part(
            lookup_head(model, columns),
            "(SELECT count(*) FROM (SELECT 1 "@ + matching_sql(model, columns)
                + " LIMIT request.needed)"@,
        ),
{
    let matching = matching_sql(model, columns);
    let open = "(SELECT count(*) FROM (SELECT 1 "@;
    let limit = " LIMIT request.needed)"@;
    let head = "SELECT request.n, CASE WHEN cardinality(selected.ids) = request.take AND request.needed > request.take THEN (SELECT count(*) FROM (SELECT 1 "@;
    let tail = " LIMIT request.needed) AS counted) ELSE cardinality(selected.ids)::bigint END, selected.ids FROM (VALUES "@;
    reveal_strlit("(SELECT count(*) FROM (SELECT 1 ");
    reveal_strlit(" LIMIT request.needed)");
    reveal_strlit("SELECT request.n, CASE WHEN cardinality(selected.ids) = request.take AND request.needed > request.take THEN (SELECT count(*) FROM (SELECT 1 ");
    reveal_strlit(" LIMIT request.needed) AS counted) ELSE cardinality(selected.ids)::bigint END, selected.ids FROM (VALUES ");
    let before = head.take(head.len() - open.len());
    let after = tail.skip(limit.len() as int);
    assert(head =~= before + open);
    assert(tail =~= limit + after);
    let part = open + matching + limit;
    assert(lookup_head(model, columns) =~= before + part + after);
    lemma_holds_part(before, part, after);
}

proof fn lemma_lookup_tail(model: SpecModel, columns: Seq<ColumnModel>)
    ensures
        holds_part(
            lookup_tail(model, columns),
            "ARRAY(SELECT target."@ + id_name() + " "@ + matching_sql(model, columns)
                + " ORDER BY target."@ + id_name() + " LIMIT request.take)"@,
        ),
        begins(
            lookup_tail(model, columns),
            ") AS request ("@ + joined(
                seq!["n"@, "needed"@, "take"@, "hash"@] + request_columns(columns.len()),
                ", "@,
            ) + ")"@,
        ),
{
    let matching = matching_sql(model, columns);
    let names = joined(
        seq!["n"@, "needed"@, "take"@, "hash"@] + request_columns(columns.len()),
        ", "@,
    );
    let open = "ARRAY(SELECT target."@;
    let close = " LIMIT request.take)"@;
    let middle = ") CROSS JOIN LATERAL (SELECT ARRAY(SELECT target."@;
    let tail = " LIMIT request.take) AS ids OFFSET 0) AS selected ORDER BY request.n"@;
    reveal_strlit("ARRAY(SELECT target.");
    reveal_strlit(" LIMIT request.take)");
    reveal_strlit(") CROSS JOIN LATERAL (SELECT ARRAY(SELECT target.");
    reveal_strlit(" LIMIT request.take) AS ids OFFSET 0) AS selected ORDER BY request.n");
    reveal_strlit(")");
    let cross = middle.take(middle.len() - open.len());
    let after = tail.skip(close.len() as int);
    assert(middle =~= cross + open);
    assert(tail =~= close + after);
    assert(middle =~= ")"@ + middle.skip(1));
    let part = open + id_name() + " "@ + matching + " ORDER BY target."@ + id_name() + close;
    let before = ") AS request ("@ + names + cross;
    assert(lookup_tail(model, columns) =~= before + part + after);
    lemma_holds_part(before, part, after);
    let first = ") AS request ("@ + names + ")"@;
    assert(lookup_tail(model, columns).take(first.len() as int) =~= first);
}

/// A deletion takes from the table the rows whose ID is one of the given ones, and a replayed
/// insertion leaves a row alone whose ID is there.
pub proof fn law_writes_go_by_the_id(plan: SqlPlan, model: SpecModel, columns: Seq<ColumnModel>)
    requires
        plan.speaks_of(model, columns),
    ensures
        speaks_of_table(
            plan.delete@,
            "DELETE FROM ONLY "@,
            model,
            " WHERE "@ + quoted("$dogpaddle.id"@) + " = ANY($1::bigint[])"@,
        ),
        plan.insert_suffix@ == " ON CONFLICT ("@ + quoted("$dogpaddle.id"@) + ") DO NOTHING"@,
        speaks_of_table(
            plan.target_empty@,
            "SELECT NOT EXISTS(SELECT 1 FROM ONLY "@,
            model,
            ")"@,
        ),
{
    let object = qualified_name(model.schema, model.table);
    let end = " WHERE "@ + quoted("$dogpaddle.id"@) + " = ANY($1::bigint[])"@;
    assert(end[0] != '"') by {
        reveal_strlit(" WHERE ");
    }
    lemma_speaks("DELETE FROM ONLY "@, model, end);
    assert(plan.delete@ =~= "DELETE FROM ONLY "@ + object + end);
    reveal_strlit(")");
    lemma_speaks("SELECT NOT EXISTS(SELECT 1 FROM ONLY "@, model, ")"@);
}

/// A text in single quotes is read as itself.
pub proof fn law_literal_is_read(value: Seq<char>, rest: Seq<char>)
    requires
        rest.len() == 0 || rest[0] != '\'',
    ensures
        quoted_in(literal(value) + rest, '\'', false) == Some((value, rest)),
{
    reveal_strlit("'");
    reveal_strlit("''");
    assert("'"@ =~= seq!['\'']);
    assert("''"@ =~= seq!['\'', '\'']);
    crate::reading::law_doubled_name_is_read(value, rest, '\'');
}

/// The objects that are created are those that the sink owns, and each is marked by the text by
/// which the layout is recognised. The index is on the hash, then on the ID.
pub proof fn law_created_objects_are_marked(
    plan: SqlPlan,
    model: SpecModel,
    columns: Seq<ColumnModel>,
)
    requires
        plan.speaks_of(model, columns),
    ensures
        ({
            let owned = owned_names(model);
            let mark = literal(plan.marker@);
            &&& holds_part(
                plan.initialize@,
                "; COMMENT ON TABLE "@ + qualified_name(model.schema, owned[0]) + " IS "@ + mark,
            )
            &&& holds_part(
                plan.initialize@,
                "; COMMENT ON INDEX "@ + qualified_name(model.schema, owned[2]) + " IS "@ + mark,
            )
            &&& ends(
                plan.initialize@,
                "; COMMENT ON INDEX "@ + qualified_name(model.schema, owned[1]) + " IS "@ + mark,
            )
            &&& holds_part(
                plan.initialize@,
                "; "@ + ("CREATE INDEX "@ + quoted(owned[1]) + " ON "@ + qualified_name(
                    model.schema,
                    owned[0],
                ) + " USING btree ("@ + quoted("$dogpaddle.hash"@) + ", "@ + quoted(
                    "$dogpaddle.id"@,
                ) + ")"@),
            )
        }),
{
    let owned = owned_names(model);
    let mark = literal(plan.marker@);
    let text = plan.initialize@;
    let create = create_target_sql(model, columns);
    let index = "; "@ + create_index_sql(model);
    let on_table = "; COMMENT ON TABLE "@ + qualified_name(model.schema, owned[0]) + " IS "@ + mark;
    let on_key = "; COMMENT ON INDEX "@ + qualified_name(model.schema, owned[2]) + " IS "@ + mark;
    let on_index = "; COMMENT ON INDEX "@ + qualified_name(model.schema, owned[1]) + " IS "@ + mark;
    lemma_initialize_parts(model, columns);
    assert(text == create + index + on_table + on_key + on_index);
    lemma_five(create, index, on_table, on_key, on_index);
}

proof fn lemma_initialize_parts(model: SpecModel, columns: Seq<ColumnModel>)
    ensures
        ({
            let owned = owned_names(model);
            let mark = literal(marker_text(model, columns));
            initialize_sql(model, columns) == create_target_sql(model, columns) + ("; "@
                + create_index_sql(model)) + ("; COMMENT ON TABLE "@ + qualified_name(
                model.schema,
                owned[0],
            ) + " IS "@ + mark) + ("; COMMENT ON INDEX "@ + qualified_name(model.schema, owned[2])
                + " IS "@ + mark) + ("; COMMENT ON INDEX "@ + qualified_name(
                model.schema,
                owned[1],
            ) + " IS "@ + mark)
        }),
{
    let owned = owned_names(model);
    let mark = literal(marker_text(model, columns));
    let table = qualified_name(model.schema, owned[0]);
    let key = qualified_name(model.schema, owned[2]);
    let hash = qualified_name(model.schema, owned[1]);
    let a = create_target_sql(model, columns);
    let b = create_index_sql(model);
    let c = a + ("; "@ + b);
    let d = c + ("; COMMENT ON TABLE "@ + table + " IS "@ + mark);
    let e = d + ("; COMMENT ON INDEX "@ + key + " IS "@ + mark);
    assert(a + "; "@ + b =~= c);
    lemma_tail(c, "; COMMENT ON TABLE "@, table, " IS "@, mark);
    lemma_tail(d, "; COMMENT ON INDEX "@, key, " IS "@, mark);
    lemma_tail(e, "; COMMENT ON INDEX "@, hash, " IS "@, mark);
}

proof fn lemma_tail(a: Seq<char>, b: Seq<char>, c: Seq<char>, d: Seq<char>, e: Seq<char>)
    ensures
        a + b + c + d + e == a + (b + c + d + e),
{
    assert(a + b + c + d + e =~= a + (b + c + d + e));
}

proof fn lemma_five(a: Seq<char>, b: Seq<char>, c: Seq<char>, d: Seq<char>, e: Seq<char>)
    ensures
        holds_part(a + b + c + d + e, b),
        holds_part(a + b + c + d + e, c),
        holds_part(a + b + c + d + e, d),
        ends(a + b + c + d + e, e),
{
    let text = a + b + c + d + e;
    lemma_holds_part(a, b, c + d + e);
    assert(text =~= a + b + (c + d + e));
    lemma_holds_part(a + b, c, d + e);
    assert(text =~= a + b + c + (d + e));
    lemma_holds_part(a + b + c, d, e);
    assert(text.skip(text.len() - e.len()) =~= e);
}

/// The constraints on the columns of a table have names of their own.
pub proof fn law_constraints_are_named_apart(left: nat, right: nat, sink_id: Seq<char>)
    requires
        left < 0x1_0000,
        right < 0x1_0000,
        constraint_name(left, sink_id) == constraint_name(right, sink_id),
    ensures
        left == right,
{
    reveal_strlit("$dogpaddle.c.");
    let a = constraint_name(left, sink_id);
    let b = constraint_name(right, sink_id);
    let start = "$dogpaddle.c."@.len() as int;
    assert(a.subrange(start, start + 4) =~= hex_four(left));
    assert(b.subrange(start, start + 4) =~= hex_four(right));
    assert(hex_four(left)[0] == hex_four(right)[0]);
    assert(hex_four(left)[1] == hex_four(right)[1]);
    assert(hex_four(left)[2] == hex_four(right)[2]);
    assert(hex_four(left)[3] == hex_four(right)[3]);
    lemma_hex_digits(left / 4096, right / 4096);
    lemma_hex_digits(left / 256 % 16, right / 256 % 16);
    lemma_hex_digits(left / 16 % 16, right / 16 % 16);
    lemma_hex_digits(left % 16, right % 16);
    lemma_four_digits(left);
    lemma_four_digits(right);
}

proof fn lemma_hex_digits(left: nat, right: nat)
    requires
        left < 16,
        right < 16,
        hex_digit(left) == hex_digit(right),
    ensures
        left == right,
{
}

proof fn lemma_four_digits(value: nat)
    requires
        value < 0x1_0000,
    ensures
        value == value / 4096 * 4096 + value / 256 % 16 * 256 + value / 16 % 16 * 16 + value % 16,
        value / 4096 < 16,
{
    assert(value / 16 == value / 256 * 16 + value / 16 % 16);
    assert(value / 256 == value / 4096 * 16 + value / 256 % 16);
}

/// A search for other rows under the same IDs finds a stored row under one of the IDs whose hash
/// or any of whose columns differs from what is expected there, a null from anything else. The
/// expected values are named in the order in which they are given.
pub proof fn law_mismatch_finds_other_rows(
    plan: SqlPlan,
    model: SpecModel,
    fields: Seq<FieldModel>,
    i: int,
)
    requires
        forall|c: int| 0 <= c < fields.len() ==> column_of(#[trigger] fields[c]) is Some,
        plan.speaks_of(model, columns_of(fields)),
        0 <= i < fields.len(),
    ensures
        ({
            let names = quoted_columns(columns_of(fields));
            let others = differs(names, names.len() as int);
            &&& begins(
                plan.mismatch_suffix@,
                ") AS expected ("@ + joined(
                    seq!["ids"@, "hash"@] + request_columns(fields.len()),
                    ", "@,
                ) + ") JOIN ONLY "@ + qualified_name(model.schema, model.table)
                    + " AS target ON target."@ + quoted("$dogpaddle.id"@)
                    + " = ANY(expected.ids) WHERE target."@ + quoted("$dogpaddle.hash"@)
                    + " IS DISTINCT FROM expected.hash"@,
            )
            &&& ends(plan.mismatch_suffix@, others + ")"@)
            &&& holds_part(
                others,
                " OR target."@ + quoted(fields[i].name) + " IS DISTINCT FROM expected."@
                    + request_columns(fields.len())[i],
            )
        }),
{
    let columns = columns_of(fields);
    let names = quoted_columns(columns);
    let text = mismatch_tail(model, columns);
    let others = differs(names, names.len() as int);
    let head = ") AS expected ("@ + joined(
        seq!["ids"@, "hash"@] + request_columns(fields.len()),
        ", "@,
    ) + ") JOIN ONLY "@ + qualified_name(model.schema, model.table) + " AS target ON target."@
        + id_name() + " = ANY(expected.ids) WHERE target."@ + hash_name()
        + " IS DISTINCT FROM expected.hash"@;
    assert(text == head + others + ")"@);
    assert(text.take(head.len() as int) =~= head);
    let end = others + ")"@;
    assert(text.skip(text.len() - end.len()) =~= end);
    assert(column_of(fields[i]) is Some);
    assert(names[i] == quoted(fields[i].name));
    lemma_differs(names, names.len() as int, i);
}

proof fn lemma_differs(names: Seq<Seq<char>>, count: int, i: int)
    requires
        0 <= i < count <= names.len(),
    ensures
        holds_part(
            differs(names, count),
            " OR target."@ + names[i] + " IS DISTINCT FROM expected."@ + ("c"@ + decimal(i as nat)),
        ),
    decreases count,
{
    let before = differs(names, count - 1);
    let own = " OR target."@ + names[count - 1] + " IS DISTINCT FROM expected."@ + ("c"@ + decimal(
        (count - 1) as nat,
    ));
    assert(" IS DISTINCT FROM expected.c"@ =~= " IS DISTINCT FROM expected."@ + "c"@) by {
        reveal_strlit(" IS DISTINCT FROM expected.c");
        reveal_strlit(" IS DISTINCT FROM expected.");
        reveal_strlit("c");
    }
    assert(differs(names, count) =~= before + own);
    if i == count - 1 {
        assert(before + own + Seq::<char>::empty() =~= before + own);
        lemma_holds_part(before, own, Seq::empty());
    } else {
        lemma_differs(names, count - 1, i);
        let part = " OR target."@ + names[i] + " IS DISTINCT FROM expected."@ + ("c"@ + decimal(
            i as nat,
        ));
        let place = choose|place: int|
            0 <= place && #[trigger] crate::text::stands_at(before, part, place);
        assert((before + own).subrange(place, place + part.len() as int) =~= before.subrange(
            place,
            place + part.len() as int,
        ));
        assert(crate::text::stands_at(before + own, part, place));
    }
}

} // verus!
