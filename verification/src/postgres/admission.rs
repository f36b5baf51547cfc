//! What the created table of a PostgreSQL relation admits.

use crate::bytes::{lemma_be_bytes_len, lemma_be_value_bound, lemma_byte_ranges};
use crate::change::{FieldModel, ValueModel};
use crate::postgres::meaning::value_in;
use crate::postgres::row::{bound_value, PostgresValueModel};
use crate::postgres::schema::{
    check_text, column_of, sql_name, ColumnCheck, ColumnModel, StorageType,
};
use crate::postgres::target::{column_head, column_sql, condition_of, constraint_name};
use crate::reading::{
    begins, behind, law_decimal_is_read, law_doubled_name_is_read, lemma_begins, lemma_begins_not,
    lemma_word, number_in, quoted_in, word_in,
};
use crate::relation::decode::width_of;
use crate::relation::row::value_fault;
use crate::sqlite::target::quoted;
use crate::text::decimal;
use vstd::prelude::*;

verus! {

/// What the definition of a column demands of its values.
pub ghost struct ColumnRule {
    pub sort: Seq<char>,
    pub not_null: bool,
    pub check: Option<Seq<char>>,
}

/// What stands in the round brackets that a text is made of, behind a head.
pub open spec fn bracketed(text: Seq<char>, head: Seq<char>) -> Option<Seq<char>> {
    let rest = behind(text, head);
    if begins(text, head) && rest.len() > 0 && rest.last() == ')' {
        Some(rest.drop_last())
    } else {
        None
    }
}

/// The constraint at the end of a definition, if there is one; nothing where a text is not one.
pub open spec fn check_in(text: Seq<char>) -> Option<Option<Seq<char>>> {
    if text.len() == 0 {
        Some(None)
    } else if begins(text, " CONSTRAINT "@) {
        match quoted_in(behind(text, " CONSTRAINT "@), '"', false) {
            Some((_, rest)) => match bracketed(rest, " CHECK ("@) {
                Some(check) => Some(Some(check)),
                None => None,
            },
            None => None,
        }
    } else {
        None
    }
}

/// The name of a column and what its definition demands, if a text is a definition.
pub open spec fn definition_in(text: Seq<char>) -> Option<(Seq<char>, ColumnRule)> {
    match quoted_in(text, '"', false) {
        Some((name, rest)) => if !begins(rest, " "@) {
            None
        } else {
            let sort = word_in(rest.skip(1));
            let tail = rest.skip(1).skip(sort.len() as int);
            let not_null = begins(tail, " NOT NULL"@);
            let end = if not_null {
                behind(tail, " NOT NULL"@)
            } else {
                tail
            };
            match check_in(end) {
                Some(check) => Some((name, ColumnRule { sort, not_null, check })),
                None => None,
            }
        },
        None => None,
    }
}

/// Whether a parameter is a null.
pub open spec fn is_null(value: PostgresValueModel) -> bool {
    match value {
        PostgresValueModel::Boolean(value) => value is None,
        PostgresValueModel::Int16(value) => value is None,
        PostgresValueModel::Int32(value) => value is None,
        PostgresValueModel::Int64(value) => value is None,
        PostgresValueModel::Bytes(value) => value is None,
    }
}

/// The integer of a parameter, if it is one.
pub open spec fn integer_of(value: PostgresValueModel) -> Option<int> {
    match value {
        PostgresValueModel::Int16(Some(value)) => Some(value as int),
        PostgresValueModel::Int32(Some(value)) => Some(value as int),
        PostgresValueModel::Int64(Some(value)) => Some(value as int),
        _ => None,
    }
}

/// Whether a value is one of a type of the database, null or not.
pub open spec fn type_holds(sort: Seq<char>, value: PostgresValueModel) -> bool {
    match value {
        PostgresValueModel::Boolean(_) => sort == "boolean"@,
        PostgresValueModel::Int16(_) => sort == "smallint"@,
        PostgresValueModel::Int32(_) => sort == "integer"@,
        PostgresValueModel::Int64(_) => sort == "bigint"@,
        PostgresValueModel::Bytes(_) => sort == "bytea"@,
    }
}

/// Whether a value lies in a range that is written as two numbers. A null does not fail.
pub open spec fn range_holds(text: Seq<char>, value: PostgresValueModel) -> bool {
    let low = word_in(text);
    let rest = text.skip(low.len() as int);
    let high = behind(rest, " AND "@);
    &&& begins(rest, " AND "@)
    &&& number_in(low) is Some
    &&& number_in(high) is Some
    &&& integer_of(value) is Some || is_null(value)
    &&& integer_of(value) matches Some(number) ==> number_in(low)->0 <= number <= number_in(high)->0
}

/// Whether a simple condition on a column does not fail for a value.
pub open spec fn simple_holds(
    text: Seq<char>,
    column: Seq<char>,
    value: PostgresValueModel,
) -> bool {
    if begins(text, "octet_length("@) {
        match quoted_in(behind(text, "octet_length("@), '"', false) {
            Some((name, rest)) => {
                &&& name == column
                &&& begins(rest, ") = "@)
                &&& number_in(behind(rest, ") = "@)) is Some
                &&& match value {
                    PostgresValueModel::Bytes(Some(bytes)) => bytes.len() == number_in(
                        behind(rest, ") = "@),
                    )->0,
                    _ => is_null(value),
                }
            },
            None => false,
        }
    } else {
        match quoted_in(text, '"', false) {
            Some((name, rest)) => {
                &&& name == column
                &&& if rest == " IS NULL"@ {
                    is_null(value)
                } else {
                    begins(rest, " BETWEEN "@) && range_holds(behind(rest, " BETWEEN "@), value)
                }
            },
            None => false,
        }
    }
}

/// Whether a condition on a column does not fail for a value.
pub open spec fn condition_holds(
    text: Seq<char>,
    column: Seq<char>,
    value: PostgresValueModel,
) -> bool {
    match quoted_in(text, '"', false) {
        Some((name, rest)) => match bracketed(rest, " IS NULL OR ("@) {
            Some(other) => name == column && (is_null(value) || simple_holds(other, column, value)),
            None => simple_holds(text, column, value),
        },
        None => simple_holds(text, column, value),
    }
}

/// Whether a column with a rule admits a value.
pub open spec fn admits(rule: ColumnRule, column: Seq<char>, value: PostgresValueModel) -> bool {
    &&& type_holds(rule.sort, value)
    &&& rule.not_null ==> !is_null(value)
    &&& rule.check matches Some(check) ==> condition_holds(check, column, value)
}

/// What the definition of a field's column demands.
spec fn rule_of(column: ColumnModel) -> ColumnRule {
    let name = quoted(column.name);
    ColumnRule {
        sort: sql_name(column.storage),
        not_null: !column.nullable,
        check: match condition_of(name, column) {
            None => None,
            Some(condition) => Some(
                if column.nullable && column.check != ColumnCheck::Null {
                    name + " IS NULL OR ("@ + condition + ")"@
                } else {
                    condition
                },
            ),
        },
    }
}

pub proof fn lemma_quoted_is_read(name: Seq<char>, rest: Seq<char>)
    requires
        rest.len() == 0 || rest[0] != '"',
    ensures
        quoted_in(quoted(name) + rest, '"', false) == Some((name, rest)),
{
    reveal_strlit("\"");
    reveal_strlit("\"\"");
    assert("\""@ =~= seq!['"']);
    assert("\"\""@ =~= seq!['"', '"']);
    law_doubled_name_is_read(name, rest, '"');
}

proof fn lemma_sorts()
    ensures
        forall|storage: StorageType| !(#[trigger] sql_name(storage)).contains(' '),
        forall|left: StorageType, right: StorageType|
            (#[trigger] sql_name(left)) == (#[trigger] sql_name(right)) ==> left == right || left
                is Bytes && right is Bytes,
        sql_name(StorageType::Boolean) == "boolean"@,
        sql_name(StorageType::Int16) == "smallint"@,
        sql_name(StorageType::Int32) == "integer"@,
        sql_name(StorageType::Int64) == "bigint"@,
        sql_name(StorageType::Bytes(None)) == "bytea"@,
{
    reveal_strlit("boolean");
    reveal_strlit("smallint");
    reveal_strlit("integer");
    reveal_strlit("bigint");
    reveal_strlit("bytea");
    assert("boolean"@[0] == 'b');
    assert("integer"@[0] == 'i');
    assert forall|left: StorageType, right: StorageType|
        (#[trigger] sql_name(left)) == (#[trigger] sql_name(right)) implies left == right || left
        is Bytes && right is Bytes by {
        assert(sql_name(left).len() == sql_name(right).len());
        assert(sql_name(left)[0] == sql_name(right)[0]);
    }
}

proof fn lemma_end(constraint: Seq<char>, check: Seq<char>)
    ensures
        check_in(" CONSTRAINT "@ + (quoted(constraint) + (" CHECK ("@ + (check + ")"@)))) == Some(
            Some(check),
        ),
        begins(
            " CONSTRAINT "@ + (quoted(constraint) + (" CHECK ("@ + (check + ")"@))),
            " NOT NULL"@,
        ) == false,
{
    reveal_strlit(" CONSTRAINT ");
    reveal_strlit(" CHECK (");
    reveal_strlit(")");
    reveal_strlit(" NOT NULL");
    let body = " CHECK ("@ + (check + ")"@);
    lemma_begins(" CONSTRAINT "@, quoted(constraint) + body);
    lemma_quoted_is_read(constraint, body);
    lemma_begins(" CHECK ("@, check + ")"@);
    assert((check + ")"@).drop_last() =~= check);
    lemma_begins_not(" CONSTRAINT "@ + (quoted(constraint) + body), " NOT NULL"@, 1);
}

pub proof fn lemma_head(name: Seq<char>, sort: Seq<char>, not_null: bool, end: Seq<char>)
    requires
        !sort.contains(' '),
        end.len() == 0 || end[0] == ' ',
        !begins(end, " NOT NULL"@),
        check_in(end) is Some,
    ensures
        ({
            let tail = if not_null {
                " NOT NULL"@ + end
            } else {
                end
            };
            definition_in(quoted(name) + (" "@ + (sort + tail))) == Some(
                (name, ColumnRule { sort, not_null, check: check_in(end)->0 }),
            )
        }),
{
    let tail = if not_null {
        " NOT NULL"@ + end
    } else {
        end
    };
    let rest = " "@ + (sort + tail);
    reveal_strlit(" ");
    reveal_strlit(" NOT NULL");
    lemma_quoted_is_read(name, rest);
    lemma_begins(" "@, sort + tail);
    assert(rest.skip(1) =~= sort + tail);
    lemma_word(sort, tail);
    assert((sort + tail).skip(sort.len() as int) =~= tail);
    if not_null {
        lemma_begins(" NOT NULL"@, end);
    }
}

/// The end of a definition.
spec fn end_of(index: nat, column: ColumnModel, sink_id: Seq<char>) -> Seq<char> {
    match rule_of(column).check {
        None => Seq::empty(),
        Some(check) => " CONSTRAINT "@ + (quoted(constraint_name(index, sink_id)) + (" CHECK ("@ + (
        check + ")"@))),
    }
}

proof fn lemma_text(index: nat, column: ColumnModel, sink_id: Seq<char>)
    ensures
        ({
            let end = end_of(index, column, sink_id);
            let tail = if rule_of(column).not_null {
                " NOT NULL"@ + end
            } else {
                end
            };
            column_sql(index, column, sink_id) == quoted(column.name) + (" "@ + (sql_name(
                column.storage,
            ) + tail))
        }),
{
    let end = end_of(index, column, sink_id);
    let tail = if rule_of(column).not_null {
        " NOT NULL"@ + end
    } else {
        end
    };
    let head = quoted(column.name) + " "@ + sql_name(column.storage);
    assert(column_head(column) + end =~= head + tail);
    assert(head + tail =~= quoted(column.name) + (" "@ + (sql_name(column.storage) + tail)));
    if let Some(check) = rule_of(column).check {
        let constraint = quoted(constraint_name(index, sink_id));
        assert(column_head(column) + " CONSTRAINT "@ + constraint + " CHECK ("@ + check + ")"@
            =~= column_head(column) + end);
    } else {
        assert(column_head(column) + end =~= column_head(column));
    }
}

proof fn lemma_definition(index: nat, column: ColumnModel, sink_id: Seq<char>)
    ensures
        definition_in(column_sql(index, column, sink_id)) == Some((column.name, rule_of(column))),
{
    let rule = rule_of(column);
    let end = end_of(index, column, sink_id);
    assert(!rule.sort.contains(' ')) by {
        lemma_sorts();
    }
    if let Some(check) = rule.check {
        lemma_end(constraint_name(index, sink_id), check);
        assert(end[0] == ' ') by {
            reveal_strlit(" CONSTRAINT ");
        }
    } else {
        reveal_strlit(" NOT NULL");
    }
    lemma_head(column.name, rule.sort, rule.not_null, end);
    lemma_text(index, column, sink_id);
}

proof fn lemma_range(name: Seq<char>, check: ColumnCheck)
    requires
        check == ColumnCheck::Signed8 || check == ColumnCheck::Unsigned8 || check
            == ColumnCheck::Unsigned16 || check == ColumnCheck::Unsigned32,
    ensures
        forall|value: PostgresValueModel|
            #[trigger] simple_holds(quoted(name) + " "@ + check_text(check)->0, name, value) <==> (
            is_null(value) || integer_of(value) is Some && match check {
                ColumnCheck::Signed8 => -128 <= integer_of(value)->0 <= 127,
                ColumnCheck::Unsigned8 => 0 <= integer_of(value)->0 <= 255,
                ColumnCheck::Unsigned16 => 0 <= integer_of(value)->0 <= 65535,
                _ => 0 <= integer_of(value)->0 <= 4294967295,
            }),
{
    let bounds = match check {
        ColumnCheck::Signed8 => ("-128"@, "127"@),
        ColumnCheck::Unsigned8 => ("0"@, "255"@),
        ColumnCheck::Unsigned16 => ("0"@, "65535"@),
        _ => ("0"@, "4294967295"@),
    };
    let rest = " BETWEEN "@ + (bounds.0 + (" AND "@ + bounds.1));
    let text = quoted(name) + " "@ + check_text(check)->0;
    reveal_strlit(" ");
    reveal_strlit(" IS NULL");
    reveal_strlit(" BETWEEN ");
    reveal_strlit(" AND ");
    reveal_strlit("BETWEEN -128 AND 127");
    reveal_strlit("BETWEEN 0 AND 255");
    reveal_strlit("BETWEEN 0 AND 65535");
    reveal_strlit("BETWEEN 0 AND 4294967295");
    reveal_strlit("-128");
    reveal_strlit("0");
    reveal_strlit("127");
    reveal_strlit("255");
    reveal_strlit("65535");
    reveal_strlit("4294967295");
    reveal_strlit("octet_length(");
    reveal_strlit("\"");
    assert(text =~= quoted(name) + rest);
    lemma_quoted_is_read(name, rest);
    lemma_begins_not(text, "octet_length("@, 0);
    assert(rest != " IS NULL"@) by {
        assert(rest[1] == 'B');
    }
    lemma_begins(" BETWEEN "@, bounds.0 + (" AND "@ + bounds.1));
    lemma_word(bounds.0, " AND "@ + bounds.1);
    assert((bounds.0 + (" AND "@ + bounds.1)).skip(bounds.0.len() as int) =~= " AND "@ + bounds.1);
    lemma_begins(" AND "@, bounds.1);
    lemma_literal_numbers();
}

proof fn lemma_literal_numbers()
    ensures
        number_in("-128"@) == Some(-128int),
        number_in("0"@) == Some(0int),
        number_in("127"@) == Some(127int),
        number_in("255"@) == Some(255int),
        number_in("65535"@) == Some(65535int),
        number_in("4294967295"@) == Some(4294967295int),
{
    crate::reading::law_signed_decimal_is_read(-128);
    law_decimal_is_read(0);
    law_decimal_is_read(127);
    law_decimal_is_read(255);
    law_decimal_is_read(65535);
    law_decimal_is_read(4294967295);
    reveal_strlit("-128");
    reveal_strlit("0");
    reveal_strlit("127");
    reveal_strlit("255");
    reveal_strlit("65535");
    reveal_strlit("4294967295");
    reveal_with_fuel(decimal, 11);
    assert(crate::text::signed_decimal(-128) =~= "-128"@);
    assert(decimal(0) =~= "0"@);
    assert(decimal(127) =~= "127"@);
    assert(decimal(255) =~= "255"@);
    assert(decimal(65535) =~= "65535"@);
    assert(decimal(4294967295) =~= "4294967295"@);
}

proof fn lemma_null_rule(name: Seq<char>)
    ensures
        forall|value: PostgresValueModel|
            #[trigger] simple_holds(quoted(name) + " "@ + "IS NULL"@, name, value) <==> is_null(
                value,
            ),
        bracketed(" IS NULL"@, " IS NULL OR ("@) is None,
{
    let text = quoted(name) + " "@ + "IS NULL"@;
    reveal_strlit(" ");
    reveal_strlit("IS NULL");
    reveal_strlit(" IS NULL");
    reveal_strlit(" IS NULL OR (");
    reveal_strlit("octet_length(");
    reveal_strlit("\"");
    assert(text =~= quoted(name) + " IS NULL"@);
    lemma_quoted_is_read(name, " IS NULL"@);
    lemma_begins_not(text, "octet_length("@, 0);
}

proof fn lemma_length_rule(name: Seq<char>, length: nat)
    ensures
        forall|value: PostgresValueModel|
            #[trigger] simple_holds(
                "octet_length("@ + quoted(name) + ") = "@ + decimal(length),
                name,
                value,
            ) <==> (is_null(value) || value is Bytes && value->Bytes_0->0.len() == length),
        quoted_in("octet_length("@ + quoted(name) + ") = "@ + decimal(length), '"', false) is None,
{
    let rest = ") = "@ + decimal(length);
    let text = "octet_length("@ + quoted(name) + ") = "@ + decimal(length);
    reveal_strlit(") = ");
    reveal_strlit("octet_length(");
    assert(text =~= "octet_length("@ + (quoted(name) + rest));
    lemma_begins("octet_length("@, quoted(name) + rest);
    lemma_quoted_is_read(name, rest);
    lemma_begins(") = "@, decimal(length));
    law_decimal_is_read(length);
}

/// What the check of a column amounts to.
proof fn lemma_check(column: ColumnModel)
    requires
        column.check == ColumnCheck::Null ==> column.nullable,
    ensures
        forall|value: PostgresValueModel|
            (#[trigger] admits(rule_of(column), column.name, value)) == {
                &&& type_holds(sql_name(column.storage), value)
                &&& !column.nullable ==> !is_null(value)
                &&& match column.check {
                    ColumnCheck::Free => match column.storage {
                        StorageType::Bytes(Some(length)) => is_null(value) || value is Bytes
                            && value->Bytes_0->0.len() == length,
                        _ => true,
                    },
                    ColumnCheck::Null => is_null(value),
                    ColumnCheck::Signed8 => is_null(value) || integer_of(value) is Some && -128
                        <= integer_of(value)->0 <= 127,
                    ColumnCheck::Unsigned8 => is_null(value) || integer_of(value) is Some && 0
                        <= integer_of(value)->0 <= 255,
                    ColumnCheck::Unsigned16 => is_null(value) || integer_of(value) is Some && 0
                        <= integer_of(value)->0 <= 65535,
                    ColumnCheck::Unsigned32 => is_null(value) || integer_of(value) is Some && 0
                        <= integer_of(value)->0 <= 4294967295,
                }
            },
{
    let name = quoted(column.name);
    reveal_strlit(" IS NULL OR (");
    reveal_strlit(")");
    if let Some(condition) = condition_of(name, column) {
        match column.check {
            ColumnCheck::Free => {
                lemma_length_rule(column.name, column.storage->Bytes_0->0 as nat);
            },
            ColumnCheck::Null => {
                lemma_null_rule(column.name);
                reveal_strlit(" ");
                reveal_strlit("IS NULL");
                reveal_strlit(" IS NULL");
                assert(condition =~= name + " IS NULL"@);
                lemma_quoted_is_read(column.name, " IS NULL"@);
            },
            _ => {
                lemma_range(column.name, column.check);
                reveal_strlit(" ");
                reveal_strlit("BETWEEN -128 AND 127");
                reveal_strlit("BETWEEN 0 AND 255");
                reveal_strlit("BETWEEN 0 AND 65535");
                reveal_strlit("BETWEEN 0 AND 4294967295");
                let rest = " "@ + check_text(column.check)->0;
                assert(condition =~= name + rest);
                lemma_quoted_is_read(column.name, rest);
                lemma_begins_not(rest, " IS NULL OR ("@, 1);
            },
        }
        if column.nullable && column.check != ColumnCheck::Null {
            let rest = " IS NULL OR ("@ + (condition + ")"@);
            assert(rule_of(column).check->0 =~= name + rest);
            lemma_quoted_is_read(column.name, rest);
            lemma_begins(" IS NULL OR ("@, condition + ")"@);
            assert((condition + ")"@).drop_last() =~= condition);
        }
    }
}

/// The created table admits every value of its schema: the definition of a column bears the
/// name of its field, refuses nulls exactly where the field does, and none of its conditions
/// fails for the parameter of a value of the field.
pub proof fn law_table_admits_its_values(
    index: nat,
    field: FieldModel,
    sink_id: Seq<char>,
    value: ValueModel,
    path: Seq<char>,
)
    requires
        column_of(field) is Some,
        value_fault(field, value, path) is None,
    ensures
        ({
            let column = column_of(field)->0;
            match definition_in(column_sql(index, column, sink_id)) {
                Some((name, rule)) => {
                    &&& name == field.name
                    &&& rule.not_null <==> !field.nullable && !(field.data_type is Null)
                    &&& admits(rule, name, bound_value(column.storage, value))
                },
                None => false,
            }
        }),
{
    let column = column_of(field)->0;
    lemma_definition(index, column, sink_id);
    lemma_check(column);
    assert forall|number: nat, width: nat| #[trigger]
        crate::bytes::be_bytes(number, width).len() == width by {
        lemma_be_bytes_len(number, width);
    }
}

/// The created table admits nothing else in a column of numbers or of nulls: what it admits
/// stands for a value that the field has.
pub proof fn law_table_admits_no_other_values(
    index: nat,
    field: FieldModel,
    sink_id: Seq<char>,
    stored: PostgresValueModel,
    path: Seq<char>,
)
    requires
        column_of(field) is Some,
        width_of(field.data_type) is Some || field.data_type is Null,
        match definition_in(column_sql(index, column_of(field)->0, sink_id)) {
            Some((name, rule)) => admits(rule, name, stored),
            None => true,
        },
    ensures
        value_in(field, stored) is Some,
        value_fault(field, value_in(field, stored)->0, path) is None,
{
    let column = column_of(field)->0;
    lemma_definition(index, column, sink_id);
    lemma_check(column);
    lemma_byte_ranges();
    lemma_sorts();
    let kind = match stored {
        PostgresValueModel::Boolean(_) => StorageType::Boolean,
        PostgresValueModel::Int16(_) => StorageType::Int16,
        PostgresValueModel::Int32(_) => StorageType::Int32,
        PostgresValueModel::Int64(_) => StorageType::Int64,
        PostgresValueModel::Bytes(_) => StorageType::Bytes(None),
    };
    assert(sql_name(kind) == sql_name(column.storage));
    if let PostgresValueModel::Bytes(Some(bytes)) = stored {
        lemma_be_value_bound(bytes);
    }
}

/// A definition is read as that of its column.
pub proof fn lemma_rule_of_column(index: nat, column: ColumnModel, sink_id: Seq<char>)
    ensures
        match definition_in(column_sql(index, column, sink_id)) {
            Some((name, rule)) => {
                &&& name == column.name
                &&& rule.sort == sql_name(column.storage)
            },
            None => false,
        },
{
    lemma_definition(index, column, sink_id);
}

} // verus!
