//! What the created table of a SQLite relation admits.

use crate::bytes::{be_bytes, lemma_be_bytes_len, lemma_be_value_bound, lemma_byte_ranges};
use crate::change::{FieldModel, TypeModel, ValueModel};
use crate::postgres::admission::{bracketed, lemma_quoted_is_read};
use crate::reading::{
    begins, behind, law_decimal_is_read, law_signed_decimal_is_read, lemma_begins, lemma_begins_not,
    lemma_digits_hold, lemma_word, number_in, quoted_in, word_in,
};
use crate::relation::decode::width_of;
use crate::relation::row::value_fault;
use crate::sqlite::meaning::value_in;
use crate::sqlite::row::{stored_value, SqliteValueModel};
use crate::sqlite::target::{
    blob_rule, class_rule, column_sql, quoted, range_check, storage_of, technical_definitions,
};
use crate::text::{decimal, signed_decimal};
use vstd::prelude::*;

verus! {

/// The storage classes that a column may have.
pub ghost enum Class {
    Integer,
    Text,
    Blob,
}

/// What the definition of a column demands of its values.
pub ghost struct ColumnRule {
    pub class: Class,
    pub not_null: bool,
    pub check: Seq<char>,
}

/// The storage class that a text begins with, and what stands behind it.
pub open spec fn class_in(text: Seq<char>) -> Option<(Class, Seq<char>)> {
    if begins(text, " INTEGER"@) {
        Some((Class::Integer, behind(text, " INTEGER"@)))
    } else if begins(text, " TEXT COLLATE BINARY"@) {
        Some((Class::Text, behind(text, " TEXT COLLATE BINARY"@)))
    } else if begins(text, " BLOB"@) {
        Some((Class::Blob, behind(text, " BLOB"@)))
    } else {
        None
    }
}

/// The name of a column and what its definition demands, if a text is a definition.
pub open spec fn definition_in(text: Seq<char>) -> Option<(Seq<char>, ColumnRule)> {
    match quoted_in(text, '"', false) {
        Some((name, rest)) => match class_in(rest) {
            Some((class, tail)) => {
                let not_null = begins(tail, " NOT NULL"@);
                let end = if not_null {
                    behind(tail, " NOT NULL"@)
                } else {
                    tail
                };
                match bracketed(end, " CHECK("@) {
                    Some(check) => Some((name, ColumnRule { class, not_null, check })),
                    None => None,
                }
            },
            None => None,
        },
        None => None,
    }
}

/// Whether a condition on the number in a column holds.
pub open spec fn number_holds(text: Seq<char>, column: Seq<char>, number: int) -> bool {
    match quoted_in(text, '"', false) {
        Some((name, rest)) => name == column && if begins(rest, " BETWEEN "@) {
            let range = behind(rest, " BETWEEN "@);
            let low = word_in(range);
            let tail = range.skip(low.len() as int);
            let high = behind(tail, " AND "@);
            &&& begins(tail, " AND "@)
            &&& number_in(low) is Some
            &&& number_in(high) is Some
            &&& number_in(low)->0 <= number <= number_in(high)->0
        } else {
            rest == " IN (0, 1)"@ && (number == 0 || number == 1)
        },
        None => false,
    }
}

/// Whether a condition on the bytes in a column holds.
pub open spec fn length_holds(text: Seq<char>, column: Seq<char>, length: nat) -> bool {
    match quoted_in(text, '"', false) {
        Some((name, rest)) => name == column && begins(rest, ") = "@) && number_in(
            behind(rest, ") = "@),
        ) == Some(length as int),
        None => false,
    }
}

/// Whether a condition on the storage class of a column holds.
pub open spec fn simple_holds(text: Seq<char>, column: Seq<char>, value: SqliteValueModel) -> bool {
    begins(text, "typeof("@) && match quoted_in(behind(text, "typeof("@), '"', false) {
        Some((name, rest)) => name == column && match value {
            SqliteValueModel::Null => false,
            SqliteValueModel::Integer(number) => rest == ") = 'integer'"@ || begins(
                rest,
                ") = 'integer' AND "@,
            ) && number_holds(behind(rest, ") = 'integer' AND "@), column, number as int),
            SqliteValueModel::Text(_) => rest == ") = 'text'"@,
            SqliteValueModel::Blob(bytes) => rest == ") = 'blob'"@ || begins(
                rest,
                ") = 'blob' AND length("@,
            ) && length_holds(behind(rest, ") = 'blob' AND length("@), column, bytes.len()),
        },
        None => false,
    }
}

/// Whether a condition on a column holds.
pub open spec fn condition_holds(
    text: Seq<char>,
    column: Seq<char>,
    value: SqliteValueModel,
) -> bool {
    match quoted_in(text, '"', false) {
        Some((name, rest)) => name == column && if rest == " IS NULL"@ {
            value is Null
        } else {
            match bracketed(rest, " IS NULL OR ("@) {
                Some(other) => value is Null || simple_holds(other, column, value),
                None => false,
            }
        },
        None => simple_holds(text, column, value),
    }
}

/// Whether a column with a rule admits a value.
pub open spec fn admits(rule: ColumnRule, column: Seq<char>, value: SqliteValueModel) -> bool {
    &&& match value {
        SqliteValueModel::Null => !rule.not_null,
        SqliteValueModel::Integer(_) => rule.class is Integer,
        SqliteValueModel::Text(_) => rule.class is Text,
        SqliteValueModel::Blob(_) => rule.class is Blob,
    }
    &&& condition_holds(rule.check, column, value)
}

proof fn lemma_class(rest: Seq<char>)
    ensures
        class_in(" INTEGER"@ + rest) == Some((Class::Integer, rest)),
        class_in(" TEXT COLLATE BINARY"@ + rest) == Some((Class::Text, rest)),
        class_in(" BLOB"@ + rest) == Some((Class::Blob, rest)),
{
    reveal_strlit(" INTEGER");
    reveal_strlit(" TEXT COLLATE BINARY");
    reveal_strlit(" BLOB");
    lemma_begins(" INTEGER"@, rest);
    lemma_begins(" TEXT COLLATE BINARY"@, rest);
    lemma_begins(" BLOB"@, rest);
    lemma_begins_not(" TEXT COLLATE BINARY"@ + rest, " INTEGER"@, 1);
    lemma_begins_not(" BLOB"@ + rest, " INTEGER"@, 1);
    lemma_begins_not(" BLOB"@ + rest, " TEXT COLLATE BINARY"@, 1);
}

/// The declared type of a class.
spec fn class_text(class: Class) -> Seq<char> {
    match class {
        Class::Integer => "INTEGER"@,
        Class::Text => "TEXT COLLATE BINARY"@,
        Class::Blob => "BLOB"@,
    }
}

proof fn lemma_definition(name: Seq<char>, class: Class, not_null: bool, check: Seq<char>)
    ensures
        ({
            let middle = if not_null {
                " NOT NULL"@
            } else {
                Seq::empty()
            };
            definition_in(
                quoted(name) + (" "@ + (class_text(class) + (middle + (" CHECK("@ + (check
                    + ")"@))))),
            ) == Some((name, ColumnRule { class, not_null, check }))
        }),
{
    let middle = if not_null {
        " NOT NULL"@
    } else {
        Seq::empty()
    };
    let end = " CHECK("@ + (check + ")"@);
    let tail = middle + end;
    let rest = " "@ + (class_text(class) + tail);
    reveal_strlit(" ");
    reveal_strlit("INTEGER");
    reveal_strlit("TEXT COLLATE BINARY");
    reveal_strlit("BLOB");
    reveal_strlit(" INTEGER");
    reveal_strlit(" TEXT COLLATE BINARY");
    reveal_strlit(" BLOB");
    reveal_strlit(" NOT NULL");
    reveal_strlit(" CHECK(");
    reveal_strlit(")");
    assert(" INTEGER"@ =~= " "@ + "INTEGER"@);
    assert(" TEXT COLLATE BINARY"@ =~= " "@ + "TEXT COLLATE BINARY"@);
    assert(" BLOB"@ =~= " "@ + "BLOB"@);
    lemma_class(tail);
    assert(rest =~= (" "@ + class_text(class)) + tail);
    lemma_quoted_is_read(name, rest);
    lemma_begins(" CHECK("@, check + ")"@);
    assert((check + ")"@).drop_last() =~= check);
    if not_null {
        lemma_begins(" NOT NULL"@, end);
    } else {
        assert(tail =~= end);
        lemma_begins_not(end, " NOT NULL"@, 1);
    }
}

proof fn lemma_typeof(name: Seq<char>, rest: Seq<char>)
    requires
        rest.len() == 0 || rest[0] != '"',
    ensures
        begins("typeof("@ + (quoted(name) + rest), "typeof("@),
        quoted_in(behind("typeof("@ + (quoted(name) + rest), "typeof("@), '"', false) == Some(
            (name, rest),
        ),
        quoted_in("typeof("@ + (quoted(name) + rest), '"', false) is None,
{
    lemma_begins("typeof("@, quoted(name) + rest);
    lemma_quoted_is_read(name, rest);
    reveal_strlit("typeof(");
}

proof fn lemma_class_rule(name: Seq<char>)
    ensures
        forall|value: SqliteValueModel|
            #[trigger] simple_holds(class_rule(quoted(name), ") = 'integer'"@), name, value)
                <==> value is Integer,
        forall|value: SqliteValueModel|
            #[trigger] simple_holds(class_rule(quoted(name), ") = 'text'"@), name, value) <==> value
                is Text,
        forall|value: SqliteValueModel|
            #[trigger] simple_holds(blob_rule(quoted(name), None), name, value) <==> value is Blob,
        quoted_in(class_rule(quoted(name), ") = 'integer'"@), '"', false) is None,
        quoted_in(class_rule(quoted(name), ") = 'text'"@), '"', false) is None,
        quoted_in(blob_rule(quoted(name), None), '"', false) is None,
{
    reveal_strlit(") = 'integer'");
    reveal_strlit(") = 'text'");
    reveal_strlit(") = 'blob'");
    reveal_strlit(") = 'integer' AND ");
    reveal_strlit(") = 'blob' AND length(");
    lemma_typeof(name, ") = 'integer'"@);
    lemma_typeof(name, ") = 'text'"@);
    lemma_typeof(name, ") = 'blob'"@);
    assert(class_rule(quoted(name), ") = 'integer'"@) =~= "typeof("@ + (quoted(name)
        + ") = 'integer'"@));
    assert(class_rule(quoted(name), ") = 'text'"@) =~= "typeof("@ + (quoted(name) + ") = 'text'"@));
    assert(blob_rule(quoted(name), None) =~= "typeof("@ + (quoted(name) + ") = 'blob'"@));
    assert(") = 'integer'"@[5] == 'i');
    assert(") = 'text'"@[5] == 't');
    assert(") = 'blob'"@[5] == 'b');
    lemma_begins_not(") = 'text'"@, ") = 'integer' AND "@, 5);
    lemma_begins_not(") = 'blob'"@, ") = 'integer' AND "@, 5);
    lemma_begins_not(") = 'text'"@, ") = 'blob' AND length("@, 5);
    lemma_begins_not(") = 'integer'"@, ") = 'blob' AND length("@, 5);
}

proof fn lemma_length_rule(name: Seq<char>, length: u64)
    ensures
        forall|value: SqliteValueModel|
            #[trigger] simple_holds(blob_rule(quoted(name), Some(length)), name, value) <==> value
                is Blob && value->Blob_0.len() == length,
        quoted_in(blob_rule(quoted(name), Some(length)), '"', false) is None,
{
    let open = ") = 'blob' AND length("@;
    let tail = ") = "@ + decimal(length as nat);
    let rest = open + (quoted(name) + tail);
    assert(tail[0] == ')' && rest[0] == ')') by {
        reveal_strlit(") = ");
        reveal_strlit(") = 'blob' AND length(");
    }
    lemma_typeof(name, rest);
    assert(blob_rule(quoted(name), Some(length)) =~= "typeof("@ + (quoted(name) + rest));
    lemma_begins(open, quoted(name) + tail);
    lemma_quoted_is_read(name, tail);
    lemma_begins(") = "@, decimal(length as nat));
    law_decimal_is_read(length as nat);
    lemma_other_class(rest);
}

proof fn lemma_other_class(rest: Seq<char>)
    requires
        begins(rest, ") = 'blob' AND length("@),
    ensures
        !begins(rest, ") = 'integer' AND "@),
        rest != ") = 'integer'"@,
        rest != ") = 'text'"@,
        rest != ") = 'blob'"@,
{
    reveal_strlit(") = 'blob' AND length(");
    reveal_strlit(") = 'integer' AND ");
    reveal_strlit(") = 'integer'");
    reveal_strlit(") = 'text'");
    reveal_strlit(") = 'blob'");
    let open = ") = 'blob' AND length("@;
    assert(rest.take(open.len() as int)[5] == 'b');
    assert(rest[5] == 'b');
    assert(rest.len() >= 22);
    lemma_begins_not(rest, ") = 'integer' AND "@, 5);
}

/// What stands behind a column of integers.
proof fn lemma_integer_class(rest: Seq<char>)
    requires
        begins(rest, ") = 'integer' AND "@),
    ensures
        !begins(rest, ") = 'blob' AND length("@),
        rest != ") = 'integer'"@,
        rest != ") = 'text'"@,
        rest != ") = 'blob'"@,
{
    reveal_strlit(") = 'blob' AND length(");
    reveal_strlit(") = 'integer' AND ");
    reveal_strlit(") = 'integer'");
    reveal_strlit(") = 'text'");
    reveal_strlit(") = 'blob'");
    let open = ") = 'integer' AND "@;
    assert(rest.take(open.len() as int)[5] == 'i');
    assert(rest[5] == 'i');
    assert(rest.len() >= 18);
    lemma_begins_not(rest, ") = 'blob' AND length("@, 5);
}

proof fn lemma_range(name: Seq<char>, min: int, max: int)
    ensures
        forall|value: SqliteValueModel|
            #[trigger] simple_holds(range_check(quoted(name), min, max), name, value) <==> value
                is Integer && min <= value->Integer_0 <= max,
        quoted_in(range_check(quoted(name), min, max), '"', false) is None,
{
    let open = ") = 'integer' AND "@;
    let low = signed_decimal(min);
    let high = signed_decimal(max);
    let range = low + (" AND "@ + high);
    let tail = " BETWEEN "@ + range;
    let rest = open + (quoted(name) + tail);
    assert(tail[0] == ' ' && rest[0] == ')' && (" AND "@ + high)[0] == ' ') by {
        reveal_strlit(" BETWEEN ");
        reveal_strlit(" AND ");
        reveal_strlit(") = 'integer' AND ");
    }
    lemma_typeof(name, rest);
    assert(range_check(quoted(name), min, max) =~= "typeof("@ + (quoted(name) + rest));
    lemma_begins(open, quoted(name) + tail);
    lemma_integer_class(rest);
    lemma_quoted_is_read(name, tail);
    lemma_begins(" BETWEEN "@, range);
    lemma_digits_hold(min, ' ');
    lemma_word(low, " AND "@ + high);
    assert(range.skip(low.len() as int) =~= " AND "@ + high);
    lemma_begins(" AND "@, high);
    law_signed_decimal_is_read(min);
    law_signed_decimal_is_read(max);
}

proof fn lemma_truth(name: Seq<char>)
    ensures
        ({
            let check = "typeof("@ + quoted(name) + ") = 'integer' AND "@ + quoted(name)
                + " IN (0, 1)"@;
            &&& forall|value: SqliteValueModel|
                #[trigger] simple_holds(check, name, value) <==> value is Integer && 0
                    <= value->Integer_0 <= 1
            &&& quoted_in(check, '"', false) is None
        }),
{
    let open = ") = 'integer' AND "@;
    let tail = " IN (0, 1)"@;
    let rest = open + (quoted(name) + tail);
    let check = "typeof("@ + quoted(name) + ") = 'integer' AND "@ + quoted(name) + " IN (0, 1)"@;
    assert(tail[0] == ' ' && rest[0] == ')' && !begins(tail, " BETWEEN "@)) by {
        reveal_strlit(" IN (0, 1)");
        reveal_strlit(" BETWEEN ");
        reveal_strlit(") = 'integer' AND ");
        lemma_begins_not(tail, " BETWEEN "@, 1);
    }
    lemma_typeof(name, rest);
    assert(check =~= "typeof("@ + (quoted(name) + rest));
    lemma_begins(open, quoted(name) + tail);
    lemma_integer_class(rest);
    lemma_quoted_is_read(name, tail);
}

/// Whether a stored value is one of a type, nulls aside.
pub open spec fn stored_fits(data_type: TypeModel, value: SqliteValueModel) -> bool {
    match data_type {
        TypeModel::Boolean => value matches SqliteValueModel::Integer(n) && 0 <= n <= 1,
        TypeModel::Int8 => value matches SqliteValueModel::Integer(n) && i8::MIN <= n <= i8::MAX,
        TypeModel::Int16 => value matches SqliteValueModel::Integer(n) && i16::MIN <= n
            <= i16::MAX,
        TypeModel::Int32 | TypeModel::Date32 => value matches SqliteValueModel::Integer(n)
            && i32::MIN <= n <= i32::MAX,
        TypeModel::Int64 => value is Integer,
        TypeModel::Timestamp(_, _) => value is Integer,
        TypeModel::UInt8 => value matches SqliteValueModel::Integer(n) && 0 <= n <= u8::MAX,
        TypeModel::UInt16 => value matches SqliteValueModel::Integer(n) && 0 <= n <= u16::MAX,
        TypeModel::UInt32 => value matches SqliteValueModel::Integer(n) && 0 <= n <= u32::MAX,
        TypeModel::UInt64 | TypeModel::Float64 => value matches SqliteValueModel::Blob(b)
            && b.len() == 8,
        TypeModel::Float32 => value matches SqliteValueModel::Blob(b) && b.len() == 4,
        TypeModel::Decimal128(_, _) => value matches SqliteValueModel::Blob(b) && b.len() == 16,
        TypeModel::Utf8 => value is Text,
        TypeModel::Binary => value is Blob,
        TypeModel::List(_) => value is Blob,
        TypeModel::Struct(_) => value is Blob,
        _ => false,
    }
}

/// The class of a type.
spec fn class_of(data_type: TypeModel) -> Class {
    match data_type {
        TypeModel::Utf8 => Class::Text,
        TypeModel::UInt64 | TypeModel::Float32 | TypeModel::Float64 => Class::Blob,
        TypeModel::Decimal128(_, _) => Class::Blob,
        TypeModel::Binary => Class::Blob,
        TypeModel::List(_) => Class::Blob,
        TypeModel::Struct(_) => Class::Blob,
        _ => Class::Integer,
    }
}

proof fn lemma_storage(name: Seq<char>, data_type: TypeModel)
    requires
        storage_of(quoted(name), data_type) is Some,
    ensures
        ({
            let (class, check) = storage_of(quoted(name), data_type)->0;
            &&& class == class_text(class_of(data_type))
            &&& quoted_in(check, '"', false) is None
            &&& forall|value: SqliteValueModel|
                #[trigger] simple_holds(check, name, value) <==> stored_fits(data_type, value)
        }),
{
    lemma_class_rule(name);
    match data_type {
        TypeModel::Boolean => lemma_truth(name),
        TypeModel::Int8 => lemma_range(name, -128, 127),
        TypeModel::Int16 => lemma_range(name, -32768, 32767),
        TypeModel::Int32 => lemma_range(name, -2147483648, 2147483647),
        TypeModel::Date32 => lemma_range(name, -2147483648, 2147483647),
        TypeModel::UInt8 => lemma_range(name, 0, 255),
        TypeModel::UInt16 => lemma_range(name, 0, 65535),
        TypeModel::UInt32 => lemma_range(name, 0, 4294967295),
        TypeModel::UInt64 => lemma_length_rule(name, 8),
        TypeModel::Float64 => lemma_length_rule(name, 8),
        TypeModel::Float32 => lemma_length_rule(name, 4),
        TypeModel::Decimal128(_, _) => lemma_length_rule(name, 16),
        _ => {},
    }
}

/// The condition on the column of a field.
spec fn check_of(field: FieldModel) -> Seq<char> {
    let name = quoted(field.name);
    if field.data_type is Null {
        name + " IS NULL"@
    } else {
        let own = (storage_of(name, field.data_type)->0).1;
        if field.nullable {
            name + (" IS NULL OR ("@ + (own + ")"@))
        } else {
            own
        }
    }
}

/// The rule of the column of a field.
spec fn rule_of(field: FieldModel) -> ColumnRule {
    ColumnRule {
        class: if field.data_type is Null {
            Class::Blob
        } else {
            class_of(field.data_type)
        },
        not_null: !field.nullable && !(field.data_type is Null),
        check: check_of(field),
    }
}

proof fn lemma_null_text(name: Seq<char>)
    ensures
        name + " BLOB CHECK("@ + name + " IS NULL)"@ == name + (" "@ + ("BLOB"@ + (Seq::<
            char,
        >::empty() + (" CHECK("@ + ((name + " IS NULL"@) + ")"@))))),
{
    assert(" BLOB CHECK("@ =~= " "@ + "BLOB"@ + " CHECK("@ && " IS NULL)"@ =~= " IS NULL"@
        + ")"@) by {
        reveal_strlit(" BLOB CHECK(");
        reveal_strlit(" IS NULL)");
        reveal_strlit(" IS NULL");
        reveal_strlit(")");
        reveal_strlit(" ");
        reveal_strlit("BLOB");
        reveal_strlit(" CHECK(");
    }
    assert(name + " BLOB CHECK("@ + name + " IS NULL)"@ =~= name + (" "@ + ("BLOB"@ + (Seq::<
        char,
    >::empty() + (" CHECK("@ + ((name + " IS NULL"@) + ")"@))))));
}

proof fn lemma_nullable_text(name: Seq<char>, class: Seq<char>, own: Seq<char>)
    ensures
        name + " "@ + class + " CHECK("@ + name + " IS NULL OR ("@ + own + "))"@ == name + (" "@ + (
        class + (Seq::<char>::empty() + (" CHECK("@ + ((name + (" IS NULL OR ("@ + (own + ")"@)))
            + ")"@))))),
{
    assert("))"@ =~= ")"@ + ")"@) by {
        reveal_strlit("))");
        reveal_strlit(")");
    }
    assert(name + " "@ + class + " CHECK("@ + name + " IS NULL OR ("@ + own + "))"@ =~= name + (
    " "@ + (class + (Seq::<char>::empty() + (" CHECK("@ + ((name + (" IS NULL OR ("@ + (own
        + ")"@))) + ")"@))))));
}

proof fn lemma_required_text(name: Seq<char>, class: Seq<char>, own: Seq<char>)
    ensures
        name + " "@ + class + " NOT NULL CHECK("@ + own + ")"@ == name + (" "@ + (class + (
        " NOT NULL"@ + (" CHECK("@ + (own + ")"@))))),
{
    assert(" NOT NULL CHECK("@ =~= " NOT NULL"@ + " CHECK("@) by {
        reveal_strlit(" NOT NULL CHECK(");
        reveal_strlit(" NOT NULL");
        reveal_strlit(" CHECK(");
    }
    assert(name + " "@ + class + " NOT NULL CHECK("@ + own + ")"@ =~= name + (" "@ + (class + (
    " NOT NULL"@ + (" CHECK("@ + (own + ")"@))))));
}

proof fn lemma_read(field: FieldModel)
    requires
        column_sql(field) is Some,
    ensures
        definition_in(column_sql(field)->0) == Some((field.name, rule_of(field))),
{
    let name = quoted(field.name);
    let rule = rule_of(field);
    lemma_definition(field.name, rule.class, rule.not_null, rule.check);
    if field.data_type is Null {
        lemma_null_text(name);
    } else {
        let (class, own) = storage_of(name, field.data_type)->0;
        lemma_storage(field.name, field.data_type);
        if field.nullable {
            lemma_nullable_text(name, class, own);
        } else {
            lemma_required_text(name, class, own);
        }
    }
}

proof fn lemma_check(field: FieldModel, value: SqliteValueModel)
    requires
        column_sql(field) is Some,
    ensures
        condition_holds(check_of(field), field.name, value) <==> (value is Null && (field.nullable
            || field.data_type is Null) || stored_fits(field.data_type, value)),
{
    let name = quoted(field.name);
    if field.data_type is Null {
        reveal_strlit(" IS NULL");
        lemma_quoted_is_read(field.name, " IS NULL"@);
    } else {
        let own = (storage_of(name, field.data_type)->0).1;
        lemma_storage(field.name, field.data_type);
        assert(simple_holds(own, field.name, value) <==> stored_fits(field.data_type, value));
        if field.nullable {
            let rest = " IS NULL OR ("@ + (own + ")"@);
            assert(rest[0] == ' ' && rest != " IS NULL"@ && rest.last() == ')') by {
                reveal_strlit(" IS NULL OR (");
                reveal_strlit(" IS NULL");
                reveal_strlit(")");
                assert(rest.len() > " IS NULL"@.len());
            }
            lemma_quoted_is_read(field.name, rest);
            lemma_begins(" IS NULL OR ("@, own + ")"@);
            assert((own + ")"@).drop_last() =~= own && (own + ")"@).last() == ')') by {
                reveal_strlit(")");
            }
        }
    }
}

/// What a column admits: a null where the field may be null, and values of its type.
proof fn lemma_column(field: FieldModel)
    requires
        column_sql(field) is Some,
    ensures
        match definition_in(column_sql(field)->0) {
            Some((name, rule)) => {
                &&& name == field.name
                &&& rule.not_null <==> !field.nullable && !(field.data_type is Null)
                &&& forall|value: SqliteValueModel|
                    #[trigger] admits(rule, name, value) <==> (value is Null && (field.nullable
                        || field.data_type is Null) || stored_fits(field.data_type, value))
            },
            None => false,
        },
{
    lemma_read(field);
    let rule = rule_of(field);
    assert forall|value: SqliteValueModel|
        #[trigger] admits(rule, field.name, value) <==> (value is Null && (field.nullable
            || field.data_type is Null) || stored_fits(field.data_type, value)) by {
        lemma_check(field, value);
    }
}

/// The created table admits every value of its schema: the definition of a column bears the
/// name of its field, refuses nulls exactly where the field does, and none of its conditions
/// fails for the stored form of a value of the field.
pub proof fn law_table_admits_its_values(field: FieldModel, value: ValueModel, path: Seq<char>)
    requires
        column_sql(field) is Some,
        value_fault(field, value, path) is None,
    ensures
        match definition_in(column_sql(field)->0) {
            Some((name, rule)) => {
                &&& name == field.name
                &&& rule.not_null <==> !field.nullable && !(field.data_type is Null)
                &&& admits(rule, name, stored_value(value))
            },
            None => false,
        },
{
    lemma_column(field);
    assert forall|number: nat, width: nat| #[trigger] be_bytes(number, width).len() == width by {
        lemma_be_bytes_len(number, width);
    }
}

/// The created table admits nothing else in a column of numbers or of nulls: what it admits
/// stands for a value that the field has.
pub proof fn law_table_admits_no_other_values(
    field: FieldModel,
    stored: SqliteValueModel,
    path: Seq<char>,
)
    requires
        column_sql(field) is Some,
        width_of(field.data_type) is Some || field.data_type is Null,
        match definition_in(column_sql(field)->0) {
            Some((name, rule)) => admits(rule, name, stored),
            None => true,
        },
    ensures
        value_in(field, stored) is Some,
        value_fault(field, value_in(field, stored)->0, path) is None,
{
    lemma_column(field);
    lemma_byte_ranges();
    if let SqliteValueModel::Blob(bytes) = stored {
        lemma_be_value_bound(bytes);
    }
}

/// The definition of a column bears the name of its field.
pub proof fn law_definition_names_its_field(field: FieldModel)
    requires
        column_sql(field) is Some,
    ensures
        definition_in(column_sql(field)->0) is Some,
        (definition_in(column_sql(field)->0)->0).0 == field.name,
{
    lemma_column(field);
}

/// A definition is that of a column which admits blobs of sixteen bytes, and nothing else.
pub open spec fn holds_hashes(text: Seq<char>, column: Seq<char>) -> bool {
    match definition_in(text) {
        Some((name, rule)) => name == column && forall|value: SqliteValueModel|
            #[trigger] admits(rule, name, value) <==> value is Blob && value->Blob_0.len() == 16,
        None => false,
    }
}

/// The column of the hashes admits hashes, and nothing else.
pub proof fn law_hash_column_holds_hashes()
    ensures
        holds_hashes(technical_definitions()[1], "$dogpaddle.hash"@),
{
    let name = "$dogpaddle.hash"@;
    let hash = quoted(name);
    let check = blob_rule(hash, Some(16));
    let sixteen = decimal(16);
    reveal_with_fuel(decimal, 3);
    assert(sixteen =~= seq!['1', '6']);
    lemma_length_rule(name, 16);
    lemma_definition(name, Class::Blob, true, check);
    let text = technical_definitions()[1];
    assert(" BLOB NOT NULL CHECK(typeof("@ =~= " "@ + "BLOB"@ + " NOT NULL"@ + " CHECK("@
        + "typeof("@ && ") = 16)"@ =~= ") = "@ + sixteen + ")"@) by {
        reveal_strlit(" BLOB NOT NULL CHECK(typeof(");
        reveal_strlit(" ");
        reveal_strlit("BLOB");
        reveal_strlit(" NOT NULL");
        reveal_strlit(" CHECK(");
        reveal_strlit("typeof(");
        reveal_strlit(") = 16)");
        reveal_strlit(") = ");
        reveal_strlit(")");
    }
    assert(text =~= hash + (" "@ + ("BLOB"@ + (" NOT NULL"@ + (" CHECK("@ + (check + ")"@))))));
}

} // verus!
