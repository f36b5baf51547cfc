//! Which schemas a SQLite relation has.

use crate::change::FieldModel;
use crate::sqlite::definition::{field_fault, fields_fault, same_name_before, schema_fault};
use crate::text::lowered;
use vstd::prelude::*;

verus! {

proof fn lemma_named_before(fields: Seq<FieldModel>, name: Seq<char>, count: int)
    ensures
        same_name_before(fields, name, count) is None <==> forall|i: int|
            0 <= i < count ==> lowered((#[trigger] fields[i]).name) != lowered(name),
    decreases count,
{
    if count > 0 {
        lemma_named_before(fields, name, count - 1);
    }
}

proof fn lemma_names_fault(fields: Seq<FieldModel>, count: int)
    ensures
        fields_fault(fields, count) is None <==> forall|i: int|
            0 <= i < count ==> #[trigger] field_fault(fields, i) is None,
    decreases count,
{
    if count > 0 {
        lemma_names_fault(fields, count - 1);
    }
}

/// Whether a field may be a column, the other fields aside.
pub open spec fn column_may_be(field: FieldModel) -> bool {
    &&& !field.name.contains('\0')
    &&& lowered(field.name) != "$dogpaddle.id"@
    &&& lowered(field.name) != "$dogpaddle.hash"@
}

/// A schema is accepted exactly where it has not too many columns, and each has a name that can
/// be written and that, whatever its case, does not belong to the sink and to no other column.
pub proof fn law_columns_are_named_apart(fields: Seq<FieldModel>)
    ensures
        schema_fault(fields) is None <==> {
            &&& fields.len() <= 1998
            &&& forall|i: int| 0 <= i < fields.len() ==> column_may_be(#[trigger] fields[i])
            &&& forall|i: int, j: int|
                0 <= i < j < fields.len() ==> lowered((#[trigger] fields[i]).name)
                    != lowered((#[trigger] fields[j]).name)
        },
{
    let count = fields.len() as int;
    lemma_names_fault(fields, count);
    if schema_fault(fields) is None {
        assert forall|i: int| 0 <= i < count implies column_may_be(#[trigger] fields[i]) by {
            assert(field_fault(fields, i) is None);
        }
        assert forall|i: int, j: int| 0 <= i < j < fields.len() implies lowered((#[trigger] fields[i]).name)
            != lowered((#[trigger] fields[j]).name) by {
            assert(field_fault(fields, j) is None);
            lemma_named_before(fields, fields[j].name, j);
        }
    }
    if (forall|i: int| 0 <= i < count ==> column_may_be(#[trigger] fields[i])) && (forall|
        i: int,
        j: int,
    |
        0 <= i < j < fields.len() ==> lowered((#[trigger] fields[i]).name)
            != lowered((#[trigger] fields[j]).name)) {
        assert forall|i: int| 0 <= i < count implies #[trigger] field_fault(fields, i) is None by {
            assert(column_may_be(fields[i]));
            lemma_named_before(fields, fields[i].name, i);
        }
    }
}

} // verus!
