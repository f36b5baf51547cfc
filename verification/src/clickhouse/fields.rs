//! Which schemas a ClickHouse relation has.

use crate::change::FieldModel;
use crate::clickhouse::schema::{
    column_of, layout_fault, name_fault, named_before, names_fault, type_fault,
};
use crate::text::byte_len;
use vstd::prelude::*;

verus! {

proof fn lemma_named_before(fields: Seq<FieldModel>, name: Seq<char>, count: int)
    ensures
        named_before(fields, name, count) is None <==> forall|i: int|
            0 <= i < count ==> (#[trigger] fields[i]).name != name,
    decreases count,
{
    if count > 0 {
        lemma_named_before(fields, name, count - 1);
    }
}

proof fn lemma_names_fault(fields: Seq<FieldModel>, count: int)
    ensures
        names_fault(fields, count) is None <==> forall|i: int|
            0 <= i < count ==> #[trigger] name_fault(fields, i) is None,
    decreases count,
{
    if count > 0 {
        lemma_names_fault(fields, count - 1);
    }
}

proof fn lemma_type_fault(fields: Seq<FieldModel>, count: int)
    ensures
        type_fault(fields, count) is None <==> forall|i: int|
            0 <= i < count ==> column_of(#[trigger] fields[i]) is Some,
    decreases count,
{
    if count > 0 {
        lemma_type_fault(fields, count - 1);
    }
}

/// Whether a field may be a column, the other fields aside.
pub open spec fn column_may_be(field: FieldModel) -> bool {
    &&& 0 < byte_len(field.name) <= 255
    &&& !field.name.contains('\0')
    &&& field.name != "$dogpaddle.id"@
    &&& field.name != "$dogpaddle.hash"@
    &&& field.name != "$dogpaddle.version"@
    &&& field.name != "$dogpaddle.deleted"@
    &&& !(field.data_type is Other)
}

/// A schema is laid out exactly where it has not too many columns, each has a name that is kept
/// as it is, does not belong to the sink and to no other column, and each type is stored.
pub proof fn law_columns_are_named_apart(fields: Seq<FieldModel>)
    ensures
        layout_fault(fields) is None <==> {
            &&& fields.len() <= 4092
            &&& forall|i: int| 0 <= i < fields.len() ==> column_may_be(#[trigger] fields[i])
            &&& forall|i: int, j: int|
                0 <= i < j < fields.len() ==> (#[trigger] fields[i]).name
                    != (#[trigger] fields[j]).name
        },
{
    let count = fields.len() as int;
    lemma_names_fault(fields, count);
    lemma_type_fault(fields, count);
    if layout_fault(fields) is None {
        assert forall|i: int| 0 <= i < count implies column_may_be(#[trigger] fields[i]) by {
            assert(name_fault(fields, i) is None);
        }
        assert forall|i: int, j: int| 0 <= i < j < fields.len() implies (#[trigger] fields[i]).name
            != (#[trigger] fields[j]).name by {
            assert(name_fault(fields, j) is None);
            lemma_named_before(fields, fields[j].name, j);
        }
    }
    if (forall|i: int| 0 <= i < count ==> column_may_be(#[trigger] fields[i])) && (forall|
        i: int,
        j: int,
    |
        0 <= i < j < fields.len() ==> (#[trigger] fields[i]).name
            != (#[trigger] fields[j]).name) {
        assert forall|i: int| 0 <= i < count implies #[trigger] name_fault(fields, i) is None by {
            assert(column_may_be(fields[i]));
            lemma_named_before(fields, fields[i].name, i);
        }
    }
}

} // verus!
