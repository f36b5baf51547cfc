//! Which schemas a Apache Doris relation has.

use crate::change::FieldModel;
use crate::doris::schema::{
    column_of, layout_fault, name_fault, named_before, names_fault, type_fault,
};
use crate::text::{byte_len, lowered};
use vstd::prelude::*;

verus! {

proof fn lemma_named_before(fields: Seq<FieldModel>, name: Seq<char>, count: int)
    ensures
        named_before(fields, name, count) is None <==> forall|i: int|
            0 <= i < count ==> lowered((#[trigger] fields[i]).name) != lowered(name),
    decreases count,
{
    if count > 0 {
        lemma_named_before(fields, name, count - 1);
    }
}

proof fn lemma_names_fault(fields: Seq<FieldModel>, count: int)
    ensures
        names_fault(fields, count) is None <==> forall|i: int|
            0 <= i < count ==> #[trigger] name_fault(fields, i) is None,
    decreases count,
{
    if count > 0 {
        lemma_names_fault(fields, count - 1);
    }
}

proof fn lemma_type_fault(fields: Seq<FieldModel>, count: int)
    ensures
        type_fault(fields, count) is None <==> forall|i: int|
            0 <= i < count ==> column_of(#[trigger] fields[i]) is Some,
    decreases count,
{
    if count > 0 {
        lemma_type_fault(fields, count - 1);
    }
}

/// Whether a field may be a column, the other fields aside.
pub open spec fn column_may_be(field: FieldModel) -> bool {
    &&& 0 < byte_len(field.name) <= 64
    &&& !field.name.contains('\0')
    &&& lowered(field.name) != "__dogpaddle_id"@
    &&& lowered(field.name) != "__dogpaddle_hash"@
    &&& lowered(field.name) != "__dogpaddle_deleted"@
    &&& lowered(field.name) != "$dogpaddle.id"@
    &&& lowered(field.name) != "$dogpaddle.hash"@
    &&& !(field.data_type is Other)
}

/// A schema is laid out exactly where it has not too many columns, each has a name that is kept
/// as it is and that, whatever its case, does not belong to the sink and to no other column, and
/// each type is stored.
pub proof fn law_columns_are_named_apart(fields: Seq<FieldModel>)
    ensures
        layout_fault(fields) is None <==> {
            &&& fields.len() <= 1597
            &&& forall|i: int| 0 <= i < fields.len() ==> column_may_be(#[trigger] fields[i])
            &&& forall|i: int, j: int|
                0 <= i < j < fields.len() ==> lowered((#[trigger] fields[i]).name)
                    != lowered((#[trigger] fields[j]).name)
        },
{
    let count = fields.len() as int;
    lemma_names_fault(fields, count);
    lemma_type_fault(fields, count);
    lemma_lowered_names();
    if layout_fault(fields) is None {
        assert forall|i: int| 0 <= i < count implies column_may_be(#[trigger] fields[i]) by {
            assert(name_fault(fields, i) is None);
        }
        assert forall|i: int, j: int| 0 <= i < j < fields.len() implies lowered((#[trigger] fields[i]).name)
            != lowered((#[trigger] fields[j]).name) by {
            assert(name_fault(fields, j) is None);
            lemma_named_before(fields, fields[j].name, j);
        }
    }
    if (forall|i: int| 0 <= i < count ==> column_may_be(#[trigger] fields[i])) && (forall|
        i: int,
        j: int,
    |
        0 <= i < j < fields.len() ==> lowered((#[trigger] fields[i]).name)
            != lowered((#[trigger] fields[j]).name)) {
        assert forall|i: int| 0 <= i < count implies #[trigger] name_fault(fields, i) is None by {
            assert(column_may_be(fields[i]));
            lemma_named_before(fields, fields[i].name, i);
        }
    }
}

proof fn lemma_lowered_names()
    ensures
        lowered("__dogpaddle_id"@) == "__dogpaddle_id"@,
        lowered("__dogpaddle_hash"@) == "__dogpaddle_hash"@,
        lowered("__dogpaddle_deleted"@) == "__dogpaddle_deleted"@,
        lowered("$dogpaddle.id"@) == "$dogpaddle.id"@,
        lowered("$dogpaddle.hash"@) == "$dogpaddle.hash"@,
{
    reveal_strlit("__dogpaddle_id");
    reveal_strlit("__dogpaddle_hash");
    reveal_strlit("__dogpaddle_deleted");
    reveal_strlit("$dogpaddle.id");
    reveal_strlit("$dogpaddle.hash");
    assert(lowered("__dogpaddle_id"@) =~= "__dogpaddle_id"@);
    assert(lowered("__dogpaddle_hash"@) =~= "__dogpaddle_hash"@);
    assert(lowered("__dogpaddle_deleted"@) =~= "__dogpaddle_deleted"@);
    assert(lowered("$dogpaddle.id"@) =~= "$dogpaddle.id"@);
    assert(lowered("$dogpaddle.hash"@) =~= "$dogpaddle.hash"@);
}

} // verus!
