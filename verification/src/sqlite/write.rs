//! What a SQLite relation does with a planned batch, and with what it reads back.

use crate::change::{Change, RecordBatch, Schema};
use crate::relation::batch::{Batch, Delete, Insert};
use crate::relation::instances::{chosen, counted, select_instances};
use crate::relation::plan::Matches;
use crate::relation::position::{Mutation, MutationKind};
use crate::relation::stepwise::{MatchingIds, Query};
use crate::sqlite::error::{SqliteErrorModel, SqliteSinkError};
use crate::relation::row::{canonical_bytes, hash_of};
use crate::sqlite::row::{encode_fault, stored_row, value_views, EncodedRow, RowCodec};
use crate::sqlite::target::{id_column, quote_identifier, quoted, SqlPlan};
use crate::text::{join, joined, same_text, views};
use vstd::prelude::*;

verus! {

/// Whether an ID fits the integers of SQLite.
pub open spec fn id_fits(technical_id: u64) -> bool {
    technical_id <= i64::MAX
}

pub fn technical_id_as_i64(technical_id: u64) -> (result: Result<i64, SqliteSinkError>)
    ensures
        match result {
            Ok(id) => id_fits(technical_id) && id == technical_id,
            Err(error) => !id_fits(technical_id) && error@ == (SqliteErrorModel::InvalidBatch {
                technical_id,
            }),
        },
{
    if technical_id <= 0x7fff_ffff_ffff_ffff {
        Ok(technical_id as i64)
    } else {
        Err(SqliteSinkError::InvalidBatch { technical_id })
    }
}

/// A run of insertions of one row, with the row itself.
#[derive(Debug)]
pub struct InsertRun {
    pub row_index: u64,
    pub ids: Vec<i64>,
    pub row: EncodedRow,
}

/// What one transaction writes: runs of insertions, and then deletions.
#[derive(Debug)]
pub struct WritePlan {
    pub inserts: Vec<InsertRun>,
    pub deletes: Vec<i64>,
}

/// The row and the ID of each insertion in some runs, in order.
pub open spec fn flattened(runs: Seq<InsertRun>) -> Seq<(u64, i64)>
    decreases runs.len(),
{
    if runs.len() == 0 {
        Seq::empty()
    } else {
        flattened(runs.drop_last()) + run_pairs(runs.last().row_index, runs.last().ids@)
    }
}

/// The row and the ID of each insertion in a run.
pub open spec fn run_pairs(row_index: u64, ids: Seq<i64>) -> Seq<(u64, i64)> {
    ids.map_values(|id: i64| (row_index, id))
}

/// Neighbouring runs belong to different rows, and none is empty.
pub open spec fn runs_maximal(runs: Seq<InsertRun>) -> bool {
    &&& forall|i: int| 0 <= i < runs.len() ==> (#[trigger] runs[i]).ids@.len() > 0
    &&& forall|i: int| 0 < i < runs.len() ==> runs[i - 1].row_index != (#[trigger] runs[i]).row_index
}

/// Whether a row is the encoding of the row at `index`.
pub open spec fn encodes(row: EncodedRow, batch: RecordBatch, index: int) -> bool {
    &&& row.canonical@ == canonical_bytes(batch, index)
    &&& row.hash@ == hash_of(row.canonical@)
    &&& value_views(row.values@) == stored_row(batch, index, batch.columns@.len())
}

/// Why the insertion at `index` cannot be written, if it cannot. The row of a run is encoded
/// once its IDs were found to fit.
pub open spec fn insert_fault(
    schema: Schema,
    batch: RecordBatch,
    inserts: Seq<Insert>,
    index: int,
) -> Option<SqliteErrorModel> {
    let insert = inserts[index];
    let begins = index == 0 || inserts[index - 1].row_index != insert.row_index;
    let ends = index == inserts.len() - 1 || inserts[index + 1].row_index != insert.row_index;
    if begins && insert.row_index > usize::MAX {
        Some(SqliteErrorModel::InvalidRowIndex { row_index: insert.row_index })
    } else if !id_fits(insert.technical_id) {
        Some(SqliteErrorModel::InvalidBatch { technical_id: insert.technical_id })
    } else if ends && encode_fault(schema, batch, insert.row_index as int) is Some {
        Some(
            SqliteErrorModel::Row(encode_fault(schema, batch, insert.row_index as int)->0),
        )
    } else {
        None
    }
}

/// The first reason among the first `count` insertions.
pub open spec fn inserts_fault(
    schema: Schema,
    batch: RecordBatch,
    inserts: Seq<Insert>,
    count: int,
) -> Option<SqliteErrorModel>
    decreases count,
{
    if count <= 0 {
        None
    } else {
        match inserts_fault(schema, batch, inserts, count - 1) {
            Some(fault) => Some(fault),
            None => insert_fault(schema, batch, inserts, count - 1),
        }
    }
}

proof fn lemma_inserts_fault_stays(
    schema: Schema,
    batch: RecordBatch,
    inserts: Seq<Insert>,
    low: int,
    high: int,
)
    requires
        low <= high,
        inserts_fault(schema, batch, inserts, low) is Some,
    ensures
        inserts_fault(schema, batch, inserts, high) == inserts_fault(schema, batch, inserts, low),
    decreases high - low,
{
    if low < high {
        lemma_inserts_fault_stays(schema, batch, inserts, low, high - 1);
    }
}

/// The first of the first `count` deletions whose ID does not fit.
pub open spec fn first_unfit(deletes: Seq<Delete>, count: int) -> Option<u64>
    decreases count,
{
    if count <= 0 {
        None
    } else {
        match first_unfit(deletes, count - 1) {
            Some(id) => Some(id),
            None => if id_fits(deletes[count - 1].technical_id) {
                None
            } else {
                Some(deletes[count - 1].technical_id)
            },
        }
    }
}

proof fn lemma_unfit_stays(deletes: Seq<Delete>, low: int, high: int)
    requires
        low <= high,
        first_unfit(deletes, low) is Some,
    ensures
        first_unfit(deletes, high) == first_unfit(deletes, low),
    decreases high - low,
{
    if low < high {
        lemma_unfit_stays(deletes, low, high - 1);
    }
}

/// Why a batch cannot be written, if it cannot.
pub open spec fn write_fault(schema: Schema, input: RecordBatch, batch: Batch) -> Option<
    SqliteErrorModel,
> {
    match inserts_fault(schema, input, batch.inserts@, batch.inserts@.len() as int) {
        Some(fault) => Some(fault),
        None => match first_unfit(batch.deletes@, batch.deletes@.len() as int) {
            Some(technical_id) => Some(SqliteErrorModel::InvalidBatch { technical_id }),
            None => None,
        },
    }
}

fn delete_ids(deletes: &Vec<Delete>) -> (result: Result<Vec<i64>, SqliteSinkError>)
    ensures
        match result {
            Ok(ids) => {
                &&& first_unfit(deletes@, deletes@.len() as int) is None
                &&& ids@ == deletes@.map_values(|delete: Delete| delete.technical_id as i64)
            },
            Err(error) => {
                &&& first_unfit(deletes@, deletes@.len() as int) is Some
                &&& error@ == (SqliteErrorModel::InvalidBatch {
                    technical_id: first_unfit(deletes@, deletes@.len() as int)->0,
                })
            },
        },
{
    let ghost ids = deletes@.map_values(|delete: Delete| delete.technical_id as i64);
    let mut found: Vec<i64> = Vec::new();
    let mut next: usize = 0;
    while next < deletes.len()
        invariant
            ids == deletes@.map_values(|delete: Delete| delete.technical_id as i64),
            next <= deletes@.len(),
            first_unfit(deletes@, next as int) is None,
            found@ == ids.take(next as int),
        decreases deletes@.len() - next,
    {
        match technical_id_as_i64(deletes[next].technical_id) {
            Ok(id) => {
                found.push(id);
                assert(found@ =~= ids.take(next + 1));
            },
            Err(error) => {
                proof {
                    lemma_unfit_stays(deletes@, next + 1, deletes@.len() as int);
                }
                return Err(error);
            },
        }
        next += 1;
    }
    assert(ids.take(next as int) =~= ids);
    Ok(found)
}

/// The row and the ID of each insertion.
pub open spec fn signed_pairs(inserts: Seq<Insert>) -> Seq<(u64, i64)> {
    inserts.map_values(|insert: Insert| (insert.row_index, insert.technical_id as i64))
}

/// Splits a batch into runs of insertions of one row each, with the rows encoded, and
/// deletions.
pub fn write_plan(codec: &RowCodec, input: &Change, batch: &Batch) -> (result: Result<
    WritePlan,
    SqliteSinkError,
>)
    requires
        input.wf(),
    ensures
        match result {
            Ok(plan) => {
                &&& write_fault(codec.schema, input.records, *batch) is None
                &&& flattened(plan.inserts@) == signed_pairs(batch.inserts@)
                &&& runs_maximal(plan.inserts@)
                &&& forall|i: int|
                    0 <= i < plan.inserts@.len() ==> encodes(
                        (#[trigger] plan.inserts@[i]).row,
                        input.records,
                        plan.inserts@[i].row_index as int,
                    )
                &&& plan.deletes@ == batch.deletes@.map_values(
                    |delete: Delete| delete.technical_id as i64,
                )
            },
            Err(error) => write_fault(codec.schema, input.records, *batch) == Some(error@),
        },
{
    let ghost schema = codec.schema;
    let ghost records = input.records;
    let ghost inserts = batch.inserts@;
    let ghost pairs = signed_pairs(inserts);
    let ghost total = inserts.len() as int;
    let mut runs: Vec<InsertRun> = Vec::new();
    let mut index: usize = 0;
    assert(flattened(runs@) =~= pairs.take(0));
    while index < batch.inserts.len()
        invariant
            input.wf(),
            schema == codec.schema,
            records == input.records,
            inserts == batch.inserts@,
            total == inserts.len(),
            pairs == signed_pairs(inserts),
            index <= total,
            0 < index < total ==> inserts[index - 1].row_index != inserts[index as int].row_index,
            0 < index ==> runs@.len() > 0 && runs@.last().row_index == inserts[index
                - 1].row_index,
            inserts_fault(schema, records, inserts, index as int) is None,
            flattened(runs@) == pairs.take(index as int),
            runs_maximal(runs@),
            runs@.len() > 0 ==> index > 0,
            forall|i: int|
                0 <= i < runs@.len() ==> encodes(
                    (#[trigger] runs@[i]).row,
                    records,
                    runs@[i].row_index as int,
                ),
        decreases total - index,
    {
        let start: usize = index;
        let row_index: u64 = batch.inserts[index].row_index;
        if row_index > usize::MAX as u64 {
            proof {
                lemma_inserts_fault_stays(schema, records, inserts, index + 1, total);
            }
            return Err(SqliteSinkError::InvalidRowIndex { row_index });
        }
        let mut ids: Vec<i64> = Vec::new();
        let mut row: Option<EncodedRow> = None;
        assert(run_pairs(row_index, ids@) =~= pairs.subrange(start as int, start as int));
        while row.is_none()
            invariant
                input.wf(),
                schema == codec.schema,
                records == input.records,
                inserts == batch.inserts@,
                total == inserts.len(),
                pairs == signed_pairs(inserts),
                start <= index <= total,
                start < total,
                row_index <= usize::MAX,
                row_index == inserts[start as int].row_index,
                0 < start ==> inserts[start - 1].row_index != row_index,
                row is None ==> index < total && inserts[index as int].row_index == row_index,
                start < index ==> inserts[index - 1].row_index == row_index,
                row is Some ==> start < index && (index < total ==> inserts[index as int].row_index
                    != row_index) && encodes(row->0, records, row_index as int),
                inserts_fault(schema, records, inserts, index as int) is None,
                ids@.len() == index - start,
                run_pairs(row_index, ids@) == pairs.subrange(start as int, index as int),
            decreases
                total - index,
                (if row is None {
                    1int
                } else {
                    0int
                }),
        {
            let insert: Insert = batch.inserts[index];
            proof {
                if insert_fault(schema, records, inserts, index as int) is Some {
                    lemma_inserts_fault_stays(schema, records, inserts, index + 1, total);
                }
            }
            let id: i64 = technical_id_as_i64(insert.technical_id)?;
            let ghost before = ids@;
            ids.push(id);
            let length: usize = batch.inserts.len();
            let ends: bool = index + 1 == length || batch.inserts[index + 1].row_index != row_index;
            if ends {
                match codec.encode_row(&input.records, row_index as usize) {
                    Ok(encoded) => {
                        row = Some(encoded);
                    },
                    Err(error) => {
                        return Err(SqliteSinkError::Row(error));
                    },
                }
            }
            proof {
                assert(run_pairs(row_index, ids@) =~= run_pairs(row_index, before).push(
                    (row_index, id),
                ));
                assert(pairs[index as int] == (row_index, id));
                assert(run_pairs(row_index, ids@) =~= pairs.subrange(
                    start as int,
                    index + 1,
                ));
            }
            index += 1;
        }
        if let Some(encoded) = row {
            let ghost before = runs@;
            let run: InsertRun = InsertRun { row_index, ids, row: encoded };
            runs.push(run);
            proof {
                assert(runs@.drop_last() =~= before);
                assert(flattened(runs@) =~= pairs.take(index as int));
                assert forall|i: int| 0 < i < runs@.len() implies runs@[i - 1].row_index != (
                #[trigger] runs@[i]).row_index by {
                    if i < before.len() {
                        assert(before[i - 1].row_index != before[i].row_index);
                    }
                }
            }
        }
    }
    assert(pairs.take(index as int) =~= pairs);
    let deletes: Vec<i64> = delete_ids(&batch.deletes)?;
    Ok(WritePlan { inserts: runs, deletes })
}

/// Requires that neither object of the target is there yet.
pub fn require_absent(plan: &SqlPlan, table_exists: bool, index_exists: bool) -> (result: Result<
    (),
    SqliteSinkError,
>)
    ensures
        match result {
            Ok(_) => !table_exists && !index_exists,
            Err(error) => (table_exists || index_exists) && error@ == (
            SqliteErrorModel::TargetExists {
                name: if table_exists {
                    plan.table_name@
                } else {
                    plan.index_name@
                },
            }),
        },
{
    if table_exists {
        return Err(SqliteSinkError::TargetExists { name: plan.table_name.clone() });
    }
    if index_exists {
        return Err(SqliteSinkError::TargetExists { name: plan.index_name.clone() });
    }
    Ok(())
}

/// Decides how an initialization begins: whether the target is still to be created.
pub fn begin_initialization(plan: &SqlPlan, table_exists: bool, index_exists: bool) -> (result:
    Result<bool, SqliteSinkError>)
    ensures
        match result {
            Ok(create) => create == !table_exists && (create ==> !index_exists),
            Err(error) => !table_exists && index_exists && error@ == (
            SqliteErrorModel::TargetLayoutMismatch { name: plan.index_name@ }),
        },
{
    if table_exists {
        return Ok(false);
    }
    if index_exists {
        return Err(SqliteSinkError::TargetLayoutMismatch { name: plan.index_name.clone() });
    }
    Ok(true)
}

/// Requires that the target holds no row yet.
pub fn require_empty(plan: &SqlPlan, has_rows: bool) -> (result: Result<(), SqliteSinkError>)
    ensures
        match result {
            Ok(_) => !has_rows,
            Err(error) => has_rows && error@ == (SqliteErrorModel::TargetNotEmpty {
                table: plan.table_name@,
            }),
        },
{
    if has_rows {
        Err(SqliteSinkError::TargetNotEmpty { table: plan.table_name.clone() })
    } else {
        Ok(())
    }
}

/// The statement that deletes `count` IDs.
pub open spec fn delete_sql(prefix: Seq<char>, count: nat) -> Seq<char> {
    prefix + "("@ + joined(Seq::new(count, |i: int| "?"@), ", "@) + ")"@
}

pub fn delete_statement(plan: &SqlPlan, count: usize) -> (text: String)
    ensures
        text@ == delete_sql(plan.delete_prefix@, count as nat),
{
    let mut marks: Vec<String> = Vec::new();
    let mut index: usize = 0;
    assert(views(marks@) =~= Seq::new(0, |i: int| "?"@));
    while index < count
        invariant
            index <= count,
            views(marks@) == Seq::new(index as nat, |i: int| "?"@),
        decreases count - index,
    {
        let ghost before = marks@;
        let mark: String = "?".to_owned();
        marks.push(mark);
        index += 1;
        assert(views(marks@) =~= views(before).push(mark@));
        assert(views(marks@) =~= Seq::new(index as nat, |i: int| "?"@));
    }
    let mut text: String = plan.delete_prefix.clone();
    text.append("(");
    text.append(join(marks.as_slice(), ", ").as_str());
    text.append(")");
    text
}

/// The statement that reads the row under an ID.
pub open spec fn select_row_sql(table: Seq<char>) -> Seq<char> {
    "SELECT * FROM "@ + quoted(table) + " WHERE "@ + id_column() + " = ?1"@
}

pub fn select_row_statement(plan: &SqlPlan) -> (text: String)
    ensures
        text@ == select_row_sql(plan.table_name@),
{
    let mut text: String = "SELECT * FROM ".to_owned();
    text.append(quote_identifier(plan.table_name.as_str()).as_str());
    text.append(" WHERE ");
    text.append(quote_identifier("$dogpaddle.id").as_str());
    text.append(" = ?1");
    text
}

/// Whether the instances of a row have to be counted: all IDs that were asked for came back,
/// but more instances may be needed.
pub fn needs_count(selected: usize, select_limit: usize, scan_limit: u64) -> (counts: bool)
    ensures
        counts == (selected == select_limit && scan_limit > selected),
{
    selected == select_limit && scan_limit > selected as u64
}

/// The first stored ID that is not positive.
pub open spec fn first_nonpositive(ids: Seq<i64>, count: int) -> Option<i64>
    decreases count,
{
    if count <= 0 {
        None
    } else {
        match first_nonpositive(ids, count - 1) {
            Some(id) => Some(id),
            None => if ids[count - 1] <= 0 {
                Some(ids[count - 1])
            } else {
                None
            },
        }
    }
}

proof fn lemma_nonpositive_stays(ids: Seq<i64>, low: int, high: int)
    requires
        low <= high,
        first_nonpositive(ids, low) is Some,
    ensures
        first_nonpositive(ids, high) == first_nonpositive(ids, low),
    decreases high - low,
{
    if low < high {
        lemma_nonpositive_stays(ids, low, high - 1);
    }
}

/// What a target replies: the IDs that it read, and how many instances it counted, if it had to.
pub fn matching_ids(selected: &Vec<i64>, counted: Option<u64>) -> (result: Result<
    Matches,
    SqliteSinkError,
>)
    ensures
        match result {
            Ok(matches) => {
                &&& first_nonpositive(selected@, selected@.len() as int) is None
                &&& matches.ids@ == selected@.map_values(|id: i64| id as u64)
                &&& matches.count == (match counted {
                    Some(count) => count as nat,
                    None => selected@.len(),
                })
            },
            Err(error) => {
                let bad = first_nonpositive(selected@, selected@.len() as int);
                &&& bad is Some
                &&& error@ == (SqliteErrorModel::InvalidStoredTechnicalId { id: bad->0 })
            },
        },
{
    let mut ids: Vec<u64> = Vec::new();
    let mut index: usize = 0;
    while index < selected.len()
        invariant
            index <= selected@.len(),
            first_nonpositive(selected@, index as int) is None,
            ids@.len() == index,
            forall|i: int| 0 <= i < index ==> #[trigger] ids@[i] == selected@[i] as u64,
        decreases selected@.len() - index,
    {
        let id: i64 = selected[index];
        if id <= 0 {
            proof {
                lemma_nonpositive_stays(selected@, index + 1, selected@.len() as int);
            }
            return Err(SqliteSinkError::InvalidStoredTechnicalId { id });
        }
        ids.push(id as u64);
        index += 1;
    }
    assert(ids@ =~= selected@.map_values(|id: i64| id as u64));
    let count: u64 = match counted {
        Some(count) => count,
        None => ids.len() as u64,
    };
    Ok(Matches { count, ids })
}

/// An object that the database says belongs to the table.
#[derive(Debug)]
pub struct SchemaObject {
    pub kind: String,
    pub name: String,
    pub definition: Option<String>,
}

/// Whether an object is of a kind and a name, with exactly a definition.
pub open spec fn object_is(object: SchemaObject, kind: Seq<char>, name: Seq<char>) -> bool {
    object.kind@ == kind && object.name@ == name
}

/// Whether an object is the table or the index that the plan creates.
pub open spec fn object_owned(object: SchemaObject, plan: SqlPlan) -> bool {
    ||| object_is(object, "table"@, plan.table_name@) && object.definition is Some
        && object.definition->0@ == plan.create_table@
    ||| object_is(object, "index"@, plan.index_name@) && object.definition is Some
        && object.definition->0@ == plan.create_index@
}

/// The first of some objects that the plan does not create.
pub open spec fn first_foreign(objects: Seq<SchemaObject>, plan: SqlPlan, count: int) -> Option<
    SchemaObject,
>
    decreases count,
{
    if count <= 0 {
        None
    } else {
        match first_foreign(objects, plan, count - 1) {
            Some(object) => Some(object),
            None => if object_owned(objects[count - 1], plan) {
                None
            } else {
                Some(objects[count - 1])
            },
        }
    }
}

proof fn lemma_foreign_stays(objects: Seq<SchemaObject>, plan: SqlPlan, low: int, high: int)
    requires
        low <= high,
        first_foreign(objects, plan, low) is Some,
    ensures
        first_foreign(objects, plan, high) == first_foreign(objects, plan, low),
    decreases high - low,
{
    if low < high {
        lemma_foreign_stays(objects, plan, low, high - 1);
    }
}

/// Whether one of the objects is of a kind and a name.
pub open spec fn has_object(
    objects: Seq<SchemaObject>,
    kind: Seq<char>,
    name: Seq<char>,
    count: int,
) -> bool {
    exists|i: int| 0 <= i < count && #[trigger] object_is(objects[i], kind, name)
}

/// Why the objects of a table are not exactly those of the plan, if they are not.
pub open spec fn layout_fault(objects: Seq<SchemaObject>, plan: SqlPlan) -> Option<
    SqliteErrorModel,
> {
    let count = objects.len() as int;
    if first_foreign(objects, plan, count) is Some {
        Some(
            SqliteErrorModel::TargetLayoutMismatch {
                name: first_foreign(objects, plan, count)->0.name@,
            },
        )
    } else if !has_object(objects, "table"@, plan.table_name@, count) {
        Some(SqliteErrorModel::TargetMissing { name: plan.table_name@ })
    } else if !has_object(objects, "index"@, plan.index_name@, count) {
        Some(SqliteErrorModel::TargetMissing { name: plan.index_name@ })
    } else {
        None
    }
}

/// Whether an optional text is the given one.
fn is_text(text: &Option<String>, expected: &str) -> (same: bool)
    ensures
        same == (*text is Some && text->0@ == expected@),
{
    match text {
        Some(text) => same_text(text.as_str(), expected),
        None => false,
    }
}

/// Requires that the objects of a table are exactly those of the plan.
pub fn require_exact_layout(objects: &Vec<SchemaObject>, plan: &SqlPlan) -> (result: Result<
    (),
    SqliteSinkError,
>)
    ensures
        match result {
            Ok(_) => layout_fault(objects@, *plan) is None,
            Err(error) => layout_fault(objects@, *plan) == Some(error@),
        },
{
    proof {
        reveal_strlit("table");
        reveal_strlit("index");
        assert("table"@[0] != "index"@[0]);
    }
    let mut found_table: bool = false;
    let mut found_index: bool = false;
    let mut index: usize = 0;
    while index < objects.len()
        invariant
            "table"@ != "index"@,
            index <= objects@.len(),
            first_foreign(objects@, *plan, index as int) is None,
            found_table == has_object(objects@, "table"@, plan.table_name@, index as int),
            found_index == has_object(objects@, "index"@, plan.index_name@, index as int),
        decreases objects@.len() - index,
    {
        let object: &SchemaObject = &objects[index];
        let is_table: bool = same_text(object.kind.as_str(), "table") && same_text(
            object.name.as_str(),
            plan.table_name.as_str(),
        );
        let is_index: bool = same_text(object.kind.as_str(), "index") && same_text(
            object.name.as_str(),
            plan.index_name.as_str(),
        );
        let owned: bool = (is_table && is_text(&object.definition, plan.create_table.as_str())) || (
        is_index && is_text(&object.definition, plan.create_index.as_str()));
        if !owned {
            proof {
                lemma_foreign_stays(objects@, *plan, index + 1, objects@.len() as int);
            }
            return Err(SqliteSinkError::TargetLayoutMismatch { name: object.name.clone() });
        }
        proof {
            lemma_has_object_next(objects@, "table"@, plan.table_name@, index as int);
            lemma_has_object_next(objects@, "index"@, plan.index_name@, index as int);
        }
        found_table = found_table || is_table;
        found_index = found_index || is_index;
        index += 1;
    }
    if !found_table {
        return Err(SqliteSinkError::TargetMissing { name: plan.table_name.clone() });
    }
    if !found_index {
        return Err(SqliteSinkError::TargetMissing { name: plan.index_name.clone() });
    }
    Ok(())
}

proof fn lemma_has_object_next(
    objects: Seq<SchemaObject>,
    kind: Seq<char>,
    name: Seq<char>,
    count: int,
)
    requires
        0 <= count < objects.len(),
    ensures
        has_object(objects, kind, name, count + 1) == (has_object(objects, kind, name, count)
            || object_is(objects[count], kind, name)),
{
    if has_object(objects, kind, name, count) {
        let i = choose|i: int| 0 <= i < count && #[trigger] object_is(objects[i], kind, name);
        assert(object_is(objects[i], kind, name));
    }
    if has_object(objects, kind, name, count + 1) && !object_is(objects[count], kind, name) {
        let i = choose|i: int| 0 <= i < count + 1 && #[trigger] object_is(objects[i], kind, name);
        assert(object_is(objects[i], kind, name) && i < count);
    }
}

/// Whether a mutation still has to be written, given whether the target holds the same row
/// under its ID, another one, or none. It is refused where another row is there.
pub open spec fn must_write(kind: MutationKind, same_row: Option<bool>) -> Option<bool> {
    match same_row {
        None => Some(kind is Insert),
        Some(true) => Some(kind is Delete),
        Some(false) => None,
    }
}

/// Decides whether a mutation still has to be written. One that was written before is passed
/// over.
pub fn apply_mutation(mutation: Mutation, same_row: Option<bool>) -> (result: Result<
    bool,
    SqliteSinkError,
>)
    ensures
        match must_write(mutation.kind, same_row) {
            Some(write) => result is Ok && result->Ok_0 == write,
            None => result is Err && result->Err_0@ == (match mutation.kind {
                MutationKind::Insert => SqliteErrorModel::TechnicalIdConflict {
                    id: mutation.technical_id,
                },
                MutationKind::Delete => SqliteErrorModel::DeleteRowMismatch {
                    id: mutation.technical_id,
                },
            }),
        },
{
    match (mutation.kind, same_row) {
        (MutationKind::Insert, None) => Ok(true),
        (MutationKind::Delete, None) => Ok(false),
        (MutationKind::Insert, Some(true)) => Ok(false),
        (MutationKind::Delete, Some(true)) => Ok(true),
        (MutationKind::Insert, Some(false)) => Err(
            SqliteSinkError::TechnicalIdConflict { id: mutation.technical_id },
        ),
        (MutationKind::Delete, Some(false)) => Err(
            SqliteSinkError::DeleteRowMismatch { id: mutation.technical_id },
        ),
    }
}

/// Answers a query of a planner from the IDs that a target read for its row.
pub fn matching_instances(read: &Vec<i64>, query: &Query) -> (result: Result<
    MatchingIds,
    SqliteSinkError,
>)
    ensures
        match result {
            Ok(matching) => {
                let ids = read@.map_values(|id: i64| id as u64);
                &&& first_nonpositive(read@, read@.len() as int) is None
                &&& matching.count == counted(ids, *query)
                &&& matching.selected@ == chosen(ids, *query)
            },
            Err(error) => {
                let bad = first_nonpositive(read@, read@.len() as int);
                &&& bad is Some
                &&& error@ == (SqliteErrorModel::InvalidStoredTechnicalId { id: bad->0 })
            },
        },
{
    match matching_ids(read, None) {
        Ok(found) => Ok(select_instances(&found.ids, query)),
        Err(error) => Err(error),
    }
}

proof fn lemma_all_owned(objects: Seq<SchemaObject>, plan: SqlPlan, count: int)
    requires
        0 <= count <= objects.len(),
    ensures
        first_foreign(objects, plan, count) is None <==> forall|i: int|
            0 <= i < count ==> object_owned(#[trigger] objects[i], plan),
    decreases count,
{
    if count > 0 {
        lemma_all_owned(objects, plan, count - 1);
    }
}

/// A table is accepted exactly where each of its objects was made by the statement that creates
/// the table, or by the one that creates the index, and both are there.
pub proof fn law_accepted_layout_is_the_created_one(objects: Seq<SchemaObject>, plan: SqlPlan)
    ensures
        layout_fault(objects, plan) is None <==> {
            &&& forall|i: int|
                0 <= i < objects.len() ==> ((#[trigger] objects[i]).definition is Some && {
                    let made = objects[i].definition->0@;
                    ||| objects[i].kind@ == "table"@ && objects[i].name@ == plan.table_name@ && made
                        == plan.create_table@
                    ||| objects[i].kind@ == "index"@ && objects[i].name@ == plan.index_name@ && made
                        == plan.create_index@
                })
            &&& exists|i: int|
                0 <= i < objects.len() && (#[trigger] objects[i]).kind@ == "table"@
                    && objects[i].name@ == plan.table_name@
            &&& exists|i: int|
                0 <= i < objects.len() && (#[trigger] objects[i]).kind@ == "index"@
                    && objects[i].name@ == plan.index_name@
        },
{
    let count = objects.len() as int;
    lemma_all_owned(objects, plan, count);
    assert forall|i: int| 0 <= i < count implies object_owned(#[trigger] objects[i], plan) == (
    objects[i].definition is Some && {
        let made = objects[i].definition->0@;
        ||| objects[i].kind@ == "table"@ && objects[i].name@ == plan.table_name@ && made
            == plan.create_table@
        ||| objects[i].kind@ == "index"@ && objects[i].name@ == plan.index_name@ && made
            == plan.create_index@
    }) by {}
    if exists|i: int|
        0 <= i < objects.len() && (#[trigger] objects[i]).kind@ == "table"@ && objects[i].name@
            == plan.table_name@ {
        let i = choose|i: int|
            0 <= i < objects.len() && (#[trigger] objects[i]).kind@ == "table"@ && objects[i].name@
                == plan.table_name@;
        assert(object_is(objects[i], "table"@, plan.table_name@));
    }
    if exists|i: int|
        0 <= i < objects.len() && (#[trigger] objects[i]).kind@ == "index"@ && objects[i].name@
            == plan.index_name@ {
        let i = choose|i: int|
            0 <= i < objects.len() && (#[trigger] objects[i]).kind@ == "index"@ && objects[i].name@
                == plan.index_name@;
        assert(object_is(objects[i], "index"@, plan.index_name@));
    }
}

} // verus!
