//! What a PostgreSQL relation does with a planned batch, and with what it reads back.

use crate::change::{Change, RecordBatch};
use crate::postgres::config::PostgresTargetSpec;
use crate::postgres::error::{invalid_batch, PostgresErrorModel, PostgresSinkError};
use crate::postgres::row::{bound_row, value_views, EncodedRow, PostgresRowCodec};
use crate::postgres::schema::PostgresLayout;
use crate::postgres::target::SqlPlan;
use crate::relation::batch::{Delete, Insert};
use crate::relation::plan::{Lookup, Matches};
use crate::relation::row::{canonical_bytes, hash_of};
use crate::sqlite::row::encode_fault;
use crate::text::same_text;
use vstd::prelude::*;

verus! {

/// Requires that the sink runs on the database that its target is in.
pub fn verify_database(runtime_database: &str, spec: &PostgresTargetSpec) -> (result: Result<
    (),
    PostgresSinkError,
>)
    ensures
        match result {
            Ok(_) => runtime_database@ == spec@.database,
            Err(error) => runtime_database@ != spec@.database && error@
                == PostgresErrorModel::DatabaseMismatch,
        },
{
    if same_text(runtime_database, spec.database()) {
        Ok(())
    } else {
        Err(PostgresSinkError::DatabaseMismatch)
    }
}

/// Whether an ID fits the positive integers of PostgreSQL.
pub open spec fn positive(id: u64) -> bool {
    0 < id <= i64::MAX
}

/// What is said of an ID that does not fit.
pub open spec fn unfit_id() -> PostgresErrorModel {
    PostgresErrorModel::InvalidBatch {
        message: "technical ID must fit positive PostgreSQL bigint"@,
    }
}

pub fn positive_i64(id: u64) -> (result: Result<i64, PostgresSinkError>)
    ensures
        match result {
            Ok(value) => positive(id) && value == id,
            Err(error) => !positive(id) && error@ == unfit_id(),
        },
{
    if 0 < id && id <= 0x7fff_ffff_ffff_ffff {
        Ok(id as i64)
    } else {
        Err(invalid_batch("technical ID must fit positive PostgreSQL bigint"))
    }
}

/// The insertions of a batch: the rows that they insert, and for each its ID and the place of
/// its row.
#[derive(Debug)]
pub struct EncodedInserts {
    pub rows: Vec<EncodedRow>,
    pub inserts: Vec<EncodedInsert>,
}

#[derive(Clone, Copy, Debug, PartialEq, Eq, Structural)]
pub struct EncodedInsert {
    pub technical_id: i64,
    pub row: usize,
}

/// Why an insertion cannot be written, if it cannot.
pub open spec fn insert_fault(layout: PostgresLayout, batch: RecordBatch, insert: Insert) -> Option<
    PostgresErrorModel,
> {
    if insert.row_index > usize::MAX {
        Some(PostgresErrorModel::InvalidBatch { message: "insert row index exceeds usize"@ })
    } else {
        match encode_fault(layout.schema, batch, insert.row_index as int) {
            Some(fault) => Some(PostgresErrorModel::Row(fault)),
            None => if positive(insert.technical_id) {
                None
            } else {
                Some(unfit_id())
            },
        }
    }
}

/// The first reason among the first `count` insertions.
pub open spec fn inserts_fault(
    layout: PostgresLayout,
    batch: RecordBatch,
    inserts: Seq<Insert>,
    count: int,
) -> Option<PostgresErrorModel>
    decreases count,
{
    if count <= 0 {
        None
    } else {
        match inserts_fault(layout, batch, inserts, count - 1) {
            Some(fault) => Some(fault),
            None => insert_fault(layout, batch, inserts[count - 1]),
        }
    }
}

proof fn lemma_inserts_fault_stays(
    layout: PostgresLayout,
    batch: RecordBatch,
    inserts: Seq<Insert>,
    low: int,
    high: int,
)
    requires
        low <= high,
        inserts_fault(layout, batch, inserts, low) is Some,
    ensures
        inserts_fault(layout, batch, inserts, high) == inserts_fault(layout, batch, inserts, low),
    decreases high - low,
{
    if low < high {
        lemma_inserts_fault_stays(layout, batch, inserts, low, high - 1);
    }
}

/// Whether a row is the encoding of the row at `index`.
pub open spec fn encodes(
    row: EncodedRow,
    layout: PostgresLayout,
    batch: RecordBatch,
    index: int,
) -> bool {
    &&& row.hash@ == hash_of(canonical_bytes(batch, index))
    &&& value_views(row.values@) == bound_row(layout, batch, index, batch.columns@.len())
}

/// Encodes the rows of insertions; neighbours of the same row share its encoding.
pub fn encode_inserts(codec: &PostgresRowCodec, input: &Change, inserts: &Vec<Insert>) -> (result:
    Result<EncodedInserts, PostgresSinkError>)
    requires
        input.wf(),
        codec.layout.wf(),
    ensures
        ({
            let fault = inserts_fault(
                codec.layout,
                input.records,
                inserts@,
                inserts@.len() as int,
            );
            match result {
                Ok(encoded) => {
                    &&& fault is None
                    &&& encoded.inserts@.len() == inserts@.len()
                    &&& forall|i: int|
                        0 <= i < inserts@.len() ==> {
                            let insert = #[trigger] encoded.inserts@[i];
                            &&& insert.technical_id == inserts@[i].technical_id
                            &&& insert.row < encoded.rows@.len()
                            &&& encodes(
                                encoded.rows@[insert.row as int],
                                codec.layout,
                                input.records,
                                inserts@[i].row_index as int,
                            )
                        }
                },
                Err(error) => fault == Some(error@),
            }
        }),
{
    let ghost layout = codec.layout;
    let ghost batch = input.records;
    let ghost total = inserts@.len() as int;
    let mut rows: Vec<EncodedRow> = Vec::new();
    let mut encoded: Vec<EncodedInsert> = Vec::new();
    let mut cached: Option<u64> = None;
    let mut index: usize = 0;
    while index < inserts.len()
        invariant
            input.wf(),
            codec.layout.wf(),
            layout == codec.layout,
            batch == input.records,
            total == inserts@.len(),
            index <= inserts@.len(),
            inserts_fault(layout, batch, inserts@, index as int) is None,
            cached is Some ==> {
                &&& rows@.len() > 0
                &&& cached->0 <= usize::MAX
                &&& encode_fault(layout.schema, batch, cached->0 as int) is None
                &&& encodes(rows@[rows@.len() - 1], layout, batch, cached->0 as int)
            },
            encoded@.len() == index,
            forall|i: int|
                0 <= i < index ==> {
                    let insert = #[trigger] encoded@[i];
                    &&& insert.technical_id == inserts@[i].technical_id
                    &&& insert.row < rows@.len()
                    &&& encodes(
                        rows@[insert.row as int],
                        layout,
                        batch,
                        inserts@[i].row_index as int,
                    )
                },
        decreases inserts@.len() - index,
    {
        let insert: Insert = inserts[index];
        proof {
            if insert_fault(layout, batch, insert) is Some {
                lemma_inserts_fault_stays(layout, batch, inserts@, index + 1, total);
            }
        }
        let known: bool = match cached {
            Some(row) => row == insert.row_index,
            None => false,
        };
        if !known {
            if insert.row_index > usize::MAX as u64 {
                return Err(invalid_batch("insert row index exceeds usize"));
            }
            match codec.encode_row(&input.records, insert.row_index as usize) {
                Ok(row) => {
                    rows.push(row);
                    cached = Some(insert.row_index);
                },
                Err(error) => {
                    return Err(PostgresSinkError::Row(error));
                },
            }
        }
        let technical_id: i64 = positive_i64(insert.technical_id)?;
        encoded.push(EncodedInsert { technical_id, row: rows.len() - 1 });
        index += 1;
    }
    Ok(EncodedInserts { rows, inserts: encoded })
}

/// Whether the IDs of the first `count` deletions fit.
pub open spec fn deletes_fit(deletes: Seq<Delete>) -> bool {
    forall|i: int| 0 <= i < deletes.len() ==> positive((#[trigger] deletes[i]).technical_id)
}

/// The IDs of deletions.
pub fn delete_ids(deletes: &Vec<Delete>) -> (result: Result<Vec<i64>, PostgresSinkError>)
    ensures
        match result {
            Ok(ids) => {
                &&& deletes_fit(deletes@)
                &&& ids@.len() == deletes@.len()
                &&& forall|i: int|
                    0 <= i < ids@.len() ==> #[trigger] ids@[i] == deletes@[i].technical_id
            },
            Err(error) => !deletes_fit(deletes@) && error@ == unfit_id(),
        },
{
    let mut ids: Vec<i64> = Vec::new();
    let mut index: usize = 0;
    while index < deletes.len()
        invariant
            index <= deletes@.len(),
            ids@.len() == index,
            forall|i: int| 0 <= i < index ==> positive((#[trigger] deletes@[i]).technical_id),
            forall|i: int| 0 <= i < index ==> #[trigger] ids@[i] == deletes@[i].technical_id,
        decreases deletes@.len() - index,
    {
        match positive_i64(deletes[index].technical_id) {
            Ok(id) => {
                ids.push(id);
            },
            Err(error) => {
                assert(!positive(deletes@[index as int].technical_id));
                return Err(error);
            },
        }
        index += 1;
    }
    Ok(ids)
}

/// What a lookup binds: how many rows it needs, up to the largest integer, and how many IDs
/// it takes.
pub fn lookup_limits(request: &Lookup) -> (result: Result<(i64, i64), PostgresSinkError>)
    ensures
        match result {
            Ok((needed, take)) => {
                &&& request.take <= i64::MAX
                &&& needed == (if request.needed <= i64::MAX {
                    request.needed as int
                } else {
                    i64::MAX as int
                })
                &&& take == request.take
            },
            Err(error) => request.take > i64::MAX && error@ == (PostgresErrorModel::InvalidBatch {
                message: "lookup take exceeds bigint"@,
            }),
        },
{
    let needed: u64 = if request.needed <= 0x7fff_ffff_ffff_ffff {
        request.needed
    } else {
        0x7fff_ffff_ffff_ffff
    };
    let take: u64 = request.take as u64;
    if take > 0x7fff_ffff_ffff_ffff {
        return Err(invalid_batch("lookup take exceeds bigint"));
    }
    Ok((needed as i64, take as i64))
}

/// One row of a reply to lookups: how many rows match, and the IDs of some of them.
#[derive(Debug)]
pub struct MatchRow {
    pub count: i64,
    pub ids: Vec<i64>,
}

/// Why a row of a reply is refused, if it is.
pub open spec fn match_fault(row: MatchRow) -> Option<Seq<char>> {
    if row.count < 0 {
        Some("negative matching-row count"@)
    } else if exists|i: int| 0 <= i < row.ids@.len() && #[trigger] row.ids@[i] <= 0 {
        Some("nonpositive target technical ID"@)
    } else {
        None
    }
}

/// The first reason among the first `count` rows.
pub open spec fn reply_fault(rows: Seq<MatchRow>, count: int) -> Option<Seq<char>>
    decreases count,
{
    if count <= 0 {
        None
    } else {
        match reply_fault(rows, count - 1) {
            Some(fault) => Some(fault),
            None => match_fault(rows[count - 1]),
        }
    }
}

proof fn lemma_reply_fault_stays(rows: Seq<MatchRow>, low: int, high: int)
    requires
        low <= high,
        reply_fault(rows, low) is Some,
    ensures
        reply_fault(rows, high) == reply_fault(rows, low),
    decreases high - low,
{
    if low < high {
        lemma_reply_fault_stays(rows, low, high - 1);
    }
}

/// Whether matches are what a row of a reply says.
pub open spec fn says(row: MatchRow, found: Matches) -> bool {
    &&& found.count == row.count
    &&& found.ids@.len() == row.ids@.len()
    &&& forall|i: int| 0 <= i < found.ids@.len() ==> #[trigger] found.ids@[i] == row.ids@[i]
}

fn read_match(row: &MatchRow) -> (result: Result<Matches, PostgresSinkError>)
    ensures
        match result {
            Ok(found) => match_fault(*row) is None && says(*row, found),
            Err(error) => match_fault(*row) is Some && error@ == (
            PostgresErrorModel::InvalidBatch { message: match_fault(*row)->0 }),
        },
{
    if row.count < 0 {
        return Err(invalid_batch("negative matching-row count"));
    }
    let mut ids: Vec<u64> = Vec::new();
    let mut index: usize = 0;
    while index < row.ids.len()
        invariant
            row.count >= 0,
            index <= row.ids@.len(),
            ids@.len() == index,
            forall|i: int| 0 <= i < index ==> #[trigger] row.ids@[i] > 0,
            forall|i: int| 0 <= i < index ==> #[trigger] ids@[i] == row.ids@[i],
        decreases row.ids@.len() - index,
    {
        let id: i64 = row.ids[index];
        if id <= 0 {
            assert(row.ids@[index as int] <= 0);
            return Err(invalid_batch("nonpositive target technical ID"));
        }
        ids.push(id as u64);
        index += 1;
    }
    Ok(Matches { count: row.count as u64, ids })
}

/// Reads the reply to lookups.
pub fn read_lookup_rows(rows: &Vec<MatchRow>) -> (result: Result<Vec<Matches>, PostgresSinkError>)
    ensures
        ({
            let fault = reply_fault(rows@, rows@.len() as int);
            match result {
                Ok(found) => {
                    &&& fault is None
                    &&& found@.len() == rows@.len()
                    &&& forall|i: int|
                        0 <= i < found@.len() ==> says(rows@[i], #[trigger] found@[i])
                },
                Err(error) => fault is Some && error@ == (PostgresErrorModel::InvalidBatch {
                    message: fault->0,
                }),
            }
        }),
{
    let mut found: Vec<Matches> = Vec::new();
    let mut index: usize = 0;
    while index < rows.len()
        invariant
            index <= rows@.len(),
            found@.len() == index,
            reply_fault(rows@, index as int) is None,
            forall|i: int| 0 <= i < index ==> says(rows@[i], #[trigger] found@[i]),
        decreases rows@.len() - index,
    {
        match read_match(&rows[index]) {
            Ok(matches) => {
                found.push(matches);
            },
            Err(error) => {
                proof {
                    lemma_reply_fault_stays(rows@, index + 1, rows@.len() as int);
                }
                return Err(error);
            },
        }
        index += 1;
    }
    Ok(found)
}

/// Decides how an initialization begins, given how many of the three objects of the target
/// there are: whether they are still to be created.
pub fn begin_initialization(spec: &PostgresTargetSpec, count: i64) -> (result: Result<
    bool,
    PostgresSinkError,
>)
    ensures
        match result {
            Ok(create) => (count == 0 && create) || (count == 3 && !create),
            Err(error) => count != 0 && count != 3 && error@ == (if count < 0 {
                PostgresErrorModel::InvalidBatch { message: "invalid target object count"@ }
            } else {
                PostgresErrorModel::TargetLayoutMismatch { name: spec@.table }
            }),
        },
{
    if count < 0 {
        return Err(invalid_batch("invalid target object count"));
    }
    if count == 0 {
        Ok(true)
    } else if count == 3 {
        Ok(false)
    } else {
        Err(PostgresSinkError::TargetLayoutMismatch { name: spec.table().to_owned() })
    }
}

/// Requires that the relation holds no row yet.
pub fn require_empty(empty: bool) -> (result: Result<(), PostgresSinkError>)
    ensures
        match result {
            Ok(_) => empty,
            Err(error) => !empty && error@ == PostgresErrorModel::TargetNotEmpty,
        },
{
    if empty {
        Ok(())
    } else {
        Err(PostgresSinkError::TargetNotEmpty)
    }
}

/// What the catalog says of the relation.
#[derive(Debug, PartialEq, Eq)]
pub struct RelationRow {
    pub kind: String,
    pub persistence: String,
    pub partition: bool,
    pub row_security: bool,
    pub forced_row_security: bool,
    pub rules: bool,
    pub comment: Option<String>,
    /// It has triggers of its own, or takes part in inheritance.
    pub entangled: bool,
}

/// Whether the relation is a plain table with the mark of its sink.
pub open spec fn relation_fits(row: RelationRow, marker: Seq<char>) -> bool {
    &&& row.kind@ == "r"@
    &&& row.persistence@ == "p"@
    &&& !row.partition && !row.row_security && !row.forced_row_security && !row.rules
    &&& match row.comment {
        Some(comment) => comment@ == marker,
        None => false,
    }
    &&& !row.entangled
}

/// Requires that the relation is the one that the sink made.
pub fn verify_relation(plan: &SqlPlan, found: &Option<RelationRow>) -> (result: Result<
    (),
    PostgresSinkError,
>)
    ensures
        match result {
            Ok(_) => found is Some && relation_fits(found->0, plan.marker@),
            Err(error) => match found {
                None => error@ == (PostgresErrorModel::TargetMissing { name: plan.table_name@ }),
                Some(row) => !relation_fits(*row, plan.marker@) && error@ == (
                PostgresErrorModel::TargetLayoutMismatch { name: plan.table_name@ }),
            },
        },
{
    match found {
        None => Err(PostgresSinkError::TargetMissing { name: plan.table_name.clone() }),
        Some(row) => {
            let marked: bool = match &row.comment {
                Some(comment) => same_text(comment.as_str(), plan.marker.as_str()),
                None => false,
            };
            if same_text(row.kind.as_str(), "r") && same_text(row.persistence.as_str(), "p")
                && !row.partition && !row.row_security && !row.forced_row_security && !row.rules
                && marked && !row.entangled {
                Ok(())
            } else {
                Err(PostgresSinkError::TargetLayoutMismatch { name: plan.table_name.clone() })
            }
        },
    }
}

/// Requires that both indexes are there and as the sink made them.
pub fn verify_indexes(plan: &SqlPlan, count: i64, valid: bool) -> (result: Result<
    (),
    PostgresSinkError,
>)
    ensures
        match result {
            Ok(_) => count == 2 && valid,
            Err(error) => !(count == 2 && valid) && error@ == (
            PostgresErrorModel::TargetLayoutMismatch { name: plan.table_name@ }),
        },
{
    if count == 2 && valid {
        Ok(())
    } else {
        Err(PostgresSinkError::TargetLayoutMismatch { name: plan.table_name.clone() })
    }
}

} // verus!
