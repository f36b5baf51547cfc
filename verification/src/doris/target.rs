//! An Apache Doris relation: what it is asked, and what its answers lead to.

use crate::bytes::{copy_bytes, same_bytes};
use crate::change::{Change, RecordBatch};
use crate::doris::config::{marker_name, state_name, DorisTargetSpec, SpecModel};
use crate::doris::error::{database, invalid_batch, DorisErrorModel, DorisSinkError};
use crate::doris::row::{
    cells_of, row_digest, value_views, CellModel, DorisRowCodec, DorisValue, EncodedRow,
};
use crate::doris::schema::{
    catalog_name, column_views, ColumnLayout, ColumnModel, DorisLayout, MAX_LOGICAL_COLUMNS,
};
use crate::doris::sql::{
    clause_sql, expected_view_definition, insert_head, insert_prefix, lookup_clause, lookup_sql,
    lookup_statement, mutation_tuple, mutation_values, predicate_parts, row_predicate,
    view_definition,
};
use crate::relation::batch::TerminalMutation;
use crate::relation::converge::{decide, decision, Decision, Held};
use crate::relation::pack::{ends_of, pack, piece_start, pieces, PackLimits};
use crate::relation::plan::{Lookup, Matches};
use crate::relation::row::{bounded_fault, RowError};
use crate::relation::target::{
    charge_refused, event_charge, relation_event_bytes, ChargeError, MAX_TARGET_BATCH_BYTES,
};
use crate::sqlite::row::encode_fault;
use crate::text::{
    byte_len, compact, compact_of, copy_range, decimal, find_text, join, joined, lowered, parse_u64,
    parsed_u64, place_of, push_decimal, same_ignoring_case, same_text, text_bytes, utf8_text, views,
};
use vstd::prelude::*;
use vstd::utf8::{decode_utf8, encode_utf8_decode_utf8, valid_utf8};

verus! {

/// One statement answers at most this many lookups.
pub const MAX_LOOKUP_CLAUSES: usize = 128;

/// One statement has at most this many parameters.
pub const MAX_LOOKUP_PARAMETERS: usize = 65535;

/// The lookups of one statement take at most this many bytes, unless there is only one.
pub const MAX_LOOKUP_SQL_BYTES: usize = 4194304;

/// A statement that writes takes at most this many bytes, unless it writes only one row.
pub const MAX_WRITE_SQL_BYTES: usize = 4194304;

/// A statement that writes holds at most this many values, unless it writes only one row.
pub const MAX_WRITE_VALUES: usize = 10000;

/// Requires that the sink runs on the database that its target is in.
pub fn verify_database(runtime_database: &str, spec: &DorisTargetSpec) -> (result: Result<
    (),
    DorisSinkError,
>)
    ensures
        match result {
            Ok(_) => runtime_database@ == spec@.database,
            Err(error) => runtime_database@ != spec@.database && error@
                == DorisErrorModel::DatabaseMismatch,
        },
{
    if same_text(runtime_database, spec.database()) {
        Ok(())
    } else {
        Err(DorisSinkError::DatabaseMismatch)
    }
}

/// Requires that a cluster is the one that the target is in.
pub fn verify_cluster(spec: &DorisTargetSpec, ids: &Vec<u64>) -> (result: Result<(), DorisSinkError>)
    ensures
        match result {
            Ok(_) => ids@ == seq![spec@.cluster_id],
            Err(error) => ids@ != seq![spec@.cluster_id] && error@
                == DorisErrorModel::TargetIdentityChanged,
        },
{
    if ids.len() == 1 && ids[0] == spec.cluster_id() {
        assert(ids@ =~= seq![spec@.cluster_id]);
        Ok(())
    } else {
        assert(ids@.len() != 1 || ids@[0] != seq![spec@.cluster_id][0]);
        Err(DorisSinkError::TargetIdentityChanged)
    }
}

/// The bytes that it takes to write one row.
pub open spec fn written_bytes(
    model: SpecModel,
    layout: DorisLayout,
    batch: RecordBatch,
    row_index: int,
) -> nat {
    byte_len(
        mutation_tuple(
            u64::MAX,
            true,
            row_digest(batch, row_index),
            cells_of(batch, row_index, batch.columns@.len()),
        ),
    ) + byte_len(insert_head(model, column_views(layout.columns@)))
}

/// What an event of a row is charged with: the larger of what the relation charges and of
/// what it takes to write it.
pub fn event_bytes(
    spec: &DorisTargetSpec,
    codec: &DorisRowCodec,
    input: &Change,
    row_index: usize,
) -> (result: Result<u64, ChargeError<DorisSinkError>>)
    requires
        input.wf(),
        codec.layout.wf(),
    ensures
        ({
            let index = row_index as int;
            let charge = event_charge(*input, index);
            let encoded = written_bytes(spec@, codec.layout, input.records, index);
            let refused = bounded_fault(
                input.records,
                index,
                MAX_TARGET_BATCH_BYTES as usize,
            );
            let fault = encode_fault(codec.layout.schema, input.records, index);
            match result {
                Ok(bytes) => {
                    &&& refused is None
                    &&& fault is None
                    &&& bytes == (if charge < encoded {
                        encoded
                    } else {
                        charge
                    })
                },
                Err(ChargeError::Relation(error)) => charge_refused(*input, index, error@),
                Err(ChargeError::Target(error)) => {
                    &&& refused is None
                    &&& match fault {
                        Some(fault) => error@ == DorisErrorModel::Row(fault),
                        None => encoded > usize::MAX && error@ == (DorisErrorModel::InvalidBatch {
                            message: "Doris event byte charge exceeds u64"@,
                        }),
                    }
                },
            }
        }),
{
    let baseline: u64 = match relation_event_bytes(input, row_index) {
        Ok(bytes) => bytes,
        Err(error) => {
            return Err(ChargeError::Relation(error));
        },
    };
    let row: EncodedRow = match codec.encode_row(&input.records, row_index) {
        Ok(row) => row,
        Err(error) => {
            return Err(ChargeError::Target(DorisSinkError::Row(error)));
        },
    };
    let row_bytes: usize = text_bytes(mutation_values(u64::MAX, true, &row).as_str());
    let frame: usize = text_bytes(insert_prefix(spec, &codec.layout.columns).as_str());
    match row_bytes.checked_add(frame) {
        None => Err(ChargeError::Target(invalid_batch("Doris event byte charge exceeds u64"))),
        Some(encoded) => if baseline < encoded as u64 {
            Ok(encoded as u64)
        } else {
            Ok(baseline)
        },
    }
}

/// The lookups that one statement answers, with its parameters.
#[derive(Debug)]
pub struct LookupPiece {
    pub start: usize,
    pub end: usize,
    pub sql: String,
    pub parameters: Vec<DorisValue>,
}

/// The statements that answer lookups, in order, and the row that stops them, if one does.
#[derive(Debug)]
pub struct LookupPlan {
    pub pieces: Vec<LookupPiece>,
    pub fault: Option<RowError>,
}

/// The lookup at `index` in a statement.
pub open spec fn clause_at(
    model: SpecModel,
    columns: Seq<ColumnModel>,
    requests: Seq<Lookup>,
    index: int,
) -> Seq<char> {
    clause_sql(
        model,
        index as nat,
        requests[index].needed,
        requests[index].take,
        joined(predicate_parts(columns), " AND "@),
    )
}

/// The parameters of a lookup: the hash and the values of its row.
pub open spec fn parameters_at(batch: RecordBatch, requests: Seq<Lookup>, index: int) -> Seq<
    CellModel,
> {
    let row = requests[index].row_index as int;
    seq![CellModel::Bytes(row_digest(batch, row))] + cells_of(batch, row, batch.columns@.len())
}

/// The parameters of the lookups from `start` up to `end`.
pub open spec fn parameters_of(
    batch: RecordBatch,
    requests: Seq<Lookup>,
    start: int,
    end: int,
) -> Seq<CellModel>
    decreases end - start,
{
    if start >= end {
        Seq::empty()
    } else {
        parameters_of(batch, requests, start, end - 1) + parameters_at(batch, requests, end - 1)
    }
}

/// How many lookups come before the first whose row cannot be encoded.
pub open spec fn encodable(
    layout: DorisLayout,
    batch: RecordBatch,
    requests: Seq<Lookup>,
    count: int,
) -> int
    decreases count,
{
    if count <= 0 {
        0
    } else {
        let before = encodable(layout, batch, requests, count - 1);
        if before < count - 1 || encode_fault(
            layout.schema,
            batch,
            requests[count - 1].row_index as int,
        ) is Some {
            before
        } else {
            count
        }
    }
}

/// The lookups from `start` up to `end` in a statement.
pub open spec fn clauses(
    model: SpecModel,
    columns: Seq<ColumnModel>,
    requests: Seq<Lookup>,
    start: int,
    end: int,
) -> Seq<Seq<char>> {
    Seq::new((end - start) as nat, |i: int| clause_at(model, columns, requests, start + i))
}

/// The sizes of the first `count` lookups.
pub open spec fn clause_sizes(
    model: SpecModel,
    columns: Seq<ColumnModel>,
    requests: Seq<Lookup>,
    count: int,
) -> Seq<usize> {
    Seq::new(count as nat, |i: int| byte_len(clause_at(model, columns, requests, i)) as usize)
}

/// What one statement of lookups may hold: each lookup has a parameter for the hash and one
/// for each column.
pub open spec fn lookup_limits(columns: nat) -> PackLimits {
    let fit = 65535nat / (columns + 1);
    PackLimits {
        frame: 0,
        bytes: MAX_LOOKUP_SQL_BYTES,
        rows: if fit < 128 {
            fit as usize
        } else {
            MAX_LOOKUP_CLAUSES
        },
    }
}

/// Where each statement of a plan stops. The last lookups before a row that stops them are
/// not sent.
pub open spec fn lookup_ends(
    model: SpecModel,
    layout: DorisLayout,
    batch: RecordBatch,
    requests: Seq<Lookup>,
) -> Seq<int> {
    let columns = column_views(layout.columns@);
    let count = encodable(layout, batch, requests, requests.len() as int);
    let ends = pieces(
        clause_sizes(model, columns, requests, count),
        0,
        lookup_limits(columns.len()),
    );
    if count < requests.len() && ends.len() > 0 {
        ends.drop_last()
    } else {
        ends
    }
}

proof fn lemma_encodable_stays(
    layout: DorisLayout,
    batch: RecordBatch,
    requests: Seq<Lookup>,
    low: int,
    high: int,
)
    requires
        0 <= low <= high,
        encodable(layout, batch, requests, low) < low,
    ensures
        encodable(layout, batch, requests, high) == encodable(layout, batch, requests, low),
    decreases high - low,
{
    if low < high {
        lemma_encodable_stays(layout, batch, requests, low, high - 1);
    }
}

/// Copies a value.
pub fn copy_value(value: &DorisValue) -> (copy: DorisValue)
    ensures
        copy@ == value@,
{
    match value {
        DorisValue::Null => DorisValue::Null,
        DorisValue::Int(number) => DorisValue::Int(*number),
        DorisValue::UInt(number) => DorisValue::UInt(*number),
        DorisValue::Bytes(bytes) => DorisValue::Bytes(copy_bytes(bytes.as_slice())),
        DorisValue::Other => DorisValue::Other,
    }
}

/// Appends the hash and the values of a row.
fn push_row(parameters: &mut Vec<DorisValue>, row: &EncodedRow)
    ensures
        value_views(final(parameters)@) == value_views(old(parameters)@) + (seq![
            CellModel::Bytes(row.hash@),
        ] + value_views(row.values@)),
{
    let ghost first = value_views(parameters@);
    let ghost cells = seq![CellModel::Bytes(row.hash@)] + value_views(row.values@);
    let ghost initial = parameters@;
    let hash: DorisValue = DorisValue::Bytes(copy_bytes(row.hash.as_slice()));
    parameters.push(hash);
    proof {
        assert(value_views(parameters@) =~= value_views(initial).push(hash@));
        assert(value_views(parameters@) =~= first + cells.take(1));
    }
    let mut index: usize = 0;
    while index < row.values.len()
        invariant
            cells == seq![CellModel::Bytes(row.hash@)] + value_views(row.values@),
            index <= row.values@.len(),
            value_views(parameters@) == first + cells.take(1 + index),
        decreases row.values@.len() - index,
    {
        let ghost before = parameters@;
        let value: DorisValue = copy_value(&row.values[index]);
        parameters.push(value);
        proof {
            assert(value_views(parameters@) =~= value_views(before).push(value@));
            assert(cells[1 + index] == row.values@[index as int]@);
            assert(value_views(parameters@) =~= first + cells.take(1 + index + 1));
        }
        index += 1;
    }
    assert(cells.take(1 + index) =~= cells);
}

/// A piece is that of the lookups between two stops.
pub open spec fn piece_fits(
    piece: LookupPiece,
    model: SpecModel,
    layout: DorisLayout,
    batch: RecordBatch,
    requests: Seq<Lookup>,
    start: int,
    end: int,
) -> bool {
    &&& piece.start == start
    &&& piece.end == end
    &&& piece.sql@ == lookup_sql(
        clauses(model, column_views(layout.columns@), requests, start, end),
    )
    &&& value_views(piece.parameters@) == parameters_of(batch, requests, start, end)
}

/// Plans the statements that answer lookups.
pub fn plan_lookup(
    spec: &DorisTargetSpec,
    codec: &DorisRowCodec,
    input: &Change,
    requests: &Vec<Lookup>,
) -> (plan: LookupPlan)
    requires
        input.wf(),
        codec.layout.wf(),
    ensures
        ({
            let layout = codec.layout;
            let batch = input.records;
            let count = encodable(layout, batch, requests@, requests@.len() as int);
            let ends = lookup_ends(spec@, layout, batch, requests@);
            &&& plan.fault is None <==> count == requests@.len()
            &&& plan.fault is Some ==> encode_fault(
                layout.schema,
                batch,
                requests@[count].row_index as int,
            ) == Some(plan.fault->0@)
            &&& plan.pieces@.len() == ends.len()
            &&& forall|i: int|
                0 <= i < ends.len() ==> piece_fits(
                    #[trigger] plan.pieces@[i],
                    spec@,
                    layout,
                    batch,
                    requests@,
                    piece_start(ends, i),
                    ends[i],
                )
        }),
{
    let ghost layout = codec.layout;
    let ghost batch = input.records;
    let ghost columns = column_views(codec.layout.columns@);
    let predicate: String = row_predicate(&codec.layout.columns);
    let mut texts: Vec<String> = Vec::new();
    let mut sizes: Vec<usize> = Vec::new();
    let mut rows: Vec<EncodedRow> = Vec::new();
    let mut fault: Option<RowError> = None;
    let mut index: usize = 0;
    assert(views(texts@) =~= clauses(spec@, columns, requests@, 0, 0));
    assert(sizes@ =~= clause_sizes(spec@, columns, requests@, 0));
    while index < requests.len() && fault.is_none()
        invariant
            input.wf(),
            codec.layout.wf(),
            layout == codec.layout,
            batch == input.records,
            columns == column_views(codec.layout.columns@),
            predicate@ == joined(predicate_parts(columns), " AND "@),
            index <= requests@.len(),
            views(texts@) == clauses(spec@, columns, requests@, 0, index as int),
            sizes@ == clause_sizes(spec@, columns, requests@, index as int),
            rows@.len() == index,
            forall|i: int|
                0 <= i < index ==> parameters_at(batch, requests@, i) == seq![
                    CellModel::Bytes((#[trigger] rows@[i]).hash@),
                ] + value_views(rows@[i].values@),
            encodable(layout, batch, requests@, index as int) == index,
            match fault {
                None => true,
                Some(error) => index < requests@.len() && encode_fault(
                    layout.schema,
                    batch,
                    requests@[index as int].row_index as int,
                ) == Some(error@),
            },
        decreases
            requests@.len() - index,
            (if fault is None {
                1int
            } else {
                0int
            }),
    {
        let request: Lookup = requests[index];
        match codec.encode_row(&input.records, request.row_index) {
            Ok(row) => {
                let text: String = lookup_clause(spec, index, &request, predicate.as_str());
                let ghost before = texts@;
                sizes.push(text_bytes(text.as_str()));
                texts.push(text);
                rows.push(row);
                proof {
                    assert(views(texts@) =~= views(before).push(text@));
                    assert(text@ == clause_at(spec@, columns, requests@, index as int));
                    assert(views(texts@) =~= clauses(spec@, columns, requests@, 0, index + 1));
                    assert(sizes@ =~= clause_sizes(spec@, columns, requests@, index + 1));
                }
                index += 1;
            },
            Err(error) => {
                fault = Some(error);
            },
        }
    }
    proof {
        if fault is Some {
            assert(encodable(layout, batch, requests@, index + 1) == index);
            lemma_encodable_stays(
                layout,
                batch,
                requests@,
                index + 1,
                requests@.len() as int,
            );
        }
        assert(columns.len() == crate::doris::schema::columns_of(layout.schema@.fields).len());
        assert(columns.len() <= MAX_LOGICAL_COLUMNS);
        assert(columns.len() == codec.layout.columns@.len());
    }
    let fit: usize = MAX_LOOKUP_PARAMETERS / (codec.layout.columns.len() + 1);
    let limits: PackLimits = PackLimits {
        frame: 0,
        bytes: MAX_LOOKUP_SQL_BYTES,
        rows: if fit < 128 {
            fit
        } else {
            MAX_LOOKUP_CLAUSES
        },
    };
    assert(limits == lookup_limits(columns.len()));
    let ends: Vec<usize> = pack(&sizes, limits);
    let ghost all = ends_of(ends@);
    assert(all.len() == ends@.len());
    let count: usize = if fault.is_some() && ends.len() > 0 {
        ends.len() - 1
    } else {
        ends.len()
    };
    let ghost stops = lookup_ends(spec@, layout, batch, requests@);
    proof {
        assert(stops =~= all.take(count as int));
        if sizes@.len() > 0 {
            crate::relation::pack::law_pieces_cover_all_rows(sizes@, limits);
            crate::relation::pack::lemma_pieces_cover(sizes@, 0, limits);
        }
    }
    let mut pieces_out: Vec<LookupPiece> = Vec::new();
    let mut start: usize = 0;
    let mut place: usize = 0;
    while place < count
        invariant
            layout == codec.layout,
            batch == input.records,
            columns == column_views(codec.layout.columns@),
            place <= count <= ends@.len(),
            all == ends_of(ends@),
            all.len() == ends@.len(),
            stops == all.take(count as int),
            texts@.len() == index,
            rows@.len() == index,
            forall|i: int|
                0 <= i < index ==> parameters_at(batch, requests@, i) == seq![
                    CellModel::Bytes((#[trigger] rows@[i]).hash@),
                ] + value_views(rows@[i].values@),
            views(texts@) == clauses(spec@, columns, requests@, 0, index as int),
            forall|i: int|
                0 <= i < all.len() ==> piece_start(all, i) < #[trigger] all[i] <= index,
            start == piece_start(all, place as int),
            pieces_out@.len() == place,
            forall|i: int|
                0 <= i < place ==> piece_fits(
                    #[trigger] pieces_out@[i],
                    spec@,
                    layout,
                    batch,
                    requests@,
                    piece_start(stops, i),
                    stops[i],
                ),
        decreases count - place,
    {
        let end: usize = ends[place];
        proof {
            assert(all[place as int] == end);
            assert(piece_start(all, place as int) < all[place as int]);
            assert(stops[place as int] == end);
            assert(piece_start(stops, place as int) == start);
        }
        let part: Vec<String> = copy_range(&texts, start, end);
        assert(views(part@) =~= clauses(spec@, columns, requests@, start as int, end as int));
        let sql: String = lookup_statement(&part);
        let mut parameters: Vec<DorisValue> = Vec::new();
        let mut row: usize = start;
        assert(value_views(parameters@) =~= parameters_of(
            batch,
            requests@,
            start as int,
            start as int,
        ));
        while row < end
            invariant
                start <= row <= end <= index,
                rows@.len() == index,
                forall|i: int|
                    0 <= i < index ==> parameters_at(batch, requests@, i) == seq![
                        CellModel::Bytes((#[trigger] rows@[i]).hash@),
                    ] + value_views(rows@[i].values@),
                value_views(parameters@) == parameters_of(
                    batch,
                    requests@,
                    start as int,
                    row as int,
                ),
            decreases end - row,
        {
            push_row(&mut parameters, &rows[row]);
            row += 1;
            assert(parameters_at(batch, requests@, row - 1) == seq![
                CellModel::Bytes(rows@[row - 1].hash@),
            ] + value_views(rows@[row - 1].values@));
        }
        pieces_out.push(LookupPiece { start, end, sql, parameters });
        start = end;
        place += 1;
    }
    LookupPlan { pieces: pieces_out, fault }
}

/// One row of a reply to lookups: the number of the lookup, an ID, and how many rows match.
#[derive(Clone, Copy, Debug, PartialEq, Eq, Structural)]
pub struct MatchRow {
    pub request: u64,
    pub id: Option<u64>,
    pub count: u64,
}

/// How many rows match a lookup, and the IDs of some of them.
pub ghost struct MatchModel {
    pub count: u64,
    pub ids: Seq<u64>,
}

/// The matches with one row more, or the stage at which that fails.
pub open spec fn with_match(found: Seq<MatchModel>, start: nat, row: MatchRow) -> Result<
    Seq<MatchModel>,
    Seq<char>,
> {
    if row.request > usize::MAX {
        Err("decode matching request index"@)
    } else {
        let goes_on = found.len() > 0 && row.request == start + found.len() - 1;
        if !goes_on && row.request != start + found.len() {
            Err("decode matching request order"@)
        } else {
            let opened = if goes_on {
                found
            } else {
                found.push(MatchModel { count: row.count, ids: Seq::empty() })
            };
            if opened.last().count != row.count || (row.id is None && row.count != 0) {
                Err("decode matching-row count"@)
            } else {
                match row.id {
                    None => Ok(opened),
                    Some(id) => Ok(
                        opened.drop_last().push(
                            MatchModel {
                                count: opened.last().count,
                                ids: opened.last().ids.push(id),
                            },
                        ),
                    ),
                }
            }
        }
    }
}

/// The matches of the first `count` rows of a reply, or the stage at which they fail.
pub open spec fn matches_in(rows: Seq<MatchRow>, start: nat, count: int) -> Result<
    Seq<MatchModel>,
    Seq<char>,
>
    decreases count,
{
    if count <= 0 {
        Ok(Seq::empty())
    } else {
        match matches_in(rows, start, count - 1) {
            Err(stage) => Err(stage),
            Ok(found) => with_match(found, start, rows[count - 1]),
        }
    }
}

proof fn lemma_matches_fault_stays(rows: Seq<MatchRow>, start: nat, low: int, high: int)
    requires
        low <= high,
        matches_in(rows, start, low) is Err,
    ensures
        matches_in(rows, start, high) == matches_in(rows, start, low),
    decreases high - low,
{
    if low < high {
        lemma_matches_fault_stays(rows, start, low, high - 1);
    }
}

/// The views of some matches.
pub open spec fn match_views(found: Seq<Matches>) -> Seq<MatchModel> {
    found.map_values(|matches: Matches| MatchModel { count: matches.count, ids: matches.ids@ })
}

/// Adds one row to the matches; tells the stage at which that fails.
fn add_match(found: &mut Vec<Matches>, start: usize, row: MatchRow) -> (stage: Option<String>)
    requires
        start + old(found)@.len() <= usize::MAX,
    ensures
        match stage {
            None => with_match(match_views(old(found)@), start as nat, row) == Ok::<
                Seq<MatchModel>,
                Seq<char>,
            >(match_views(final(found)@)),
            Some(stage) => with_match(match_views(old(found)@), start as nat, row) == Err::<
                Seq<MatchModel>,
                Seq<char>,
            >(stage@),
        },
        final(found)@.len() <= old(found)@.len() + 1,
{
    let ghost models = match_views(found@);
    assert(models.len() == found@.len());
    if row.request > usize::MAX as u64 {
        return Some("decode matching request index".to_owned());
    }
    let length: usize = found.len();
    let goes_on: bool = length > 0 && row.request == (start + length - 1) as u64;
    if !goes_on && row.request != (start + length) as u64 {
        return Some("decode matching request order".to_owned());
    }
    let ghost initial = found@;
    let mut last: Matches = if goes_on {
        match found.pop() {
            Some(last) => last,
            None => Matches { count: row.count, ids: Vec::new() },
        }
    } else {
        Matches { count: row.count, ids: Vec::new() }
    };
    let ghost opened = if goes_on {
        models
    } else {
        models.push(MatchModel { count: row.count, ids: Seq::empty() })
    };
    proof {
        assert(last.ids@ =~= opened.last().ids);
        assert(match_views(found@) =~= opened.drop_last());
    }
    if last.count != row.count || (row.id.is_none() && row.count != 0) {
        return Some("decode matching-row count".to_owned());
    }
    if let Some(id) = row.id {
        last.ids.push(id);
    }
    let ghost before = found@;
    found.push(last);
    proof {
        assert(match_views(found@) =~= match_views(before).push(
            MatchModel { count: last.count, ids: last.ids@ },
        ));
        assert(opened.drop_last().push(opened.last()) =~= opened);
        assert(match_views(found@) =~= (match row.id {
            None => opened,
            Some(id) => opened.drop_last().push(
                MatchModel { count: opened.last().count, ids: opened.last().ids.push(id) },
            ),
        }));
    }
    None
}

/// The stage at which a reply fails, if it does: it has to speak of each lookup in order.
pub open spec fn reply_fault(rows: Seq<MatchRow>, start: nat, expected: nat) -> Option<Seq<char>> {
    match matches_in(rows, start, rows.len() as int) {
        Err(stage) => Some(stage),
        Ok(found) => if found.len() != expected {
            Some("decode matching rows"@)
        } else {
            None
        },
    }
}

/// Reads the reply to the lookups from `start` up to `end`.
pub fn read_lookup_rows(rows: &Vec<MatchRow>, start: usize, end: usize) -> (result: Result<
    Vec<Matches>,
    DorisSinkError,
>)
    requires
        start <= end,
        start + rows@.len() <= usize::MAX,
    ensures
        match result {
            Ok(found) => {
                &&& reply_fault(rows@, start as nat, (end - start) as nat) is None
                &&& matches_in(rows@, start as nat, rows@.len() as int) == Ok::<
                    Seq<MatchModel>,
                    Seq<char>,
                >(match_views(found@))
            },
            Err(error) => {
                &&& reply_fault(rows@, start as nat, (end - start) as nat) is Some
                &&& error@ == (DorisErrorModel::Database {
                    stage: reply_fault(rows@, start as nat, (end - start) as nat)->0,
                })
            },
        },
{
    let mut found: Vec<Matches> = Vec::new();
    let mut index: usize = 0;
    assert(match_views(found@) =~= Seq::empty());
    while index < rows.len()
        invariant
            start <= end,
            start + rows@.len() <= usize::MAX,
            index <= rows@.len(),
            found@.len() <= index,
            matches_in(rows@, start as nat, index as int) == Ok::<Seq<MatchModel>, Seq<char>>(
                match_views(found@),
            ),
        decreases rows@.len() - index,
    {
        match add_match(&mut found, start, rows[index]) {
            None => {},
            Some(stage) => {
                proof {
                    lemma_matches_fault_stays(
                        rows@,
                        start as nat,
                        index + 1,
                        rows@.len() as int,
                    );
                }
                return Err(database(stage.as_str()));
            },
        }
        index += 1;
    }
    assert(match_views(found@).len() == found@.len());
    if found.len() != end - start {
        return Err(database("decode matching rows"));
    }
    Ok(found)
}

/// The ID that a value holds.
pub open spec fn id_in(cell: CellModel) -> Option<u64> {
    match cell {
        CellModel::UInt(value) => Some(value),
        CellModel::Int(value) => if value >= 0 {
            Some(value as u64)
        } else {
            None
        },
        CellModel::Bytes(bytes) => if valid_utf8(bytes) {
            parsed_u64(decode_utf8(bytes))
        } else {
            None
        },
        _ => None,
    }
}

fn value_u64(value: &DorisValue) -> (id: Option<u64>)
    ensures
        id == id_in(value@),
{
    match value {
        DorisValue::UInt(number) => Some(*number),
        DorisValue::Int(number) => if *number >= 0 {
            Some(*number as u64)
        } else {
            None
        },
        DorisValue::Bytes(bytes) => match utf8_text(bytes.as_slice()) {
            Some(text) => {
                proof {
                    encode_utf8_decode_utf8(text@);
                }
                parse_u64(text.as_str())
            },
            None => None,
        },
        _ => None,
    }
}

/// The mark that a value holds.
pub open spec fn mark_in(cell: CellModel) -> Option<bool> {
    match cell {
        CellModel::Int(value) => if value == 0 {
            Some(false)
        } else if value == 1 {
            Some(true)
        } else {
            None
        },
        CellModel::UInt(value) => if value == 0 {
            Some(false)
        } else if value == 1 {
            Some(true)
        } else {
            None
        },
        CellModel::Bytes(bytes) => if bytes == seq![48u8] {
            Some(false)
        } else if bytes == seq![49u8] {
            Some(true)
        } else {
            None
        },
        _ => None,
    }
}

fn value_bool(value: &DorisValue) -> (mark: Option<bool>)
    ensures
        mark == mark_in(value@),
{
    match value {
        DorisValue::Int(number) => if *number == 0 {
            Some(false)
        } else if *number == 1 {
            Some(true)
        } else {
            None
        },
        DorisValue::UInt(number) => if *number == 0 {
            Some(false)
        } else if *number == 1 {
            Some(true)
        } else {
            None
        },
        DorisValue::Bytes(bytes) => if bytes.len() == 1 && bytes[0] == 48 {
            assert(bytes@ =~= seq![48u8]);
            Some(false)
        } else if bytes.len() == 1 && bytes[0] == 49 {
            assert(bytes@ =~= seq![49u8]);
            assert(bytes@[0] != seq![48u8][0]);
            Some(true)
        } else {
            assert(bytes@.len() != 1 || (bytes@[0] != seq![48u8][0] && bytes@[0] != seq![49u8][0]));
            None
        },
        _ => None,
    }
}

/// What the state table holds under an ID.
#[derive(Debug, PartialEq, Eq)]
pub struct StoredRow {
    pub id: u64,
    pub hash: Vec<u8>,
    pub deleted: bool,
    pub values: Vec<DorisValue>,
}

/// What a `StoredRow` is.
pub ghost struct StoredModel {
    pub id: u64,
    pub hash: Seq<u8>,
    pub deleted: bool,
    pub values: Seq<CellModel>,
}

impl View for StoredRow {
    type V = StoredModel;

    open spec fn view(&self) -> StoredModel {
        StoredModel {
            id: self.id,
            hash: self.hash@,
            deleted: self.deleted,
            values: value_views(self.values@),
        }
    }
}

/// The views of some rows.
pub open spec fn stored_views(rows: Seq<StoredRow>) -> Seq<StoredModel> {
    rows.map_values(|row: StoredRow| row@)
}

/// The row that a line of a reply holds, or the stage at which it cannot be read.
pub open spec fn line_row(cells: Seq<CellModel>) -> Result<StoredModel, Seq<char>> {
    if cells.len() < 1 || id_in(cells[0]) is None {
        Err("decode mutation ID"@)
    } else if cells.len() < 2 || !(cells[1] is Bytes) {
        Err("decode row hash"@)
    } else if cells.len() < 3 || mark_in(cells[2]) is None {
        Err("decode delete marker"@)
    } else {
        Ok(
            StoredModel {
                id: id_in(cells[0])->0,
                hash: cells[1]->Bytes_0,
                deleted: mark_in(cells[2])->0,
                values: cells.skip(3),
            },
        )
    }
}

fn copy_from(values: &Vec<DorisValue>, start: usize) -> (copies: Vec<DorisValue>)
    requires
        start <= values@.len(),
    ensures
        value_views(copies@) == value_views(values@).skip(start as int),
{
    let ghost cells = value_views(values@);
    let mut copies: Vec<DorisValue> = Vec::new();
    let mut index: usize = start;
    assert(value_views(copies@) =~= cells.subrange(start as int, start as int));
    while index < values.len()
        invariant
            cells == value_views(values@),
            start <= index <= values@.len(),
            value_views(copies@) == cells.subrange(start as int, index as int),
        decreases values@.len() - index,
    {
        let ghost before = copies@;
        let value: DorisValue = copy_value(&values[index]);
        copies.push(value);
        proof {
            assert(value_views(copies@) =~= value_views(before).push(value@));
            assert(cells[index as int] == values@[index as int]@);
            assert(value_views(copies@) =~= cells.subrange(start as int, index + 1));
        }
        index += 1;
    }
    assert(cells.subrange(start as int, index as int) =~= cells.skip(start as int));
    copies
}

fn read_row(values: &Vec<DorisValue>) -> (result: Result<StoredRow, String>)
    ensures
        match result {
            Ok(row) => line_row(value_views(values@)) == Ok::<StoredModel, Seq<char>>(row@),
            Err(stage) => line_row(value_views(values@)) == Err::<StoredModel, Seq<char>>(stage@),
        },
{
    let ghost cells = value_views(values@);
    assert(cells.len() == values@.len());
    if values.len() < 1 {
        return Err("decode mutation ID".to_owned());
    }
    assert(cells[0] == values@[0]@);
    let id: u64 = match value_u64(&values[0]) {
        Some(id) => id,
        None => {
            return Err("decode mutation ID".to_owned());
        },
    };
    if values.len() < 2 {
        return Err("decode row hash".to_owned());
    }
    assert(cells[1] == values@[1]@);
    let hash: Vec<u8> = match &values[1] {
        DorisValue::Bytes(bytes) => copy_bytes(bytes.as_slice()),
        _ => {
            return Err("decode row hash".to_owned());
        },
    };
    if values.len() < 3 {
        return Err("decode delete marker".to_owned());
    }
    assert(cells[2] == values@[2]@);
    let deleted: bool = match value_bool(&values[2]) {
        Some(deleted) => deleted,
        None => {
            return Err("decode delete marker".to_owned());
        },
    };
    Ok(StoredRow { id, hash, deleted, values: copy_from(values, 3) })
}

/// The row under an ID.
pub open spec fn row_under(rows: Seq<StoredModel>, id: u64) -> Option<StoredModel>
    decreases rows.len(),
{
    if rows.len() == 0 {
        None
    } else if rows.last().id == id {
        Some(rows.last())
    } else {
        row_under(rows.drop_last(), id)
    }
}

fn find_row(rows: &Vec<StoredRow>, id: u64) -> (place: Option<usize>)
    ensures
        match place {
            Some(place) => {
                &&& place < rows@.len()
                &&& row_under(stored_views(rows@), id) == Some(rows@[place as int]@)
            },
            None => row_under(stored_views(rows@), id) is None,
        },
{
    let ghost models = stored_views(rows@);
    let mut left: usize = rows.len();
    assert(models.take(left as int) =~= models);
    while left > 0
        invariant
            models == stored_views(rows@),
            left <= rows@.len(),
            row_under(models, id) == row_under(models.take(left as int), id),
        decreases left,
    {
        proof {
            assert(models[left - 1] == rows@[left - 1]@);
            assert(models.take(left as int).last() == models[left - 1]);
            assert(models.take(left as int).drop_last() =~= models.take(left - 1));
        }
        if rows[left - 1].id == id {
            return Some(left - 1);
        }
        left -= 1;
    }
    None
}

/// The views of the rows of a reply.
pub open spec fn reply_views(rows: Seq<Vec<DorisValue>>) -> Seq<Seq<CellModel>> {
    rows.map_values(|row: Vec<DorisValue>| value_views(row@))
}

/// The rows that the first `count` lines hold, or the first thing that is wrong with them: no
/// ID may occur twice.
pub open spec fn lines_rows(model: SpecModel, lines: Seq<Seq<CellModel>>, count: int) -> Result<
    Seq<StoredModel>,
    DorisErrorModel,
>
    decreases count,
{
    if count <= 0 {
        Ok(Seq::empty())
    } else {
        match lines_rows(model, lines, count - 1) {
            Err(fault) => Err(fault),
            Ok(before) => match line_row(lines[count - 1]) {
                Err(stage) => Err(DorisErrorModel::Database { stage }),
                Ok(row) => if row_under(before, row.id) is Some {
                    Err(DorisErrorModel::TargetLayoutMismatch { name: state_name(model.sink_id) })
                } else {
                    Ok(before.push(row))
                },
            },
        }
    }
}

proof fn lemma_rows_fault_stays(model: SpecModel, lines: Seq<Seq<CellModel>>, low: int, high: int)
    requires
        low <= high,
        lines_rows(model, lines, low) is Err,
    ensures
        lines_rows(model, lines, high) == lines_rows(model, lines, low),
    decreases high - low,
{
    if low < high {
        lemma_rows_fault_stays(model, lines, low, high - 1);
    }
}

/// Reads what the state table holds under some IDs.
pub fn read_stored(spec: &DorisTargetSpec, reply: &Vec<Vec<DorisValue>>) -> (result: Result<
    Vec<StoredRow>,
    DorisSinkError,
>)
    ensures
        ({
            let read = lines_rows(spec@, reply_views(reply@), reply@.len() as int);
            match result {
                Ok(rows) => read == Ok::<Seq<StoredModel>, DorisErrorModel>(stored_views(rows@)),
                Err(error) => read == Err::<Seq<StoredModel>, DorisErrorModel>(error@),
            }
        }),
{
    let ghost lines = reply_views(reply@);
    let mut rows: Vec<StoredRow> = Vec::new();
    let mut index: usize = 0;
    assert(stored_views(rows@) =~= Seq::empty());
    while index < reply.len()
        invariant
            lines == reply_views(reply@),
            index <= reply@.len(),
            lines_rows(spec@, lines, index as int) == Ok::<Seq<StoredModel>, DorisErrorModel>(
                stored_views(rows@),
            ),
        decreases reply@.len() - index,
    {
        assert(lines[index as int] == value_views(reply@[index as int]@));
        match read_row(&reply[index]) {
            Err(stage) => {
                proof {
                    lemma_rows_fault_stays(spec@, lines, index + 1, reply@.len() as int);
                }
                return Err(database(stage.as_str()));
            },
            Ok(row) => {
                if find_row(&rows, row.id).is_some() {
                    proof {
                        lemma_rows_fault_stays(spec@, lines, index + 1, reply@.len() as int);
                    }
                    return Err(DorisSinkError::TargetLayoutMismatch { name: spec.state_table() });
                }
                let ghost before = rows@;
                rows.push(row);
                assert(stored_views(rows@) =~= stored_views(before).push(row@));
            },
        }
        index += 1;
    }
    Ok(rows)
}

/// Whether two values are the same: an integer may be signed in one and not in the other.
pub open spec fn cells_same(left: CellModel, right: CellModel) -> bool {
    match (left, right) {
        (CellModel::Int(signed), CellModel::UInt(number)) => signed as int == number as int,
        (CellModel::UInt(number), CellModel::Int(signed)) => signed as int == number as int,
        (CellModel::Other, _) => false,
        _ => left == right,
    }
}

pub fn values_equal(left: &DorisValue, right: &DorisValue) -> (same: bool)
    ensures
        same == cells_same(left@, right@),
{
    match (left, right) {
        (DorisValue::Int(signed), DorisValue::UInt(number)) => *signed >= 0 && *signed as u64
            == *number,
        (DorisValue::UInt(number), DorisValue::Int(signed)) => *signed >= 0 && *signed as u64
            == *number,
        (DorisValue::Null, DorisValue::Null) => true,
        (DorisValue::Int(left), DorisValue::Int(right)) => *left == *right,
        (DorisValue::UInt(left), DorisValue::UInt(right)) => *left == *right,
        (DorisValue::Bytes(left), DorisValue::Bytes(right)) => same_bytes(
            left.as_slice(),
            right.as_slice(),
        ),
        _ => false,
    }
}

/// Whether a stored row is the row with this hash and these values.
pub open spec fn row_same(stored: StoredModel, hash: Seq<u8>, cells: Seq<CellModel>) -> bool {
    &&& stored.hash == hash
    &&& stored.values.len() == cells.len()
    &&& forall|i: int| 0 <= i < cells.len() ==> cells_same(#[trigger] stored.values[i], cells[i])
}

fn same_row(stored: &StoredRow, row: &EncodedRow) -> (same: bool)
    ensures
        same == row_same(stored@, row.hash@, value_views(row.values@)),
{
    let ghost cells = value_views(row.values@);
    assert(stored@.values.len() == stored.values@.len());
    if !same_bytes(stored.hash.as_slice(), row.hash.as_slice()) {
        return false;
    }
    if stored.values.len() != row.values.len() {
        return false;
    }
    let mut index: usize = 0;
    while index < row.values.len()
        invariant
            cells == value_views(row.values@),
            stored@.values.len() == stored.values@.len(),
            stored.values@.len() == row.values@.len(),
            index <= row.values@.len(),
            forall|i: int|
                0 <= i < index ==> cells_same(#[trigger] stored@.values[i], cells[i]),
        decreases row.values@.len() - index,
    {
        proof {
            assert(cells[index as int] == row.values@[index as int]@);
            assert(stored@.values[index as int] == stored.values@[index as int]@);
        }
        if !values_equal(&stored.values[index], &row.values[index]) {
            assert(!cells_same(stored@.values[index as int], cells[index as int]));
            return false;
        }
        index += 1;
    }
    true
}

/// A row to be written to the state table.
#[derive(Debug)]
pub struct WriteAction {
    pub id: u64,
    pub deleted: bool,
    pub row: EncodedRow,
}

/// What a `WriteAction` is.
pub ghost struct ActionModel {
    pub id: u64,
    pub deleted: bool,
    pub hash: Seq<u8>,
    pub cells: Seq<CellModel>,
}

impl View for WriteAction {
    type V = ActionModel;

    open spec fn view(&self) -> ActionModel {
        ActionModel {
            id: self.id,
            deleted: self.deleted,
            hash: self.row.hash@,
            cells: value_views(self.row.values@),
        }
    }
}

/// The views of some actions.
pub open spec fn action_views(actions: Seq<WriteAction>) -> Seq<ActionModel> {
    actions.map_values(|action: WriteAction| action@)
}

/// The row of a mutation.
pub open spec fn action_of(
    layout: DorisLayout,
    batch: RecordBatch,
    mutation: TerminalMutation,
) -> ActionModel {
    let row = mutation.row_index as int;
    ActionModel {
        id: mutation.technical_id,
        deleted: mutation.deleted,
        hash: row_digest(batch, row),
        cells: cells_of(batch, row, batch.columns@.len()),
    }
}

/// What the state table holds under the ID of a mutation.
pub open spec fn held_by(stored: Seq<StoredModel>, action: ActionModel) -> Option<Held> {
    match row_under(stored, action.id) {
        Some(row) => Some(
            Held { same_row: row_same(row, action.hash, action.cells), deleted: row.deleted },
        ),
        None => None,
    }
}

/// Why a mutation is refused, if it is.
pub open spec fn mutation_fault(
    layout: DorisLayout,
    batch: RecordBatch,
    stored: Seq<StoredModel>,
    mutation: TerminalMutation,
) -> Option<DorisErrorModel> {
    let id = decimal(mutation.technical_id as nat);
    if mutation.row_index > usize::MAX {
        Some(DorisErrorModel::InvalidBatch { message: "row index exceeds usize"@ })
    } else {
        match encode_fault(layout.schema, batch, mutation.row_index as int) {
            Some(fault) => Some(DorisErrorModel::Row(fault)),
            None => match decision(
                held_by(stored, action_of(layout, batch, mutation)),
                mutation.deleted,
            ) {
                Decision::Rebound => Some(
                    DorisErrorModel::InvalidBatch {
                        message: "technical ID "@ + id + " is bound to another logical row"@,
                    },
                ),
                Decision::Resurrected => Some(
                    DorisErrorModel::InvalidBatch {
                        message: "technical ID "@ + id + " cannot be resurrected"@,
                    },
                ),
                _ => None,
            },
        }
    }
}

/// The first reason among the first `count` mutations.
pub open spec fn mutations_fault(
    layout: DorisLayout,
    batch: RecordBatch,
    stored: Seq<StoredModel>,
    mutations: Seq<TerminalMutation>,
    count: int,
) -> Option<DorisErrorModel>
    decreases count,
{
    if count <= 0 {
        None
    } else {
        match mutations_fault(layout, batch, stored, mutations, count - 1) {
            Some(fault) => Some(fault),
            None => mutation_fault(layout, batch, stored, mutations[count - 1]),
        }
    }
}

proof fn lemma_mutations_fault_stays(
    layout: DorisLayout,
    batch: RecordBatch,
    stored: Seq<StoredModel>,
    mutations: Seq<TerminalMutation>,
    low: int,
    high: int,
)
    requires
        low <= high,
        mutations_fault(layout, batch, stored, mutations, low) is Some,
    ensures
        mutations_fault(layout, batch, stored, mutations, high) == mutations_fault(
            layout,
            batch,
            stored,
            mutations,
            low,
        ),
    decreases high - low,
{
    if low < high {
        lemma_mutations_fault_stays(layout, batch, stored, mutations, low, high - 1);
    }
}

/// What the first `count` mutations have to write.
pub open spec fn actions_of(
    layout: DorisLayout,
    batch: RecordBatch,
    stored: Seq<StoredModel>,
    mutations: Seq<TerminalMutation>,
    count: int,
) -> Seq<ActionModel>
    decreases count,
{
    if count <= 0 {
        Seq::empty()
    } else {
        let before = actions_of(layout, batch, stored, mutations, count - 1);
        let action = action_of(layout, batch, mutations[count - 1]);
        if decision(held_by(stored, action), action.deleted) == Decision::Write {
            before.push(action)
        } else {
            before
        }
    }
}

/// Decides what a batch has to write, given what the state table holds under its IDs.
pub fn plan_write(
    codec: &DorisRowCodec,
    input: &Change,
    mutations: &Vec<TerminalMutation>,
    stored: &Vec<StoredRow>,
) -> (result: Result<Vec<WriteAction>, DorisSinkError>)
    requires
        input.wf(),
        codec.layout.wf(),
    ensures
        ({
            let held = stored_views(stored@);
            let count = mutations@.len() as int;
            let fault = mutations_fault(
                codec.layout,
                input.records,
                held,
                mutations@,
                count,
            );
            match result {
                Ok(actions) => {
                    &&& fault is None
                    &&& action_views(actions@) == actions_of(
                        codec.layout,
                        input.records,
                        held,
                        mutations@,
                        count,
                    )
                },
                Err(error) => fault == Some(error@),
            }
        }),
{
    let ghost layout = codec.layout;
    let ghost batch = input.records;
    let ghost held = stored_views(stored@);
    let mut actions: Vec<WriteAction> = Vec::new();
    let mut index: usize = 0;
    assert(action_views(actions@) =~= Seq::empty());
    while index < mutations.len()
        invariant
            input.wf(),
            codec.layout.wf(),
            layout == codec.layout,
            batch == input.records,
            held == stored_views(stored@),
            index <= mutations@.len(),
            mutations_fault(layout, batch, held, mutations@, index as int) is None,
            action_views(actions@) == actions_of(layout, batch, held, mutations@, index as int),
        decreases mutations@.len() - index,
    {
        let mutation: TerminalMutation = mutations[index];
        let ghost total = mutations@.len() as int;
        if mutation.row_index > usize::MAX as u64 {
            proof {
                lemma_mutations_fault_stays(layout, batch, held, mutations@, index + 1, total);
            }
            return Err(invalid_batch("row index exceeds usize"));
        }
        let row: EncodedRow = match codec.encode_row(&input.records, mutation.row_index as usize) {
            Ok(row) => row,
            Err(error) => {
                proof {
                    lemma_mutations_fault_stays(layout, batch, held, mutations@, index + 1, total);
                }
                return Err(DorisSinkError::Row(error));
            },
        };
        let found: Option<Held> = match find_row(stored, mutation.technical_id) {
            Some(place) => Some(
                Held {
                    same_row: same_row(&stored[place], &row),
                    deleted: stored[place].deleted,
                },
            ),
            None => None,
        };
        assert(found == held_by(held, action_of(layout, batch, mutation)));
        match decide(found, mutation.deleted) {
            Decision::Rebound => {
                let mut message: String = "technical ID ".to_owned();
                push_decimal(&mut message, mutation.technical_id);
                message.append(" is bound to another logical row");
                proof {
                    lemma_mutations_fault_stays(layout, batch, held, mutations@, index + 1, total);
                }
                return Err(invalid_batch(message.as_str()));
            },
            Decision::Resurrected => {
                let mut message: String = "technical ID ".to_owned();
                push_decimal(&mut message, mutation.technical_id);
                message.append(" cannot be resurrected");
                proof {
                    lemma_mutations_fault_stays(layout, batch, held, mutations@, index + 1, total);
                }
                return Err(invalid_batch(message.as_str()));
            },
            Decision::Write => {
                let ghost before = actions@;
                let action: WriteAction = WriteAction {
                    id: mutation.technical_id,
                    deleted: mutation.deleted,
                    row,
                };
                actions.push(action);
                assert(action_views(actions@) =~= action_views(before).push(action@));
            },
            Decision::Keep => {},
        }
        index += 1;
    }
    Ok(actions)
}

/// The values of the action at `index` in a statement.
pub open spec fn action_tuple(action: ActionModel) -> Seq<char> {
    mutation_tuple(action.id, action.deleted, action.hash, action.cells)
}

/// The values of actions in a statement.
pub open spec fn action_tuples(actions: Seq<ActionModel>) -> Seq<Seq<char>> {
    actions.map_values(|action: ActionModel| action_tuple(action))
}

/// The size of the values of a row, counted with the comma between rows.
pub open spec fn padded_size(text: Seq<char>) -> usize {
    if byte_len(text) < usize::MAX {
        (byte_len(text) + 1) as usize
    } else {
        usize::MAX
    }
}

/// The sizes of the values of actions.
pub open spec fn action_sizes(actions: Seq<ActionModel>) -> Seq<usize> {
    actions.map_values(|action: ActionModel| padded_size(action_tuple(action)))
}

/// What one statement that writes may hold. The first row needs no comma.
pub open spec fn write_limits(prefix: Seq<char>, columns: nat) -> PackLimits {
    PackLimits {
        frame: byte_len(prefix) as usize,
        bytes: (MAX_WRITE_SQL_BYTES + 1) as usize,
        rows: (10000nat / (columns + 3)) as usize,
    }
}

/// Where each statement stops.
pub open spec fn write_ends(
    model: SpecModel,
    columns: Seq<ColumnModel>,
    actions: Seq<ActionModel>,
) -> Seq<int> {
    pieces(
        action_sizes(actions),
        0,
        write_limits(insert_head(model, columns), columns.len()),
    )
}

/// The statement that writes the actions from `start` up to `end`.
pub open spec fn statement_sql(
    model: SpecModel,
    columns: Seq<ColumnModel>,
    actions: Seq<ActionModel>,
    start: int,
    end: int,
) -> Seq<char> {
    insert_head(model, columns) + joined(action_tuples(actions).subrange(start, end), ","@)
}

/// The statements that write actions: one after the other, each as long as it may be.
pub fn insert_statements(
    spec: &DorisTargetSpec,
    columns: &Vec<ColumnLayout>,
    actions: &Vec<WriteAction>,
) -> (statements: Vec<String>)
    requires
        columns@.len() <= MAX_LOGICAL_COLUMNS,
    ensures
        ({
            let models = column_views(columns@);
            let ends = write_ends(spec@, models, action_views(actions@));
            &&& statements@.len() == ends.len()
            &&& forall|i: int|
                0 <= i < ends.len() ==> (#[trigger] statements@[i])@ == statement_sql(
                    spec@,
                    models,
                    action_views(actions@),
                    piece_start(ends, i),
                    ends[i],
                )
        }),
{
    let ghost models = column_views(columns@);
    let ghost views_of = action_views(actions@);
    let prefix: String = insert_prefix(spec, columns);
    let mut texts: Vec<String> = Vec::new();
    let mut sizes: Vec<usize> = Vec::new();
    let mut index: usize = 0;
    assert(views(texts@) =~= action_tuples(views_of).take(0));
    assert(sizes@ =~= action_sizes(views_of).take(0));
    while index < actions.len()
        invariant
            views_of == action_views(actions@),
            index <= actions@.len(),
            texts@.len() == index,
            views(texts@) == action_tuples(views_of).take(index as int),
            sizes@ == action_sizes(views_of).take(index as int),
        decreases actions@.len() - index,
    {
        let action: &WriteAction = &actions[index];
        let text: String = mutation_values(action.id, action.deleted, &action.row);
        let ghost before = texts@;
        sizes.push(text_bytes(text.as_str()).saturating_add(1));
        texts.push(text);
        proof {
            assert(views(texts@) =~= views(before).push(text@));
            assert(views_of[index as int] == actions@[index as int]@);
            assert(action_tuples(views_of)[index as int] == text@);
            assert(action_sizes(views_of)[index as int] == padded_size(text@));
            assert(views(texts@) =~= action_tuples(views_of).take(index + 1));
            assert(sizes@ =~= action_sizes(views_of).take(index + 1));
        }
        index += 1;
    }
    proof {
        assert(action_tuples(views_of).take(index as int) =~= action_tuples(views_of));
        assert(action_sizes(views_of).take(index as int) =~= action_sizes(views_of));
        assert(models.len() == columns@.len());
    }
    let limits: PackLimits = PackLimits {
        frame: text_bytes(prefix.as_str()),
        bytes: MAX_WRITE_SQL_BYTES + 1,
        rows: MAX_WRITE_VALUES / (columns.len() + 3),
    };
    assert(limits == write_limits(prefix@, models.len()));
    let ends: Vec<usize> = pack(&sizes, limits);
    let ghost stops = ends_of(ends@);
    proof {
        assert(stops == write_ends(spec@, models, views_of));
        assert(stops.len() == ends@.len());
        if sizes@.len() > 0 {
            crate::relation::pack::law_pieces_cover_all_rows(sizes@, limits);
            crate::relation::pack::lemma_pieces_cover(sizes@, 0, limits);
        }
    }
    let mut statements: Vec<String> = Vec::new();
    let mut start: usize = 0;
    let mut place: usize = 0;
    while place < ends.len()
        invariant
            prefix@ == insert_head(spec@, models),
            place <= ends@.len(),
            stops == ends_of(ends@),
            stops.len() == ends@.len(),
            texts@.len() == index,
            views(texts@) == action_tuples(views_of),
            forall|i: int|
                0 <= i < stops.len() ==> piece_start(stops, i) < #[trigger] stops[i] <= index,
            start == piece_start(stops, place as int),
            statements@.len() == place,
            forall|i: int|
                0 <= i < place ==> (#[trigger] statements@[i])@ == insert_head(spec@, models)
                    + joined(
                    action_tuples(views_of).subrange(piece_start(stops, i), stops[i]),
                    ","@,
                ),
        decreases ends@.len() - place,
    {
        let end: usize = ends[place];
        proof {
            assert(stops[place as int] == end);
            assert(piece_start(stops, place as int) < stops[place as int]);
        }
        let part: Vec<String> = copy_range(&texts, start, end);
        let mut statement: String = prefix.clone();
        statement.append(join(part.as_slice(), ",").as_str());
        statements.push(statement);
        start = end;
        place += 1;
    }
    statements
}

/// How far the statements of a batch have been run.
#[derive(Clone, Copy, Debug, PartialEq, Eq, Structural)]
pub enum WritePhase {
    Start,
    /// The transaction is open, and as many statements have been run.
    Open { done: usize },
    /// The only statement is being run on its own.
    Single,
    /// The transaction is being committed.
    Closing,
    /// The transaction is being given up.
    Undoing,
}

/// What became of the last command; a batch may also run out of time before its next one.
#[derive(Clone, Copy, Debug, PartialEq, Eq, Structural)]
pub enum WriteEvent {
    Succeeded,
    Failed,
    OutOfTime,
}

/// What to do next.
#[derive(Clone, Copy, Debug, PartialEq, Eq, Structural)]
pub enum WriteCommand {
    Begin,
    Execute { statement: usize },
    Commit,
    Rollback,
    Finish,
    FailBegin,
    FailApply,
    FailCommit,
}

/// The command that follows, and the phase that it belongs to: more than one statement is run
/// in a transaction, which is given up where one of them fails.
pub open spec fn write_move(
    statements: nat,
    phase: WritePhase,
    event: WriteEvent,
) -> (WriteCommand, WritePhase) {
    match phase {
        WritePhase::Start => if statements > 1 {
            (WriteCommand::Begin, WritePhase::Open { done: 0 })
        } else if statements == 1 {
            (WriteCommand::Execute { statement: 0 }, WritePhase::Single)
        } else {
            (WriteCommand::Finish, WritePhase::Start)
        },
        WritePhase::Open { done } => if done == 0 && event == WriteEvent::Failed {
            (WriteCommand::FailBegin, WritePhase::Start)
        } else if event == WriteEvent::Failed || (event == WriteEvent::OutOfTime && done
            < statements) {
            (WriteCommand::Rollback, WritePhase::Undoing)
        } else if done < statements {
            (WriteCommand::Execute { statement: done }, WritePhase::Open { done: (done + 1) as usize })
        } else {
            (WriteCommand::Commit, WritePhase::Closing)
        },
        WritePhase::Single => if event == WriteEvent::Failed {
            (WriteCommand::FailApply, WritePhase::Start)
        } else {
            (WriteCommand::Finish, WritePhase::Start)
        },
        WritePhase::Closing => if event == WriteEvent::Failed {
            (WriteCommand::FailCommit, WritePhase::Start)
        } else {
            (WriteCommand::Finish, WritePhase::Start)
        },
        WritePhase::Undoing => (WriteCommand::FailApply, WritePhase::Start),
    }
}

pub fn next_write(statements: usize, phase: WritePhase, event: WriteEvent) -> (step: (
    WriteCommand,
    WritePhase,
))
    ensures
        step == write_move(statements as nat, phase, event),
{
    match phase {
        WritePhase::Start => if statements > 1 {
            (WriteCommand::Begin, WritePhase::Open { done: 0 })
        } else if statements == 1 {
            (WriteCommand::Execute { statement: 0 }, WritePhase::Single)
        } else {
            (WriteCommand::Finish, WritePhase::Start)
        },
        WritePhase::Open { done } => if done == 0 && event == WriteEvent::Failed {
            (WriteCommand::FailBegin, WritePhase::Start)
        } else if event == WriteEvent::Failed || (event == WriteEvent::OutOfTime && done
            < statements) {
            (WriteCommand::Rollback, WritePhase::Undoing)
        } else if done < statements {
            (WriteCommand::Execute { statement: done }, WritePhase::Open { done: done + 1 })
        } else {
            (WriteCommand::Commit, WritePhase::Closing)
        },
        WritePhase::Single => if event == WriteEvent::Failed {
            (WriteCommand::FailApply, WritePhase::Start)
        } else {
            (WriteCommand::Finish, WritePhase::Start)
        },
        WritePhase::Closing => if event == WriteEvent::Failed {
            (WriteCommand::FailCommit, WritePhase::Start)
        } else {
            (WriteCommand::Finish, WritePhase::Start)
        },
        WritePhase::Undoing => (WriteCommand::FailApply, WritePhase::Start),
    }
}

/// The phases that events lead through, from the start.
pub open spec fn writes_through(
    statements: nat,
    phases: Seq<WritePhase>,
    events: Seq<WriteEvent>,
) -> bool {
    &&& phases.len() == events.len()
    &&& phases.len() > 0 ==> phases[0] == WritePhase::Start
    &&& forall|k: int|
        0 < k < phases.len() ==> #[trigger] phases[k] == write_move(
            statements,
            phases[k - 1],
            events[k - 1],
        ).1
}

proof fn lemma_never_single(
    statements: nat,
    phases: Seq<WritePhase>,
    events: Seq<WriteEvent>,
    k: int,
)
    requires
        statements > 1,
        writes_through(statements, phases, events),
        0 <= k < phases.len(),
    ensures
        phases[k] != WritePhase::Single,
    decreases k,
{
    if k > 0 {
        lemma_never_single(statements, phases, events, k - 1);
    }
}

/// Where more than one statement is run, only a commit that did not fail finishes them.
pub proof fn law_several_statements_finish_by_commit(
    statements: nat,
    phases: Seq<WritePhase>,
    events: Seq<WriteEvent>,
    k: int,
)
    requires
        statements > 1,
        writes_through(statements, phases, events),
        0 <= k < phases.len(),
        write_move(statements, phases[k], events[k]).0 == WriteCommand::Finish,
    ensures
        phases[k] == WritePhase::Closing,
        events[k] != WriteEvent::Failed,
{
    lemma_never_single(statements, phases, events, k);
}

/// How a batch that could not be written is reported.
pub fn write_failure(command: WriteCommand) -> (error: Option<DorisSinkError>)
    ensures
        match command {
            WriteCommand::FailBegin => error is Some && error->0@ == (DorisErrorModel::Database {
                stage: "begin relation batch"@,
            }),
            WriteCommand::FailApply => error is Some && error->0@ == (DorisErrorModel::Database {
                stage: "apply relation batch"@,
            }),
            WriteCommand::FailCommit => error is Some && error->0@ == (DorisErrorModel::Database {
                stage: "commit relation batch"@,
            }),
            _ => error is None,
        },
{
    match command {
        WriteCommand::FailBegin => Some(database("begin relation batch")),
        WriteCommand::FailApply => Some(database("apply relation batch")),
        WriteCommand::FailCommit => Some(database("commit relation batch")),
        _ => None,
    }
}

/// The views of pairs of texts.
pub open spec fn pair_views(pairs: Seq<(String, String)>) -> Seq<(Seq<char>, Seq<char>)> {
    pairs.map_values(|pair: (String, String)| (pair.0@, pair.1@))
}

/// The last kind under a name.
pub open spec fn kind_of(kinds: Seq<(Seq<char>, Seq<char>)>, name: Seq<char>) -> Option<Seq<char>>
    decreases kinds.len(),
{
    if kinds.len() == 0 {
        None
    } else if kinds.last().0 == name {
        Some(kinds.last().1)
    } else {
        kind_of(kinds.drop_last(), name)
    }
}

pub fn find_kind(kinds: &Vec<(String, String)>, name: &str) -> (engine: Option<String>)
    ensures
        match engine {
            Some(engine) => kind_of(pair_views(kinds@), name@) == Some(engine@),
            None => kind_of(pair_views(kinds@), name@) is None,
        },
{
    let ghost models = pair_views(kinds@);
    let mut left: usize = kinds.len();
    assert(models.take(left as int) =~= models);
    while left > 0
        invariant
            models == pair_views(kinds@),
            left <= kinds@.len(),
            kind_of(models, name@) == kind_of(models.take(left as int), name@),
        decreases left,
    {
        proof {
            assert(models[left - 1] == (kinds@[left - 1].0@, kinds@[left - 1].1@));
            assert(models.take(left as int).last() == models[left - 1]);
            assert(models.take(left as int).drop_last() =~= models.take(left - 1));
        }
        if same_text(kinds[left - 1].0.as_str(), name) {
            return Some(kinds[left - 1].1.clone());
        }
        left -= 1;
    }
    None
}

/// Why an initialization cannot go on from the objects that it finds, if it cannot.
pub open spec fn initialize_fault(
    model: SpecModel,
    state: Option<Seq<char>>,
    view: Option<Seq<char>>,
) -> Option<DorisErrorModel> {
    let name = state_name(model.sink_id);
    match (state, view) {
        (Some(engine), None) => if engine == "BASE TABLE"@ {
            None
        } else {
            Some(DorisErrorModel::TargetLayoutMismatch { name })
        },
        (None, Some(_)) => Some(DorisErrorModel::TargetMissing { name }),
        _ => None,
    }
}

/// Whether an initialization has to create the state table.
pub open spec fn creates_state(state: Option<Seq<char>>, view: Option<Seq<char>>) -> bool {
    state is None && view is None
}

/// An initialization that was interrupted goes on: whichever of its own steps were done, it is
/// accepted, and the state table is created exactly where it is not there. A view without a
/// state table, and a state table of another kind without a view, are refused.
pub proof fn law_interrupted_initialization_goes_on(
    model: SpecModel,
    state: Option<Seq<char>>,
    view: Option<Seq<char>>,
)
    ensures
        initialize_fault(model, None, None) is None,
        initialize_fault(model, Some("BASE TABLE"@), None) is None,
        initialize_fault(model, Some("BASE TABLE"@), view) is None,
        initialize_fault(model, state, view) is None ==> (creates_state(state, view) <==> state
            is None),
        view is Some && state is None ==> initialize_fault(model, state, view) is Some,
        view is None && state is Some && state->0 != "BASE TABLE"@ ==> initialize_fault(
            model,
            state,
            view,
        ) is Some,
{
}

/// Decides how an initialization begins: whether the state table is still to be created.
pub fn begin_initialization(spec: &DorisTargetSpec, kinds: &Vec<(String, String)>) -> (result:
    Result<bool, DorisSinkError>)
    ensures
        ({
            let state = kind_of(pair_views(kinds@), state_name(spec@.sink_id));
            let view = kind_of(pair_views(kinds@), spec@.table);
            match result {
                Ok(create) => {
                    &&& initialize_fault(spec@, state, view) is None
                    &&& create == creates_state(state, view)
                },
                Err(error) => initialize_fault(spec@, state, view) == Some(error@),
            }
        }),
{
    let state: Option<String> = find_kind(kinds, spec.state_table().as_str());
    let view: Option<String> = find_kind(kinds, spec.table());
    match (state, view) {
        (None, None) => Ok(true),
        (Some(engine), None) => if same_text(engine.as_str(), "BASE TABLE") {
            Ok(false)
        } else {
            Err(DorisSinkError::TargetLayoutMismatch { name: spec.state_table() })
        },
        (None, Some(_)) => Err(DorisSinkError::TargetMissing { name: spec.state_table() }),
        (Some(_), Some(_)) => Ok(false),
    }
}

/// Requires that the state table holds no row yet.
pub fn require_empty(count: Option<u64>) -> (result: Result<(), DorisSinkError>)
    ensures
        match result {
            Ok(_) => count == Some(0u64),
            Err(error) => count != Some(0u64) && error@ == DorisErrorModel::TargetNotEmpty,
        },
{
    match count {
        Some(count) => if count == 0 {
            Ok(())
        } else {
            Err(DorisSinkError::TargetNotEmpty)
        },
        None => Err(DorisSinkError::TargetNotEmpty),
    }
}

/// A column in the catalog: its name, its type, and whether it may be null.
#[derive(Debug, PartialEq, Eq)]
pub struct CatalogColumn {
    pub name: String,
    pub column_type: String,
    pub nullable: String,
}

/// What the catalog has to say of a column.
pub ghost struct CatalogModel {
    pub name: Seq<char>,
    pub column_type: Seq<char>,
    pub nullable: Seq<char>,
}

/// What the catalog has to say of the columns of the state table.
pub open spec fn expected_columns(columns: Seq<ColumnModel>) -> Seq<CatalogModel> {
    seq![
        CatalogModel { name: "__dogpaddle_id"@, column_type: "bigint(20)"@, nullable: "NO"@ },
        CatalogModel { name: "__dogpaddle_hash"@, column_type: "char(32)"@, nullable: "NO"@ },
        CatalogModel { name: "__dogpaddle_deleted"@, column_type: "tinyint(4)"@, nullable: "NO"@ },
    ] + columns.map_values(|column: ColumnModel| expected_column(column))
}

/// What the catalog has to say of a column.
pub open spec fn expected_column(column: ColumnModel) -> CatalogModel {
    CatalogModel {
        name: column.name,
        column_type: catalog_name(column.storage),
        nullable: if column.nullable {
            "YES"@
        } else {
            "NO"@
        },
    }
}

/// Whether a column is what it has to be; the case of its type does not matter.
pub open spec fn column_fits(actual: CatalogColumn, expected: CatalogModel) -> bool {
    &&& actual.name@ == expected.name
    &&& lowered(actual.column_type@) == lowered(expected.column_type)
    &&& actual.nullable@ == expected.nullable
}

/// Whether the columns of the state table are what they have to be.
pub open spec fn columns_fit(actual: Seq<CatalogColumn>, columns: Seq<ColumnModel>) -> bool {
    let expected = expected_columns(columns);
    &&& actual.len() == expected.len()
    &&& forall|i: int| 0 <= i < actual.len() ==> column_fits(#[trigger] actual[i], expected[i])
}

fn is_column(actual: &CatalogColumn, name: &str, column_type: &str, nullable: bool) -> (fits: bool)
    ensures
        fits == column_fits(
            *actual,
            CatalogModel {
                name: name@,
                column_type: column_type@,
                nullable: if nullable {
                    "YES"@
                } else {
                    "NO"@
                },
            },
        ),
{
    same_text(actual.name.as_str(), name) && same_ignoring_case(
        actual.column_type.as_str(),
        column_type,
    ) && same_text(
        actual.nullable.as_str(),
        if nullable {
            "YES"
        } else {
            "NO"
        },
    )
}

fn check_columns(actual: &Vec<CatalogColumn>, columns: &Vec<ColumnLayout>) -> (fits: bool)
    requires
        columns@.len() <= MAX_LOGICAL_COLUMNS,
    ensures
        fits == columns_fit(actual@, column_views(columns@)),
{
    let ghost models = column_views(columns@);
    let ghost expected = expected_columns(models);
    assert(expected.len() == 3 + columns@.len());
    if actual.len() != columns.len() + 3 {
        return false;
    }
    if !is_column(&actual[0], "__dogpaddle_id", "bigint(20)", false) {
        assert(!column_fits(actual@[0], expected[0]));
        return false;
    }
    if !is_column(&actual[1], "__dogpaddle_hash", "char(32)", false) {
        assert(!column_fits(actual@[1], expected[1]));
        return false;
    }
    if !is_column(&actual[2], "__dogpaddle_deleted", "tinyint(4)", false) {
        assert(!column_fits(actual@[2], expected[2]));
        return false;
    }
    let mut index: usize = 0;
    while index < columns.len()
        invariant
            models == column_views(columns@),
            expected == expected_columns(models),
            columns@.len() <= MAX_LOGICAL_COLUMNS,
            actual@.len() == 3 + columns@.len(),
            index <= columns@.len(),
            forall|i: int| 0 <= i < 3 + index ==> column_fits(#[trigger] actual@[i], expected[i]),
        decreases columns@.len() - index,
    {
        let column: &ColumnLayout = &columns[index];
        proof {
            assert(models[index as int] == column@);
            assert(expected[3 + index] == expected_column(column@));
        }
        if !is_column(
            &actual[3 + index],
            column.name.as_str(),
            column.storage.catalog_type(),
            column.nullable,
        ) {
            assert(!column_fits(actual@[3 + index], expected[3 + index]));
            return false;
        }
        index += 1;
    }
    true
}

/// What the catalog has to say of the state table: its kind and its comment.
#[derive(Debug, PartialEq, Eq)]
pub struct TableProperties {
    pub table_type: String,
    pub comment: String,
}

/// Whether the state table is a table with the mark of its sink.
pub open spec fn properties_fit(properties: Option<TableProperties>, model: SpecModel) -> bool {
    match properties {
        Some(found) => found.table_type@ == "BASE TABLE"@ && found.comment@ == marker_name(
            model.sink_id,
        ),
        None => false,
    }
}

/// Requires that the catalog has the state table with its columns and its mark.
pub fn verify_state_catalog(
    spec: &DorisTargetSpec,
    columns: &Vec<ColumnLayout>,
    actual: &Vec<CatalogColumn>,
    properties: &Option<TableProperties>,
) -> (result: Result<(), DorisSinkError>)
    requires
        columns@.len() <= MAX_LOGICAL_COLUMNS,
    ensures
        ({
            let fits = columns_fit(actual@, column_views(columns@)) && properties_fit(
                *properties,
                spec@,
            );
            match result {
                Ok(_) => fits,
                Err(error) => !fits && error@ == (DorisErrorModel::TargetLayoutMismatch {
                    name: state_name(spec@.sink_id),
                }),
            }
        }),
{
    let columns_match: bool = check_columns(actual, columns);
    let owned: bool = match properties {
        Some(found) => same_text(found.table_type.as_str(), "BASE TABLE") && same_text(
            found.comment.as_str(),
            spec.marker().as_str(),
        ),
        None => false,
    };
    if columns_match && owned {
        Ok(())
    } else {
        Err(DorisSinkError::TargetLayoutMismatch { name: spec.state_table() })
    }
}

/// Whether a text holds another.
pub open spec fn holds(text: Seq<char>, part: Seq<char>) -> bool {
    place_of(text, part, 0) is Some
}

/// Whether the statement that made the state table gives it its key, its distribution, its
/// properties and its index.
pub open spec fn definition_fits(definition: Option<Seq<char>>) -> bool {
    match definition {
        None => false,
        Some(sql) => {
            let compacted = compact_of(sql);
            &&& holds(compacted, "UNIQUEKEY(__dogpaddle_id)"@)
            &&& holds(compacted, "DISTRIBUTEDBYHASH(__dogpaddle_id)BUCKETS1PROPERTIES("@)
            &&& holds(compacted, "\"enable_unique_key_merge_on_write\"=\"true\""@)
            &&& holds(compacted, "\"function_column.sequence_col\"=\"__dogpaddle_deleted\""@)
            &&& holds(compacted, "INDEX__dogpaddle_hash_idx(__dogpaddle_hash)USINGINVERTED"@)
        },
    }
}

/// The text in an option.
pub open spec fn option_view(text: Option<String>) -> Option<Seq<char>> {
    match text {
        Some(text) => Some(text@),
        None => None,
    }
}

fn contains(text: &str, part: &str) -> (found: bool)
    ensures
        found == holds(text@, part@),
{
    find_text(text, part).is_some()
}

/// Requires that the state table was made as the sink makes it.
pub fn verify_state_definition(spec: &DorisTargetSpec, definition: &Option<String>) -> (result:
    Result<(), DorisSinkError>)
    ensures
        match result {
            Ok(_) => definition_fits(option_view(*definition)),
            Err(error) => !definition_fits(option_view(*definition)) && error@ == (
            DorisErrorModel::TargetLayoutMismatch { name: state_name(spec@.sink_id) }),
        },
{
    let fits: bool = match definition {
        None => false,
        Some(sql) => {
            let compacted: String = compact(sql.as_str());
            let text: &str = compacted.as_str();
            contains(text, "UNIQUEKEY(__dogpaddle_id)") && contains(
                text,
                "DISTRIBUTEDBYHASH(__dogpaddle_id)BUCKETS1PROPERTIES(",
            ) && contains(text, "\"enable_unique_key_merge_on_write\"=\"true\"") && contains(
                text,
                "\"function_column.sequence_col\"=\"__dogpaddle_deleted\"",
            ) && contains(text, "INDEX__dogpaddle_hash_idx(__dogpaddle_hash)USINGINVERTED")
        },
    };
    if fits {
        Ok(())
    } else {
        Err(DorisSinkError::TargetLayoutMismatch { name: spec.state_table() })
    }
}

/// Whether the view is the one that the sink makes; case, white space and quotes do not matter.
pub open spec fn view_fits(
    model: SpecModel,
    columns: Seq<ColumnModel>,
    definition: Option<Seq<char>>,
) -> bool {
    match definition {
        None => false,
        Some(sql) => lowered(compact_of(sql)) == lowered(view_definition(model, columns)),
    }
}

/// Requires that the view is the one that the sink makes.
pub fn verify_view_definition(
    spec: &DorisTargetSpec,
    columns: &Vec<ColumnLayout>,
    definition: &Option<String>,
) -> (result: Result<(), DorisSinkError>)
    ensures
        ({
            let fits = view_fits(spec@, column_views(columns@), option_view(*definition));
            match result {
                Ok(_) => fits,
                Err(error) => !fits && error@ == (DorisErrorModel::TargetLayoutMismatch {
                    name: spec@.table,
                }),
            }
        }),
{
    let fits: bool = match definition {
        None => false,
        Some(sql) => same_ignoring_case(
            compact(sql.as_str()).as_str(),
            expected_view_definition(spec, columns).as_str(),
        ),
    };
    if fits {
        Ok(())
    } else {
        Err(DorisSinkError::TargetLayoutMismatch { name: spec.table().to_owned() })
    }
}

/// Requires that the view shows the two technical columns and those of the relation.
pub fn verify_view_columns(spec: &DorisTargetSpec, columns: &Vec<ColumnLayout>, count: Option<u64>) -> (result:
    Result<(), DorisSinkError>)
    requires
        columns@.len() <= MAX_LOGICAL_COLUMNS,
    ensures
        match result {
            Ok(_) => count == Some((columns@.len() + 2) as u64),
            Err(error) => count != Some((columns@.len() + 2) as u64) && error@ == (
            DorisErrorModel::TargetLayoutMismatch { name: spec@.table }),
        },
{
    let fits: bool = match count {
        Some(count) => count == (columns.len() + 2) as u64,
        None => false,
    };
    if fits {
        Ok(())
    } else {
        Err(DorisSinkError::TargetLayoutMismatch { name: spec.table().to_owned() })
    }
}

/// Whether a value is read back as the one that was written. An unsigned integer may come back
/// as a signed one.
pub open spec fn read_back(value: CellModel, cell: CellModel) -> bool {
    ||| value == cell
    ||| cell matches CellModel::UInt(number) && number <= i64::MAX && value == CellModel::Int(
        number as i64,
    )
}

/// A table holds what an action has written.
pub open spec fn holds_written(rows: Seq<StoredModel>, action: ActionModel) -> bool {
    row_under(rows, action.id) matches Some(row) && {
        &&& row.deleted == action.deleted
        &&& row.hash == action.hash
        &&& row.values.len() == action.cells.len()
        &&& forall|i: int|
            0 <= i < row.values.len() ==> read_back(#[trigger] row.values[i], action.cells[i])
    }
}

/// What a table holds once some actions were written to it: under their IDs what they have
/// written, and under all others what it held before.
pub open spec fn written_to(
    before: Seq<StoredModel>,
    actions: Seq<ActionModel>,
    after: Seq<StoredModel>,
) -> bool {
    &&& forall|a: int|
        0 <= a < actions.len() ==> holds_written(after, #[trigger] actions[a])
    &&& forall|id: u64|
        (forall|a: int| 0 <= a < actions.len() ==> (#[trigger] actions[a]).id != id)
            ==> #[trigger] row_under(after, id) == row_under(before, id)
}

/// No ID is both written and deleted.
pub open spec fn of_one_mind(mutations: Seq<TerminalMutation>) -> bool {
    forall|i: int, j: int|
        0 <= i < mutations.len() && 0 <= j < mutations.len() && (
        #[trigger] mutations[i]).technical_id == (#[trigger] mutations[j]).technical_id
            ==> mutations[i].deleted == mutations[j].deleted
}

/// The actions are those of the mutations that have to be written.
proof fn lemma_actions_of(
    layout: DorisLayout,
    batch: RecordBatch,
    stored: Seq<StoredModel>,
    mutations: Seq<TerminalMutation>,
    count: int,
)
    requires
        0 <= count <= mutations.len(),
    ensures
        ({
            let actions = actions_of(layout, batch, stored, mutations, count);
            &&& forall|a: int|
                0 <= a < actions.len() ==> exists|i: int|
                    0 <= i < count && (#[trigger] actions[a]) == action_of(
                        layout,
                        batch,
                        #[trigger] mutations[i],
                    )
            &&& forall|a: int|
                0 <= a < actions.len() ==> decision(
                    held_by(stored, #[trigger] actions[a]),
                    actions[a].deleted,
                ) == Decision::Write
            &&& forall|i: int|
                0 <= i < count && decision(
                    held_by(stored, action_of(layout, batch, #[trigger] mutations[i])),
                    mutations[i].deleted,
                ) == Decision::Write ==> actions.contains(
                    action_of(layout, batch, mutations[i]),
                )
        }),
    decreases count,
{
    if count > 0 {
        lemma_actions_of(layout, batch, stored, mutations, count - 1);
        let before = actions_of(layout, batch, stored, mutations, count - 1);
        let actions = actions_of(layout, batch, stored, mutations, count);
        let own = action_of(layout, batch, mutations[count - 1]);
        assert forall|a: int| 0 <= a < actions.len() implies exists|i: int|
            0 <= i < count && (#[trigger] actions[a]) == action_of(
                layout,
                batch,
                #[trigger] mutations[i],
            ) by {
            if a < before.len() {
                assert(actions[a] == before[a]);
                let i = choose|i: int|
                    0 <= i < count - 1 && before[a] == action_of(
                        layout,
                        batch,
                        #[trigger] mutations[i],
                    );
                assert(actions[a] == action_of(layout, batch, mutations[i]));
            } else {
                assert(actions[a] == action_of(layout, batch, mutations[count - 1]));
            }
        }
        assert forall|a: int| 0 <= a < actions.len() implies decision(
            held_by(stored, #[trigger] actions[a]),
            actions[a].deleted,
        ) == Decision::Write by {
            if a < before.len() {
                assert(actions[a] == before[a]);
            }
        }
        assert forall|i: int|
            0 <= i < count && decision(
                held_by(stored, action_of(layout, batch, #[trigger] mutations[i])),
                mutations[i].deleted,
            ) == Decision::Write implies actions.contains(
            action_of(layout, batch, mutations[i]),
        ) by {
            if i < count - 1 {
                let action = action_of(layout, batch, mutations[i]);
                assert(before.contains(action));
                let a = choose|a: int| 0 <= a < before.len() && before[a] == action;
                assert(actions[a] == action);
            } else {
                assert(actions.last() == own);
            }
        }
    }
}

/// A mutation is refused by itself, or not at all.
proof fn lemma_no_fault(
    layout: DorisLayout,
    batch: RecordBatch,
    stored: Seq<StoredModel>,
    mutations: Seq<TerminalMutation>,
    count: int,
)
    requires
        0 <= count <= mutations.len(),
    ensures
        mutations_fault(layout, batch, stored, mutations, count) is None <==> forall|i: int|
            0 <= i < count ==> mutation_fault(layout, batch, stored, #[trigger] mutations[i])
                is None,
    decreases count,
{
    if count > 0 {
        lemma_no_fault(layout, batch, stored, mutations, count - 1);
    }
}

/// Replaying a batch converges: once what it had to write was written, the same batch is
/// accepted again, and has nothing to write.
pub proof fn law_replayed_batch_writes_nothing(
    layout: DorisLayout,
    batch: RecordBatch,
    mutations: Seq<TerminalMutation>,
    before: Seq<StoredModel>,
    after: Seq<StoredModel>,
)
    requires
        of_one_mind(mutations),
        mutations_fault(layout, batch, before, mutations, mutations.len() as int) is None,
        written_to(
            before,
            actions_of(layout, batch, before, mutations, mutations.len() as int),
            after,
        ),
    ensures
        mutations_fault(layout, batch, after, mutations, mutations.len() as int) is None,
        actions_of(layout, batch, after, mutations, mutations.len() as int) == Seq::<
            ActionModel,
        >::empty(),
{
    let count = mutations.len() as int;
    let actions = actions_of(layout, batch, before, mutations, count);
    lemma_actions_of(layout, batch, before, mutations, count);
    lemma_no_fault(layout, batch, before, mutations, count);
    assert forall|i: int| 0 <= i < count implies {
        &&& decision(
            held_by(after, action_of(layout, batch, #[trigger] mutations[i])),
            mutations[i].deleted,
        ) == Decision::Keep
        &&& mutation_fault(layout, batch, after, mutations[i]) is None
    } by {
        let own = action_of(layout, batch, mutations[i]);
        assert(mutation_fault(layout, batch, before, mutations[i]) is None);
        if decision(held_by(before, own), own.deleted) == Decision::Write {
            assert(actions.contains(own));
            let a = choose|a: int| 0 <= a < actions.len() && actions[a] == own;
            assert(holds_written(after, actions[a]));
            let row = row_under(after, own.id)->0;
            assert(row_same(row, own.hash, own.cells)) by {
                assert forall|c: int| 0 <= c < own.cells.len() implies cells_same(
                    #[trigger] row.values[c],
                    own.cells[c],
                ) by {
                    assert(read_back(row.values[c], own.cells[c]));
                    assert(!(own.cells[c] is Other));
                }
            }
        } else {
            assert forall|a: int| 0 <= a < actions.len() implies (#[trigger] actions[a]).id
                != own.id by {
                if actions[a].id == own.id {
                    let j = choose|j: int|
                        0 <= j < count && actions[a] == action_of(
                            layout,
                            batch,
                            #[trigger] mutations[j],
                        );
                    assert(mutations[i].deleted == mutations[j].deleted);
                    assert(mutation_fault(layout, batch, before, mutations[j]) is None);
                }
            }
            assert(row_under(after, own.id) == row_under(before, own.id));
        }
    }
    lemma_no_fault(layout, batch, after, mutations, count);
    lemma_actions_of(layout, batch, after, mutations, count);
    let again = actions_of(layout, batch, after, mutations, count);
    if again.len() > 0 {
        let i = choose|i: int|
            0 <= i < count && again[0] == action_of(layout, batch, #[trigger] mutations[i]);
        assert(again[0] == action_of(layout, batch, mutations[i]));
    }
    assert(again =~= Seq::<ActionModel>::empty());
}

/// An ID keeps its row, and once deleted it stays deleted: what a batch writes under an ID that
/// is stored already has the hash of the stored row, and a deleted row is left as it is.
pub proof fn law_stored_ids_keep_their_rows(
    layout: DorisLayout,
    batch: RecordBatch,
    mutations: Seq<TerminalMutation>,
    before: Seq<StoredModel>,
    after: Seq<StoredModel>,
    id: u64,
)
    requires
        written_to(
            before,
            actions_of(layout, batch, before, mutations, mutations.len() as int),
            after,
        ),
        row_under(before, id) is Some,
    ensures
        row_under(after, id) is Some,
        row_under(after, id)->0.hash == row_under(before, id)->0.hash,
        row_under(before, id)->0.deleted ==> row_under(after, id) == row_under(before, id),
{
    let count = mutations.len() as int;
    let actions = actions_of(layout, batch, before, mutations, count);
    lemma_actions_of(layout, batch, before, mutations, count);
    if exists|a: int| 0 <= a < actions.len() && (#[trigger] actions[a]).id == id {
        let a = choose|a: int| 0 <= a < actions.len() && (#[trigger] actions[a]).id == id;
        assert(decision(held_by(before, actions[a]), actions[a].deleted) == Decision::Write);
        assert(holds_written(after, actions[a]));
    } else {
        assert(row_under(after, id) == row_under(before, id));
    }
}

/// A batch takes effect once it was written: under the ID of each insertion stands its row, not
/// deleted, and under the ID of each deletion stands nothing, or a deleted row.
pub proof fn law_written_batch_takes_effect(
    layout: DorisLayout,
    batch: RecordBatch,
    mutations: Seq<TerminalMutation>,
    before: Seq<StoredModel>,
    after: Seq<StoredModel>,
    i: int,
)
    requires
        of_one_mind(mutations),
        mutations_fault(layout, batch, before, mutations, mutations.len() as int) is None,
        written_to(
            before,
            actions_of(layout, batch, before, mutations, mutations.len() as int),
            after,
        ),
        0 <= i < mutations.len(),
    ensures
        ({
            let row = mutations[i].row_index as int;
            match row_under(after, mutations[i].technical_id) {
                Some(stored) => {
                    &&& stored.deleted == mutations[i].deleted
                    &&& row_same(
                        stored,
                        row_digest(batch, row),
                        cells_of(batch, row, batch.columns@.len()),
                    )
                },
                None => mutations[i].deleted,
            }
        }),
{
    let count = mutations.len() as int;
    law_replayed_batch_writes_nothing(layout, batch, mutations, before, after);
    lemma_no_fault(layout, batch, after, mutations, count);
    lemma_actions_of(layout, batch, after, mutations, count);
    let own = action_of(layout, batch, mutations[i]);
    assert(mutation_fault(layout, batch, after, mutations[i]) is None);
    if decision(held_by(after, own), own.deleted) == Decision::Write {
        assert(actions_of(layout, batch, after, mutations, count).contains(own));
    }
}

} // verus!
