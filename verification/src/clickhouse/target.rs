//! A ClickHouse relation: what it is asked, and what its answers lead to.

use crate::change::{Change, RecordBatch};
use crate::clickhouse::config::{marker_name, state_name, ClickHouseTargetSpec, SpecModel};
use crate::clickhouse::error::{
    invalid_batch, invalid_response, ClickHouseErrorModel, ClickHouseSinkError,
};
use crate::clickhouse::row::{
    cell_json, cells_of, row_digest, value_views, CellModel, ClickHouseRowCodec, ClickHouseValue,
    EncodedRow,
};
use crate::clickhouse::schema::{
    column_type, column_views, ClickHouseLayout, ColumnLayout, ColumnModel,
};
use crate::clickhouse::sql::{
    create_view_sql, insert_head, insert_prefix, lookup_row, lookup_statement, lookup_sql,
    lookup_tuple, quote, quoted, row_json, row_text, selected, selected_columns, view_sql,
};
use crate::json::{
    json_array, json_content, json_elements, json_field, json_number, json_number_at, json_text_at,
    json_unquoted,
};
use crate::relation::batch::TerminalMutation;
use crate::relation::converge::{decide, decision, Decision, Held};
use crate::relation::pack::{ends_of, pack, piece_start, pieces, PackLimits};
use crate::relation::plan::{Lookup, Matches};
use crate::relation::row::{bounded_fault, RowError};
use crate::relation::target::{
    charge_refused, event_charge, relation_event_bytes, ChargeError, MAX_TARGET_BATCH_BYTES,
};
use crate::sqlite::row::encode_fault;
use crate::text::{
    byte_len, compact, compact_of, copy_range, decimal, find_text, parse_u64, parsed_u64, place_of,
    push_decimal, records, records_of, rest_of, same_text, text_bytes, trim, trimmed, views,
};
use vstd::prelude::*;

verus! {

/// The lookups of one statement take at most this many bytes, unless there is only one.
pub const MAX_LOOKUP_SQL_BYTES: usize = 4194304;

/// Requires that the sink runs on the database that its target is in.
pub fn verify_identity(database: &str, spec: &ClickHouseTargetSpec, reply: &str) -> (result: Result<
    (),
    ClickHouseSinkError,
>)
    ensures
        match result {
            Ok(_) => database@ == spec@.database && trimmed(reply@) == spec@.database_uuid,
            Err(error) => if database@ != spec@.database {
                error@ == ClickHouseErrorModel::DatabaseMismatch
            } else {
                trimmed(reply@) != spec@.database_uuid && error@
                    == ClickHouseErrorModel::TargetIdentityChanged
            },
        },
{
    if !same_text(database, spec.database()) {
        return Err(ClickHouseSinkError::DatabaseMismatch);
    }
    if !same_text(trim(reply).as_str(), spec.database_uuid()) {
        return Err(ClickHouseSinkError::TargetIdentityChanged);
    }
    Ok(())
}

/// The bytes of the statement around one row.
pub open spec fn framing(model: SpecModel, columns: Seq<ColumnModel>) -> nat {
    byte_len(selected(columns)) + byte_len(model.database) + byte_len(state_name(model.sink_id))
        + 256
}

/// The bytes that it takes to write one row.
pub open spec fn written_bytes(
    model: SpecModel,
    layout: ClickHouseLayout,
    batch: RecordBatch,
    row_index: int,
) -> nat {
    byte_len(
        row_json(
            u64::MAX,
            row_digest(batch, row_index),
            true,
            cells_of(layout, batch, row_index, batch.columns@.len()),
        ),
    ) + framing(model, column_views(layout.columns@))
}

/// What an event of a row is charged with: the larger of what the relation charges and of
/// what it takes to write it.
pub fn event_bytes(
    spec: &ClickHouseTargetSpec,
    codec: &ClickHouseRowCodec,
    input: &Change,
    row_index: usize,
) -> (result: Result<u64, ChargeError<ClickHouseSinkError>>)
    requires
        input.wf(),
        codec.layout.wf(),
    ensures
        ({
            let index = row_index as int;
            let charge = event_charge(*input, index);
            let encoded = written_bytes(spec@, codec.layout, input.records, index);
            let refused = bounded_fault(
                input.records,
                index,
                MAX_TARGET_BATCH_BYTES as usize,
            );
            let fault = encode_fault(codec.layout.schema, input.records, index);
            match result {
                Ok(bytes) => {
                    &&& refused is None
                    &&& fault is None
                    &&& bytes == (if charge < encoded {
                        encoded
                    } else {
                        charge
                    })
                },
                Err(ChargeError::Relation(error)) => charge_refused(*input, index, error@),
                Err(ChargeError::Target(error)) => {
                    &&& refused is None
                    &&& match fault {
                        Some(fault) => error@ == ClickHouseErrorModel::Row(fault),
                        None => encoded > usize::MAX && error@
                            == (ClickHouseErrorModel::InvalidBatch {
                            message: if framing(spec@, column_views(codec.layout.columns@))
                                > usize::MAX {
                                "ClickHouse delivery framing exceeds usize"@
                            } else {
                                "ClickHouse event byte charge exceeds usize"@
                            },
                        }),
                    }
                },
            }
        }),
{
    let baseline: u64 = match relation_event_bytes(input, row_index) {
        Ok(bytes) => bytes,
        Err(error) => {
            return Err(ChargeError::Relation(error));
        },
    };
    let row: EncodedRow = match codec.encode_row(&input.records, row_index) {
        Ok(row) => row,
        Err(error) => {
            return Err(ChargeError::Target(ClickHouseSinkError::Row(error)));
        },
    };
    let row_bytes: usize = text_bytes(row_text(u64::MAX, true, &row).as_str());
    let first: Option<usize> = text_bytes(
        selected_columns(&codec.layout.columns).as_str(),
    ).checked_add(text_bytes(spec.database()));
    let second: Option<usize> = match first {
        Some(sum) => sum.checked_add(text_bytes(spec.state_table().as_str())),
        None => None,
    };
    let frame: Option<usize> = match second {
        Some(sum) => sum.checked_add(256),
        None => None,
    };
    match frame {
        None => Err(
            ChargeError::Target(invalid_batch("ClickHouse delivery framing exceeds usize")),
        ),
        Some(frame) => match row_bytes.checked_add(frame) {
            None => Err(
                ChargeError::Target(invalid_batch("ClickHouse event byte charge exceeds usize")),
            ),
            Some(encoded) => if baseline < encoded as u64 {
                Ok(encoded as u64)
            } else {
                Ok(baseline)
            },
        },
    }
}

/// The lookups that one statement answers.
#[derive(Debug)]
pub struct LookupPiece {
    pub start: usize,
    pub end: usize,
    pub sql: String,
}

/// The statements that answer lookups, in order, and the row that stops them, if one does.
#[derive(Debug)]
pub struct LookupPlan {
    pub pieces: Vec<LookupPiece>,
    pub fault: Option<RowError>,
}

/// The lookup at `index` in a statement.
pub open spec fn tuple_at(
    layout: ClickHouseLayout,
    batch: RecordBatch,
    requests: Seq<Lookup>,
    index: int,
) -> Seq<char> {
    let row = requests[index].row_index as int;
    lookup_tuple(
        index as nat,
        requests[index].needed,
        requests[index].take,
        row_digest(batch, row),
        cells_of(layout, batch, row, batch.columns@.len()),
    )
}

/// How many lookups come before the first whose row cannot be encoded.
pub open spec fn encodable(
    layout: ClickHouseLayout,
    batch: RecordBatch,
    requests: Seq<Lookup>,
    count: int,
) -> int
    decreases count,
{
    if count <= 0 {
        0
    } else {
        let before = encodable(layout, batch, requests, count - 1);
        if before < count - 1 || encode_fault(
            layout.schema,
            batch,
            requests[count - 1].row_index as int,
        ) is Some {
            before
        } else {
            count
        }
    }
}

/// The lookups from `start` up to `end` in a statement.
pub open spec fn tuples(
    layout: ClickHouseLayout,
    batch: RecordBatch,
    requests: Seq<Lookup>,
    start: int,
    end: int,
) -> Seq<Seq<char>> {
    Seq::new((end - start) as nat, |i: int| tuple_at(layout, batch, requests, start + i))
}

/// The sizes of the first `count` lookups.
pub open spec fn tuple_sizes(
    layout: ClickHouseLayout,
    batch: RecordBatch,
    requests: Seq<Lookup>,
    count: int,
) -> Seq<usize> {
    Seq::new(
        count as nat,
        |i: int| byte_len(tuple_at(layout, batch, requests, i)) as usize,
    )
}

pub open spec fn lookup_limits() -> PackLimits {
    PackLimits { frame: 0, bytes: MAX_LOOKUP_SQL_BYTES, rows: usize::MAX }
}

/// Where each statement of a plan stops. The last lookups before a row that stops them are
/// not sent.
pub open spec fn lookup_ends(
    layout: ClickHouseLayout,
    batch: RecordBatch,
    requests: Seq<Lookup>,
) -> Seq<int> {
    let count = encodable(layout, batch, requests, requests.len() as int);
    let ends = pieces(tuple_sizes(layout, batch, requests, count), 0, lookup_limits());
    if count < requests.len() && ends.len() > 0 {
        ends.drop_last()
    } else {
        ends
    }
}

proof fn lemma_encodable_stays(
    layout: ClickHouseLayout,
    batch: RecordBatch,
    requests: Seq<Lookup>,
    low: int,
    high: int,
)
    requires
        0 <= low <= high,
        encodable(layout, batch, requests, low) < low,
    ensures
        encodable(layout, batch, requests, high) == encodable(layout, batch, requests, low),
    decreases high - low,
{
    if low < high {
        lemma_encodable_stays(layout, batch, requests, low, high - 1);
    }
}

/// Plans the statements that answer lookups.
pub fn plan_lookup(
    spec: &ClickHouseTargetSpec,
    codec: &ClickHouseRowCodec,
    input: &Change,
    requests: &Vec<Lookup>,
) -> (plan: LookupPlan)
    requires
        input.wf(),
        codec.layout.wf(),
    ensures
        ({
            let layout = codec.layout;
            let batch = input.records;
            let count = encodable(layout, batch, requests@, requests@.len() as int);
            let ends = lookup_ends(layout, batch, requests@);
            &&& plan.fault is None <==> count == requests@.len()
            &&& plan.fault is Some ==> encode_fault(
                layout.schema,
                batch,
                requests@[count].row_index as int,
            ) == Some(plan.fault->0@)
            &&& plan.pieces@.len() == ends.len()
            &&& forall|i: int|
                0 <= i < ends.len() ==> {
                    let piece = #[trigger] plan.pieces@[i];
                    &&& piece.start == piece_start(ends, i)
                    &&& piece.end == ends[i]
                    &&& piece.sql@ == lookup_sql(
                        spec@,
                        column_views(layout.columns@),
                        tuples(layout, batch, requests@, piece.start as int, piece.end as int),
                    )
                }
        }),
{
    let ghost layout = codec.layout;
    let ghost batch = input.records;
    let mut texts: Vec<String> = Vec::new();
    let mut sizes: Vec<usize> = Vec::new();
    let mut fault: Option<RowError> = None;
    let mut index: usize = 0;
    assert(views(texts@) =~= tuples(layout, batch, requests@, 0, 0));
    assert(sizes@ =~= tuple_sizes(layout, batch, requests@, 0));
    while index < requests.len() && fault.is_none()
        invariant
            input.wf(),
            codec.layout.wf(),
            layout == codec.layout,
            batch == input.records,
            index <= requests@.len(),
            views(texts@) == tuples(layout, batch, requests@, 0, index as int),
            sizes@ == tuple_sizes(layout, batch, requests@, index as int),
            encodable(layout, batch, requests@, index as int) == index,
            match fault {
                None => true,
                Some(error) => index < requests@.len() && encode_fault(
                    layout.schema,
                    batch,
                    requests@[index as int].row_index as int,
                ) == Some(error@),
            },
        decreases requests@.len() - index,
            (if fault is None {
                1int
            } else {
                0int
            }),
    {
        let request: Lookup = requests[index];
        match codec.encode_row(&input.records, request.row_index) {
            Ok(row) => {
                let text: String = lookup_row(index, &request, &row);
                let ghost before = texts@;
                sizes.push(text_bytes(text.as_str()));
                texts.push(text);
                proof {
                    assert(views(texts@) =~= views(before).push(text@));
                    assert(text@ == tuple_at(layout, batch, requests@, index as int));
                    assert(views(texts@) =~= tuples(layout, batch, requests@, 0, index + 1));
                    assert(sizes@ =~= tuple_sizes(layout, batch, requests@, index + 1));
                }
                index += 1;
            },
            Err(error) => {
                fault = Some(error);
            },
        }
    }
    proof {
        if fault is Some {
            assert(encodable(layout, batch, requests@, index + 1) == index);
            lemma_encodable_stays(
                layout,
                batch,
                requests@,
                index + 1,
                requests@.len() as int,
            );
        }
    }
    let limits: PackLimits = PackLimits { frame: 0, bytes: MAX_LOOKUP_SQL_BYTES, rows: usize::MAX };
    let ends: Vec<usize> = pack(&sizes, limits);
    let ghost all = ends_of(ends@);
    assert(all.len() == ends@.len());
    let count: usize = if fault.is_some() && ends.len() > 0 {
        ends.len() - 1
    } else {
        ends.len()
    };
    let ghost stops = lookup_ends(layout, batch, requests@);
    proof {
        assert(stops =~= all.take(count as int));
        if sizes@.len() > 0 {
            crate::relation::pack::law_pieces_cover_all_rows(sizes@, limits);
            crate::relation::pack::lemma_pieces_cover(sizes@, 0, limits);
        }
    }
    let mut pieces_out: Vec<LookupPiece> = Vec::new();
    let mut start: usize = 0;
    let mut place: usize = 0;
    while place < count
        invariant
            layout == codec.layout,
            batch == input.records,
            place <= count <= ends@.len(),
            all == ends_of(ends@),
            all.len() == ends@.len(),
            stops == all.take(count as int),
            texts@.len() == index,
            views(texts@) == tuples(layout, batch, requests@, 0, index as int),
            forall|i: int|
                0 <= i < all.len() ==> piece_start(all, i) < #[trigger] all[i] <= index,
            start == piece_start(all, place as int),
            pieces_out@.len() == place,
            forall|i: int|
                0 <= i < place ==> {
                    let piece = #[trigger] pieces_out@[i];
                    &&& piece.start == piece_start(stops, i)
                    &&& piece.end == stops[i]
                    &&& piece.sql@ == lookup_sql(
                        spec@,
                        column_views(layout.columns@),
                        tuples(layout, batch, requests@, piece.start as int, piece.end as int),
                    )
                },
        decreases count - place,
    {
        let end: usize = ends[place];
        proof {
            assert(all[place as int] == end);
            assert(piece_start(all, place as int) < all[place as int]);
            assert(stops[place as int] == end);
            assert(piece_start(stops, place as int) == start);
        }
        let part: Vec<String> = copy_range(&texts, start, end);
        assert(views(part@) =~= tuples(layout, batch, requests@, start as int, end as int));
        let sql: String = lookup_statement(spec, &codec.layout.columns, &part);
        pieces_out.push(LookupPiece { start, end, sql });
        start = end;
        place += 1;
    }
    LookupPlan { pieces: pieces_out, fault }
}

/// The number that an element of a JSON array holds, as a number or within a string.
pub open spec fn element_number(element: Seq<char>) -> Option<u64> {
    match json_content(element) {
        Some(text) => parsed_u64(text),
        None => parsed_u64(element),
    }
}

fn number_of(element: &str) -> (number: Option<u64>)
    ensures
        number == element_number(element@),
{
    match json_unquoted(element) {
        Some(text) => parse_u64(text.as_str()),
        None => parse_u64(element),
    }
}

/// The numbers that elements hold, if each of the first `count` holds one.
pub open spec fn element_numbers(elements: Seq<Seq<char>>, count: int) -> Option<Seq<u64>>
    decreases count,
{
    if count <= 0 {
        Some(Seq::empty())
    } else {
        match (element_numbers(elements, count - 1), element_number(elements[count - 1])) {
            (Some(before), Some(number)) => Some(before.push(number)),
            _ => None,
        }
    }
}

proof fn lemma_numbers_stay(elements: Seq<Seq<char>>, low: int, high: int)
    requires
        low <= high,
        element_numbers(elements, low) is None,
    ensures
        element_numbers(elements, high) is None,
    decreases high - low,
{
    if low < high {
        lemma_numbers_stay(elements, low, high - 1);
    }
}

fn numbers_of(elements: &Vec<String>) -> (numbers: Option<Vec<u64>>)
    ensures
        match numbers {
            Some(numbers) => element_numbers(views(elements@), elements@.len() as int) == Some(
                numbers@,
            ),
            None => element_numbers(views(elements@), elements@.len() as int) is None,
        },
{
    let ghost texts = views(elements@);
    let mut numbers: Vec<u64> = Vec::new();
    let mut index: usize = 0;
    while index < elements.len()
        invariant
            texts == views(elements@),
            index <= elements@.len(),
            element_numbers(texts, index as int) == Some(numbers@),
        decreases elements@.len() - index,
    {
        assert(texts[index as int] == elements@[index as int]@);
        match number_of(elements[index].as_str()) {
            Some(number) => {
                numbers.push(number);
            },
            None => {
                proof {
                    lemma_numbers_stay(texts, index + 1, elements@.len() as int);
                }
                return None;
            },
        }
        index += 1;
    }
    Some(numbers)
}

/// What one line of a reply says of the lookup with a number: how many rows match, and the
/// IDs of some of them.
pub open spec fn line_matches(line: Seq<char>, request: nat) -> Option<(u64, Seq<u64>)> {
    match json_array(line) {
        None => None,
        Some(elements) => if elements.len() != 3 || element_number(elements[0]) is None
            || element_number(elements[0])->0 != request {
            None
        } else {
            match (element_number(elements[1]), json_array(elements[2])) {
                (Some(count), Some(ids)) => match element_numbers(ids, ids.len() as int) {
                    Some(numbers) => Some((count, numbers)),
                    None => None,
                },
                _ => None,
            }
        },
    }
}

fn read_matches(line: &str, request: usize) -> (found: Option<Matches>)
    ensures
        match found {
            Some(found) => line_matches(line@, request as nat) == Some((found.count, found.ids@)),
            None => line_matches(line@, request as nat) is None,
        },
{
    let elements: Vec<String> = match json_elements(line) {
        Some(elements) => elements,
        None => {
            return None;
        },
    };
    assert(views(elements@).len() == elements@.len());
    if elements.len() != 3 {
        return None;
    }
    proof {
        assert(views(elements@)[0] == elements@[0]@);
        assert(views(elements@)[1] == elements@[1]@);
        assert(views(elements@)[2] == elements@[2]@);
    }
    match number_of(elements[0].as_str()) {
        Some(number) => if number != request as u64 {
            return None;
        },
        None => {
            return None;
        },
    }
    let count: u64 = match number_of(elements[1].as_str()) {
        Some(count) => count,
        None => {
            return None;
        },
    };
    let list: Vec<String> = match json_elements(elements[2].as_str()) {
        Some(list) => list,
        None => {
            return None;
        },
    };
    assert(views(list@).len() == list@.len());
    match numbers_of(&list) {
        Some(ids) => Some(Matches { count, ids }),
        None => None,
    }
}

/// Whether a reply has one line for each of `count` lookups from `start` on.
pub open spec fn reply_answers(body: Seq<char>, start: nat, count: nat) -> bool {
    let lines = records_of(body);
    &&& lines.len() == count
    &&& forall|i: int|
        0 <= i < lines.len() ==> line_matches(#[trigger] lines[i], (start + i) as nat) is Some
}

/// Reads the reply to the lookups from `start` up to `end`.
pub fn read_lookup_rows(body: &str, start: usize, end: usize) -> (result: Result<
    Vec<Matches>,
    ClickHouseSinkError,
>)
    requires
        start <= end,
    ensures
        match result {
            Ok(found) => {
                &&& reply_answers(body@, start as nat, (end - start) as nat)
                &&& found@.len() == end - start
                &&& forall|i: int|
                    0 <= i < found@.len() ==> line_matches(
                        records_of(body@)[i],
                        (start + i) as nat,
                    ) == Some(((#[trigger] found@[i]).count, found@[i].ids@))
            },
            Err(error) => {
                &&& !reply_answers(body@, start as nat, (end - start) as nat)
                &&& error@ == (ClickHouseErrorModel::InvalidResponse {
                    stage: "match target rows"@,
                })
            },
        },
{
    let lines: Vec<String> = records(body);
    assert(views(lines@).len() == lines@.len());
    let mut found: Vec<Matches> = Vec::new();
    if lines.len() != end - start {
        return Err(invalid_response("match target rows"));
    }
    let mut index: usize = 0;
    while index < lines.len()
        invariant
            start <= end,
            views(lines@) == records_of(body@),
            lines@.len() == end - start,
            views(lines@).len() == lines@.len(),
            index <= lines@.len(),
            found@.len() == index,
            forall|i: int|
                0 <= i < index ==> line_matches(
                    #[trigger] records_of(body@)[i],
                    (start + i) as nat,
                ) == Some((found@[i].count, found@[i].ids@)),
        decreases lines@.len() - index,
    {
        assert(views(lines@)[index as int] == lines@[index as int]@);
        match read_matches(lines[index].as_str(), start + index) {
            Some(matches) => {
                found.push(matches);
            },
            None => {
                assert(line_matches(records_of(body@)[index as int], (start + index) as nat) is None);
                return Err(invalid_response("match target rows"));
            },
        }
        index += 1;
    }
    Ok(found)
}

/// What the state table holds under an ID, with its values as JSON.
#[derive(Debug, PartialEq, Eq)]
pub struct StoredRow {
    pub id: u64,
    pub hash: String,
    pub deleted: bool,
    pub values: Vec<String>,
}

/// What a `StoredRow` is.
pub ghost struct StoredModel {
    pub id: u64,
    pub hash: Seq<char>,
    pub deleted: bool,
    pub values: Seq<Seq<char>>,
}

impl View for StoredRow {
    type V = StoredModel;

    open spec fn view(&self) -> StoredModel {
        StoredModel {
            id: self.id,
            hash: self.hash@,
            deleted: self.deleted,
            values: views(self.values@),
        }
    }
}

/// The views of some rows.
pub open spec fn stored_views(rows: Seq<StoredRow>) -> Seq<StoredModel> {
    rows.map_values(|row: StoredRow| row@)
}

/// What is wrong with a stored row.
#[derive(Clone, Copy, Debug, PartialEq, Eq, Structural)]
pub enum StoredFault {
    Response,
    Layout,
}

/// The row that a line of a reply holds, or what is wrong with it.
pub open spec fn line_row(line: Seq<char>, columns: nat) -> Result<StoredModel, StoredFault> {
    match json_array(line) {
        None => Err(StoredFault::Response),
        Some(elements) => if elements.len() != columns + 4 {
            Err(StoredFault::Response)
        } else {
            match (
                element_number(elements[0]),
                json_content(elements[1]),
                element_number(elements[2]),
                element_number(elements[3]),
            ) {
                (Some(id), Some(hash), Some(version), Some(deleted)) => if version != deleted
                    || version > 1 {
                    Err(StoredFault::Layout)
                } else {
                    Ok(StoredModel { id, hash, deleted: deleted == 1, values: elements.skip(4) })
                },
                _ => Err(StoredFault::Response),
            }
        },
    }
}

fn read_row(line: &str, columns: usize) -> (result: Result<StoredRow, StoredFault>)
    requires
        columns <= 0x1_0000,
    ensures
        match result {
            Ok(row) => line_row(line@, columns as nat) == Ok::<StoredModel, StoredFault>(row@),
            Err(fault) => line_row(line@, columns as nat) == Err::<StoredModel, StoredFault>(fault),
        },
{
    let elements: Vec<String> = match json_elements(line) {
        Some(elements) => elements,
        None => {
            return Err(StoredFault::Response);
        },
    };
    assert(views(elements@).len() == elements@.len());
    if elements.len() != columns + 4 {
        return Err(StoredFault::Response);
    }
    proof {
        assert(views(elements@)[0] == elements@[0]@);
        assert(views(elements@)[1] == elements@[1]@);
        assert(views(elements@)[2] == elements@[2]@);
        assert(views(elements@)[3] == elements@[3]@);
    }
    let id: u64 = match number_of(elements[0].as_str()) {
        Some(id) => id,
        None => {
            return Err(StoredFault::Response);
        },
    };
    let hash: String = match json_unquoted(elements[1].as_str()) {
        Some(hash) => hash,
        None => {
            return Err(StoredFault::Response);
        },
    };
    let version: u64 = match number_of(elements[2].as_str()) {
        Some(version) => version,
        None => {
            return Err(StoredFault::Response);
        },
    };
    let deleted: u64 = match number_of(elements[3].as_str()) {
        Some(deleted) => deleted,
        None => {
            return Err(StoredFault::Response);
        },
    };
    if version != deleted || version > 1 {
        return Err(StoredFault::Layout);
    }
    let values: Vec<String> = copy_range(&elements, 4, elements.len());
    assert(views(values@) =~= views(elements@).skip(4));
    Ok(StoredRow { id, hash, deleted: deleted == 1, values })
}

/// The row under an ID.
pub open spec fn row_under(rows: Seq<StoredModel>, id: u64) -> Option<StoredModel>
    decreases rows.len(),
{
    if rows.len() == 0 {
        None
    } else if rows.last().id == id {
        Some(rows.last())
    } else {
        row_under(rows.drop_last(), id)
    }
}

fn find_row(rows: &Vec<StoredRow>, id: u64) -> (place: Option<usize>)
    ensures
        match place {
            Some(place) => {
                &&& place < rows@.len()
                &&& row_under(stored_views(rows@), id) == Some(rows@[place as int]@)
            },
            None => row_under(stored_views(rows@), id) is None,
        },
{
    let ghost models = stored_views(rows@);
    let mut left: usize = rows.len();
    assert(models.take(left as int) =~= models);
    while left > 0
        invariant
            models == stored_views(rows@),
            left <= rows@.len(),
            row_under(models, id) == row_under(models.take(left as int), id),
        decreases left,
    {
        proof {
            assert(models[left - 1] == rows@[left - 1]@);
            assert(models.take(left as int).last() == models[left - 1]);
            assert(models.take(left as int).drop_last() =~= models.take(left - 1));
        }
        if rows[left - 1].id == id {
            return Some(left - 1);
        }
        left -= 1;
    }
    None
}

/// The rows that the first `count` lines hold, or the first thing that is wrong with them: no
/// ID may occur twice.
pub open spec fn lines_rows(lines: Seq<Seq<char>>, columns: nat, count: int) -> Result<
    Seq<StoredModel>,
    StoredFault,
>
    decreases count,
{
    if count <= 0 {
        Ok(Seq::empty())
    } else {
        match lines_rows(lines, columns, count - 1) {
            Err(fault) => Err(fault),
            Ok(before) => match line_row(lines[count - 1], columns) {
                Err(fault) => Err(fault),
                Ok(row) => if row_under(before, row.id) is Some {
                    Err(StoredFault::Layout)
                } else {
                    Ok(before.push(row))
                },
            },
        }
    }
}

proof fn lemma_rows_fault_stays(lines: Seq<Seq<char>>, columns: nat, low: int, high: int)
    requires
        low <= high,
        lines_rows(lines, columns, low) is Err,
    ensures
        lines_rows(lines, columns, high) == lines_rows(lines, columns, low),
    decreases high - low,
{
    if low < high {
        lemma_rows_fault_stays(lines, columns, low, high - 1);
    }
}

/// How a fault of a stored row is reported.
pub open spec fn stored_error(model: SpecModel, fault: StoredFault) -> ClickHouseErrorModel {
    match fault {
        StoredFault::Response => ClickHouseErrorModel::InvalidResponse {
            stage: "read mutation IDs"@,
        },
        StoredFault::Layout => ClickHouseErrorModel::TargetLayoutMismatch {
            name: state_name(model.sink_id),
        },
    }
}

fn refuse_stored(spec: &ClickHouseTargetSpec, fault: StoredFault) -> (error: ClickHouseSinkError)
    ensures
        error@ == stored_error(spec@, fault),
{
    match fault {
        StoredFault::Response => invalid_response("read mutation IDs"),
        StoredFault::Layout => ClickHouseSinkError::TargetLayoutMismatch {
            name: spec.state_table(),
        },
    }
}

/// Reads what the state table holds under some IDs.
pub fn read_stored(spec: &ClickHouseTargetSpec, columns: &Vec<ColumnLayout>, body: &str) -> (result:
    Result<Vec<StoredRow>, ClickHouseSinkError>)
    requires
        columns@.len() <= 0x1_0000,
    ensures
        ({
            let lines = records_of(body@);
            let read = lines_rows(lines, columns@.len(), lines.len() as int);
            match result {
                Ok(rows) => read == Ok::<Seq<StoredModel>, StoredFault>(stored_views(rows@)),
                Err(error) => read is Err && error@ == stored_error(spec@, read->Err_0),
            }
        }),
{
    let lines: Vec<String> = records(body);
    let ghost texts = records_of(body@);
    assert(views(lines@).len() == lines@.len());
    let mut rows: Vec<StoredRow> = Vec::new();
    let mut index: usize = 0;
    assert(stored_views(rows@) =~= Seq::empty());
    while index < lines.len()
        invariant
            columns@.len() <= 0x1_0000,
            texts == records_of(body@),
            views(lines@) == texts,
            texts.len() == lines@.len(),
            index <= lines@.len(),
            lines_rows(texts, columns@.len(), index as int) == Ok::<Seq<StoredModel>, StoredFault>(
                stored_views(rows@),
            ),
        decreases lines@.len() - index,
    {
        assert(texts[index as int] == lines@[index as int]@);
        match read_row(lines[index].as_str(), columns.len()) {
            Err(fault) => {
                proof {
                    lemma_rows_fault_stays(
                        texts,
                        columns@.len(),
                        index + 1,
                        texts.len() as int,
                    );
                }
                return Err(refuse_stored(spec, fault));
            },
            Ok(row) => {
                if find_row(&rows, row.id).is_some() {
                    proof {
                        lemma_rows_fault_stays(
                            texts,
                            columns@.len(),
                            index + 1,
                            texts.len() as int,
                        );
                    }
                    return Err(refuse_stored(spec, StoredFault::Layout));
                }
                let ghost before = rows@;
                rows.push(row);
                assert(stored_views(rows@) =~= stored_views(before).push(row@));
            },
        }
        index += 1;
    }
    Ok(rows)
}

/// Whether stored JSON is that of a value. A number may be stored within a string.
pub open spec fn json_same(element: Seq<char>, cell: CellModel) -> bool {
    ||| element == cell_json(cell)
    ||| (cell is Unsigned || cell is Negative) && json_content(element) == Some(cell_json(cell))
}

fn json_equal(element: &str, value: &ClickHouseValue) -> (same: bool)
    ensures
        same == json_same(element@, value@),
{
    let expected: String = value.json();
    if same_text(element, expected.as_str()) {
        return true;
    }
    let number: bool = match value {
        ClickHouseValue::Unsigned(_) => true,
        ClickHouseValue::Negative(_) => true,
        _ => false,
    };
    if number {
        match json_unquoted(element) {
            Some(text) => same_text(text.as_str(), expected.as_str()),
            None => false,
        }
    } else {
        false
    }
}

/// Whether a stored row is the row with this hash and these values.
pub open spec fn row_same(stored: StoredModel, hash: Seq<char>, cells: Seq<CellModel>) -> bool {
    &&& stored.hash == hash
    &&& stored.values.len() == cells.len()
    &&& forall|i: int| 0 <= i < cells.len() ==> json_same(#[trigger] stored.values[i], cells[i])
}

fn same_row(stored: &StoredRow, row: &EncodedRow) -> (same: bool)
    ensures
        same == row_same(stored@, row.hash@, value_views(row.values@)),
{
    let ghost cells = value_views(row.values@);
    assert(stored@.values.len() == stored.values@.len());
    if !same_text(stored.hash.as_str(), row.hash.as_str()) {
        return false;
    }
    if stored.values.len() != row.values.len() {
        return false;
    }
    let mut index: usize = 0;
    while index < row.values.len()
        invariant
            cells == value_views(row.values@),
            stored@.values.len() == stored.values@.len(),
            stored.values@.len() == row.values@.len(),
            index <= row.values@.len(),
            forall|i: int|
                0 <= i < index ==> json_same(#[trigger] stored@.values[i], cells[i]),
        decreases row.values@.len() - index,
    {
        proof {
            assert(cells[index as int] == row.values@[index as int]@);
            assert(stored@.values[index as int] == stored.values@[index as int]@);
        }
        if !json_equal(stored.values[index].as_str(), &row.values[index]) {
            assert(!json_same(stored@.values[index as int], cells[index as int]));
            return false;
        }
        index += 1;
    }
    true
}

/// A row to be written to the state table.
#[derive(Debug)]
pub struct WriteAction {
    pub id: u64,
    pub deleted: bool,
    pub row: EncodedRow,
}

/// What a `WriteAction` is.
pub ghost struct ActionModel {
    pub id: u64,
    pub deleted: bool,
    pub hash: Seq<char>,
    pub cells: Seq<CellModel>,
}

impl View for WriteAction {
    type V = ActionModel;

    open spec fn view(&self) -> ActionModel {
        ActionModel {
            id: self.id,
            deleted: self.deleted,
            hash: self.row.hash@,
            cells: value_views(self.row.values@),
        }
    }
}

/// The views of some actions.
pub open spec fn action_views(actions: Seq<WriteAction>) -> Seq<ActionModel> {
    actions.map_values(|action: WriteAction| action@)
}

/// The row of a mutation.
pub open spec fn action_of(
    layout: ClickHouseLayout,
    batch: RecordBatch,
    mutation: TerminalMutation,
) -> ActionModel {
    let row = mutation.row_index as int;
    ActionModel {
        id: mutation.technical_id,
        deleted: mutation.deleted,
        hash: row_digest(batch, row),
        cells: cells_of(layout, batch, row, batch.columns@.len()),
    }
}

/// What the state table holds under the ID of a mutation.
pub open spec fn held_by(stored: Seq<StoredModel>, action: ActionModel) -> Option<Held> {
    match row_under(stored, action.id) {
        Some(row) => Some(
            Held { same_row: row_same(row, action.hash, action.cells), deleted: row.deleted },
        ),
        None => None,
    }
}

/// Why a mutation is refused, if it is.
pub open spec fn mutation_fault(
    layout: ClickHouseLayout,
    batch: RecordBatch,
    stored: Seq<StoredModel>,
    mutation: TerminalMutation,
) -> Option<ClickHouseErrorModel> {
    let id = decimal(mutation.technical_id as nat);
    if mutation.row_index > usize::MAX {
        Some(ClickHouseErrorModel::InvalidBatch { message: "row index exceeds usize"@ })
    } else {
        match encode_fault(layout.schema, batch, mutation.row_index as int) {
            Some(fault) => Some(ClickHouseErrorModel::Row(fault)),
            None => match decision(
                held_by(stored, action_of(layout, batch, mutation)),
                mutation.deleted,
            ) {
                Decision::Rebound => Some(
                    ClickHouseErrorModel::InvalidBatch {
                        message: "technical ID "@ + id + " is bound to another logical row"@,
                    },
                ),
                Decision::Resurrected => Some(
                    ClickHouseErrorModel::InvalidBatch {
                        message: "technical ID "@ + id + " cannot be resurrected"@,
                    },
                ),
                _ => None,
            },
        }
    }
}

/// The first reason among the first `count` mutations.
pub open spec fn mutations_fault(
    layout: ClickHouseLayout,
    batch: RecordBatch,
    stored: Seq<StoredModel>,
    mutations: Seq<TerminalMutation>,
    count: int,
) -> Option<ClickHouseErrorModel>
    decreases count,
{
    if count <= 0 {
        None
    } else {
        match mutations_fault(layout, batch, stored, mutations, count - 1) {
            Some(fault) => Some(fault),
            None => mutation_fault(layout, batch, stored, mutations[count - 1]),
        }
    }
}

proof fn lemma_mutations_fault_stays(
    layout: ClickHouseLayout,
    batch: RecordBatch,
    stored: Seq<StoredModel>,
    mutations: Seq<TerminalMutation>,
    low: int,
    high: int,
)
    requires
        low <= high,
        mutations_fault(layout, batch, stored, mutations, low) is Some,
    ensures
        mutations_fault(layout, batch, stored, mutations, high) == mutations_fault(
            layout,
            batch,
            stored,
            mutations,
            low,
        ),
    decreases high - low,
{
    if low < high {
        lemma_mutations_fault_stays(layout, batch, stored, mutations, low, high - 1);
    }
}

/// What the first `count` mutations have to write.
pub open spec fn actions_of(
    layout: ClickHouseLayout,
    batch: RecordBatch,
    stored: Seq<StoredModel>,
    mutations: Seq<TerminalMutation>,
    count: int,
) -> Seq<ActionModel>
    decreases count,
{
    if count <= 0 {
        Seq::empty()
    } else {
        let before = actions_of(layout, batch, stored, mutations, count - 1);
        let action = action_of(layout, batch, mutations[count - 1]);
        if decision(held_by(stored, action), action.deleted) == Decision::Write {
            before.push(action)
        } else {
            before
        }
    }
}

/// Decides what a batch has to write, given what the state table holds under its IDs.
pub fn plan_write(
    codec: &ClickHouseRowCodec,
    input: &Change,
    mutations: &Vec<TerminalMutation>,
    stored: &Vec<StoredRow>,
) -> (result: Result<Vec<WriteAction>, ClickHouseSinkError>)
    requires
        input.wf(),
        codec.layout.wf(),
    ensures
        ({
            let held = stored_views(stored@);
            let count = mutations@.len() as int;
            let fault = mutations_fault(
                codec.layout,
                input.records,
                held,
                mutations@,
                count,
            );
            match result {
                Ok(actions) => {
                    &&& fault is None
                    &&& action_views(actions@) == actions_of(
                        codec.layout,
                        input.records,
                        held,
                        mutations@,
                        count,
                    )
                },
                Err(error) => fault == Some(error@),
            }
        }),
{
    let ghost layout = codec.layout;
    let ghost batch = input.records;
    let ghost held = stored_views(stored@);
    let mut actions: Vec<WriteAction> = Vec::new();
    let mut index: usize = 0;
    assert(action_views(actions@) =~= Seq::empty());
    while index < mutations.len()
        invariant
            input.wf(),
            codec.layout.wf(),
            layout == codec.layout,
            batch == input.records,
            held == stored_views(stored@),
            index <= mutations@.len(),
            mutations_fault(layout, batch, held, mutations@, index as int) is None,
            action_views(actions@) == actions_of(layout, batch, held, mutations@, index as int),
        decreases mutations@.len() - index,
    {
        let mutation: TerminalMutation = mutations[index];
        let ghost total = mutations@.len() as int;
        if mutation.row_index > usize::MAX as u64 {
            proof {
                lemma_mutations_fault_stays(layout, batch, held, mutations@, index + 1, total);
            }
            return Err(invalid_batch("row index exceeds usize"));
        }
        let row: EncodedRow = match codec.encode_row(&input.records, mutation.row_index as usize) {
            Ok(row) => row,
            Err(error) => {
                proof {
                    lemma_mutations_fault_stays(layout, batch, held, mutations@, index + 1, total);
                }
                return Err(ClickHouseSinkError::Row(error));
            },
        };
        let found: Option<Held> = match find_row(stored, mutation.technical_id) {
            Some(place) => Some(
                Held {
                    same_row: same_row(&stored[place], &row),
                    deleted: stored[place].deleted,
                },
            ),
            None => None,
        };
        assert(found == held_by(held, action_of(layout, batch, mutation)));
        match decide(found, mutation.deleted) {
            Decision::Rebound => {
                let mut message: String = "technical ID ".to_owned();
                push_decimal(&mut message, mutation.technical_id);
                message.append(" is bound to another logical row");
                proof {
                    lemma_mutations_fault_stays(layout, batch, held, mutations@, index + 1, total);
                }
                return Err(invalid_batch(message.as_str()));
            },
            Decision::Resurrected => {
                let mut message: String = "technical ID ".to_owned();
                push_decimal(&mut message, mutation.technical_id);
                message.append(" cannot be resurrected");
                proof {
                    lemma_mutations_fault_stays(layout, batch, held, mutations@, index + 1, total);
                }
                return Err(invalid_batch(message.as_str()));
            },
            Decision::Write => {
                let ghost before = actions@;
                let action: WriteAction = WriteAction {
                    id: mutation.technical_id,
                    deleted: mutation.deleted,
                    row,
                };
                actions.push(action);
                assert(action_views(actions@) =~= action_views(before).push(action@));
            },
            Decision::Keep => {},
        }
        index += 1;
    }
    Ok(actions)
}

/// The rows of the first `count` actions, each on a line of its own.
pub open spec fn action_lines(actions: Seq<ActionModel>, count: int) -> Seq<char>
    decreases count,
{
    if count <= 0 {
        Seq::empty()
    } else {
        let action = actions[count - 1];
        action_lines(actions, count - 1) + row_json(
            action.id,
            action.hash,
            action.deleted,
            action.cells,
        ) + "\n"@
    }
}

/// The statement that writes actions, unless there is nothing to write.
pub fn write_payload(
    spec: &ClickHouseTargetSpec,
    columns: &Vec<ColumnLayout>,
    actions: &Vec<WriteAction>,
) -> (payload: Option<String>)
    ensures
        payload is None <==> actions@.len() == 0,
        payload is Some ==> payload->0@ == insert_head(spec@, column_views(columns@))
            + action_lines(action_views(actions@), actions@.len() as int),
{
    if actions.len() == 0 {
        return None;
    }
    let ghost models = action_views(actions@);
    let mut lines: String = String::new();
    let mut index: usize = 0;
    while index < actions.len()
        invariant
            models == action_views(actions@),
            index <= actions@.len(),
            lines@ == action_lines(models, index as int),
        decreases actions@.len() - index,
    {
        assert(models[index as int] == actions@[index as int]@);
        let action: &WriteAction = &actions[index];
        lines.append(row_text(action.id, action.deleted, &action.row).as_str());
        lines.append("\n");
        index += 1;
    }
    let mut payload: String = insert_prefix(spec, columns);
    payload.append(lines.as_str());
    Some(payload)
}

/// The number that a reply holds.
pub open spec fn scalar(body: Seq<char>) -> Option<u64> {
    parsed_u64(trimmed(body))
}

pub fn scalar_u64(body: &str, stage: &str) -> (result: Result<u64, ClickHouseSinkError>)
    ensures
        match result {
            Ok(value) => scalar(body@) == Some(value),
            Err(error) => scalar(body@) is None && error@ == (
            ClickHouseErrorModel::InvalidResponse { stage: stage@ }),
        },
{
    match parse_u64(trim(body).as_str()) {
        Some(value) => Ok(value),
        None => Err(invalid_response(stage)),
    }
}

/// The text under a key, or nothing.
pub open spec fn text_under(json: Seq<char>, key: Seq<char>) -> Seq<char> {
    match json_field(json, key) {
        Some(Some(text)) => text,
        _ => Seq::empty(),
    }
}

/// The texts under two keys in each line of a reply, unless a line is not JSON.
pub open spec fn pairs_in(
    lines: Seq<Seq<char>>,
    first: Seq<char>,
    second: Seq<char>,
) -> Option<Seq<(Seq<char>, Seq<char>)>> {
    if exists|i: int| 0 <= i < lines.len() && json_field(#[trigger] lines[i], first) is None {
        None
    } else if exists|i: int|
        0 <= i < lines.len() && json_field(#[trigger] lines[i], second) is None {
        None
    } else {
        Some(
            Seq::new(
                lines.len(),
                |i: int| (text_under(lines[i], first), text_under(lines[i], second)),
            ),
        )
    }
}

/// The views of pairs of texts.
pub open spec fn pair_views(pairs: Seq<(String, String)>) -> Seq<(Seq<char>, Seq<char>)> {
    pairs.map_values(|pair: (String, String)| (pair.0@, pair.1@))
}

fn or_empty(field: Option<String>) -> (text: String)
    ensures
        match field {
            Some(found) => text@ == found@,
            None => text@ == Seq::<char>::empty(),
        },
{
    match field {
        Some(found) => found,
        None => {
            let text: String = String::new();
            assert(text@ =~= Seq::<char>::empty());
            text
        },
    }
}

fn read_pairs(body: &str, first: &str, second: &str) -> (pairs: Option<Vec<(String, String)>>)
    ensures
        match pairs {
            Some(pairs) => pairs_in(records_of(body@), first@, second@) == Some(
                pair_views(pairs@),
            ),
            None => pairs_in(records_of(body@), first@, second@) is None,
        },
{
    let lines: Vec<String> = records(body);
    let ghost texts = records_of(body@);
    assert(views(lines@).len() == lines@.len());
    let mut pairs: Vec<(String, String)> = Vec::new();
    let mut index: usize = 0;
    while index < lines.len()
        invariant
            texts == records_of(body@),
            views(lines@) == texts,
            texts.len() == lines@.len(),
            index <= lines@.len(),
            pairs@.len() == index,
            forall|i: int|
                0 <= i < index ==> {
                    &&& json_field(#[trigger] texts[i], first@) is Some
                    &&& json_field(texts[i], second@) is Some
                    &&& pairs@[i].0@ == text_under(texts[i], first@)
                    &&& pairs@[i].1@ == text_under(texts[i], second@)
                },
        decreases lines@.len() - index,
    {
        assert(texts[index as int] == lines@[index as int]@);
        let left: Option<String> = match json_text_at(lines[index].as_str(), first) {
            Some(field) => field,
            None => {
                return None;
            },
        };
        let right: Option<String> = match json_text_at(lines[index].as_str(), second) {
            Some(field) => field,
            None => {
                return None;
            },
        };
        pairs.push((or_empty(left), or_empty(right)));
        index += 1;
    }
    assert(pair_views(pairs@) =~= pairs_in(texts, first@, second@)->0);
    Some(pairs)
}

/// Reads which of the objects of a sink there are, each with its engine.
pub fn object_kinds(body: &str) -> (result: Result<Vec<(String, String)>, ClickHouseSinkError>)
    ensures
        match result {
            Ok(kinds) => pairs_in(records_of(body@), "name"@, "engine"@) == Some(
                pair_views(kinds@),
            ),
            Err(error) => {
                &&& pairs_in(records_of(body@), "name"@, "engine"@) is None
                &&& error@ == (ClickHouseErrorModel::InvalidResponse {
                    stage: "inspect target objects"@,
                })
            },
        },
{
    match read_pairs(body, "name", "engine") {
        Some(kinds) => Ok(kinds),
        None => Err(invalid_response("inspect target objects")),
    }
}

/// The last engine under a name.
pub open spec fn engine_of(kinds: Seq<(Seq<char>, Seq<char>)>, name: Seq<char>) -> Option<Seq<char>>
    decreases kinds.len(),
{
    if kinds.len() == 0 {
        None
    } else if kinds.last().0 == name {
        Some(kinds.last().1)
    } else {
        engine_of(kinds.drop_last(), name)
    }
}

pub fn find_kind(kinds: &Vec<(String, String)>, name: &str) -> (engine: Option<String>)
    ensures
        match engine {
            Some(engine) => engine_of(pair_views(kinds@), name@) == Some(engine@),
            None => engine_of(pair_views(kinds@), name@) is None,
        },
{
    let ghost models = pair_views(kinds@);
    let mut left: usize = kinds.len();
    assert(models.take(left as int) =~= models);
    while left > 0
        invariant
            models == pair_views(kinds@),
            left <= kinds@.len(),
            engine_of(models, name@) == engine_of(models.take(left as int), name@),
        decreases left,
    {
        proof {
            assert(models[left - 1] == (kinds@[left - 1].0@, kinds@[left - 1].1@));
            assert(models.take(left as int).last() == models[left - 1]);
            assert(models.take(left as int).drop_last() =~= models.take(left - 1));
        }
        if same_text(kinds[left - 1].0.as_str(), name) {
            return Some(kinds[left - 1].1.clone());
        }
        left -= 1;
    }
    None
}

/// Why an initialization cannot go on from the objects that it finds, if it cannot.
pub open spec fn initialize_fault(
    model: SpecModel,
    state: Option<Seq<char>>,
    view: Option<Seq<char>>,
) -> Option<ClickHouseErrorModel> {
    let name = state_name(model.sink_id);
    match (state, view) {
        (Some(engine), None) => if engine == "ReplacingMergeTree"@ {
            None
        } else {
            Some(ClickHouseErrorModel::TargetLayoutMismatch { name })
        },
        (None, Some(_)) => Some(ClickHouseErrorModel::TargetMissing { name }),
        _ => None,
    }
}

/// Whether an initialization has to create the state table.
pub open spec fn creates_state(state: Option<Seq<char>>, view: Option<Seq<char>>) -> bool {
    state is None && view is None
}

/// An initialization that was interrupted goes on: whichever of its own steps were done, it is
/// accepted, and the state table is created exactly where it is not there. A view without a
/// state table, and a state table of another kind without a view, are refused.
pub proof fn law_interrupted_initialization_goes_on(
    model: SpecModel,
    state: Option<Seq<char>>,
    view: Option<Seq<char>>,
)
    ensures
        initialize_fault(model, None, None) is None,
        initialize_fault(model, Some("ReplacingMergeTree"@), view) is None,
        initialize_fault(model, state, view) is None ==> (creates_state(state, view) <==> state
            is None),
        view is Some && state is None ==> initialize_fault(model, state, view) is Some,
        view is None && state is Some && state->0 != "ReplacingMergeTree"@ ==> initialize_fault(
            model,
            state,
            view,
        ) is Some,
{
}

/// Decides how an initialization begins: whether the state table is still to be created.
pub fn begin_initialization(spec: &ClickHouseTargetSpec, kinds: &Vec<(String, String)>) -> (result:
    Result<bool, ClickHouseSinkError>)
    ensures
        ({
            let state = engine_of(pair_views(kinds@), state_name(spec@.sink_id));
            let view = engine_of(pair_views(kinds@), spec@.table);
            match result {
                Ok(create) => {
                    &&& initialize_fault(spec@, state, view) is None
                    &&& create == creates_state(state, view)
                },
                Err(error) => initialize_fault(spec@, state, view) == Some(error@),
            }
        }),
{
    let state: Option<String> = find_kind(kinds, spec.state_table().as_str());
    let view: Option<String> = find_kind(kinds, spec.table());
    match (state, view) {
        (None, None) => Ok(true),
        (Some(engine), None) => if same_text(engine.as_str(), "ReplacingMergeTree") {
            Ok(false)
        } else {
            Err(ClickHouseSinkError::TargetLayoutMismatch { name: spec.state_table() })
        },
        (None, Some(_)) => Err(ClickHouseSinkError::TargetMissing { name: spec.state_table() }),
        (Some(_), Some(_)) => Ok(false),
    }
}

/// Requires that the state table holds no row yet.
pub fn require_empty(body: &str) -> (result: Result<(), ClickHouseSinkError>)
    ensures
        match result {
            Ok(_) => scalar(body@) == Some(0u64),
            Err(error) => match scalar(body@) {
                None => error@ == (ClickHouseErrorModel::InvalidResponse {
                    stage: "verify empty state table"@,
                }),
                Some(count) => count != 0 && error@ == ClickHouseErrorModel::TargetNotEmpty,
            },
        },
{
    let count: u64 = scalar_u64(body, "verify empty state table")?;
    if count != 0 {
        Err(ClickHouseSinkError::TargetNotEmpty)
    } else {
        Ok(())
    }
}

/// The columns that the state table must have, with their types.
pub open spec fn expected_columns(columns: Seq<ColumnModel>) -> Seq<(Seq<char>, Seq<char>)> {
    seq![
        ("$dogpaddle.id"@, "UInt64"@),
        ("$dogpaddle.hash"@, "FixedString(32)"@),
        ("$dogpaddle.version"@, "UInt8"@),
        ("$dogpaddle.deleted"@, "UInt8"@),
    ] + columns.map_values(|column: ColumnModel| (column.name, column_type(column)))
}

fn expected_list(columns: &Vec<ColumnLayout>) -> (pairs: Vec<(String, String)>)
    ensures
        pair_views(pairs@) == expected_columns(column_views(columns@)),
{
    let ghost models = column_views(columns@);
    let mut pairs: Vec<(String, String)> = Vec::new();
    pairs.push(("$dogpaddle.id".to_owned(), "UInt64".to_owned()));
    pairs.push(("$dogpaddle.hash".to_owned(), "FixedString(32)".to_owned()));
    pairs.push(("$dogpaddle.version".to_owned(), "UInt8".to_owned()));
    pairs.push(("$dogpaddle.deleted".to_owned(), "UInt8".to_owned()));
    let mut index: usize = 0;
    assert(pair_views(pairs@) =~= expected_columns(models).take(4));
    while index < columns.len()
        invariant
            models == column_views(columns@),
            index <= columns@.len(),
            pair_views(pairs@) == expected_columns(models).take(4 + index),
        decreases columns@.len() - index,
    {
        let ghost before = pairs@;
        let pair: (String, String) = (columns[index].name.clone(), columns[index].sql_type());
        pairs.push(pair);
        proof {
            assert(pair_views(pairs@) =~= pair_views(before).push((pair.0@, pair.1@)));
            assert(models[index as int] == columns@[index as int]@);
            assert(expected_columns(models)[4 + index] == (pair.0@, pair.1@));
            assert(pair_views(pairs@) =~= expected_columns(models).take(4 + index + 1));
        }
        index += 1;
    }
    assert(expected_columns(models).take(4 + index) =~= expected_columns(models));
    pairs
}

fn same_pairs(left: &Vec<(String, String)>, right: &Vec<(String, String)>) -> (same: bool)
    ensures
        same == (pair_views(left@) == pair_views(right@)),
{
    let ghost lefts = pair_views(left@);
    let ghost rights = pair_views(right@);
    assert(lefts.len() == left@.len());
    assert(rights.len() == right@.len());
    if left.len() != right.len() {
        return false;
    }
    let mut index: usize = 0;
    while index < left.len()
        invariant
            lefts == pair_views(left@),
            rights == pair_views(right@),
            lefts.len() == left@.len(),
            left@.len() == right@.len(),
            index <= left@.len(),
            forall|i: int| 0 <= i < index ==> #[trigger] lefts[i] == rights[i],
        decreases left@.len() - index,
    {
        proof {
            assert(lefts[index as int] == (left@[index as int].0@, left@[index as int].1@));
            assert(rights[index as int] == (right@[index as int].0@, right@[index as int].1@));
        }
        if !same_text(left[index].0.as_str(), right[index].0.as_str()) || !same_text(
            left[index].1.as_str(),
            right[index].1.as_str(),
        ) {
            return false;
        }
        index += 1;
    }
    assert(lefts =~= rights);
    true
}

/// Requires that the state table has exactly its columns.
pub fn verify_state_columns(
    spec: &ClickHouseTargetSpec,
    columns: &Vec<ColumnLayout>,
    body: &str,
) -> (result: Result<(), ClickHouseSinkError>)
    ensures
        ({
            let actual = pairs_in(records_of(body@), "name"@, "type"@);
            match result {
                Ok(_) => actual == Some(expected_columns(column_views(columns@))),
                Err(error) => match actual {
                    None => error@ == (ClickHouseErrorModel::InvalidResponse {
                        stage: "inspect state-table columns"@,
                    }),
                    Some(actual) => {
                        &&& actual != expected_columns(column_views(columns@))
                        &&& error@ == (ClickHouseErrorModel::TargetLayoutMismatch {
                            name: state_name(spec@.sink_id),
                        })
                    },
                },
            }
        }),
{
    match read_pairs(body, "name", "type") {
        None => Err(invalid_response("inspect state-table columns")),
        Some(actual) => {
            let expected: Vec<(String, String)> = expected_list(columns);
            if same_pairs(&actual, &expected) {
                Ok(())
            } else {
                Err(ClickHouseSinkError::TargetLayoutMismatch { name: spec.state_table() })
            }
        },
    }
}

/// What the server says of an object.
#[derive(Debug, PartialEq, Eq)]
pub struct ObjectMetadata {
    pub engine: String,
    pub comment: String,
    pub create_query: String,
    pub sorting_key: String,
    pub primary_key: String,
    pub engine_full: String,
}

/// Reads one text of a reply.
fn metadata_text(json: &str, key: &str) -> (text: Option<String>)
    ensures
        text is Some <==> json_field(json@, key@) is Some,
        text is Some ==> text->0@ == text_under(json@, key@),
{
    match json_text_at(json, key) {
        Some(field) => Some(or_empty(field)),
        None => None,
    }
}

/// Whether a reply says all that there is to say of an object.
pub open spec fn metadata_read(json: Seq<char>) -> bool {
    &&& json_field(json, "engine"@) is Some
    &&& json_field(json, "comment"@) is Some
    &&& json_field(json, "create_table_query"@) is Some
    &&& json_field(json, "sorting_key"@) is Some
    &&& json_field(json, "primary_key"@) is Some
    &&& json_field(json, "engine_full"@) is Some
}

/// Reads what the server says of an object.
pub fn object_metadata(body: &str) -> (result: Result<ObjectMetadata, ClickHouseSinkError>)
    ensures
        ({
            let json = trimmed(body@);
            match result {
                Ok(metadata) => {
                    &&& metadata_read(json)
                    &&& metadata.engine@ == text_under(json, "engine"@)
                    &&& metadata.comment@ == text_under(json, "comment"@)
                    &&& metadata.create_query@ == text_under(json, "create_table_query"@)
                    &&& metadata.sorting_key@ == text_under(json, "sorting_key"@)
                    &&& metadata.primary_key@ == text_under(json, "primary_key"@)
                    &&& metadata.engine_full@ == text_under(json, "engine_full"@)
                },
                Err(error) => !metadata_read(json) && error@ == (
                ClickHouseErrorModel::InvalidResponse { stage: "inspect target object"@ }),
            }
        }),
{
    let json: String = trim(body);
    match (
        metadata_text(json.as_str(), "engine"),
        metadata_text(json.as_str(), "comment"),
        metadata_text(json.as_str(), "create_table_query"),
        metadata_text(json.as_str(), "sorting_key"),
        metadata_text(json.as_str(), "primary_key"),
        metadata_text(json.as_str(), "engine_full"),
    ) {
        (
            Some(engine),
            Some(comment),
            Some(create_query),
            Some(sorting_key),
            Some(primary_key),
            Some(engine_full),
        ) => Ok(
            ObjectMetadata {
                engine,
                comment,
                create_query,
                sorting_key,
                primary_key,
                engine_full,
            },
        ),
        _ => Err(invalid_response("inspect target object")),
    }
}

/// The engine that the state table must have, with its settings.
pub open spec fn expected_engine() -> Seq<char> {
    "ReplacingMergeTree("@ + quoted("$dogpaddle.version"@) + ") ORDER BY "@ + quoted(
        "$dogpaddle.id"@,
    ) + " SETTINGS fsync_after_insert = 1, fsync_part_directory = 1, index_granularity = 8192"@
}

/// Whether an object is the state table of a sink, as far as its metadata tells.
pub open spec fn state_metadata_fits(model: SpecModel, metadata: ObjectMetadata) -> bool {
    &&& metadata.engine@ == "ReplacingMergeTree"@
    &&& metadata.comment@ == marker_name(model.sink_id)
    &&& metadata.sorting_key@ == quoted("$dogpaddle.id"@)
    &&& metadata.primary_key@ == quoted("$dogpaddle.id"@)
    &&& metadata.engine_full@ == expected_engine()
}

/// Requires that the state table is the one that the sink made.
pub fn verify_state_metadata(spec: &ClickHouseTargetSpec, metadata: &ObjectMetadata) -> (result:
    Result<(), ClickHouseSinkError>)
    ensures
        match result {
            Ok(_) => state_metadata_fits(spec@, *metadata),
            Err(error) => !state_metadata_fits(spec@, *metadata) && error@ == (
            ClickHouseErrorModel::TargetLayoutMismatch { name: state_name(spec@.sink_id) }),
        },
{
    let key: String = quote("$dogpaddle.id");
    let mut engine: String = "ReplacingMergeTree(".to_owned();
    engine.append(quote("$dogpaddle.version").as_str());
    engine.append(") ORDER BY ");
    engine.append(key.as_str());
    engine.append(
        " SETTINGS fsync_after_insert = 1, fsync_part_directory = 1, index_granularity = 8192",
    );
    if same_text(metadata.engine.as_str(), "ReplacingMergeTree") && same_text(
        metadata.comment.as_str(),
        spec.marker().as_str(),
    ) && same_text(metadata.sorting_key.as_str(), key.as_str()) && same_text(
        metadata.primary_key.as_str(),
        key.as_str(),
    ) && same_text(metadata.engine_full.as_str(), engine.as_str()) {
        Ok(())
    } else {
        Err(ClickHouseSinkError::TargetLayoutMismatch { name: spec.state_table() })
    }
}

/// Whether the only index of the state table is that of the hashes; nothing where the reply
/// cannot be read.
pub open spec fn hash_index_in(body: Seq<char>) -> Option<bool> {
    let rows = records_of(body);
    if rows.len() != 1 {
        Some(false)
    } else {
        match (
            json_field(rows[0], "name"@),
            json_field(rows[0], "type_full"@),
            json_field(rows[0], "expr"@),
            json_number(rows[0], "granularity"@),
        ) {
            (Some(name), Some(full), Some(expr), Some(granularity)) => Some(
                name == Some("$dogpaddle.hash.index"@) && full == Some("set(0)"@) && expr == Some(
                    quoted("$dogpaddle.hash"@),
                ) && granularity == Some(1u64),
            ),
            _ => None,
        }
    }
}

fn is_text(field: &Option<String>, expected: &str) -> (same: bool)
    ensures
        match field {
            Some(text) => same == (text@ == expected@),
            None => !same,
        },
{
    match field {
        Some(text) => same_text(text.as_str(), expected),
        None => false,
    }
}

/// Whether the only index of the state table is that of the hashes.
pub fn has_exact_hash_index(body: &str) -> (result: Result<bool, ClickHouseSinkError>)
    ensures
        match result {
            Ok(exact) => hash_index_in(body@) == Some(exact),
            Err(error) => hash_index_in(body@) is None && error@ == (
            ClickHouseErrorModel::InvalidResponse { stage: "inspect state-table indexes"@ }),
        },
{
    let rows: Vec<String> = records(body);
    assert(views(rows@).len() == rows@.len());
    if rows.len() != 1 {
        return Ok(false);
    }
    assert(views(rows@)[0] == rows@[0]@);
    let row: &str = rows[0].as_str();
    match (
        json_text_at(row, "name"),
        json_text_at(row, "type_full"),
        json_text_at(row, "expr"),
        json_number_at(row, "granularity"),
    ) {
        (Some(name), Some(full), Some(expr), Some(granularity)) => {
            let one: bool = match granularity {
                Some(number) => number == 1,
                None => false,
            };
            Ok(
                is_text(&name, "$dogpaddle.hash.index") && is_text(&full, "set(0)") && is_text(
                    &expr,
                    quote("$dogpaddle.hash").as_str(),
                ) && one,
            )
        },
        _ => Err(invalid_response("inspect state-table indexes")),
    }
}

/// Requires that the only index of the state table is that of the hashes.
pub fn verify_state_index(spec: &ClickHouseTargetSpec, body: &str) -> (result: Result<
    (),
    ClickHouseSinkError,
>)
    ensures
        match result {
            Ok(_) => hash_index_in(body@) == Some(true),
            Err(error) => match hash_index_in(body@) {
                None => error@ == (ClickHouseErrorModel::InvalidResponse {
                    stage: "inspect state-table indexes"@,
                }),
                Some(exact) => !exact && error@ == (ClickHouseErrorModel::TargetLayoutMismatch {
                    name: state_name(spec@.sink_id),
                }),
            },
        },
{
    if has_exact_hash_index(body)? {
        Ok(())
    } else {
        Err(ClickHouseSinkError::TargetLayoutMismatch { name: spec.state_table() })
    }
}

/// The query of a view within the statement that made it, without its white space and quotes.
pub open spec fn tail_of(sql: Seq<char>) -> Option<Seq<char>> {
    match place_of(compact_of(sql), "ASSELECT"@, 0) {
        Some(place) => Some(compact_of(sql).skip(place)),
        None => None,
    }
}

pub fn select_tail(sql: &str) -> (tail: Option<String>)
    ensures
        match tail {
            Some(tail) => tail_of(sql@) == Some(tail@),
            None => tail_of(sql@) is None,
        },
{
    let compacted: String = compact(sql);
    match find_text(compacted.as_str(), "ASSELECT") {
        Some(place) => Some(rest_of(compacted.as_str(), place)),
        None => None,
    }
}

/// Requires that the view is the one that the sink made.
pub fn verify_view_metadata(
    spec: &ClickHouseTargetSpec,
    columns: &Vec<ColumnLayout>,
    metadata: &ObjectMetadata,
) -> (result: Result<(), ClickHouseSinkError>)
    ensures
        ({
            let fits = metadata.engine@ == "View"@ && tail_of(metadata.create_query@) == tail_of(
                view_sql(spec@, column_views(columns@)),
            );
            match result {
                Ok(_) => fits,
                Err(error) => !fits && error@ == (ClickHouseErrorModel::TargetLayoutMismatch {
                    name: spec@.table,
                }),
            }
        }),
{
    let expected: Option<String> = select_tail(create_view_sql(spec, columns).as_str());
    let actual: Option<String> = select_tail(metadata.create_query.as_str());
    let same: bool = match (&actual, &expected) {
        (Some(actual), Some(expected)) => same_text(actual.as_str(), expected.as_str()),
        (None, None) => true,
        _ => false,
    };
    if same_text(metadata.engine.as_str(), "View") && same {
        Ok(())
    } else {
        Err(ClickHouseSinkError::TargetLayoutMismatch { name: spec.table().to_owned() })
    }
}

/// Requires that the view shows the two technical columns and those of the relation.
pub fn verify_view_columns(spec: &ClickHouseTargetSpec, columns: &Vec<ColumnLayout>, body: &str) -> (result:
    Result<(), ClickHouseSinkError>)
    requires
        columns@.len() <= 0x1_0000,
    ensures
        match result {
            Ok(_) => scalar(body@) == Some((columns@.len() + 2) as u64),
            Err(error) => match scalar(body@) {
                None => error@ == (ClickHouseErrorModel::InvalidResponse {
                    stage: "inspect target-view columns"@,
                }),
                Some(count) => count != columns@.len() + 2 && error@ == (
                ClickHouseErrorModel::TargetLayoutMismatch { name: spec@.table }),
            },
        },
{
    let count: u64 = scalar_u64(body, "inspect target-view columns")?;
    if count != (columns.len() + 2) as u64 {
        Err(ClickHouseSinkError::TargetLayoutMismatch { name: spec.table().to_owned() })
    } else {
        Ok(())
    }
}

/// A table holds what an action has written. A number may be stored within a string.
pub open spec fn holds_written(rows: Seq<StoredModel>, action: ActionModel) -> bool {
    row_under(rows, action.id) matches Some(row) && {
        &&& row.deleted == action.deleted
        &&& row.hash == action.hash
        &&& row.values.len() == action.cells.len()
        &&& forall|i: int|
            0 <= i < row.values.len() ==> json_same(#[trigger] row.values[i], action.cells[i])
    }
}

/// What a table holds once some actions were written to it: under their IDs what they have
/// written, and under all others what it held before.
pub open spec fn written_to(
    before: Seq<StoredModel>,
    actions: Seq<ActionModel>,
    after: Seq<StoredModel>,
) -> bool {
    &&& forall|a: int|
        0 <= a < actions.len() ==> holds_written(after, #[trigger] actions[a])
    &&& forall|id: u64|
        (forall|a: int| 0 <= a < actions.len() ==> (#[trigger] actions[a]).id != id)
            ==> #[trigger] row_under(after, id) == row_under(before, id)
}

/// No ID is both written and deleted.
pub open spec fn of_one_mind(mutations: Seq<TerminalMutation>) -> bool {
    forall|i: int, j: int|
        0 <= i < mutations.len() && 0 <= j < mutations.len() && (
        #[trigger] mutations[i]).technical_id == (#[trigger] mutations[j]).technical_id
            ==> mutations[i].deleted == mutations[j].deleted
}

/// The actions are those of the mutations that have to be written.
proof fn lemma_actions_of(
    layout: ClickHouseLayout,
    batch: RecordBatch,
    stored: Seq<StoredModel>,
    mutations: Seq<TerminalMutation>,
    count: int,
)
    requires
        0 <= count <= mutations.len(),
    ensures
        ({
            let actions = actions_of(layout, batch, stored, mutations, count);
            &&& forall|a: int|
                0 <= a < actions.len() ==> exists|i: int|
                    0 <= i < count && (#[trigger] actions[a]) == action_of(
                        layout,
                        batch,
                        #[trigger] mutations[i],
                    )
            &&& forall|a: int|
                0 <= a < actions.len() ==> decision(
                    held_by(stored, #[trigger] actions[a]),
                    actions[a].deleted,
                ) == Decision::Write
            &&& forall|i: int|
                0 <= i < count && decision(
                    held_by(stored, action_of(layout, batch, #[trigger] mutations[i])),
                    mutations[i].deleted,
                ) == Decision::Write ==> actions.contains(
                    action_of(layout, batch, mutations[i]),
                )
        }),
    decreases count,
{
    if count > 0 {
        lemma_actions_of(layout, batch, stored, mutations, count - 1);
        let before = actions_of(layout, batch, stored, mutations, count - 1);
        let actions = actions_of(layout, batch, stored, mutations, count);
        let own = action_of(layout, batch, mutations[count - 1]);
        assert forall|a: int| 0 <= a < actions.len() implies exists|i: int|
            0 <= i < count && (#[trigger] actions[a]) == action_of(
                layout,
                batch,
                #[trigger] mutations[i],
            ) by {
            if a < before.len() {
                assert(actions[a] == before[a]);
                let i = choose|i: int|
                    0 <= i < count - 1 && before[a] == action_of(
                        layout,
                        batch,
                        #[trigger] mutations[i],
                    );
                assert(actions[a] == action_of(layout, batch, mutations[i]));
            } else {
                assert(actions[a] == action_of(layout, batch, mutations[count - 1]));
            }
        }
        assert forall|a: int| 0 <= a < actions.len() implies decision(
            held_by(stored, #[trigger] actions[a]),
            actions[a].deleted,
        ) == Decision::Write by {
            if a < before.len() {
                assert(actions[a] == before[a]);
            }
        }
        assert forall|i: int|
            0 <= i < count && decision(
                held_by(stored, action_of(layout, batch, #[trigger] mutations[i])),
                mutations[i].deleted,
            ) == Decision::Write implies actions.contains(
            action_of(layout, batch, mutations[i]),
        ) by {
            if i < count - 1 {
                let action = action_of(layout, batch, mutations[i]);
                assert(before.contains(action));
                let a = choose|a: int| 0 <= a < before.len() && before[a] == action;
                assert(actions[a] == action);
            } else {
                assert(actions.last() == own);
            }
        }
    }
}

/// A mutation is refused by itself, or not at all.
proof fn lemma_no_fault(
    layout: ClickHouseLayout,
    batch: RecordBatch,
    stored: Seq<StoredModel>,
    mutations: Seq<TerminalMutation>,
    count: int,
)
    requires
        0 <= count <= mutations.len(),
    ensures
        mutations_fault(layout, batch, stored, mutations, count) is None <==> forall|i: int|
            0 <= i < count ==> mutation_fault(layout, batch, stored, #[trigger] mutations[i])
                is None,
    decreases count,
{
    if count > 0 {
        lemma_no_fault(layout, batch, stored, mutations, count - 1);
    }
}

/// Replaying a batch converges: once what it had to write was written, the same batch is
/// accepted again, and has nothing to write.
pub proof fn law_replayed_batch_writes_nothing(
    layout: ClickHouseLayout,
    batch: RecordBatch,
    mutations: Seq<TerminalMutation>,
    before: Seq<StoredModel>,
    after: Seq<StoredModel>,
)
    requires
        of_one_mind(mutations),
        mutations_fault(layout, batch, before, mutations, mutations.len() as int) is None,
        written_to(
            before,
            actions_of(layout, batch, before, mutations, mutations.len() as int),
            after,
        ),
    ensures
        mutations_fault(layout, batch, after, mutations, mutations.len() as int) is None,
        actions_of(layout, batch, after, mutations, mutations.len() as int) == Seq::<
            ActionModel,
        >::empty(),
{
    let count = mutations.len() as int;
    let actions = actions_of(layout, batch, before, mutations, count);
    lemma_actions_of(layout, batch, before, mutations, count);
    lemma_no_fault(layout, batch, before, mutations, count);
    assert forall|i: int| 0 <= i < count implies {
        &&& decision(
            held_by(after, action_of(layout, batch, #[trigger] mutations[i])),
            mutations[i].deleted,
        ) == Decision::Keep
        &&& mutation_fault(layout, batch, after, mutations[i]) is None
    } by {
        let own = action_of(layout, batch, mutations[i]);
        assert(mutation_fault(layout, batch, before, mutations[i]) is None);
        if decision(held_by(before, own), own.deleted) == Decision::Write {
            assert(actions.contains(own));
            let a = choose|a: int| 0 <= a < actions.len() && actions[a] == own;
            assert(holds_written(after, actions[a]));
            let row = row_under(after, own.id)->0;
            assert(row_same(row, own.hash, own.cells)) by {
                assert forall|c: int| 0 <= c < own.cells.len() implies json_same(
                    #[trigger] row.values[c],
                    own.cells[c],
                ) by {
                    assert(json_same(row.values[c], own.cells[c]));
                }
            }
        } else {
            assert forall|a: int| 0 <= a < actions.len() implies (#[trigger] actions[a]).id
                != own.id by {
                if actions[a].id == own.id {
                    let j = choose|j: int|
                        0 <= j < count && actions[a] == action_of(
                            layout,
                            batch,
                            #[trigger] mutations[j],
                        );
                    assert(mutations[i].deleted == mutations[j].deleted);
                    assert(mutation_fault(layout, batch, before, mutations[j]) is None);
                }
            }
            assert(row_under(after, own.id) == row_under(before, own.id));
        }
    }
    lemma_no_fault(layout, batch, after, mutations, count);
    lemma_actions_of(layout, batch, after, mutations, count);
    let again = actions_of(layout, batch, after, mutations, count);
    if again.len() > 0 {
        let i = choose|i: int|
            0 <= i < count && again[0] == action_of(layout, batch, #[trigger] mutations[i]);
        assert(again[0] == action_of(layout, batch, mutations[i]));
    }
    assert(again =~= Seq::<ActionModel>::empty());
}

/// An ID keeps its row, and once deleted it stays deleted: what a batch writes under an ID that
/// is stored already has the hash of the stored row, and a deleted row is left as it is.
pub proof fn law_stored_ids_keep_their_rows(
    layout: ClickHouseLayout,
    batch: RecordBatch,
    mutations: Seq<TerminalMutation>,
    before: Seq<StoredModel>,
    after: Seq<StoredModel>,
    id: u64,
)
    requires
        written_to(
            before,
            actions_of(layout, batch, before, mutations, mutations.len() as int),
            after,
        ),
        row_under(before, id) is Some,
    ensures
        row_under(after, id) is Some,
        row_under(after, id)->0.hash == row_under(before, id)->0.hash,
        row_under(before, id)->0.deleted ==> row_under(after, id) == row_under(before, id),
{
    let count = mutations.len() as int;
    let actions = actions_of(layout, batch, before, mutations, count);
    lemma_actions_of(layout, batch, before, mutations, count);
    if exists|a: int| 0 <= a < actions.len() && (#[trigger] actions[a]).id == id {
        let a = choose|a: int| 0 <= a < actions.len() && (#[trigger] actions[a]).id == id;
        assert(decision(held_by(before, actions[a]), actions[a].deleted) == Decision::Write);
        assert(holds_written(after, actions[a]));
    } else {
        assert(row_under(after, id) == row_under(before, id));
    }
}

/// A batch takes effect once it was written: under the ID of each insertion stands its row, not
/// deleted, and under the ID of each deletion stands nothing, or a deleted row.
pub proof fn law_written_batch_takes_effect(
    layout: ClickHouseLayout,
    batch: RecordBatch,
    mutations: Seq<TerminalMutation>,
    before: Seq<StoredModel>,
    after: Seq<StoredModel>,
    i: int,
)
    requires
        of_one_mind(mutations),
        mutations_fault(layout, batch, before, mutations, mutations.len() as int) is None,
        written_to(
            before,
            actions_of(layout, batch, before, mutations, mutations.len() as int),
            after,
        ),
        0 <= i < mutations.len(),
    ensures
        ({
            let row = mutations[i].row_index as int;
            match row_under(after, mutations[i].technical_id) {
                Some(stored) => {
                    &&& stored.deleted == mutations[i].deleted
                    &&& row_same(
                        stored,
                        row_digest(batch, row),
                        cells_of(layout, batch, row, batch.columns@.len()),
                    )
                },
                None => mutations[i].deleted,
            }
        }),
{
    let count = mutations.len() as int;
    law_replayed_batch_writes_nothing(layout, batch, mutations, before, after);
    lemma_no_fault(layout, batch, after, mutations, count);
    lemma_actions_of(layout, batch, after, mutations, count);
    let own = action_of(layout, batch, mutations[i]);
    assert(mutation_fault(layout, batch, after, mutations[i]) is None);
    if decision(held_by(after, own), own.deleted) == Decision::Write {
        assert(actions_of(layout, batch, after, mutations, count).contains(own));
    }
}

} // verus!
