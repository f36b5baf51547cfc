//! Planning: which technical IDs a delivery inserts and which it deletes.

use crate::buffered::delivery::DeliveryBatch;
use crate::bytes::same_bytes;
use crate::change::{count_events, events, lemma_counts_grow, negatives, positives, Change};
use crate::relation::batch::{
    Batch, Delete, Insert, EXHAUSTED_ID, FIRST_TECHNICAL_ID, MAX_MUTATIONS_PER_BATCH,
    MAX_TECHNICAL_ID,
};
use crate::relation::fault::{RelationError, RelationErrorModel, RelationFault};
use crate::relation::row::{
    bounded_fault, canonical_bytes, canonical_row_bounded, RowError, RowErrorModel,
};
use crate::text::{abs, magnitude};
use vstd::prelude::*;

verus! {

pub const MAX_CANONICAL_BATCH_BYTES: usize = 8388608;

/// Whether an ID can be the next one: all of them may be used up.
pub open spec fn next_id_fits(next_id: u64) -> bool {
    FIRST_TECHNICAL_ID <= next_id <= EXHAUSTED_ID
}

pub fn validate_next_id(next_id: u64) -> (result: Result<(), RelationError>)
    ensures
        match result {
            Ok(_) => next_id_fits(next_id),
            Err(error) => !next_id_fits(next_id) && error@ == RelationErrorModel::Fault(
                RelationFault::NextId,
            ),
        },
{
    if FIRST_TECHNICAL_ID <= next_id && next_id <= EXHAUSTED_ID {
        Ok(())
    } else {
        Err(RelationError::Fault(RelationFault::NextId))
    }
}

/// The identities of the rows of a change.
pub open spec fn keys_of(change: Change) -> Seq<Seq<u8>> {
    Seq::new(change.records.rows as nat, |i: int| canonical_bytes(change.records, i))
}

/// The length of the identities of the first `rows` rows.
pub open spec fn key_bytes(change: Change, rows: int) -> nat
    decreases rows,
{
    if rows <= 0 {
        0
    } else {
        key_bytes(change, rows - 1) + canonical_bytes(change.records, rows - 1).len()
    }
}

/// The first reason for which the first `rows` rows cannot be identified within the budget.
pub open spec fn keys_fault(change: Change, rows: int) -> Option<RowErrorModel>
    decreases rows,
{
    if rows <= 0 {
        None
    } else {
        match keys_fault(change, rows - 1) {
            Some(fault) => Some(fault),
            None => bounded_fault(
                change.records,
                rows - 1,
                (MAX_CANONICAL_BATCH_BYTES - key_bytes(change, rows - 1)) as usize,
            ),
        }
    }
}

proof fn lemma_keys_fault_stays(change: Change, low: int, high: int)
    requires
        low <= high,
        keys_fault(change, low) is Some,
    ensures
        keys_fault(change, high) == keys_fault(change, low),
    decreases high - low,
{
    if low < high {
        lemma_keys_fault_stays(change, low, high - 1);
    }
}

/// The identities of all rows, which share one budget.
pub fn bounded_canonical_rows(change: &Change) -> (result: Result<Vec<Vec<u8>>, RowError>)
    requires
        change.wf(),
    ensures
        match result {
            Ok(rows) => {
                &&& keys_fault(*change, change.records.rows as int) is None
                &&& rows@.len() == change.records.rows
                &&& forall|i: int| 0 <= i < rows@.len() ==> #[trigger] rows@[i]@ == keys_of(*change)[i]
            },
            Err(error) => keys_fault(*change, change.records.rows as int) == Some(error@),
        },
{
    let mut remaining: usize = MAX_CANONICAL_BATCH_BYTES;
    let mut rows: Vec<Vec<u8>> = Vec::new();
    let mut row: usize = 0;
    while row < change.records.rows
        invariant
            change.wf(),
            row <= change.records.rows,
            keys_fault(*change, row as int) is None,
            remaining + key_bytes(*change, row as int) == MAX_CANONICAL_BATCH_BYTES,
            rows@.len() == row,
            forall|i: int| 0 <= i < row ==> #[trigger] rows@[i]@ == keys_of(*change)[i],
        decreases change.records.rows - row,
    {
        match canonical_row_bounded(&change.records, row, remaining) {
            Ok(encoded) => {
                remaining -= encoded.len();
                rows.push(encoded);
            },
            Err(error) => {
                proof {
                    lemma_keys_fault_stays(*change, row + 1, change.records.rows as int);
                }
                return Err(error);
            },
        }
        row += 1;
    }
    Ok(rows)
}

/// What the first `rows` rows add to the instances of `key`.
pub open spec fn added(keys: Seq<Seq<u8>>, diffs: Seq<i64>, key: Seq<u8>, rows: int) -> nat
    decreases rows,
{
    if rows <= 0 {
        0
    } else if keys[rows - 1] == key && diffs[rows - 1] > 0 {
        added(keys, diffs, key, rows - 1) + diffs[rows - 1] as nat
    } else {
        added(keys, diffs, key, rows - 1)
    }
}

/// What the first `rows` rows take from the instances of `key`.
pub open spec fn taken(keys: Seq<Seq<u8>>, diffs: Seq<i64>, key: Seq<u8>, rows: int) -> nat
    decreases rows,
{
    if rows <= 0 {
        0
    } else if keys[rows - 1] == key && diffs[rows - 1] < 0 {
        taken(keys, diffs, key, rows - 1) + (-diffs[rows - 1]) as nat
    } else {
        taken(keys, diffs, key, rows - 1)
    }
}

/// By how much the first `rows` rows change the number of instances of `key`.
pub open spec fn net(keys: Seq<Seq<u8>>, diffs: Seq<i64>, key: Seq<u8>, rows: int) -> int {
    added(keys, diffs, key, rows) - taken(keys, diffs, key, rows)
}

/// How many instances must already exist for the retraction in `row` to be admitted whole.
pub open spec fn row_needs(
    keys: Seq<Seq<u8>>,
    diffs: Seq<i64>,
    admissions: Seq<u64>,
    row: int,
) -> nat {
    let missing = admissions[row] - net(keys, diffs, keys[row], row);
    if missing < 0 {
        0
    } else {
        missing as nat
    }
}

/// How many instances of `key` must already exist for the first `rows` rows.
pub open spec fn needed(
    keys: Seq<Seq<u8>>,
    diffs: Seq<i64>,
    admissions: Seq<u64>,
    key: Seq<u8>,
    rows: int,
) -> nat
    decreases rows,
{
    if rows <= 0 {
        0
    } else {
        let before = needed(keys, diffs, admissions, key, rows - 1);
        if keys[rows - 1] == key && diffs[rows - 1] < 0 && row_needs(
            keys,
            diffs,
            admissions,
            rows - 1,
        ) > before {
            row_needs(keys, diffs, admissions, rows - 1)
        } else {
            before
        }
    }
}

/// Why the row at `row` cannot be admitted, if it cannot.
pub open spec fn admission_fault(
    keys: Seq<Seq<u8>>,
    diffs: Seq<i64>,
    admissions: Seq<u64>,
    next_id: u64,
    row: int,
) -> Option<RelationFault> {
    if diffs[row] > 0 {
        if admissions[row] > EXHAUSTED_ID - (next_id + positives(diffs, row)) {
            Some(
                RelationFault::Reservation {
                    next_id: (next_id + positives(diffs, row)) as u64,
                    admission: admissions[row],
                },
            )
        } else {
            None
        }
    } else {
        let needs = row_needs(keys, diffs, admissions, row);
        if needs > u64::MAX {
            Some(RelationFault::RetractionOverflow)
        } else if needs > MAX_TECHNICAL_ID {
            Some(RelationFault::RetractionLimit)
        } else {
            None
        }
    }
}

/// The first reason for which one of the first `rows` rows cannot be admitted.
pub open spec fn admissions_fault(
    keys: Seq<Seq<u8>>,
    diffs: Seq<i64>,
    admissions: Seq<u64>,
    next_id: u64,
    rows: int,
) -> Option<RelationFault>
    decreases rows,
{
    if rows <= 0 {
        None
    } else {
        match admissions_fault(keys, diffs, admissions, next_id, rows - 1) {
            Some(fault) => Some(fault),
            None => admission_fault(keys, diffs, admissions, next_id, rows - 1),
        }
    }
}

proof fn lemma_admissions_fault_stays(
    keys: Seq<Seq<u8>>,
    diffs: Seq<i64>,
    admissions: Seq<u64>,
    next_id: u64,
    low: int,
    high: int,
)
    requires
        low <= high,
        admissions_fault(keys, diffs, admissions, next_id, low) is Some,
    ensures
        admissions_fault(keys, diffs, admissions, next_id, high) == admissions_fault(
            keys,
            diffs,
            admissions,
            next_id,
            low,
        ),
    decreases high - low,
{
    if low < high {
        lemma_admissions_fault_stays(keys, diffs, admissions, next_id, low, high - 1);
    }
}

/// Why a delivery cannot be planned, whatever the target holds.
pub open spec fn survey_fault(input: DeliveryBatch, next_id: u64) -> Option<RelationErrorModel> {
    let diffs = input.change.diffs@;
    let rows = input.change.records.rows as int;
    let keys = keys_of(input.change);
    if !next_id_fits(next_id) {
        Some(RelationErrorModel::Fault(RelationFault::NextId))
    } else if events(diffs, rows) > u64::MAX {
        Some(RelationErrorModel::Fault(RelationFault::EventCountOverflow))
    } else if events(diffs, rows) == 0 || events(diffs, rows) > MAX_MUTATIONS_PER_BATCH {
        Some(RelationErrorModel::Fault(RelationFault::BatchLimit))
    } else if keys_fault(input.change, rows) is Some {
        Some(RelationErrorModel::Row(keys_fault(input.change, rows)->0))
    } else {
        match admissions_fault(keys, diffs, input.admissions@, next_id, rows) {
            Some(fault) => Some(RelationErrorModel::Fault(fault)),
            None => None,
        }
    }
}

/// One distinct row of a delivery: its first occurrence and what is asked of the target.
#[derive(Clone, Copy, Debug, PartialEq, Eq, Structural)]
pub struct RowPlan {
    pub row_index: usize,
    pub net: i128,
    pub needed: u64,
    pub take: usize,
}

/// What a delivery asks for: its distinct rows, and for each row which of them it is.
#[derive(Debug)]
pub struct Survey {
    pub groups: Vec<RowPlan>,
    pub group_of: Vec<usize>,
    pub next_id_after: u64,
}

/// The groups are the distinct keys of the first `rows` rows, in the order in which each
/// occurs first, and `group_of` says to which of them a row belongs.
pub open spec fn grouping(
    keys: Seq<Seq<u8>>,
    groups: Seq<RowPlan>,
    group_of: Seq<usize>,
    rows: int,
) -> bool {
    &&& group_of.len() == rows
    &&& forall|i: int|
        0 <= i < rows ==> {
            &&& (#[trigger] group_of[i]) < groups.len()
            &&& groups[group_of[i] as int].row_index <= i
            &&& keys[groups[group_of[i] as int].row_index as int] == keys[i]
        }
    &&& forall|g: int|
        0 <= g < groups.len() ==> {
            &&& (#[trigger] groups[g]).row_index < rows
            &&& group_of[groups[g].row_index as int] == g
        }
    &&& forall|g: int, h: int|
        0 <= g < h < groups.len() ==> (#[trigger] groups[g]).row_index < (
        #[trigger] groups[h]).row_index
}

/// A group holds what the first `rows` rows add up to for its key.
pub open spec fn tallied(
    keys: Seq<Seq<u8>>,
    diffs: Seq<i64>,
    admissions: Seq<u64>,
    group: RowPlan,
    rows: int,
) -> bool {
    let key = keys[group.row_index as int];
    &&& group.net == net(keys, diffs, key, rows)
    &&& group.needed == needed(keys, diffs, admissions, key, rows)
    &&& group.take == taken(keys, diffs, key, rows)
}

impl Survey {
    /// The survey says what `input` asks for.
    pub open spec fn describes(&self, input: DeliveryBatch, next_id: u64) -> bool {
        let keys = keys_of(input.change);
        let diffs = input.change.diffs@;
        let rows = input.change.records.rows as int;
        &&& grouping(keys, self.groups@, self.group_of@, rows)
        &&& forall|g: int|
            0 <= g < self.groups@.len() ==> tallied(
                keys,
                diffs,
                input.admissions@,
                #[trigger] self.groups@[g],
                rows,
            )
        &&& self.next_id_after == next_id + positives(diffs, rows)
        &&& self.next_id_after <= EXHAUSTED_ID
    }
}

/// Rows of equal identity belong to one group, and others to different ones.
pub proof fn lemma_groups_are_keys(
    keys: Seq<Seq<u8>>,
    groups: Seq<RowPlan>,
    group_of: Seq<usize>,
    rows: int,
    i: int,
    j: int,
)
    requires
        grouping(keys, groups, group_of, rows),
        distinct_keys(keys, groups),
        0 <= i < rows,
        0 <= j < rows,
    ensures
        group_of[i] == group_of[j] <==> keys[i] == keys[j],
{
    let g = group_of[i] as int;
    let h = group_of[j] as int;
    assert(keys[groups[g].row_index as int] == keys[i]);
    assert(keys[groups[h].row_index as int] == keys[j]);
    if g != h {
        assert(keys[groups[g].row_index as int] != keys[groups[h].row_index as int]);
    }
}

/// No two groups stand for the same key.
pub open spec fn distinct_keys(keys: Seq<Seq<u8>>, groups: Seq<RowPlan>) -> bool {
    forall|g: int, h: int|
        0 <= g < groups.len() && 0 <= h < groups.len() && g != h ==> keys[(
        #[trigger] groups[g]).row_index as int] != keys[(#[trigger] groups[h]).row_index as int]
}

proof fn lemma_tally_bounds(
    keys: Seq<Seq<u8>>,
    diffs: Seq<i64>,
    key: Seq<u8>,
    rows: int,
)
    requires
        0 <= rows <= diffs.len(),
    ensures
        added(keys, diffs, key, rows) <= positives(diffs, rows),
        taken(keys, diffs, key, rows) <= negatives(diffs, rows),
    decreases rows,
{
    if rows > 0 {
        lemma_tally_bounds(keys, diffs, key, rows - 1);
    }
}

/// A key that has not occurred yet has no tally.
proof fn lemma_fresh_key(
    keys: Seq<Seq<u8>>,
    diffs: Seq<i64>,
    admissions: Seq<u64>,
    key: Seq<u8>,
    rows: int,
)
    requires
        forall|i: int| 0 <= i < rows ==> #[trigger] keys[i] != key,
    ensures
        added(keys, diffs, key, rows) == 0,
        taken(keys, diffs, key, rows) == 0,
        needed(keys, diffs, admissions, key, rows) == 0,
    decreases rows,
{
    if rows > 0 {
        lemma_fresh_key(keys, diffs, admissions, key, rows - 1);
    }
}

/// The group of a key among those found so far, if there is one.
fn find_group(groups: &Vec<RowPlan>, rows: &Vec<Vec<u8>>, row: usize, Ghost(keys): Ghost<Seq<Seq<u8>>>) -> (found:
    Option<usize>)
    requires
        row < rows@.len(),
        forall|i: int| 0 <= i < rows@.len() ==> #[trigger] rows@[i]@ == keys[i],
        forall|g: int| 0 <= g < groups@.len() ==> (#[trigger] groups@[g]).row_index < row,
    ensures
        match found {
            Some(group) => group < groups@.len()
                && keys[groups@[group as int].row_index as int] == keys[row as int],
            None => forall|g: int|
                0 <= g < groups@.len() ==> keys[(#[trigger] groups@[g]).row_index as int]
                    != keys[row as int],
        },
{
    let mut group: usize = 0;
    while group < groups.len()
        invariant
            row < rows@.len(),
            forall|i: int| 0 <= i < rows@.len() ==> #[trigger] rows@[i]@ == keys[i],
            forall|g: int| 0 <= g < groups@.len() ==> (#[trigger] groups@[g]).row_index < row,
            group <= groups@.len(),
            forall|g: int|
                0 <= g < group ==> keys[(#[trigger] groups@[g]).row_index as int]
                    != keys[row as int],
        decreases groups@.len() - group,
    {
        let head: usize = groups[group].row_index;
        if same_bytes(rows[head].as_slice(), rows[row].as_slice()) {
            return Some(group);
        }
        group += 1;
    }
    None
}

/// What a delivery asks of the target, row by row.
pub fn survey(input: &DeliveryBatch, next_id: u64) -> (result: Result<Survey, RelationError>)
    requires
        input.wf(),
    ensures
        match result {
            Ok(survey) => {
                &&& survey_fault(*input, next_id) is None
                &&& survey.describes(*input, next_id)
                &&& distinct_keys(keys_of(input.change), survey.groups@)
            },
            Err(error) => survey_fault(*input, next_id) == Some(error@),
        },
{
    let change: &Change = &input.change;
    validate_next_id(next_id)?;
    let count: u64 = match count_events(change.diffs.as_slice()) {
        Some(count) => count,
        None => {
            return Err(RelationError::Fault(RelationFault::EventCountOverflow));
        },
    };
    if count == 0 || count > MAX_MUTATIONS_PER_BATCH as u64 {
        return Err(RelationError::Fault(RelationFault::BatchLimit));
    }
    let rows: Vec<Vec<u8>> = match bounded_canonical_rows(change) {
        Ok(rows) => rows,
        Err(error) => {
            return Err(RelationError::Row(error));
        },
    };
    let ghost keys = keys_of(*change);
    let ghost diffs = change.diffs@;
    let ghost admissions = input.admissions@;
    let ghost total = change.records.rows as int;
    let mut groups: Vec<RowPlan> = Vec::new();
    let mut group_of: Vec<usize> = Vec::new();
    let mut next_id_after: u64 = next_id;
    let mut row: usize = 0;
    while row < change.diffs.len()
        invariant
            input.wf(),
            *change == input.change,
            keys == keys_of(*change),
            diffs == change.diffs@,
            admissions == input.admissions@,
            total == change.records.rows,
            next_id_fits(next_id),
            events(diffs, total) <= MAX_MUTATIONS_PER_BATCH,
            events(diffs, total) > 0,
            keys_fault(*change, total) is None,
            rows@.len() == total,
            forall|i: int| 0 <= i < rows@.len() ==> #[trigger] rows@[i]@ == keys[i],
            row <= total,
            total == diffs.len(),
            admissions_fault(keys, diffs, admissions, next_id, row as int) is None,
            grouping(keys, groups@, group_of@, row as int),
            distinct_keys(keys, groups@),
            forall|g: int|
                0 <= g < groups@.len() ==> tallied(
                    keys,
                    diffs,
                    admissions,
                    #[trigger] groups@[g],
                    row as int,
                ),
            next_id_after == next_id + positives(diffs, row as int),
            next_id_after <= EXHAUSTED_ID,
        decreases total - row,
    {
        let ghost before = groups@;
        let ghost key = keys[row as int];
        let diff: i64 = change.diffs[row];
        let take: u64 = magnitude(diff);
        let admission: u64 = input.admission(row);
        proof {
            lemma_counts_grow(diffs, row + 1, total);
            lemma_tally_bounds(keys, diffs, key, row as int);
            lemma_tally_bounds(keys, diffs, key, row + 1);
        }
        let group: usize = match find_group(&groups, &rows, row, Ghost(keys)) {
            Some(group) => group,
            None => {
                proof {
                    assert forall|i: int| 0 <= i < row implies #[trigger] keys[i] != key by {
                        let g = group_of@[i] as int;
                        assert(keys[groups@[g].row_index as int] == keys[i]);
                    }
                    lemma_fresh_key(keys, diffs, admissions, key, row as int);
                }
                groups.push(RowPlan { row_index: row, net: 0, needed: 0, take: 0 });
                groups.len() - 1
            },
        };
        let ghost known = groups@;
        let mut plan: RowPlan = groups[group];
        assert(keys[plan.row_index as int] == key);
        assert(tallied(keys, diffs, admissions, plan, row as int));
        if diff > 0 {
            if admission > EXHAUSTED_ID - next_id_after {
                proof {
                    lemma_admissions_fault_stays(
                        keys,
                        diffs,
                        admissions,
                        next_id,
                        row + 1,
                        total,
                    );
                }
                return Err(
                    RelationError::Fault(
                        RelationFault::Reservation { next_id: next_id_after, admission },
                    ),
                );
            }
            next_id_after += take;
            plan.net = plan.net + take as i128;
        } else {
            let missing: i128 = admission as i128 - plan.net;
            if missing > 0xffff_ffff_ffff_ffff {
                proof {
                    lemma_admissions_fault_stays(
                        keys,
                        diffs,
                        admissions,
                        next_id,
                        row + 1,
                        total,
                    );
                }
                return Err(RelationError::Fault(RelationFault::RetractionOverflow));
            }
            let needed: u64 = if missing < 0 {
                0
            } else {
                missing as u64
            };
            if needed > MAX_TECHNICAL_ID {
                proof {
                    lemma_admissions_fault_stays(
                        keys,
                        diffs,
                        admissions,
                        next_id,
                        row + 1,
                        total,
                    );
                }
                return Err(RelationError::Fault(RelationFault::RetractionLimit));
            }
            if needed > plan.needed {
                plan.needed = needed;
            }
            plan.take = plan.take + take as usize;
            plan.net = plan.net - take as i128;
        }
        groups.set(group, plan);
        group_of.push(group);
        proof {
            assert(groups@ =~= known.update(group as int, plan));
            assert forall|g: int| 0 <= g < groups@.len() implies tallied(
                keys,
                diffs,
                admissions,
                #[trigger] groups@[g],
                row + 1,
            ) by {
                if g != group {
                    assert(groups@[g] == known[g]);
                    assert(keys[known[g].row_index as int] != keys[known[group as int].row_index as int]);
                    assert(tallied(keys, diffs, admissions, known[g], row as int));
                }
            }
        }
        row += 1;
    }
    Ok(Survey { groups, group_of, next_id_after })
}

/// One request per distinct logical row. A count may exceed the number of IDs asked for.
#[derive(Clone, Copy, Debug, PartialEq, Eq, Structural)]
pub struct Lookup {
    pub row_index: usize,
    pub needed: u64,
    pub take: usize,
}

/// How many instances of a row a target holds, up to what was asked, and the first of their IDs.
#[derive(Debug)]
pub struct Matches {
    pub count: u64,
    pub ids: Vec<u64>,
}

/// What is asked of the target for one distinct row.
pub open spec fn request_of(group: RowPlan) -> Lookup {
    Lookup {
        row_index: group.row_index,
        needed: if group.needed >= group.take {
            group.needed
        } else {
            group.take as u64
        },
        take: group.take,
    }
}

/// What is asked of the target for the first `count` distinct rows: those that retract.
pub open spec fn requests_of(groups: Seq<RowPlan>, count: int) -> Seq<Lookup>
    decreases count,
{
    if count <= 0 {
        Seq::empty()
    } else if groups[count - 1].take == 0 {
        requests_of(groups, count - 1)
    } else {
        requests_of(groups, count - 1).push(request_of(groups[count - 1]))
    }
}

proof fn lemma_requests_grow(groups: Seq<RowPlan>, low: int, high: int)
    requires
        0 <= low <= high <= groups.len(),
    ensures
        requests_of(groups, low).len() <= requests_of(groups, high).len(),
    decreases high,
{
    if low < high {
        lemma_requests_grow(groups, low, high - 1);
    }
}

/// The requests of a survey, in the order of its distinct rows.
pub fn requests(survey: &Survey) -> (requests: Vec<Lookup>)
    ensures
        requests@ == requests_of(survey.groups@, survey.groups@.len() as int),
{
    let mut requests: Vec<Lookup> = Vec::new();
    let mut index: usize = 0;
    while index < survey.groups.len()
        invariant
            index <= survey.groups@.len(),
            requests@ == requests_of(survey.groups@, index as int),
        decreases survey.groups@.len() - index,
    {
        let group: RowPlan = survey.groups[index];
        if group.take != 0 {
            let needed: u64 = if group.needed >= group.take as u64 {
                group.needed
            } else {
                group.take as u64
            };
            requests.push(Lookup { row_index: group.row_index, needed, take: group.take });
        }
        index += 1;
    }
    requests
}

/// The smaller of two numbers.
pub open spec fn lesser(left: nat, right: nat) -> nat {
    if left <= right {
        left
    } else {
        right
    }
}

/// A reply keeps within its request: a bounded count, and the smallest IDs, ascending.
pub open spec fn matches_fit(request: Lookup, found: Matches, next_id: u64) -> bool {
    &&& found.count <= request.needed
    &&& found.ids@.len() == lesser(found.count as nat, request.take as nat)
    &&& forall|i: int| 0 <= i < found.ids@.len() ==> 0 < #[trigger] found.ids@[i] < next_id
    &&& forall|i: int|
        0 < i < found.ids@.len() ==> found.ids@[i - 1] < #[trigger] found.ids@[i]
}

/// Whether a reply keeps within its request.
pub fn validate_matches(request: &Lookup, found: &Matches, next_id: u64) -> (fits: bool)
    ensures
        fits == matches_fit(*request, *found, next_id),
{
    if found.count > request.needed {
        return false;
    }
    let selected: u64 = if found.count <= request.take as u64 {
        found.count
    } else {
        request.take as u64
    };
    if found.ids.len() as u64 != selected {
        return false;
    }
    let mut index: usize = 0;
    while index < found.ids.len()
        invariant
            index <= found.ids@.len(),
            forall|i: int| 0 <= i < index ==> 0 < #[trigger] found.ids@[i] < next_id,
            forall|i: int| 0 < i < index ==> found.ids@[i - 1] < #[trigger] found.ids@[i],
        decreases found.ids@.len() - index,
    {
        let id: u64 = found.ids[index];
        if id == 0 || id >= next_id {
            return false;
        }
        if index > 0 && found.ids[index - 1] >= id {
            return false;
        }
        index += 1;
    }
    true
}

/// Why the reply for the distinct row at `group` cannot be used, if it cannot.
pub open spec fn reply_fault(
    groups: Seq<RowPlan>,
    matches: Seq<Matches>,
    next_id: u64,
    group: int,
) -> Option<RelationFault> {
    let plan = groups[group];
    let found = matches[requests_of(groups, group).len() as int];
    if plan.take == 0 {
        None
    } else if !matches_fit(request_of(plan), found, next_id) {
        Some(RelationFault::InvalidMatches)
    } else if found.count < plan.needed {
        Some(
            RelationFault::MissingInstances {
                row_index: plan.row_index,
                needed: plan.needed,
                count: found.count,
            },
        )
    } else {
        None
    }
}

/// The first reason for which one of the first `count` replies cannot be used.
pub open spec fn replies_fault(
    groups: Seq<RowPlan>,
    matches: Seq<Matches>,
    next_id: u64,
    count: int,
) -> Option<RelationFault>
    decreases count,
{
    if count <= 0 {
        None
    } else {
        match replies_fault(groups, matches, next_id, count - 1) {
            Some(fault) => Some(fault),
            None => reply_fault(groups, matches, next_id, count - 1),
        }
    }
}

/// Why the replies of a target cannot be used, if they cannot.
pub open spec fn lookup_fault(
    groups: Seq<RowPlan>,
    matches: Seq<Matches>,
    next_id: u64,
) -> Option<RelationFault> {
    if matches.len() != requests_of(groups, groups.len() as int).len() {
        Some(RelationFault::LookupResults)
    } else {
        replies_fault(groups, matches, next_id, groups.len() as int)
    }
}

proof fn lemma_replies_fault_stays(
    groups: Seq<RowPlan>,
    matches: Seq<Matches>,
    next_id: u64,
    low: int,
    high: int,
)
    requires
        low <= high,
        replies_fault(groups, matches, next_id, low) is Some,
    ensures
        replies_fault(groups, matches, next_id, high) == replies_fault(
            groups,
            matches,
            next_id,
            low,
        ),
    decreases high - low,
{
    if low < high {
        lemma_replies_fault_stays(groups, matches, next_id, low, high - 1);
    }
}

/// The existing IDs that the target offers for the distinct row at `group`.
pub open spec fn offered(groups: Seq<RowPlan>, matches: Seq<Matches>, group: int) -> Seq<u64> {
    if groups[group].take == 0 {
        Seq::empty()
    } else {
        matches[requests_of(groups, group).len() as int].ids@
    }
}

/// Takes over the replies of a target, one for each distinct row that retracts.
fn accept_matches(survey: &Survey, matches: &Vec<Matches>, next_id: u64) -> (result: Result<
    Vec<Vec<u64>>,
    RelationFault,
>)
    ensures
        match result {
            Ok(found) => {
                &&& lookup_fault(survey.groups@, matches@, next_id) is None
                &&& found@.len() == survey.groups@.len()
                &&& forall|g: int|
                    0 <= g < found@.len() ==> #[trigger] found@[g]@ == offered(
                        survey.groups@,
                        matches@,
                        g,
                    )
            },
            Err(fault) => lookup_fault(survey.groups@, matches@, next_id) == Some(fault),
        },
{
    let asked: Vec<Lookup> = requests(survey);
    let replies: usize = matches.len();
    if replies != asked.len() {
        return Err(RelationFault::LookupResults);
    }
    let ghost groups = survey.groups@;
    let mut found: Vec<Vec<u64>> = Vec::new();
    let mut reply: usize = 0;
    let mut index: usize = 0;
    while index < survey.groups.len()
        invariant
            groups == survey.groups@,
            index <= groups.len(),
            replies == matches@.len(),
            replies == requests_of(groups, groups.len() as int).len(),
            asked@ == requests_of(groups, groups.len() as int),
            reply == requests_of(groups, index as int).len(),
            replies_fault(groups, matches@, next_id, index as int) is None,
            found@.len() == index,
            forall|g: int|
                0 <= g < found@.len() ==> #[trigger] found@[g]@ == offered(groups, matches@, g),
        decreases groups.len() - index,
    {
        let plan: RowPlan = survey.groups[index];
        let mut ids: Vec<u64> = Vec::new();
        if plan.take != 0 {
            proof {
                lemma_requests_grow(groups, index + 1, groups.len() as int);
                lemma_request_at(groups, index as int);
            }
            let found_here: &Matches = &matches[reply];
            if !validate_matches(&asked[reply], found_here, next_id) {
                proof {
                    lemma_replies_fault_stays(
                        groups,
                        matches@,
                        next_id,
                        index + 1,
                        groups.len() as int,
                    );
                }
                return Err(RelationFault::InvalidMatches);
            }
            if found_here.count < plan.needed {
                proof {
                    lemma_replies_fault_stays(
                        groups,
                        matches@,
                        next_id,
                        index + 1,
                        groups.len() as int,
                    );
                }
                return Err(
                    RelationFault::MissingInstances {
                        row_index: plan.row_index,
                        needed: plan.needed,
                        count: found_here.count,
                    },
                );
            }
            ids = copy_ids(&found_here.ids);
            reply += 1;
        }
        assert(ids@ =~= offered(groups, matches@, index as int));
        found.push(ids);
        index += 1;
    }
    Ok(found)
}

/// The request of a distinct row stands behind those of the rows before it.
proof fn lemma_request_at(groups: Seq<RowPlan>, group: int)
    requires
        0 <= group < groups.len(),
        groups[group].take != 0,
    ensures
        requests_of(groups, group).len() < requests_of(groups, groups.len() as int).len(),
        requests_of(groups, groups.len() as int)[requests_of(groups, group).len() as int]
            == request_of(groups[group]),
{
    lemma_request_stays(groups, group, groups.len() as int);
}

proof fn lemma_request_stays(groups: Seq<RowPlan>, group: int, count: int)
    requires
        0 <= group < count <= groups.len(),
        groups[group].take != 0,
    ensures
        requests_of(groups, group).len() < requests_of(groups, count).len(),
        requests_of(groups, count)[requests_of(groups, group).len() as int] == request_of(
            groups[group],
        ),
    decreases count,
{
    if count > group + 1 {
        lemma_request_stays(groups, group, count - 1);
    }
}

/// A copy of some IDs.
fn copy_ids(ids: &Vec<u64>) -> (copy: Vec<u64>)
    ensures
        copy@ == ids@,
{
    let mut copy: Vec<u64> = Vec::new();
    let mut index: usize = 0;
    while index < ids.len()
        invariant
            index <= ids@.len(),
            copy@ == ids@.take(index as int),
        decreases ids@.len() - index,
    {
        copy.push(ids[index]);
        index += 1;
        assert(copy@ =~= ids@.take(index as int));
    }
    assert(copy@ =~= ids@);
    copy
}

/// The insertions of one row: consecutive IDs behind those of the rows before it.
pub open spec fn row_inserts(diffs: Seq<i64>, next_id: u64, row: int) -> Seq<Insert> {
    if diffs[row] > 0 {
        Seq::new(
            diffs[row] as nat,
            |k: int|
                Insert {
                    row_index: row as u64,
                    technical_id: (next_id + positives(diffs, row) + k) as u64,
                },
        )
    } else {
        Seq::empty()
    }
}

/// The insertions of the first `rows` rows, in order.
pub open spec fn planned_inserts(diffs: Seq<i64>, next_id: u64, rows: int) -> Seq<Insert>
    decreases rows,
{
    if rows <= 0 {
        Seq::empty()
    } else {
        planned_inserts(diffs, next_id, rows - 1) + row_inserts(diffs, next_id, rows - 1)
    }
}

/// The IDs that the first `rows` rows insert for `key`, in order.
pub open spec fn inserted_ids(
    keys: Seq<Seq<u8>>,
    diffs: Seq<i64>,
    next_id: u64,
    key: Seq<u8>,
    rows: int,
) -> Seq<u64>
    decreases rows,
{
    if rows <= 0 {
        Seq::empty()
    } else if keys[rows - 1] == key {
        inserted_ids(keys, diffs, next_id, key, rows - 1) + row_inserts(
            diffs,
            next_id,
            rows - 1,
        ).map_values(|insert: Insert| insert.technical_id)
    } else {
        inserted_ids(keys, diffs, next_id, key, rows - 1)
    }
}

/// The deletions of one row: the oldest IDs of its key that are still there, the existing
/// ones before those that earlier rows inserted.
pub open spec fn row_deletes(
    keys: Seq<Seq<u8>>,
    diffs: Seq<i64>,
    next_id: u64,
    existing: Seq<u64>,
    row: int,
) -> Seq<Delete> {
    let key = keys[row];
    let ids = existing + inserted_ids(keys, diffs, next_id, key, row);
    if diffs[row] < 0 {
        Seq::new(
            (-diffs[row]) as nat,
            |k: int|
                Delete {
                    row_index: row as u64,
                    technical_id: ids[taken(keys, diffs, key, row) + k],
                },
        )
    } else {
        Seq::empty()
    }
}

/// The deletions of the first `rows` rows, in order; `found` holds the existing IDs of each
/// distinct row.
pub open spec fn planned_deletes(
    keys: Seq<Seq<u8>>,
    diffs: Seq<i64>,
    next_id: u64,
    group_of: Seq<usize>,
    found: Seq<Seq<u64>>,
    rows: int,
) -> Seq<Delete>
    decreases rows,
{
    if rows <= 0 {
        Seq::empty()
    } else {
        planned_deletes(keys, diffs, next_id, group_of, found, rows - 1) + row_deletes(
            keys,
            diffs,
            next_id,
            found[group_of[rows - 1] as int],
            rows - 1,
        )
    }
}

proof fn lemma_insert_counts(keys: Seq<Seq<u8>>, diffs: Seq<i64>, next_id: u64, key: Seq<u8>, rows: int)
    requires
        0 <= rows <= diffs.len(),
    ensures
        planned_inserts(diffs, next_id, rows).len() == positives(diffs, rows),
        inserted_ids(keys, diffs, next_id, key, rows).len() == added(keys, diffs, key, rows),
    decreases rows,
{
    if rows > 0 {
        lemma_insert_counts(keys, diffs, next_id, key, rows - 1);
    }
}

proof fn lemma_needed_covers(
    keys: Seq<Seq<u8>>,
    diffs: Seq<i64>,
    admissions: Seq<u64>,
    row: int,
    rows: int,
)
    requires
        0 <= row < rows <= diffs.len(),
        diffs[row] < 0,
    ensures
        needed(keys, diffs, admissions, keys[row], rows) >= row_needs(
            keys,
            diffs,
            admissions,
            row,
        ),
        taken(keys, diffs, keys[row], rows) >= taken(keys, diffs, keys[row], row) - diffs[row],
    decreases rows,
{
    if row < rows - 1 {
        lemma_needed_covers(keys, diffs, admissions, row, rows - 1);
    }
}

/// Where the target offers as many IDs as were asked for, no retraction runs out of them.
pub proof fn lemma_ids_suffice(
    input: DeliveryBatch,
    next_id: u64,
    survey: Survey,
    matches: Seq<Matches>,
    row: int,
)
    requires
        input.wf(),
        survey.describes(input, next_id),
        lookup_fault(survey.groups@, matches, next_id) is None,
        0 <= row < input.change.records.rows,
        input.change.diffs@[row] < 0,
    ensures
        ({
            let keys = keys_of(input.change);
            let diffs = input.change.diffs@;
            let key = keys[row];
            taken(keys, diffs, key, row) - diffs[row] <= offered(
                survey.groups@,
                matches,
                survey.group_of@[row] as int,
            ).len() + added(keys, diffs, key, row)
        }),
{
    let keys = keys_of(input.change);
    let diffs = input.change.diffs@;
    let rows = input.change.records.rows as int;
    let group = survey.group_of@[row] as int;
    let plan = survey.groups@[group];
    assert(keys[plan.row_index as int] == keys[row]);
    assert(tallied(keys, diffs, input.admissions@, plan, rows));
    lemma_needed_covers(keys, diffs, input.admissions@, row, rows);
    lemma_reply_is_used(survey.groups@, matches, next_id, group, survey.groups@.len() as int);
    assert(input.admissions@[row] >= abs(diffs[row] as int));
}

pub proof fn lemma_reply_is_used(
    groups: Seq<RowPlan>,
    matches: Seq<Matches>,
    next_id: u64,
    group: int,
    count: int,
)
    requires
        0 <= group < count <= groups.len(),
        replies_fault(groups, matches, next_id, count) is None,
    ensures
        reply_fault(groups, matches, next_id, group) is None,
    decreases count,
{
    if group < count - 1 {
        lemma_reply_is_used(groups, matches, next_id, group, count - 1);
    }
}

/// The existing IDs that the target offers, distinct row by distinct row.
pub open spec fn offers(groups: Seq<RowPlan>, matches: Seq<Matches>) -> Seq<Seq<u64>> {
    Seq::new(groups.len(), |g: int| offered(groups, matches, g))
}

/// The batch is the one that `survey` and the replies of the target give.
pub open spec fn planned(
    batch: Batch,
    input: DeliveryBatch,
    next_id: u64,
    survey: Survey,
    matches: Seq<Matches>,
) -> bool {
    let keys = keys_of(input.change);
    let diffs = input.change.diffs@;
    let rows = input.change.records.rows as int;
    &&& batch.inserts@ == planned_inserts(diffs, next_id, rows)
    &&& batch.deletes@ == planned_deletes(
        keys,
        diffs,
        next_id,
        survey.group_of@,
        offers(survey.groups@, matches),
        rows,
    )
}

/// Gives each event of an admitted delivery its technical ID.
pub fn allocate(
    input: &DeliveryBatch,
    next_id: u64,
    survey: &Survey,
    matches: &Vec<Matches>,
) -> (result: Result<(u64, Batch), RelationError>)
    requires
        input.wf(),
        survey_fault(*input, next_id) is None,
        survey.describes(*input, next_id),
        distinct_keys(keys_of(input.change), survey.groups@),
    ensures
        allocates(*input, next_id, *survey, matches@, result),
{
    let mut ids: Vec<Vec<u64>> = match accept_matches(survey, matches, next_id) {
        Ok(found) => found,
        Err(fault) => {
            return Err(RelationError::Fault(fault));
        },
    };
    let ghost keys = keys_of(input.change);
    let ghost diffs = input.change.diffs@;
    let ghost rows = input.change.records.rows as int;
    let ghost groups = survey.groups@;
    let ghost group_of = survey.group_of@;
    let ghost found = offers(groups, matches@);
    let mut used: Vec<usize> = Vec::new();
    while used.len() < survey.groups.len()
        invariant
            used@.len() <= survey.groups@.len(),
            forall|g: int| 0 <= g < used@.len() ==> #[trigger] used@[g] == 0,
        decreases survey.groups@.len() - used@.len(),
    {
        used.push(0);
    }
    let mut inserts: Vec<Insert> = Vec::new();
    let mut deletes: Vec<Delete> = Vec::new();
    let mut allocated: u64 = next_id;
    let mut row: usize = 0;
    proof {
        assert forall|g: int| 0 <= g < groups.len() implies #[trigger] ids@[g]@ == found[g]
            + inserted_ids(keys, diffs, next_id, keys[groups[g].row_index as int], 0) by {
            assert(ids@[g]@ =~= found[g] + inserted_ids(
                keys,
                diffs,
                next_id,
                keys[groups[g].row_index as int],
                0,
            ));
        }
    }
    while row < input.change.diffs.len()
        invariant
            input.wf(),
            survey.describes(*input, next_id),
            distinct_keys(keys, groups),
            lookup_fault(groups, matches@, next_id) is None,
            keys == keys_of(input.change),
            diffs == input.change.diffs@,
            rows == input.change.records.rows,
            rows == diffs.len(),
            groups == survey.groups@,
            group_of == survey.group_of@,
            found == offers(groups, matches@),
            ids@.len() == groups.len(),
            used@.len() == groups.len(),
            row <= rows,
            allocated == next_id + positives(diffs, row as int),
            next_id + positives(diffs, rows) <= EXHAUSTED_ID,
            inserts@ == planned_inserts(diffs, next_id, row as int),
            deletes@ == planned_deletes(keys, diffs, next_id, group_of, found, row as int),
            forall|g: int|
                0 <= g < groups.len() ==> #[trigger] ids@[g]@ == found[g] + inserted_ids(
                    keys,
                    diffs,
                    next_id,
                    keys[groups[g].row_index as int],
                    row as int,
                ),
            forall|g: int|
                0 <= g < groups.len() ==> #[trigger] used@[g] == taken(
                    keys,
                    diffs,
                    keys[groups[g].row_index as int],
                    row as int,
                ),
        decreases rows - row,
    {
        let diff: i64 = input.change.diffs[row];
        let take: u64 = magnitude(diff);
        let group: usize = survey.group_of[row];
        let ghost key = keys[row as int];
        let ghost ids_before = ids@;
        let ghost used_before = used@;
        let mut own: Vec<u64> = ids.remove(group);
        let ghost own_before = own@;
        let start: usize = used[group];
        proof {
            lemma_counts_grow(diffs, row + 1, rows);
            assert(keys[groups[group as int].row_index as int] == key);
            assert(own_before == found[group as int] + inserted_ids(
                keys,
                diffs,
                next_id,
                key,
                row as int,
            ));
            lemma_insert_counts(keys, diffs, next_id, key, row as int);
            if diff < 0 {
                lemma_ids_suffice(*input, next_id, *survey, matches@, row as int);
            }
        }
        let mut step: u64 = 0;
        if diff > 0 {
            let ghost row_part = row_inserts(diffs, next_id, row as int);
            let ghost inserts_before = inserts@;
            let ghost new_ids = row_part.map_values(|insert: Insert| insert.technical_id);
            let first: u64 = allocated;
            while step < take
                invariant
                    step <= take,
                    take == diffs[row as int] as nat,
                    diffs[row as int] > 0,
                    first == next_id + positives(diffs, row as int),
                    first + take <= EXHAUSTED_ID,
                    allocated == first + step,
                    row_part == row_inserts(diffs, next_id, row as int),
                    new_ids == row_part.map_values(|insert: Insert| insert.technical_id),
                    inserts@ == inserts_before + row_part.take(step as int),
                    own@ == own_before + new_ids.take(step as int),
                decreases take - step,
            {
                inserts.push(Insert { row_index: row as u64, technical_id: allocated });
                own.push(allocated);
                allocated += 1;
                step += 1;
                assert(inserts@ =~= inserts_before + row_part.take(step as int));
                assert(own@ =~= own_before + new_ids.take(step as int));
            }
            proof {
                assert(row_part.take(step as int) =~= row_part);
                assert(new_ids.take(step as int) =~= new_ids);
                assert(row_deletes(keys, diffs, next_id, found[group as int], row as int)
                    =~= Seq::empty());
                assert(deletes@ =~= planned_deletes(
                    keys,
                    diffs,
                    next_id,
                    group_of,
                    found,
                    row + 1,
                ));
                assert(own@ =~= found[group as int] + inserted_ids(
                    keys,
                    diffs,
                    next_id,
                    key,
                    row + 1,
                ));
            }
        } else {
            let ghost row_part = row_deletes(
                keys,
                diffs,
                next_id,
                found[group as int],
                row as int,
            );
            let ghost deletes_before = deletes@;
            let limit: usize = own.len();
            while step < take
                invariant
                    step <= take,
                    diffs[row as int] < 0,
                    take == (-diffs[row as int]) as nat,
                    own@ == own_before,
                    own_before == found[group as int] + inserted_ids(
                        keys,
                        diffs,
                        next_id,
                        keys[row as int],
                        row as int,
                    ),
                    start == taken(keys, diffs, keys[row as int], row as int),
                    start + take <= limit,
                    limit == own_before.len(),
                    row_part == row_deletes(
                        keys,
                        diffs,
                        next_id,
                        found[group as int],
                        row as int,
                    ),
                    deletes@ == deletes_before + row_part.take(step as int),
                decreases take - step,
            {
                deletes.push(
                    Delete { row_index: row as u64, technical_id: own[start + step as usize] },
                );
                step += 1;
                assert(deletes@ =~= deletes_before + row_part.take(step as int));
            }
            used.set(group, start + take as usize);
            proof {
                assert(row_part.take(step as int) =~= row_part);
                assert(row_inserts(diffs, next_id, row as int) =~= Seq::empty());
                assert(inserts@ =~= planned_inserts(diffs, next_id, row + 1));
                assert(own@ =~= found[group as int] + inserted_ids(
                    keys,
                    diffs,
                    next_id,
                    key,
                    row + 1,
                ));
            }
        }
        ids.insert(group, own);
        proof {
            assert(ids@ =~= ids_before.update(group as int, own));
            assert forall|g: int| 0 <= g < groups.len() implies #[trigger] ids@[g]@ == found[g]
                + inserted_ids(keys, diffs, next_id, keys[groups[g].row_index as int], row + 1) by {
                if g != group {
                    assert(keys[groups[g].row_index as int]
                        != keys[groups[group as int].row_index as int]);
                    assert(ids@[g] == ids_before[g]);
                }
            }
            assert forall|g: int| 0 <= g < groups.len() implies #[trigger] used@[g] == taken(
                keys,
                diffs,
                keys[groups[g].row_index as int],
                row + 1,
            ) by {
                if g != group {
                    assert(keys[groups[g].row_index as int]
                        != keys[groups[group as int].row_index as int]);
                    assert(used@[g] == used_before[g]);
                }
            }
        }
        row += 1;
    }
    Ok((allocated, Batch { inserts, deletes }))
}

/// A database that holds a relation. Nothing is promised of what it replies.
pub trait RelationTarget {
    /// The instances of each requested row, in the order of the requests.
    fn lookup(&mut self, input: &Change, requests: &Vec<Lookup>) -> Result<Vec<Matches>, String>;
}

/// Whether no row of a change leaves.
pub open spec fn only_enters(diffs: Seq<i64>) -> bool {
    forall|row: int| 0 <= row < diffs.len() ==> #[trigger] diffs[row] > 0
}

proof fn lemma_none_taken(keys: Seq<Seq<u8>>, diffs: Seq<i64>, key: Seq<u8>, rows: int)
    requires
        only_enters(diffs),
        rows <= diffs.len(),
    ensures
        taken(keys, diffs, key, rows) == 0,
    decreases rows,
{
    if rows > 0 {
        lemma_none_taken(keys, diffs, key, rows - 1);
        assert(diffs[rows - 1] > 0);
    }
}

/// Where nothing is taken, nothing is asked.
proof fn lemma_none_asked(groups: Seq<RowPlan>, next_id: u64, count: int)
    requires
        count <= groups.len(),
        forall|g: int| 0 <= g < groups.len() ==> (#[trigger] groups[g]).take == 0,
    ensures
        requests_of(groups, count).len() == 0,
        replies_fault(groups, Seq::empty(), next_id, count) is None,
    decreases count,
{
    if count > 0 {
        lemma_none_asked(groups, next_id, count - 1);
        assert(groups[count - 1].take == 0);
    }
}

/// What replies lead to: a plan, or why they cannot be used.
pub open spec fn allocates(
    input: DeliveryBatch,
    next_id: u64,
    survey: Survey,
    matches: Seq<Matches>,
    result: Result<(u64, Batch), RelationError>,
) -> bool {
    match result {
        Ok((next_id_after, batch)) => {
            &&& lookup_fault(survey.groups@, matches, next_id) is None
            &&& next_id_after == next_id + positives(
                input.change.diffs@,
                input.change.records.rows as int,
            )
            &&& planned(batch, input, next_id, survey, matches)
        },
        Err(error) => {
            &&& lookup_fault(survey.groups@, matches, next_id) is Some
            &&& error@ == RelationErrorModel::Fault(
                lookup_fault(survey.groups@, matches, next_id)->0,
            )
        },
    }
}

/// What the reply of a target leads to.
pub open spec fn follows(
    input: DeliveryBatch,
    next_id: u64,
    survey: Survey,
    reply: Result<Vec<Matches>, String>,
    result: Result<(u64, Batch), RelationError>,
) -> bool {
    match reply {
        Ok(matches) => allocates(input, next_id, survey, matches@, result),
        Err(message) => result is Err && result->Err_0@ == RelationErrorModel::Target(message@),
    }
}

/// What is asked of the target for a surveyed delivery.
pub open spec fn asked_for(survey: Survey) -> Seq<Lookup> {
    requests_of(survey.groups@, survey.groups@.len() as int)
}

/// Plans a delivery: surveys it, asks the target for existing instances and gives each
/// event its technical ID. The target is asked once, for the rows that retract, and not at all
/// where there are none.
pub fn prepare<T: RelationTarget>(target: &mut T, input: &DeliveryBatch, next_id: u64) -> (result:
    Result<(u64, Batch), RelationError>)
    requires
        input.wf(),
    ensures
        survey_fault(*input, next_id) is Some ==> {
            &&& result is Err
            &&& result->Err_0@ == survey_fault(*input, next_id)->0
        },
        survey_fault(*input, next_id) is None && only_enters(input.change.diffs@) ==> result is Ok,
        survey_fault(*input, next_id) is Some || only_enters(input.change.diffs@)
            ==> *final(target) == *old(target),
        survey_fault(*input, next_id) is None ==> exists|survey: Survey|
            {
                &&& #[trigger] survey.describes(*input, next_id)
                &&& distinct_keys(keys_of(input.change), survey.groups@)
                &&& asked_for(survey).len() == 0 ==> {
                    &&& *final(target) == *old(target)
                    &&& allocates(*input, next_id, survey, Seq::empty(), result)
                }
                &&& asked_for(survey).len() > 0 ==> exists|
                    slot: &mut T,
                    asked: Vec<Lookup>,
                    reply: Result<Vec<Matches>, String>,
                |
                    {
                        &&& #[trigger] call_ensures(
                            T::lookup,
                            (slot, &input.change, &asked),
                            reply,
                        )
                        &&& *slot == *old(target)
                        &&& *final(slot) == *final(target)
                        &&& asked@ == asked_for(survey)
                        &&& follows(*input, next_id, survey, reply, result)
                    }
            },
{
    let survey: Survey = survey(input, next_id)?;
    proof {
        if only_enters(input.change.diffs@) {
            let groups = survey.groups@;
            assert forall|g: int| 0 <= g < groups.len() implies (#[trigger] groups[g]).take
                == 0 by {
                lemma_none_taken(
                    keys_of(input.change),
                    input.change.diffs@,
                    keys_of(input.change)[groups[g].row_index as int],
                    input.change.records.rows as int,
                );
            }
            lemma_none_asked(groups, next_id, groups.len() as int);
        }
    }
    let asked: Vec<Lookup> = requests(&survey);
    if asked.len() == 0 {
        let none: Vec<Matches> = Vec::new();
        assert(none@ =~= Seq::empty());
        return allocate(input, next_id, &survey, &none);
    }
    let reply: Result<Vec<Matches>, String> = target.lookup(&input.change, &asked);
    match &reply {
        Ok(matches) => allocate(input, next_id, &survey, matches),
        Err(message) => Err(RelationError::Target(message.clone())),
    }
}

/// A reply that is true of the stored instances of a row is refused exactly where there are fewer
/// of them than the row needs. It counts the instances up to the number that was asked for, and
/// gives the smallest of their IDs up to the number that is to be taken.
pub proof fn law_refused_only_where_instances_are_missing(
    groups: Seq<RowPlan>,
    matches: Seq<Matches>,
    next_id: u64,
    group: int,
    ids: Seq<u64>,
)
    requires
        0 <= group < groups.len(),
        groups[group].take > 0,
        forall|i: int| 0 <= i < ids.len() ==> 0 < #[trigger] ids[i] < next_id,
        forall|i: int| 0 < i < ids.len() ==> ids[i - 1] < #[trigger] ids[i],
        ({
            let request = request_of(groups[group]);
            let found = matches[requests_of(groups, group).len() as int];
            &&& found.count == lesser(ids.len(), request.needed as nat)
            &&& found.ids@ == ids.take(lesser(found.count as nat, request.take as nat) as int)
        }),
    ensures
        reply_fault(groups, matches, next_id, group) is Some <==> ids.len() < groups[group].needed,
        request_of(groups[group]).row_index == groups[group].row_index,
{
    let request = request_of(groups[group]);
    let found = matches[requests_of(groups, group).len() as int];
    let size = lesser(found.count as nat, request.take as nat) as int;
    assert forall|i: int| 0 < i < found.ids@.len() implies found.ids@[i - 1]
        < #[trigger] found.ids@[i] by {
        assert(found.ids@[i] == ids[i]);
        assert(found.ids@[i - 1] == ids[i - 1]);
    }
    assert forall|i: int| 0 <= i < found.ids@.len() implies 0 < #[trigger] found.ids@[i]
        < next_id by {
        assert(found.ids@[i] == ids[i]);
    }
}

} // verus!
