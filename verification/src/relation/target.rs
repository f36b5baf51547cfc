//! Relational semantics layered on a database: admission, recovery and stored plans.

use crate::buffered::delivery::DeliveryBatch;
use crate::bytes::{be_bytes, be_value, number_at, push_be, Cursor};
use crate::bytes::{lemma_be_bytes_len, lemma_be_round_trip, lemma_byte_ranges, lemma_number_after};
use crate::change::{count_positives, positives, Change};
use crate::relation::batch::{
    delete_pairs, insert_pairs, Batch, Delete, Insert, EXHAUSTED_ID, FIRST_TECHNICAL_ID,
    MAX_MUTATIONS_PER_BATCH,
};
use crate::relation::fault::{RelationError, RelationErrorModel, RelationFault};
use crate::relation::plan::{
    allocates, asked_for, distinct_keys, follows, keys_of, next_id_fits, only_enters, prepare,
    survey_fault, validate_next_id, Lookup, Matches, RelationTarget, Survey,
};
use crate::relation::recovery::{order_fault, plan_fault, plan_valid, validate};
use crate::relation::row::{bounded_fault, canonical_bytes, canonical_row_size_bounded};
use vstd::prelude::*;

verus! {

/// No batch for a target may be charged with more bytes than this.
pub const MAX_TARGET_BATCH_BYTES: u64 = 8388608;

/// The bytes that an event of a row is charged with: its canonical bytes, its ID and hash,
/// and the framing of its parameters.
pub open spec fn event_charge(input: Change, row_index: int) -> nat {
    canonical_bytes(input.records, row_index).len() + 24 + 8 * (input.records.columns@.len() + 2)
}

/// Charges one event of a row.
pub fn relation_event_bytes(input: &Change, row_index: usize) -> (result: Result<u64, RelationError>)
    requires
        input.wf(),
    ensures
        match result {
            Ok(bytes) => {
                &&& bounded_fault(
                    input.records,
                    row_index as int,
                    MAX_TARGET_BATCH_BYTES as usize,
                ) is None
                &&& bytes == event_charge(*input, row_index as int)
            },
            Err(error) => charge_refused(*input, row_index as int, error@),
        },
{
    let canonical: usize = match canonical_row_size_bounded(
        &input.records,
        row_index,
        MAX_TARGET_BATCH_BYTES as usize,
    ) {
        Ok(size) => size,
        Err(error) => {
            return Err(RelationError::Row(error));
        },
    };
    let columns: usize = input.records.num_columns();
    let framing: Option<usize> = match columns.checked_add(2) {
        Some(parameters) => parameters.checked_mul(8),
        None => None,
    };
    let fixed: usize = canonical + 24;
    let charge: Option<usize> = match framing {
        Some(framing) => fixed.checked_add(framing),
        None => None,
    };
    match charge {
        Some(bytes) => Ok(bytes as u64),
        None => Err(RelationError::Fault(RelationFault::EventBytesOverflow)),
    }
}

/// Why an event cannot be charged: the relation refuses it, or the target does.
#[derive(Debug)]
pub enum ChargeError<E> {
    Relation(RelationError),
    Target(E),
}

/// What the relation says when it refuses to charge an event.
pub open spec fn charge_refused(input: Change, row_index: int, error: RelationErrorModel) -> bool {
    match bounded_fault(input.records, row_index, MAX_TARGET_BATCH_BYTES as usize) {
        Some(fault) => error == RelationErrorModel::Row(fault),
        None => {
            &&& error == RelationErrorModel::Fault(RelationFault::EventBytesOverflow)
            &&& event_charge(input, row_index) > usize::MAX
        },
    }
}

/// Row and ID of each mutation, in eight bytes each.
pub open spec fn pair_bytes(pairs: Seq<(u64, u64)>) -> Seq<u8>
    decreases pairs.len(),
{
    if pairs.len() == 0 {
        Seq::empty()
    } else {
        pair_bytes(pairs.drop_last()) + be_bytes(pairs.last().0 as nat, 8) + be_bytes(
            pairs.last().1 as nat,
            8,
        )
    }
}

/// How a plan is stored: a version, the two counts, then its insertions and its deletions.
pub open spec fn plan_bytes(plan: Batch) -> Seq<u8> {
    seq![1u8] + be_bytes(plan.inserts@.len(), 2) + be_bytes(plan.deletes@.len(), 2) + pair_bytes(
        insert_pairs(plan.inserts@),
    ) + pair_bytes(delete_pairs(plan.deletes@))
}

/// The pair at `index` in stored bytes.
pub open spec fn pair_at(bytes: Seq<u8>, index: int) -> (u64, u64) {
    (
        number_at(bytes, 16 * index),
        number_at(bytes, 16 * index + 8),
    )
}

/// The first `count` pairs in stored bytes.
pub open spec fn pairs_at(bytes: Seq<u8>, count: nat) -> Seq<(u64, u64)> {
    Seq::new(count, |index: int| pair_at(bytes, index))
}

/// The number of insertions that stored bytes announce.
pub open spec fn stored_inserts(bytes: Seq<u8>) -> nat {
    be_value(bytes.subrange(1, 3))
}

/// The number of deletions that stored bytes announce.
pub open spec fn stored_deletes(bytes: Seq<u8>) -> nat {
    be_value(bytes.subrange(3, 5))
}

/// The length of the plan that stored bytes announce.
pub open spec fn stored_length(bytes: Seq<u8>) -> nat {
    5 + 16 * (stored_inserts(bytes) + stored_deletes(bytes))
}

/// Why bytes do not begin with a stored plan, if they do not.
pub open spec fn stored_plan_fault(bytes: Seq<u8>) -> Option<RelationFault> {
    if bytes.len() == 0 {
        Some(RelationFault::Truncated)
    } else if bytes[0] != 1 {
        Some(RelationFault::PlanVersion)
    } else if bytes.len() < 5 {
        Some(RelationFault::Truncated)
    } else {
        let count = stored_inserts(bytes) + stored_deletes(bytes);
        if count == 0 || count > MAX_MUTATIONS_PER_BATCH {
            Some(RelationFault::PlanCount)
        } else if bytes.len() < stored_length(bytes) {
            Some(RelationFault::Truncated)
        } else {
            None
        }
    }
}

/// What is said of a plan that does not belong to a change.
pub open spec fn plan_refusal(plan: Batch, checkpoint: u64, change: Change) -> RelationErrorModel {
    match plan_fault(plan, checkpoint, change) {
        Some(fault) => fault,
        None => RelationErrorModel::Fault(order_fault(plan, checkpoint, change, 0)->0),
    }
}

/// The plan that bytes begin with.
pub open spec fn stored_plan(bytes: Seq<u8>, plan: Batch) -> bool {
    &&& insert_pairs(plan.inserts@) == pairs_at(bytes.skip(5), stored_inserts(bytes))
    &&& delete_pairs(plan.deletes@) == pairs_at(
        bytes.skip(5 + 16 * stored_inserts(bytes) as int),
        stored_deletes(bytes),
    )
}

/// Reads a row and an ID.
fn read_pair(input: &mut Cursor<'_>) -> (pair: Option<(u64, u64)>)
    requires
        old(input).wf(),
    ensures
        final(input).wf(),
        final(input).bytes == old(input).bytes,
        pair is Some <==> old(input).rest().len() >= 16,
        pair is Some ==> {
            &&& pair->0 == pair_at(old(input).rest(), 0)
            &&& final(input).rest() == old(input).rest().skip(16)
        },
{
    let ghost rest = input.rest();
    let row: u64 = match input.read_u64() {
        Some(row) => row,
        None => {
            return None;
        },
    };
    let id: u64 = match input.read_u64() {
        Some(id) => id,
        None => {
            return None;
        },
    };
    proof {
        lemma_number_after(rest, 8, 0);
        assert(rest.skip(8).skip(8) =~= rest.skip(16));
    }
    Some((row, id))
}

/// Reads `count` rows and IDs.
pub(crate) fn read_pairs(input: &mut Cursor<'_>, count: usize) -> (pairs: Option<Vec<(u64, u64)>>)
    requires
        old(input).wf(),
        count <= 65535,
    ensures
        final(input).wf(),
        final(input).bytes == old(input).bytes,
        pairs is Some <==> old(input).rest().len() >= 16 * count,
        pairs is Some ==> {
            &&& pairs->0@ == pairs_at(old(input).rest(), count as nat)
            &&& final(input).rest() == old(input).rest().skip(16 * count)
        },
{
    let ghost rest = input.rest();
    let mut pairs: Vec<(u64, u64)> = Vec::new();
    let mut index: usize = 0;
    assert(rest.skip(0) =~= rest);
    while index < count
        invariant
            index <= count <= 65535,
            input.wf(),
            input.bytes == old(input).bytes,
            rest == old(input).rest(),
            rest.len() >= 16 * index,
            input.rest() == rest.skip(16 * index),
            pairs@ == pairs_at(rest, index as nat),
        decreases count - index,
    {
        let ghost part = input.rest();
        match read_pair(input) {
            Some(pair) => {
                proof {
                    lemma_number_after(rest, 16 * index, 0);
                    lemma_number_after(rest, 16 * index, 8);
                    assert(part.skip(16) =~= rest.skip(16 * (index + 1)));
                }
                pairs.push(pair);
                assert(pairs@ =~= pairs_at(rest, (index + 1) as nat));
            },
            None => {
                return None;
            },
        }
        index += 1;
    }
    Some(pairs)
}

/// Appends the rows and IDs of some mutations.
pub(crate) fn push_pair(output: &mut Vec<u8>, row: u64, id: u64)
    ensures
        final(output)@ == old(output)@ + be_bytes(row as nat, 8) + be_bytes(id as nat, 8),
{
    push_be(output, row as u128, 8);
    push_be(output, id as u128, 8);
}

/// Relational semantics layered on a database-specific target.
#[derive(Debug)]
pub struct RelationSinkTarget<T> {
    pub target: T,
}

impl<T> RelationSinkTarget<T> {
    pub fn new(target: T) -> (adapter: Self)
        ensures
            adapter.target == target,
    {
        RelationSinkTarget { target }
    }

    /// The next technical ID of an empty target.
    pub fn initial_checkpoint(&self) -> (next_id: u64)
        ensures
            next_id == FIRST_TECHNICAL_ID,
            next_id_fits(next_id),
    {
        FIRST_TECHNICAL_ID
    }

    /// Whether enough technical IDs are left for all that is buffered and for `input`.
    pub fn validate_admission(
        &self,
        input: &Change,
        checkpoint: &u64,
        buffered_events: u64,
    ) -> (result: Result<(), RelationError>)
        requires
            input.wf(),
        ensures
            match result {
                Ok(_) => next_id_fits(*checkpoint) && *checkpoint + buffered_events + positives(
                    input.diffs@,
                    input.diffs@.len() as int,
                ) <= EXHAUSTED_ID,
                Err(error) => error@ == RelationErrorModel::Fault(
                    if !next_id_fits(*checkpoint) {
                        RelationFault::NextId
                    } else if positives(input.diffs@, input.diffs@.len() as int) > u64::MAX {
                        RelationFault::PositiveOverflow
                    } else if buffered_events + positives(
                        input.diffs@,
                        input.diffs@.len() as int,
                    ) > u64::MAX {
                        RelationFault::ReservationOverflow
                    } else {
                        RelationFault::CapacityExhausted
                    },
                ) && !(next_id_fits(*checkpoint) && *checkpoint + buffered_events + positives(
                    input.diffs@,
                    input.diffs@.len() as int,
                ) <= EXHAUSTED_ID),
            },
    {
        validate_next_id(*checkpoint)?;
        let positive: u64 = match count_positives(input.diffs.as_slice()) {
            Some(count) => count,
            None => {
                return Err(RelationError::Fault(RelationFault::PositiveOverflow));
            },
        };
        let reserved: u64 = match buffered_events.checked_add(positive) {
            Some(sum) => sum,
            None => {
                return Err(RelationError::Fault(RelationFault::ReservationOverflow));
            },
        };
        if reserved > EXHAUSTED_ID - *checkpoint {
            Err(RelationError::Fault(RelationFault::CapacityExhausted))
        } else {
            Ok(())
        }
    }

    /// Whether enough technical IDs are left for the insertions that are still buffered.
    pub fn validate_recovery(
        &self,
        checkpoint: &u64,
        remaining_positive_events: u64,
    ) -> (result: Result<(), RelationError>)
        ensures
            match result {
                Ok(_) => next_id_fits(*checkpoint) && *checkpoint + remaining_positive_events
                    <= EXHAUSTED_ID,
                Err(error) => if !next_id_fits(*checkpoint) {
                    error@ == RelationErrorModel::Fault(RelationFault::NextId)
                } else {
                    &&& error@ == RelationErrorModel::Fault(RelationFault::RecoveryCapacity)
                    &&& *checkpoint + remaining_positive_events > EXHAUSTED_ID
                },
            },
    {
        validate_next_id(*checkpoint)?;
        if remaining_positive_events > EXHAUSTED_ID - *checkpoint {
            Err(RelationError::Fault(RelationFault::RecoveryCapacity))
        } else {
            Ok(())
        }
    }

    /// Appends a checkpoint in eight bytes.
    pub fn encode_checkpoint(checkpoint: &u64, output: &mut Vec<u8>)
        ensures
            final(output)@ == old(output)@ + be_bytes(*checkpoint as nat, 8),
    {
        push_be(output, *checkpoint as u128, 8)
    }

    /// Reads a checkpoint, which must be a possible next ID.
    pub fn decode_checkpoint(input: &mut Cursor<'_>) -> (result: Result<u64, RelationError>)
        requires
            old(input).wf(),
        ensures
            final(input).wf(),
            final(input).bytes == old(input).bytes,
            match result {
                Ok(checkpoint) => {
                    &&& old(input).rest().len() >= 8
                    &&& checkpoint == number_at(old(input).rest(), 0)
                    &&& next_id_fits(checkpoint)
                    &&& final(input).rest() == old(input).rest().skip(8)
                },
                Err(error) => if old(input).rest().len() < 8 {
                    error@ == RelationErrorModel::Fault(RelationFault::Truncated)
                } else {
                    &&& error@ == RelationErrorModel::Fault(RelationFault::NextId)
                    &&& !next_id_fits(number_at(old(input).rest(), 0))
                },
            },
    {
        let checkpoint: u64 = match input.read_u64() {
            Some(checkpoint) => checkpoint,
            None => {
                return Err(RelationError::Fault(RelationFault::Truncated));
            },
        };
        validate_next_id(checkpoint)?;
        Ok(checkpoint)
    }

    /// Appends a plan.
    pub fn encode_plan(plan: &Batch, output: &mut Vec<u8>)
        requires
            plan.inserts@.len() <= u16::MAX,
            plan.deletes@.len() <= u16::MAX,
        ensures
            final(output)@ == old(output)@ + plan_bytes(*plan),
    {
        let ghost start = output@;
        output.push(1);
        push_be(output, plan.inserts.len() as u128, 2);
        push_be(output, plan.deletes.len() as u128, 2);
        let ghost inserts = insert_pairs(plan.inserts@);
        let ghost deletes = delete_pairs(plan.deletes@);
        let ghost head = output@;
        let mut index: usize = 0;
        while index < plan.inserts.len()
            invariant
                inserts == insert_pairs(plan.inserts@),
                index <= plan.inserts@.len(),
                output@ == head + pair_bytes(inserts.take(index as int)),
            decreases plan.inserts@.len() - index,
        {
            let insert: Insert = plan.inserts[index];
            push_pair(output, insert.row_index, insert.technical_id);
            assert(inserts.take(index + 1).drop_last() =~= inserts.take(index as int));
            index += 1;
            assert(output@ =~= head + pair_bytes(inserts.take(index as int)));
        }
        assert(inserts.take(index as int) =~= inserts);
        let ghost middle = output@;
        let mut next: usize = 0;
        while next < plan.deletes.len()
            invariant
                deletes == delete_pairs(plan.deletes@),
                next <= plan.deletes@.len(),
                output@ == middle + pair_bytes(deletes.take(next as int)),
            decreases plan.deletes@.len() - next,
        {
            let delete: Delete = plan.deletes[next];
            push_pair(output, delete.row_index, delete.technical_id);
            assert(deletes.take(next + 1).drop_last() =~= deletes.take(next as int));
            next += 1;
            assert(output@ =~= middle + pair_bytes(deletes.take(next as int)));
        }
        assert(deletes.take(next as int) =~= deletes);
        assert(output@ =~= start + plan_bytes(*plan));
    }

    /// Reads a plan, which must belong to the delivery and to the checkpoint after it.
    pub fn decode_plan(
        input: &mut Cursor<'_>,
        batch: &DeliveryBatch,
        checkpoint: &u64,
    ) -> (result: Result<Batch, RelationError>)
        requires
            old(input).wf(),
            batch.wf(),
        ensures
            final(input).wf(),
            final(input).bytes == old(input).bytes,
            match result {
                Ok(plan) => {
                    &&& stored_plan_fault(old(input).rest()) is None
                    &&& stored_plan(old(input).rest(), plan)
                    &&& plan_valid(plan, *checkpoint, batch.change)
                    &&& final(input).rest() == old(input).rest().skip(
                        stored_length(old(input).rest()) as int,
                    )
                },
                Err(error) => if stored_plan_fault(old(input).rest()) is Some {
                    error@ == RelationErrorModel::Fault(stored_plan_fault(old(input).rest())->0)
                } else {
                    exists|plan: Batch|
                        {
                            &&& #[trigger] stored_plan(old(input).rest(), plan)
                            &&& !plan_valid(plan, *checkpoint, batch.change)
                            &&& error@ == plan_refusal(plan, *checkpoint, batch.change)
                        }
                },
            },
    {
        let ghost rest = input.rest();
        proof {
            lemma_byte_ranges();
        }
        let version: u128 = match input.read_be(1) {
            Some(version) => version,
            None => {
                return Err(RelationError::Fault(RelationFault::Truncated));
            },
        };
        proof {
            assert(rest.take(1) =~= seq![rest[0]]);
            reveal_with_fuel(be_value, 2);
        }
        if version != 1 {
            return Err(RelationError::Fault(RelationFault::PlanVersion));
        }
        let inserts: usize = match input.read_be(2) {
            Some(count) => count as usize,
            None => {
                return Err(RelationError::Fault(RelationFault::Truncated));
            },
        };
        let deletes: usize = match input.read_be(2) {
            Some(count) => count as usize,
            None => {
                return Err(RelationError::Fault(RelationFault::Truncated));
            },
        };
        proof {
            assert(rest.skip(1).take(2) =~= rest.subrange(1, 3));
            assert(rest.skip(1).skip(2).take(2) =~= rest.subrange(3, 5));
            assert(rest.skip(1).skip(2).skip(2) =~= rest.skip(5));
        }
        let count: usize = inserts + deletes;
        if count == 0 || count > MAX_MUTATIONS_PER_BATCH {
            return Err(RelationError::Fault(RelationFault::PlanCount));
        }
        let insert_part: Vec<(u64, u64)> = match read_pairs(input, inserts) {
            Some(pairs) => pairs,
            None => {
                return Err(RelationError::Fault(RelationFault::Truncated));
            },
        };
        let delete_part: Vec<(u64, u64)> = match read_pairs(input, deletes) {
            Some(pairs) => pairs,
            None => {
                return Err(RelationError::Fault(RelationFault::Truncated));
            },
        };
        proof {
            assert(rest.skip(5).skip(16 * inserts) =~= rest.skip(5 + 16 * inserts));
            assert(rest.skip(5 + 16 * inserts).skip(16 * deletes) =~= rest.skip(
                stored_length(rest) as int,
            ));
        }
        let plan: Batch = plan_of(&insert_part, &delete_part);
        match validate(&plan, *checkpoint, &batch.change) {
            Ok(_) => Ok(plan),
            Err(error) => {
                assert(stored_plan(rest, plan));
                Err(error)
            },
        }
    }
}

impl<T: RelationTarget> RelationSinkTarget<T> {
    /// Plans a delivery against the target.
    pub fn prepare(&mut self, input: &DeliveryBatch, checkpoint: &u64) -> (result: Result<
        (u64, Batch),
        RelationError,
    >)
        requires
            input.wf(),
        ensures
            survey_fault(*input, *checkpoint) is Some ==> {
                &&& result is Err
                &&& result->Err_0@ == survey_fault(*input, *checkpoint)->0
            },
            survey_fault(*input, *checkpoint) is None && only_enters(input.change.diffs@)
                ==> result is Ok,
            survey_fault(*input, *checkpoint) is Some || only_enters(input.change.diffs@)
                ==> *final(self) == *old(self),
            survey_fault(*input, *checkpoint) is None ==> exists|survey: Survey|
                {
                    &&& #[trigger] survey.describes(*input, *checkpoint)
                    &&& distinct_keys(keys_of(input.change), survey.groups@)
                    &&& asked_for(survey).len() == 0 ==> {
                        &&& *final(self) == *old(self)
                        &&& allocates(*input, *checkpoint, survey, Seq::empty(), result)
                    }
                    &&& asked_for(survey).len() > 0 ==> exists|
                        slot: &mut T,
                        asked: Vec<Lookup>,
                        reply: Result<Vec<Matches>, String>,
                    |
                        {
                            &&& #[trigger] call_ensures(
                                T::lookup,
                                (slot, &input.change, &asked),
                                reply,
                            )
                            &&& *slot == old(self).target
                            &&& *final(slot) == final(self).target
                            &&& asked@ == asked_for(survey)
                            &&& follows(*input, *checkpoint, survey, reply, result)
                        }
                },
    {
        prepare(&mut self.target, input, *checkpoint)
    }
}

/// The plan whose insertions and deletions are the given pairs.
fn plan_of(inserts: &Vec<(u64, u64)>, deletes: &Vec<(u64, u64)>) -> (plan: Batch)
    ensures
        insert_pairs(plan.inserts@) == inserts@,
        delete_pairs(plan.deletes@) == deletes@,
{
    let mut plan_inserts: Vec<Insert> = Vec::new();
    let mut index: usize = 0;
    while index < inserts.len()
        invariant
            index <= inserts@.len(),
            insert_pairs(plan_inserts@) == inserts@.take(index as int),
        decreases inserts@.len() - index,
    {
        let pair: (u64, u64) = inserts[index];
        let ghost before = plan_inserts@;
        plan_inserts.push(Insert { row_index: pair.0, technical_id: pair.1 });
        index += 1;
        assert(insert_pairs(plan_inserts@) =~= insert_pairs(before).push(pair));
        assert(inserts@.take(index as int) =~= inserts@.take(index - 1).push(pair));
    }
    let mut plan_deletes: Vec<Delete> = Vec::new();
    let mut next: usize = 0;
    while next < deletes.len()
        invariant
            next <= deletes@.len(),
            delete_pairs(plan_deletes@) == deletes@.take(next as int),
        decreases deletes@.len() - next,
    {
        let pair: (u64, u64) = deletes[next];
        let ghost before = plan_deletes@;
        plan_deletes.push(Delete { row_index: pair.0, technical_id: pair.1 });
        next += 1;
        assert(delete_pairs(plan_deletes@) =~= delete_pairs(before).push(pair));
        assert(deletes@.take(next as int) =~= deletes@.take(next - 1).push(pair));
    }
    assert(inserts@.take(index as int) =~= inserts@);
    assert(deletes@.take(next as int) =~= deletes@);
    Batch { inserts: plan_inserts, deletes: plan_deletes }
}

pub proof fn lemma_pair_bytes(pairs: Seq<(u64, u64)>, tail: Seq<u8>)
    ensures
        pair_bytes(pairs).len() == 16 * pairs.len(),
        pairs_at(pair_bytes(pairs) + tail, pairs.len()) == pairs,
    decreases pairs.len(),
{
    broadcast use lemma_be_bytes_len;

    if pairs.len() > 0 {
        let before = pair_bytes(pairs.drop_last());
        let row = be_bytes(pairs.last().0 as nat, 8);
        let id = be_bytes(pairs.last().1 as nat, 8);
        let count = (pairs.len() - 1) as int;
        lemma_pair_bytes(pairs.drop_last(), row + id + tail);
        let bytes = pair_bytes(pairs) + tail;
        assert(bytes =~= before + (row + id + tail));
        lemma_byte_ranges();
        lemma_be_round_trip(pairs.last().0 as nat, 8);
        lemma_be_round_trip(pairs.last().1 as nat, 8);
        assert(bytes.subrange(16 * count, 16 * count + 8) =~= row);
        assert(bytes.subrange(16 * count + 8, 16 * count + 16) =~= id);
        assert(pair_at(bytes, count) == pairs.last());
        assert forall|i: int| 0 <= i < count implies pair_at(bytes, i) == pairs[i] by {
            assert(pairs_at(before + (row + id + tail), pairs.drop_last().len())[i] == pairs[i]);
        }
        assert(pairs_at(bytes, pairs.len()) =~= pairs);
    } else {
        assert(pairs_at(pair_bytes(pairs) + tail, pairs.len()) =~= pairs);
    }
}

/// A stored plan reads back as it was written, whatever follows it.
pub proof fn law_plan_round_trip(plan: Batch, tail: Seq<u8>)
    requires
        0 < plan.inserts@.len() + plan.deletes@.len() <= MAX_MUTATIONS_PER_BATCH,
    ensures
        stored_plan_fault(plan_bytes(plan) + tail) is None,
        stored_plan(plan_bytes(plan) + tail, plan),
        (plan_bytes(plan) + tail).skip(stored_length(plan_bytes(plan) + tail) as int) == tail,
{
    broadcast use lemma_be_bytes_len;

    lemma_byte_ranges();
    let inserts = insert_pairs(plan.inserts@);
    let deletes = delete_pairs(plan.deletes@);
    let insert_part = pair_bytes(inserts);
    let delete_part = pair_bytes(deletes);
    let bytes = plan_bytes(plan) + tail;
    lemma_pair_bytes(inserts, delete_part + tail);
    lemma_pair_bytes(deletes, tail);
    lemma_be_round_trip(plan.inserts@.len(), 2);
    lemma_be_round_trip(plan.deletes@.len(), 2);
    assert(bytes.subrange(1, 3) =~= be_bytes(plan.inserts@.len(), 2));
    assert(bytes.subrange(3, 5) =~= be_bytes(plan.deletes@.len(), 2));
    assert(bytes.skip(5) =~= insert_part + (delete_part + tail));
    assert(bytes.skip(5 + 16 * plan.inserts@.len() as int) =~= delete_part + tail);
    assert(bytes.skip(stored_length(bytes) as int) =~= tail);
}

/// No part of a stored plan that lacks its end is read as a plan.
pub proof fn law_truncated_plan_is_refused(plan: Batch, length: int)
    requires
        0 < plan.inserts@.len() + plan.deletes@.len() <= MAX_MUTATIONS_PER_BATCH,
        0 <= length < plan_bytes(plan).len(),
    ensures
        stored_plan_fault(plan_bytes(plan).take(length)) == Some(RelationFault::Truncated),
{
    broadcast use lemma_be_bytes_len;

    law_plan_round_trip(plan, Seq::empty());
    let whole = plan_bytes(plan);
    assert(whole + Seq::<u8>::empty() =~= whole);
    let part = whole.take(length);
    if length >= 5 {
        assert(part.subrange(1, 3) =~= whole.subrange(1, 3));
        assert(part.subrange(3, 5) =~= whole.subrange(3, 5));
        lemma_pair_bytes(insert_pairs(plan.inserts@), Seq::empty());
        lemma_pair_bytes(delete_pairs(plan.deletes@), Seq::empty());
    }
}

} // verus!
