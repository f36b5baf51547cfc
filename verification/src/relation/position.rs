//! Positions within a change, and batches of mutations that step through it event by event.

use crate::change::{events, lemma_counts_grow, lemma_row_events, Change};
use crate::relation::batch::{EXHAUSTED_ID, FIRST_TECHNICAL_ID, MAX_MUTATIONS_PER_BATCH};
use crate::text::{abs, decimal, magnitude, push_decimal};
use vstd::arithmetic::div_mod::lemma_add_mod_noop;
use vstd::prelude::*;

verus! {

/// A position within a change: a row, and how many of its events are still to come.
#[derive(Clone, Copy, Debug, PartialEq, Eq, Structural)]
pub struct Position {
    pub row_index: u64,
    pub remaining: u64,
}

/// What follows a batch of mutations.
#[derive(Clone, Copy, Debug, PartialEq, Eq, Structural)]
pub enum Continuation {
    Done,
    Position(Position),
}

/// Whether a mutation adds a row or takes one away.
#[derive(Clone, Copy, Debug, PartialEq, Eq, Structural)]
pub enum MutationKind {
    Insert,
    Delete,
}

/// One row that is added or taken away, under its technical ID.
#[derive(Clone, Copy, Debug, PartialEq, Eq, Structural)]
pub struct Mutation {
    pub kind: MutationKind,
    pub row_index: u64,
    pub technical_id: u64,
}

/// How stored work disagrees with the change that it belongs to.
#[derive(Clone, Copy, Debug, PartialEq, Eq, Structural)]
pub enum Mismatch {
    RowOutside { row_index: u64, rows: usize },
    ZeroRemaining,
    RemainderTooLarge { row_index: u64, remaining: u64, magnitude: u64 },
    BatchBoundary,
    Consumed,
    InsertCount,
    AfterEnd,
    Row,
    Kind,
    IdFrontier,
    DeleteBeforeInsert,
    Continuation,
    InsertRange,
}

/// A violation of the rules by which a change is stepped through.
#[derive(Clone, Copy, Debug, PartialEq, Eq, Structural)]
pub enum StepError {
    InvalidNextId { next_id: u64 },
    TechnicalIdExhausted { next_id: u64, needed: u64 },
    InputMismatch(Mismatch),
}

/// Whether an ID can be the next one.
pub open spec fn id_in_range(next_id: u64) -> bool {
    FIRST_TECHNICAL_ID <= next_id <= EXHAUSTED_ID
}

pub fn validate_next_id(next_id: u64) -> (result: Result<(), StepError>)
    ensures
        match result {
            Ok(_) => id_in_range(next_id),
            Err(error) => !id_in_range(next_id) && error == (StepError::InvalidNextId { next_id }),
        },
{
    if FIRST_TECHNICAL_ID <= next_id && next_id <= EXHAUSTED_ID {
        Ok(())
    } else {
        Err(StepError::InvalidNextId { next_id })
    }
}

/// Whether `needed` more IDs can be given out.
pub open spec fn ids_suffice(next_id: u64, needed: u64) -> bool {
    needed == 0 || next_id + needed <= EXHAUSTED_ID
}

pub fn ensure_id_capacity(next_id: u64, needed: u64) -> (result: Result<(), StepError>)
    ensures
        match result {
            Ok(_) => ids_suffice(next_id, needed),
            Err(error) => {
                &&& !ids_suffice(next_id, needed)
                &&& error == (StepError::TechnicalIdExhausted { next_id, needed })
            },
        },
{
    let available: u64 = EXHAUSTED_ID.saturating_sub(next_id);
    if needed <= available {
        Ok(())
    } else {
        Err(StepError::TechnicalIdExhausted { next_id, needed })
    }
}

/// The first position of a change.
pub fn first_position(change: &Change) -> (position: Position)
    requires
        change.wf(),
    ensures
        position == (Position { row_index: 0, remaining: abs(change.diffs@[0] as int) as u64 }),
        stands_in(change.diffs@, position),
        offset_of(change.diffs@, position) == 0,
{
    proof {
        assert(change.diffs@[0] != 0);
        lemma_row_events(change.diffs@, 0);
    }
    Position { row_index: 0, remaining: magnitude(change.diffs[0]) }
}

/// Whether a position is one of the change with these multiplicities.
pub open spec fn stands_in(diffs: Seq<i64>, position: Position) -> bool {
    &&& position.row_index < diffs.len()
    &&& 0 < position.remaining <= abs(diffs[position.row_index as int] as int)
}

/// How many events lie before a position.
pub open spec fn offset_of(diffs: Seq<i64>, position: Position) -> int {
    events(diffs, position.row_index + 1) - position.remaining
}

/// The row whose events the one at `offset` belongs to.
pub open spec fn row_holds(diffs: Seq<i64>, row: int, offset: int) -> bool {
    0 <= row < diffs.len() && events(diffs, row) <= offset < events(diffs, row + 1)
}

/// What lies `offset` events into a change: its end, or the position there.
pub open spec fn lies_at(diffs: Seq<i64>, continuation: Continuation, offset: int) -> bool {
    match continuation {
        Continuation::Done => offset == events(diffs, diffs.len() as int),
        Continuation::Position(position) => stands_in(diffs, position) && offset_of(
            diffs,
            position,
        ) == offset,
    }
}

/// Two continuations that lie at the same event are the same.
pub proof fn lemma_place_is_unique(
    diffs: Seq<i64>,
    left: Continuation,
    right: Continuation,
    offset: int,
)
    requires
        forall|i: int| 0 <= i < diffs.len() ==> #[trigger] diffs[i] != 0,
        lies_at(diffs, left, offset),
        lies_at(diffs, right, offset),
    ensures
        left == right,
{
    if let Continuation::Position(a) = left {
        lemma_row_events(diffs, a.row_index as int);
        lemma_events_grow(diffs, a.row_index + 1, diffs.len() as int);
        if let Continuation::Position(b) = right {
            lemma_row_events(diffs, b.row_index as int);
            if a.row_index < b.row_index {
                lemma_events_grow(diffs, a.row_index + 1, b.row_index as int);
            } else if b.row_index < a.row_index {
                lemma_events_grow(diffs, b.row_index + 1, a.row_index as int);
            }
        }
    } else if let Continuation::Position(b) = right {
        lemma_row_events(diffs, b.row_index as int);
        lemma_events_grow(diffs, b.row_index + 1, diffs.len() as int);
    }
}

pub proof fn lemma_events_grow(diffs: Seq<i64>, low: int, high: int)
    requires
        low <= high,
    ensures
        events(diffs, low) <= events(diffs, high),
{
    lemma_counts_grow(diffs, low, high);
}

fn mismatch(kind: Mismatch) -> (error: StepError)
    ensures
        error == StepError::InputMismatch(kind),
{
    StepError::InputMismatch(kind)
}

/// The row of a position, as an index.
pub fn position_index(change: &Change, position: Position) -> (result: Result<usize, StepError>)
    requires
        change.wf(),
    ensures
        match result {
            Ok(index) => index == position.row_index && index < change.diffs@.len(),
            Err(error) => {
                &&& position.row_index >= change.diffs@.len()
                &&& error == StepError::InputMismatch(
                    Mismatch::RowOutside {
                        row_index: position.row_index,
                        rows: change.diffs@.len() as usize,
                    },
                )
            },
        },
{
    let rows: usize = change.diffs.len();
    if position.row_index >= rows as u64 {
        return Err(mismatch(Mismatch::RowOutside { row_index: position.row_index, rows }));
    }
    Ok(position.row_index as usize)
}

/// Why a position is not one of the change, if it is not.
pub open spec fn position_mismatch(diffs: Seq<i64>, position: Position) -> Option<Mismatch> {
    if position.remaining == 0 {
        Some(Mismatch::ZeroRemaining)
    } else if position.row_index >= diffs.len() {
        Some(Mismatch::RowOutside { row_index: position.row_index, rows: diffs.len() as usize })
    } else if position.remaining > abs(diffs[position.row_index as int] as int) {
        Some(
            Mismatch::RemainderTooLarge {
                row_index: position.row_index,
                remaining: position.remaining,
                magnitude: abs(diffs[position.row_index as int] as int) as u64,
            },
        )
    } else {
        None
    }
}

pub fn validate_position_for_change(change: &Change, position: Position) -> (result: Result<
    (),
    StepError,
>)
    requires
        change.wf(),
    ensures
        match result {
            Ok(_) => stands_in(change.diffs@, position),
            Err(error) => {
                &&& position_mismatch(change.diffs@, position) is Some
                &&& error == StepError::InputMismatch(
                    position_mismatch(change.diffs@, position)->0,
                )
            },
        },
{
    if position.remaining == 0 {
        return Err(mismatch(Mismatch::ZeroRemaining));
    }
    let row: usize = position_index(change, position)?;
    let size: u64 = magnitude(change.diffs[row]);
    if position.remaining > size {
        return Err(
            mismatch(
                Mismatch::RemainderTooLarge {
                    row_index: position.row_index,
                    remaining: position.remaining,
                    magnitude: size,
                },
            ),
        );
    }
    Ok(())
}

/// Whether a batch may begin at a position: full batches lie before it.
pub open spec fn on_boundary(diffs: Seq<i64>, position: Position) -> bool {
    offset_of(diffs, position) % (MAX_MUTATIONS_PER_BATCH as int) == 0
}

/// Whether a position is one at which a full batch can have ended.
pub fn validate_batch_boundary(change: &Change, position: Position) -> (result: Result<
    (),
    StepError,
>)
    requires
        change.wf(),
        stands_in(change.diffs@, position),
    ensures
        match result {
            Ok(_) => on_boundary(change.diffs@, position),
            Err(error) => {
                &&& !on_boundary(change.diffs@, position)
                &&& error == StepError::InputMismatch(Mismatch::BatchBoundary)
            },
        },
{
    let ghost diffs = change.diffs@;
    let row: usize = position_index(change, position)?;
    let size: u64 = MAX_MUTATIONS_PER_BATCH as u64;
    let mut modulo: u64 = 0;
    let mut index: usize = 0;
    while index < row
        invariant
            change.wf(),
            diffs == change.diffs@,
            index <= row < diffs.len(),
            size == 1024,
            modulo < size,
            modulo == events(diffs, index as int) % 1024,
        decreases row - index,
    {
        let amount: u64 = magnitude(change.diffs[index]);
        proof {
            lemma_row_events(diffs, index as int);
            lemma_add_mod_noop(events(diffs, index as int) as int, amount as int, 1024);
        }
        modulo = (modulo + amount % size) % size;
        index += 1;
    }
    let whole: u64 = magnitude(change.diffs[row]);
    proof {
        lemma_row_events(diffs, row as int);
        lemma_add_mod_noop(
            events(diffs, row as int) as int,
            whole - position.remaining,
            1024,
        );
    }
    modulo = (modulo + (whole - position.remaining) % size) % size;
    if modulo == 0 {
        Ok(())
    } else {
        Err(mismatch(Mismatch::BatchBoundary))
    }
}

/// Moves a position forward by `consumed` events of its row.
pub fn advance_position(change: &Change, position: Position, consumed: u64) -> (result: Result<
    Continuation,
    StepError,
>)
    requires
        change.wf(),
        stands_in(change.diffs@, position),
    ensures
        match result {
            Ok(continuation) => {
                &&& 0 < consumed <= position.remaining
                &&& lies_at(
                    change.diffs@,
                    continuation,
                    offset_of(change.diffs@, position) + consumed,
                )
            },
            Err(error) => {
                &&& consumed == 0 || consumed > position.remaining
                &&& error == StepError::InputMismatch(Mismatch::Consumed)
            },
        },
{
    if consumed == 0 || consumed > position.remaining {
        return Err(mismatch(Mismatch::Consumed));
    }
    if consumed < position.remaining {
        return Ok(
            Continuation::Position(
                Position {
                    row_index: position.row_index,
                    remaining: position.remaining - consumed,
                },
            ),
        );
    }
    let rows: usize = change.diffs.len();
    let next: usize = position.row_index as usize + 1;
    if next == rows {
        return Ok(Continuation::Done);
    }
    proof {
        assert(change.diffs@[next as int] != 0);
        lemma_row_events(change.diffs@, next as int);
    }
    Ok(
        Continuation::Position(
            Position { row_index: next as u64, remaining: magnitude(change.diffs[next]) },
        ),
    )
}

/// How many of the first `count` mutations insert.
pub open spec fn inserts_among(mutations: Seq<Mutation>, count: int) -> nat
    decreases count,
{
    if count <= 0 {
        0
    } else if mutations[count - 1].kind is Insert {
        inserts_among(mutations, count - 1) + 1
    } else {
        inserts_among(mutations, count - 1)
    }
}

/// The last ID that the first `count` mutations insert.
pub open spec fn last_insert(mutations: Seq<Mutation>, count: int) -> Option<u64>
    decreases count,
{
    if count <= 0 {
        None
    } else if mutations[count - 1].kind is Insert {
        Some(mutations[count - 1].technical_id)
    } else {
        last_insert(mutations, count - 1)
    }
}

/// A batch's own insertions begin at this ID.
pub open spec fn reserved_start(mutations: Seq<Mutation>, next_id: u64) -> int {
    next_id - inserts_among(mutations, mutations.len() as int)
}

/// A mutation belongs to the event that it stands for.
pub open spec fn stands_for(
    diffs: Seq<i64>,
    mutations: Seq<Mutation>,
    start: int,
    next_id: u64,
    index: int,
) -> bool {
    let mutation = mutations[index];
    &&& row_holds(diffs, mutation.row_index as int, start + index)
    &&& mutation.kind is Insert <==> diffs[mutation.row_index as int] > 0
    &&& mutation.technical_id < next_id
    &&& mutation.kind is Delete ==> !deletes_too_early(mutations, next_id, index)
}

/// A deletion names an ID that the batch itself inserts, but only later.
pub open spec fn deletes_too_early(mutations: Seq<Mutation>, next_id: u64, index: int) -> bool {
    let id = mutations[index].technical_id;
    &&& inserts_among(mutations, mutations.len() as int) > 0
    &&& id >= reserved_start(mutations, next_id)
    &&& match last_insert(mutations, index) {
        None => true,
        Some(last) => id > last,
    }
}

/// A batch is the one that steps through the change from `start_position` to `continuation`.
pub open spec fn steps_through(
    diffs: Seq<i64>,
    next_id: u64,
    start_position: Position,
    continuation: Continuation,
    mutations: Seq<Mutation>,
) -> bool {
    let start = offset_of(diffs, start_position);
    let count = mutations.len() as int;
    &&& stands_in(diffs, start_position)
    &&& on_boundary(diffs, start_position)
    &&& inserts_among(mutations, count) > 0 ==> reserved_start(mutations, next_id)
        >= FIRST_TECHNICAL_ID
    &&& forall|i: int|
        0 <= i < count ==> #[trigger] stands_for(diffs, mutations, start, next_id, i)
    &&& lies_at(diffs, continuation, start + count)
    &&& last_insert(mutations, count) matches Some(last) ==> last + 1 == next_id
}

/// Why the mutation at `index` does not stand for its event, if it does not.
pub open spec fn mutation_mismatch(
    diffs: Seq<i64>,
    next_id: u64,
    start: int,
    mutations: Seq<Mutation>,
    index: int,
) -> Option<Mismatch> {
    let mutation = mutations[index];
    if start + index >= events(diffs, diffs.len() as int) {
        Some(Mismatch::AfterEnd)
    } else if !row_holds(diffs, mutation.row_index as int, start + index) {
        Some(Mismatch::Row)
    } else if (mutation.kind is Insert) != (diffs[mutation.row_index as int] > 0) {
        Some(Mismatch::Kind)
    } else if mutation.technical_id >= next_id {
        Some(Mismatch::IdFrontier)
    } else if mutation.kind is Delete && deletes_too_early(mutations, next_id, index) {
        Some(Mismatch::DeleteBeforeInsert)
    } else {
        None
    }
}

/// The first reason among the first `count` mutations.
pub open spec fn mutations_mismatch(
    diffs: Seq<i64>,
    next_id: u64,
    start: int,
    mutations: Seq<Mutation>,
    count: int,
) -> Option<Mismatch>
    decreases count,
{
    if count <= 0 {
        None
    } else {
        match mutations_mismatch(diffs, next_id, start, mutations, count - 1) {
            Some(reason) => Some(reason),
            None => mutation_mismatch(diffs, next_id, start, mutations, count - 1),
        }
    }
}

/// Why a batch does not step through the change, if it does not.
pub open spec fn apply_mismatch(
    diffs: Seq<i64>,
    next_id: u64,
    start_position: Position,
    continuation: Continuation,
    mutations: Seq<Mutation>,
) -> Option<Mismatch> {
    let start = offset_of(diffs, start_position);
    let count = mutations.len() as int;
    if !stands_in(diffs, start_position) {
        position_mismatch(diffs, start_position)
    } else if !on_boundary(diffs, start_position) {
        Some(Mismatch::BatchBoundary)
    } else if inserts_among(mutations, count) > 0 && reserved_start(mutations, next_id)
        < FIRST_TECHNICAL_ID {
        Some(Mismatch::InsertCount)
    } else if mutations_mismatch(diffs, next_id, start, mutations, count) is Some {
        mutations_mismatch(diffs, next_id, start, mutations, count)
    } else if !lies_at(diffs, continuation, start + count) {
        Some(Mismatch::Continuation)
    } else if last_insert(mutations, count) is Some && last_insert(mutations, count)->0 + 1
        != next_id {
        Some(Mismatch::InsertRange)
    } else {
        None
    }
}

proof fn lemma_mismatch_stays(
    diffs: Seq<i64>,
    next_id: u64,
    start: int,
    mutations: Seq<Mutation>,
    low: int,
    high: int,
)
    requires
        low <= high,
        mutations_mismatch(diffs, next_id, start, mutations, low) is Some,
    ensures
        mutations_mismatch(diffs, next_id, start, mutations, high) == mutations_mismatch(
            diffs,
            next_id,
            start,
            mutations,
            low,
        ),
    decreases high - low,
{
    if low < high {
        lemma_mismatch_stays(diffs, next_id, start, mutations, low, high - 1);
    }
}

/// Where no mutation is refused, each stands for its event, and the other way round.
proof fn lemma_mutations_stand(
    diffs: Seq<i64>,
    next_id: u64,
    start: int,
    mutations: Seq<Mutation>,
    count: int,
)
    requires
        0 <= count <= mutations.len(),
    ensures
        mutations_mismatch(diffs, next_id, start, mutations, count) is None <==> forall|i: int|
            0 <= i < count ==> #[trigger] stands_for(diffs, mutations, start, next_id, i),
    decreases count,
{
    if count > 0 {
        lemma_mutations_stand(diffs, next_id, start, mutations, count - 1);
        let index = count - 1;
        let row = mutations[index].row_index as int;
        if row_holds(diffs, row, start + index) {
            lemma_events_grow(diffs, row + 1, diffs.len() as int);
        }
        assert(mutation_mismatch(diffs, next_id, start, mutations, index) is None <==> stands_for(
            diffs,
            mutations,
            start,
            next_id,
            index,
        ));
    }
}

/// A batch steps through the change exactly where there is no reason against it.
pub proof fn lemma_steps_through(
    diffs: Seq<i64>,
    next_id: u64,
    start_position: Position,
    continuation: Continuation,
    mutations: Seq<Mutation>,
)
    ensures
        steps_through(diffs, next_id, start_position, continuation, mutations) <==> apply_mismatch(
            diffs,
            next_id,
            start_position,
            continuation,
            mutations,
        ) is None,
{
    lemma_mutations_stand(
        diffs,
        next_id,
        offset_of(diffs, start_position),
        mutations,
        mutations.len() as int,
    );
}

fn count_inserts(mutations: &Vec<Mutation>) -> (count: u64)
    ensures
        count == inserts_among(mutations@, mutations@.len() as int),
{
    let mut count: u64 = 0;
    let mut index: usize = 0;
    while index < mutations.len()
        invariant
            index <= mutations@.len(),
            count == inserts_among(mutations@, index as int),
            count <= index,
        decreases mutations@.len() - index,
    {
        if mutations[index].kind == MutationKind::Insert {
            count += 1;
        }
        index += 1;
    }
    count
}

/// Validates a stored batch against the change that it steps through.
pub fn validate_apply_for_change(
    change: &Change,
    next_id: u64,
    start_position: Position,
    continuation: Continuation,
    mutations: &Vec<Mutation>,
) -> (result: Result<(), StepError>)
    requires
        change.wf(),
    ensures
        result == (match apply_mismatch(
            change.diffs@,
            next_id,
            start_position,
            continuation,
            mutations@,
        ) {
            None => Ok::<(), StepError>(()),
            Some(reason) => Err(StepError::InputMismatch(reason)),
        }),
        result is Ok <==> steps_through(
            change.diffs@,
            next_id,
            start_position,
            continuation,
            mutations@,
        ),
{
    let ghost diffs = change.diffs@;
    let ghost start = offset_of(diffs, start_position);
    let ghost total = mutations@.len() as int;
    proof {
        lemma_steps_through(diffs, next_id, start_position, continuation, mutations@);
    }
    validate_position_for_change(change, start_position)?;
    validate_batch_boundary(change, start_position)?;
    let insert_count: u64 = count_inserts(mutations);
    let reserved: Option<u64> = if insert_count == 0 {
        None
    } else if insert_count >= next_id {
        return Err(mismatch(Mismatch::InsertCount));
    } else {
        Some(next_id - insert_count)
    };
    let mut actual: Continuation = Continuation::Position(start_position);
    let mut last: Option<u64> = None;
    let mut index: usize = 0;
    while index < mutations.len()
        invariant
            change.wf(),
            diffs == change.diffs@,
            start == offset_of(diffs, start_position),
            total == mutations@.len(),
            stands_in(diffs, start_position),
            on_boundary(diffs, start_position),
            insert_count == inserts_among(mutations@, total),
            reserved is Some <==> insert_count > 0,
            reserved is Some ==> reserved->0 == reserved_start(mutations@, next_id)
                && reserved->0 >= FIRST_TECHNICAL_ID,
            steps_through(diffs, next_id, start_position, continuation, mutations@)
                <==> apply_mismatch(diffs, next_id, start_position, continuation, mutations@) is None,
            index <= mutations@.len(),
            lies_at(diffs, actual, start + index),
            last == last_insert(mutations@, index as int),
            mutations_mismatch(diffs, next_id, start, mutations@, index as int) is None,
        decreases mutations@.len() - index,
    {
        let position: Position = match actual {
            Continuation::Position(position) => position,
            Continuation::Done => {
                proof {
                    lemma_mismatch_stays(diffs, next_id, start, mutations@, index + 1, total);
                }
                return Err(mismatch(Mismatch::AfterEnd));
            },
        };
        let mutation: Mutation = mutations[index];
        let row: usize = position_index(change, position)?;
        proof {
            lemma_row_events(diffs, row as int);
            lemma_only_row(diffs, row as int, mutation.row_index as int, start + index);
            lemma_events_grow(diffs, row + 1, diffs.len() as int);
            if mutation_mismatch(diffs, next_id, start, mutations@, index as int) is Some {
                lemma_mismatch_stays(diffs, next_id, start, mutations@, index + 1, total);
            }
        }
        if mutation.row_index != position.row_index {
            return Err(mismatch(Mismatch::Row));
        }
        let inserts: bool = change.diffs[row] > 0;
        if (mutation.kind == MutationKind::Insert) != inserts {
            return Err(mismatch(Mismatch::Kind));
        }
        if mutation.technical_id >= next_id {
            return Err(mismatch(Mismatch::IdFrontier));
        }
        match mutation.kind {
            MutationKind::Insert => {
                last = Some(mutation.technical_id);
            },
            MutationKind::Delete => {
                let own: bool = match reserved {
                    Some(first) => mutation.technical_id >= first,
                    None => false,
                };
                let later: bool = match last {
                    Some(previous) => mutation.technical_id > previous,
                    None => true,
                };
                if own && later {
                    assert(deletes_too_early(mutations@, next_id, index as int));
                    return Err(mismatch(Mismatch::DeleteBeforeInsert));
                }
            },
        }
        actual = advance_position(change, position, 1)?;
        index += 1;
    }
    if actual != continuation {
        proof {
            if lies_at(diffs, continuation, start + mutations@.len()) {
                lemma_place_is_unique(diffs, actual, continuation, start + mutations@.len());
            }
        }
        return Err(mismatch(Mismatch::Continuation));
    }
    if let Some(last_id) = last {
        if last_id == u64::MAX || last_id + 1 != next_id {
            return Err(mismatch(Mismatch::InsertRange));
        }
    }
    Ok(())
}

/// An event belongs to one row only.
pub proof fn lemma_only_row(diffs: Seq<i64>, row: int, other: int, offset: int)
    requires
        row_holds(diffs, row, offset),
    ensures
        row_holds(diffs, other, offset) <==> other == row,
{
    if row_holds(diffs, other, offset) {
        if other < row {
            lemma_events_grow(diffs, other + 1, row);
        } else if other > row {
            lemma_events_grow(diffs, row + 1, other);
        }
    }
}

/// What a disagreement is called.
pub open spec fn mismatch_text(value: Mismatch) -> Seq<char> {
    match value {
        Mismatch::RowOutside { row_index, rows } => {
            "row index "@ + decimal(row_index as nat) + " is outside a "@ + decimal(rows as nat)
                + "-row Change"@
        },
        Mismatch::ZeroRemaining => "position has zero remaining multiplicity"@,
        Mismatch::RemainderTooLarge { row_index, remaining, magnitude } => {
            "position remainder "@ + decimal(remaining as nat) + " exceeds row "@
                + decimal(row_index as nat) + " magnitude "@ + decimal(magnitude as nat)
        },
        Mismatch::BatchBoundary => {
            "position is not aligned to a stable 1024-mutation batch boundary"@
        },
        Mismatch::Consumed => "batch consumed an invalid multiplicity"@,
        Mismatch::InsertCount => "prepared insert count exceeds the durable ID frontier"@,
        Mismatch::AfterEnd => "mutations continue after the Change ends"@,
        Mismatch::Row => "mutation row does not match the flattened position"@,
        Mismatch::Kind => "mutation kind disagrees with the row difference"@,
        Mismatch::IdFrontier => "prepared mutation ID is not below the durable next-ID frontier"@,
        Mismatch::DeleteBeforeInsert => {
            "a mutation deletes a newly allocated ID before inserting it"@
        },
        Mismatch::Continuation => {
            "stored continuation differs from the flattened mutation sequence"@
        },
        Mismatch::InsertRange => {
            "prepared insert range does not end at the durable next-ID frontier"@
        },
    }
}

impl Mismatch {
    /// What a disagreement is called.
    pub fn message(&self) -> (text: String)
        ensures
            text@ == mismatch_text(*self),
    {
        match self {
            Mismatch::RowOutside { row_index, rows } => {
                let mut text: String = "row index ".to_owned();
                push_decimal(&mut text, *row_index as u64);
                text.append(" is outside a ");
                push_decimal(&mut text, *rows as u64);
                text.append("-row Change");
                text
            },
            Mismatch::ZeroRemaining => "position has zero remaining multiplicity".to_owned(),
            Mismatch::RemainderTooLarge { row_index, remaining, magnitude } => {
                let mut text: String = "position remainder ".to_owned();
                push_decimal(&mut text, *remaining as u64);
                text.append(" exceeds row ");
                push_decimal(&mut text, *row_index as u64);
                text.append(" magnitude ");
                push_decimal(&mut text, *magnitude as u64);
                text
            },
            Mismatch::BatchBoundary => {
                "position is not aligned to a stable 1024-mutation batch boundary".to_owned()
            },
            Mismatch::Consumed => "batch consumed an invalid multiplicity".to_owned(),
            Mismatch::InsertCount => {
                "prepared insert count exceeds the durable ID frontier".to_owned()
            },
            Mismatch::AfterEnd => "mutations continue after the Change ends".to_owned(),
            Mismatch::Row => "mutation row does not match the flattened position".to_owned(),
            Mismatch::Kind => "mutation kind disagrees with the row difference".to_owned(),
            Mismatch::IdFrontier => {
                "prepared mutation ID is not below the durable next-ID frontier".to_owned()
            },
            Mismatch::DeleteBeforeInsert => {
                "a mutation deletes a newly allocated ID before inserting it".to_owned()
            },
            Mismatch::Continuation => {
                "stored continuation differs from the flattened mutation sequence".to_owned()
            },
            Mismatch::InsertRange => {
                "prepared insert range does not end at the durable next-ID frontier".to_owned()
            },
        }
    }
}

} // verus!
