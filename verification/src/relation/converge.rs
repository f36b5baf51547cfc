//! Writing final mutations to a table that keeps deleted rows as marks.

use vstd::prelude::*;

verus! {

/// What a table holds under the ID of a mutation, compared with the mutation.
#[derive(Clone, Copy, Debug, PartialEq, Eq, Structural)]
pub struct Held {
    pub same_row: bool,
    pub deleted: bool,
}

/// What a mutation leads to.
#[derive(Clone, Copy, Debug, PartialEq, Eq, Structural)]
pub enum Decision {
    /// The table holds what the mutation would write, or never held what it deletes.
    Keep,
    Write,
    /// The ID belongs to another row.
    Rebound,
    /// The row was deleted.
    Resurrected,
}

/// What a mutation leads to, given what the table holds under its ID.
pub open spec fn decision(held: Option<Held>, deleted: bool) -> Decision {
    match held {
        Some(held) => if !held.same_row {
            Decision::Rebound
        } else if held.deleted && !deleted {
            Decision::Resurrected
        } else if held.deleted != deleted {
            Decision::Write
        } else {
            Decision::Keep
        },
        None => if deleted {
            Decision::Keep
        } else {
            Decision::Write
        },
    }
}

pub fn decide(held: Option<Held>, deleted: bool) -> (result: Decision)
    ensures
        result == decision(held, deleted),
{
    match held {
        Some(held) => if !held.same_row {
            Decision::Rebound
        } else if held.deleted && !deleted {
            Decision::Resurrected
        } else if held.deleted != deleted {
            Decision::Write
        } else {
            Decision::Keep
        },
        None => if deleted {
            Decision::Keep
        } else {
            Decision::Write
        },
    }
}

/// A row under its ID, or the mark that it was deleted.
pub ghost struct Mark<R> {
    pub id: u64,
    pub row: R,
    pub deleted: bool,
}

/// What a table holds under the ID of a mutation.
pub open spec fn held_in<R>(table: Map<u64, (R, bool)>, mark: Mark<R>) -> Option<Held> {
    if table.contains_key(mark.id) {
        Some(Held { same_row: table[mark.id].0 == mark.row, deleted: table[mark.id].1 })
    } else {
        None
    }
}

/// The table after the first `count` mutations.
pub open spec fn written<R>(
    table: Map<u64, (R, bool)>,
    marks: Seq<Mark<R>>,
    count: int,
) -> Map<u64, (R, bool)>
    decreases count,
{
    if count <= 0 {
        table
    } else {
        let before = written(table, marks, count - 1);
        let mark = marks[count - 1];
        if decision(held_in(table, mark), mark.deleted) == Decision::Write {
            before.insert(mark.id, (mark.row, mark.deleted))
        } else {
            before
        }
    }
}

/// Each ID occurs once.
pub open spec fn one_each<R>(marks: Seq<Mark<R>>) -> bool {
    forall|i: int, j: int|
        0 <= i < j < marks.len() ==> (#[trigger] marks[i]).id != (#[trigger] marks[j]).id
}

/// None of the mutations is refused.
pub open spec fn accepted<R>(table: Map<u64, (R, bool)>, marks: Seq<Mark<R>>) -> bool {
    forall|i: int|
        0 <= i < marks.len() ==> {
            let outcome = decision(held_in(table, #[trigger] marks[i]), marks[i].deleted);
            outcome == Decision::Keep || outcome == Decision::Write
        }
}

/// An ID that the first mutations do not name keeps what it had.
proof fn lemma_written_leaves<R>(
    table: Map<u64, (R, bool)>,
    marks: Seq<Mark<R>>,
    count: int,
    id: u64,
)
    requires
        0 <= count <= marks.len(),
        forall|i: int| 0 <= i < count ==> (#[trigger] marks[i]).id != id,
    ensures
        written(table, marks, count).contains_key(id) == table.contains_key(id),
        table.contains_key(id) ==> written(table, marks, count)[id] == table[id],
    decreases count,
{
    if count > 0 {
        lemma_written_leaves(table, marks, count - 1, id);
    }
}

/// What an ID holds after the mutations depends on its own mutation alone.
proof fn lemma_written_at<R>(
    table: Map<u64, (R, bool)>,
    marks: Seq<Mark<R>>,
    count: int,
    place: int,
)
    requires
        0 <= place < count <= marks.len(),
        one_each(marks),
    ensures
        ({
            let mark = marks[place];
            let after = written(table, marks, count);
            if decision(held_in(table, mark), mark.deleted) == Decision::Write {
                after.contains_key(mark.id) && after[mark.id] == (mark.row, mark.deleted)
            } else {
                &&& after.contains_key(mark.id) == table.contains_key(mark.id)
                &&& table.contains_key(mark.id) ==> after[mark.id] == table[mark.id]
            }
        }),
    decreases count,
{
    if place == count - 1 {
        assert forall|i: int| 0 <= i < place implies (#[trigger] marks[i]).id
            != marks[place].id by {}
        lemma_written_leaves(table, marks, place, marks[place].id);
    } else {
        lemma_written_at(table, marks, count - 1, place);
        assert(marks[place].id != marks[count - 1].id);
    }
}

/// A batch that was written once is accepted again, and the second time nothing is left to
/// write.
pub proof fn law_replay_converges<R>(table: Map<u64, (R, bool)>, marks: Seq<Mark<R>>)
    requires
        one_each(marks),
        accepted(table, marks),
    ensures
        ({
            let after = written(table, marks, marks.len() as int);
            &&& forall|i: int|
                0 <= i < marks.len() ==> decision(
                    held_in(after, #[trigger] marks[i]),
                    marks[i].deleted,
                ) == Decision::Keep
            &&& written(after, marks, marks.len() as int) == after
        }),
{
    let after = written(table, marks, marks.len() as int);
    assert forall|i: int| 0 <= i < marks.len() implies decision(
        held_in(after, #[trigger] marks[i]),
        marks[i].deleted,
    ) == Decision::Keep by {
        lemma_written_at(table, marks, marks.len() as int, i);
    }
    lemma_nothing_written(after, marks, marks.len() as int);
}

proof fn lemma_nothing_written<R>(table: Map<u64, (R, bool)>, marks: Seq<Mark<R>>, count: int)
    requires
        0 <= count <= marks.len(),
        forall|i: int|
            0 <= i < marks.len() ==> decision(held_in(table, #[trigger] marks[i]), marks[i].deleted)
                == Decision::Keep,
    ensures
        written(table, marks, count) == table,
    decreases count,
{
    if count > 0 {
        lemma_nothing_written(table, marks, count - 1);
        assert(decision(held_in(table, marks[count - 1]), marks[count - 1].deleted)
            == Decision::Keep);
    }
}

/// A row that was deleted does not come back: whatever is accepted leaves it deleted.
pub proof fn law_deleted_stays_deleted<R>(
    table: Map<u64, (R, bool)>,
    marks: Seq<Mark<R>>,
    count: int,
    id: u64,
)
    requires
        0 <= count <= marks.len(),
        one_each(marks),
        accepted(table, marks),
        table.contains_key(id),
        table[id].1,
    ensures
        written(table, marks, count).contains_key(id),
        written(table, marks, count)[id] == table[id],
    decreases count,
{
    if count > 0 {
        law_deleted_stays_deleted(table, marks, count - 1, id);
        let mark = marks[count - 1];
        if mark.id == id {
            let outcome = decision(held_in(table, mark), mark.deleted);
            assert(outcome == Decision::Keep || outcome == Decision::Write);
        }
    }
}

} // verus!
