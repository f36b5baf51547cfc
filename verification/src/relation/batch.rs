//! Batches of fixed-ID mutations and the orders in which targets apply them.

use vstd::prelude::*;

verus! {

pub const MAX_MUTATIONS_PER_BATCH: usize = 1024;

pub const FIRST_TECHNICAL_ID: u64 = 1;

pub const MAX_TECHNICAL_ID: u64 = 0x7fff_ffff_ffff_ffff;

pub const EXHAUSTED_ID: u64 = 0x8000_0000_0000_0000;

/// A row that enters the target under a new technical ID.
#[derive(Clone, Copy, Debug, PartialEq, Eq, Structural)]
pub struct Insert {
    pub row_index: u64,
    pub technical_id: u64,
}

/// A row that leaves the target, by its technical ID.
#[derive(Clone, Copy, Debug, PartialEq, Eq, Structural)]
pub struct Delete {
    pub row_index: u64,
    pub technical_id: u64,
}

/// Immutable work: insert these IDs, then delete these IDs, atomically.
#[derive(Debug, PartialEq, Eq)]
pub struct Batch {
    pub inserts: Vec<Insert>,
    pub deletes: Vec<Delete>,
}

/// The mutations of one input row.
#[derive(Debug, PartialEq, Eq)]
pub struct MutationGroup {
    pub row_index: u64,
    pub insert_ids: Vec<u64>,
    pub mutation_ids: Vec<u64>,
}

/// The mutations of a batch by input row, and the IDs it deletes.
#[derive(Debug, PartialEq, Eq)]
pub struct MutationGroups {
    pub rows: Vec<MutationGroup>,
    pub delete_ids: Vec<u64>,
}

/// What a batch leaves behind under one technical ID.
#[derive(Clone, Copy, Debug, PartialEq, Eq, Structural)]
pub struct TerminalMutation {
    pub row_index: u64,
    pub technical_id: u64,
    pub deleted: bool,
}

/// The row and the ID of each insertion.
pub open spec fn insert_pairs(inserts: Seq<Insert>) -> Seq<(u64, u64)> {
    inserts.map_values(|insert: Insert| (insert.row_index, insert.technical_id))
}

/// The row and the ID of each deletion.
pub open spec fn delete_pairs(deletes: Seq<Delete>) -> Seq<(u64, u64)> {
    deletes.map_values(|delete: Delete| (delete.row_index, delete.technical_id))
}

/// The IDs that occur beside `row`, in order.
pub open spec fn ids_at(pairs: Seq<(u64, u64)>, row: u64) -> Seq<u64>
    decreases pairs.len(),
{
    if pairs.len() == 0 {
        Seq::empty()
    } else if pairs.last().0 == row {
        ids_at(pairs.drop_last(), row).push(pairs.last().1)
    } else {
        ids_at(pairs.drop_last(), row)
    }
}

/// The row beside the last occurrence of `id`.
pub open spec fn last_row(pairs: Seq<(u64, u64)>, id: u64) -> Option<u64>
    decreases pairs.len(),
{
    if pairs.len() == 0 {
        None
    } else if pairs.last().1 == id {
        Some(pairs.last().0)
    } else {
        last_row(pairs.drop_last(), id)
    }
}

/// Whether a group stands for `row`.
pub open spec fn has_group(groups: Seq<MutationGroup>, row: u64) -> bool {
    exists|a: int| 0 <= a < groups.len() && (#[trigger] groups[a]).row_index == row
}

/// Whether a group holds the IDs of its row in order, at least one of them.
pub open spec fn group_fits(
    group: MutationGroup,
    inserts: Seq<(u64, u64)>,
    deletes: Seq<(u64, u64)>,
) -> bool {
    &&& group.insert_ids@ == ids_at(inserts, group.row_index)
    &&& group.mutation_ids@ == ids_at(inserts, group.row_index) + ids_at(deletes, group.row_index)
    &&& group.mutation_ids@.len() > 0
}

/// Whether the groups ascend by row.
pub open spec fn ascending(groups: Seq<MutationGroup>) -> bool {
    forall|a: int, b: int|
        0 <= a < b < groups.len() ==> (#[trigger] groups[a]).row_index < (
        #[trigger] groups[b]).row_index
}

/// The groups are those of the rows that occur, ascending, with their IDs in order.
pub open spec fn grouped(
    groups: Seq<MutationGroup>,
    inserts: Seq<(u64, u64)>,
    deletes: Seq<(u64, u64)>,
) -> bool {
    &&& ascending(groups)
    &&& forall|a: int|
        0 <= a < groups.len() ==> group_fits(#[trigger] groups[a], inserts, deletes)
    &&& forall|row: u64| (#[trigger] ids_at(inserts, row)).len() > 0 ==> has_group(groups, row)
    &&& forall|row: u64| (#[trigger] ids_at(deletes, row)).len() > 0 ==> has_group(groups, row)
}

/// A group that takes the place of the one of its row leaves the other rows as they are.
proof fn lemma_replace_group(
    groups: Seq<MutationGroup>,
    place: int,
    group: MutationGroup,
    before: (Seq<(u64, u64)>, Seq<(u64, u64)>),
    after: (Seq<(u64, u64)>, Seq<(u64, u64)>),
)
    requires
        grouped(groups, before.0, before.1),
        0 <= place < groups.len(),
        groups[place].row_index == group.row_index,
        group_fits(group, after.0, after.1),
        forall|row: u64|
            row != group.row_index ==> #[trigger] ids_at(after.0, row) == ids_at(before.0, row),
        forall|row: u64|
            row != group.row_index ==> #[trigger] ids_at(after.1, row) == ids_at(before.1, row),
    ensures
        grouped(groups.update(place, group), after.0, after.1),
{
    let updated = groups.update(place, group);
    assert(has_group(updated, group.row_index)) by {
        assert(updated[place].row_index == group.row_index);
    }
    assert forall|row: u64| has_group(groups, row) implies has_group(updated, row) by {
        let a = choose|a: int| 0 <= a < groups.len() && (#[trigger] groups[a]).row_index == row;
        assert(updated[a].row_index == row);
    }
    assert forall|a: int| 0 <= a < updated.len() implies group_fits(
        #[trigger] updated[a],
        after.0,
        after.1,
    ) by {
        if a != place {
            assert(group_fits(groups[a], before.0, before.1));
            assert(groups[a].row_index != groups[place].row_index);
        }
    }
    assert(ascending(updated)) by {
        assert forall|a: int, b: int| 0 <= a < b < updated.len() implies (
        #[trigger] updated[a]).row_index < (#[trigger] updated[b]).row_index by {
            assert(groups[a].row_index < groups[b].row_index);
        }
    }
}

/// A group for a row that had none leaves the other rows as they are.
proof fn lemma_new_group(
    groups: Seq<MutationGroup>,
    place: int,
    group: MutationGroup,
    before: (Seq<(u64, u64)>, Seq<(u64, u64)>),
    after: (Seq<(u64, u64)>, Seq<(u64, u64)>),
)
    requires
        grouped(groups, before.0, before.1),
        0 <= place <= groups.len(),
        forall|a: int| 0 <= a < place ==> (#[trigger] groups[a]).row_index < group.row_index,
        forall|a: int|
            place <= a < groups.len() ==> (#[trigger] groups[a]).row_index > group.row_index,
        group_fits(group, after.0, after.1),
        forall|row: u64|
            row != group.row_index ==> #[trigger] ids_at(after.0, row) == ids_at(before.0, row),
        forall|row: u64|
            row != group.row_index ==> #[trigger] ids_at(after.1, row) == ids_at(before.1, row),
    ensures
        grouped(groups.insert(place, group), after.0, after.1),
{
    let grown = groups.insert(place, group);
    assert(has_group(grown, group.row_index)) by {
        assert(grown[place].row_index == group.row_index);
    }
    assert forall|row: u64| has_group(groups, row) implies has_group(grown, row) by {
        let a = choose|a: int| 0 <= a < groups.len() && (#[trigger] groups[a]).row_index == row;
        if a < place {
            assert(grown[a].row_index == row);
        } else {
            assert(grown[a + 1].row_index == row);
        }
    }
    assert forall|a: int| 0 <= a < grown.len() implies group_fits(
        #[trigger] grown[a],
        after.0,
        after.1,
    ) by {
        if a < place {
            assert(group_fits(groups[a], before.0, before.1));
        } else if a > place {
            assert(group_fits(groups[a - 1], before.0, before.1));
        }
    }
    assert(ascending(grown)) by {
        assert forall|a: int, b: int| 0 <= a < b < grown.len() implies (
        #[trigger] grown[a]).row_index < (#[trigger] grown[b]).row_index by {
            let from = if a < place {
                a
            } else {
                a - 1
            };
            let to = if b < place {
                b
            } else {
                b - 1
            };
            if a != place && b != place {
                assert(groups[from].row_index < groups[to].row_index);
            } else if a == place {
                assert(groups[to].row_index > group.row_index);
            } else {
                assert(groups[from].row_index < group.row_index);
            }
        }
    }
}

/// Where the group of `row` stands, or where it would have to stand.
fn group_place(groups: &Vec<MutationGroup>, row: u64) -> (place: usize)
    requires
        ascending(groups@),
    ensures
        place <= groups@.len(),
        forall|a: int| 0 <= a < place ==> (#[trigger] groups@[a]).row_index < row,
        forall|a: int| place <= a < groups@.len() ==> (#[trigger] groups@[a]).row_index >= row,
{
    let mut place: usize = 0;
    while place < groups.len() && groups[place].row_index < row
        invariant
            place <= groups@.len(),
            forall|a: int| 0 <= a < place ==> (#[trigger] groups@[a]).row_index < row,
        decreases groups@.len() - place,
    {
        place += 1;
    }
    place
}

/// Adds one mutation to the group of its row.
fn add_mutation(
    groups: &mut Vec<MutationGroup>,
    row: u64,
    id: u64,
    insert: bool,
    Ghost(inserts): Ghost<Seq<(u64, u64)>>,
    Ghost(deletes): Ghost<Seq<(u64, u64)>>,
)
    requires
        grouped(old(groups)@, inserts, deletes),
        insert ==> deletes.len() == 0,
    ensures
        insert ==> grouped(final(groups)@, inserts.push((row, id)), deletes),
        !insert ==> grouped(final(groups)@, inserts, deletes.push((row, id))),
{
    let ghost before = groups@;
    let ghost after = if insert {
        (inserts.push((row, id)), deletes)
    } else {
        (inserts, deletes.push((row, id)))
    };
    proof {
        assert(inserts.push((row, id)).drop_last() =~= inserts);
        assert(deletes.push((row, id)).drop_last() =~= deletes);
        if insert {
            assert(ids_at(deletes, row) =~= Seq::empty());
        }
    }
    let place: usize = group_place(groups, row);
    if place < groups.len() && groups[place].row_index == row {
        let mut group: MutationGroup = groups.remove(place);
        if insert {
            group.insert_ids.push(id);
        }
        group.mutation_ids.push(id);
        proof {
            assert(group_fits(before[place as int], inserts, deletes));
            assert(group.mutation_ids@ =~= ids_at(after.0, row) + ids_at(after.1, row));
            lemma_replace_group(before, place as int, group, (inserts, deletes), after);
            assert(before.remove(place as int).insert(place as int, group) =~= before.update(
                place as int,
                group,
            ));
        }
        groups.insert(place, group);
    } else {
        let mut insert_ids: Vec<u64> = Vec::new();
        if insert {
            insert_ids.push(id);
        }
        let mut mutation_ids: Vec<u64> = Vec::new();
        mutation_ids.push(id);
        let group: MutationGroup = MutationGroup { row_index: row, insert_ids, mutation_ids };
        proof {
            assert(!has_group(before, row));
            assert(ids_at(inserts, row) =~= Seq::empty());
            assert(ids_at(deletes, row) =~= Seq::empty());
            assert(group.insert_ids@ =~= ids_at(after.0, row));
            assert(group.mutation_ids@ =~= ids_at(after.0, row) + ids_at(after.1, row));
            lemma_new_group(before, place as int, group, (inserts, deletes), after);
        }
        groups.insert(place, group);
    }
}

/// Groups a batch by logical input row, in ascending order of the rows.
pub fn group_mutations(batch: &Batch) -> (groups: MutationGroups)
    ensures
        grouped(
            groups.rows@,
            insert_pairs(batch.inserts@),
            delete_pairs(batch.deletes@),
        ),
        groups.delete_ids@ == batch.deletes@.map_values(|delete: Delete| delete.technical_id),
{
    let mut rows: Vec<MutationGroup> = Vec::new();
    let ghost inserts = insert_pairs(batch.inserts@);
    let ghost deletes = delete_pairs(batch.deletes@);
    let mut index: usize = 0;
    while index < batch.inserts.len()
        invariant
            inserts == insert_pairs(batch.inserts@),
            index <= batch.inserts@.len(),
            grouped(rows@, inserts.take(index as int), Seq::empty()),
        decreases batch.inserts@.len() - index,
    {
        let insert: Insert = batch.inserts[index];
        add_mutation(
            &mut rows,
            insert.row_index,
            insert.technical_id,
            true,
            Ghost(inserts.take(index as int)),
            Ghost(Seq::empty()),
        );
        assert(inserts.take(index as int).push((insert.row_index, insert.technical_id))
            =~= inserts.take(index + 1));
        index += 1;
    }
    assert(inserts.take(index as int) =~= inserts);
    let mut delete_ids: Vec<u64> = Vec::new();
    let mut next: usize = 0;
    assert(deletes.take(0) =~= Seq::empty());
    while next < batch.deletes.len()
        invariant
            deletes == delete_pairs(batch.deletes@),
            next <= batch.deletes@.len(),
            grouped(rows@, inserts, deletes.take(next as int)),
            delete_ids@.len() == next,
            forall|i: int| 0 <= i < next ==> delete_ids@[i] == batch.deletes@[i].technical_id,
        decreases batch.deletes@.len() - next,
    {
        let delete: Delete = batch.deletes[next];
        add_mutation(
            &mut rows,
            delete.row_index,
            delete.technical_id,
            false,
            Ghost(inserts),
            Ghost(deletes.take(next as int)),
        );
        delete_ids.push(delete.technical_id);
        assert(deletes.take(next as int).push((delete.row_index, delete.technical_id))
            =~= deletes.take(next + 1));
        next += 1;
    }
    assert(deletes.take(next as int) =~= deletes);
    assert(delete_ids@ =~= batch.deletes@.map_values(|delete: Delete| delete.technical_id));
    MutationGroups { rows, delete_ids }
}

/// What a batch leaves under `id`: its last deletion, or else its last insertion.
pub open spec fn terminal(
    inserts: Seq<(u64, u64)>,
    deletes: Seq<(u64, u64)>,
    id: u64,
) -> Option<TerminalMutation> {
    match last_row(deletes, id) {
        Some(row_index) => Some(TerminalMutation { row_index, technical_id: id, deleted: true }),
        None => match last_row(inserts, id) {
            Some(row_index) => Some(
                TerminalMutation { row_index, technical_id: id, deleted: false },
            ),
            None => None,
        },
    }
}

/// The mutations are the final ones, one for each ID that occurs, ascending by ID.
pub open spec fn terminates(
    mutations: Seq<TerminalMutation>,
    inserts: Seq<(u64, u64)>,
    deletes: Seq<(u64, u64)>,
) -> bool {
    &&& forall|a: int, b: int|
        0 <= a < b < mutations.len() ==> (#[trigger] mutations[a]).technical_id < (
        #[trigger] mutations[b]).technical_id
    &&& forall|a: int|
        0 <= a < mutations.len() ==> terminal(
            inserts,
            deletes,
            (#[trigger] mutations[a]).technical_id,
        ) == Some(mutations[a])
    &&& forall|id: u64|
        (#[trigger] terminal(inserts, deletes, id)) is Some ==> exists|a: int|
            0 <= a < mutations.len() && (#[trigger] mutations[a]).technical_id == id
}

/// Sets what is left under one ID.
fn set_terminal(
    mutations: &mut Vec<TerminalMutation>,
    mutation: TerminalMutation,
    Ghost(inserts): Ghost<Seq<(u64, u64)>>,
    Ghost(deletes): Ghost<Seq<(u64, u64)>>,
)
    requires
        terminates(old(mutations)@, inserts, deletes),
        !mutation.deleted ==> deletes.len() == 0,
    ensures
        !mutation.deleted ==> terminates(
            final(mutations)@,
            inserts.push((mutation.row_index, mutation.technical_id)),
            deletes,
        ),
        mutation.deleted ==> terminates(
            final(mutations)@,
            inserts,
            deletes.push((mutation.row_index, mutation.technical_id)),
        ),
{
    let ghost before = mutations@;
    let ghost pair = (mutation.row_index, mutation.technical_id);
    let ghost inserts_after = if mutation.deleted {
        inserts
    } else {
        inserts.push(pair)
    };
    let ghost deletes_after = if mutation.deleted {
        deletes.push(pair)
    } else {
        deletes
    };
    let id: u64 = mutation.technical_id;
    proof {
        assert(inserts.push(pair).drop_last() =~= inserts);
        assert(deletes.push(pair).drop_last() =~= deletes);
        assert(terminal(inserts_after, deletes_after, id) == Some(mutation));
        assert forall|other: u64| other != id implies terminal(
            inserts_after,
            deletes_after,
            other,
        ) == terminal(inserts, deletes, other) by {}
    }
    let mut place: usize = 0;
    while place < mutations.len() && mutations[place].technical_id < id
        invariant
            mutations@ == before,
            id == mutation.technical_id,
            place <= mutations@.len(),
            forall|a: int| 0 <= a < place ==> (#[trigger] mutations@[a]).technical_id < id,
        decreases mutations@.len() - place,
    {
        place += 1;
    }
    if place < mutations.len() && mutations[place].technical_id == id {
        mutations.set(place, mutation);
        proof {
            assert forall|other: u64|
                (#[trigger] terminal(inserts_after, deletes_after, other)) is Some implies exists|
                a: int,
            | 0 <= a < mutations@.len() && (#[trigger] mutations@[a]).technical_id == other by {
                if other == id {
                    assert(mutations@[place as int].technical_id == id);
                } else {
                    let a = choose|a: int|
                        0 <= a < before.len() && (#[trigger] before[a]).technical_id == other;
                    assert(mutations@[a].technical_id == other);
                }
            }
        }
    } else {
        mutations.insert(place, mutation);
        proof {
            assert forall|other: u64|
                (#[trigger] terminal(inserts_after, deletes_after, other)) is Some implies exists|
                a: int,
            | 0 <= a < mutations@.len() && (#[trigger] mutations@[a]).technical_id == other by {
                if other == id {
                    assert(mutations@[place as int].technical_id == id);
                } else {
                    let a = choose|a: int|
                        0 <= a < before.len() && (#[trigger] before[a]).technical_id == other;
                    assert(mutations@[if a < place { a } else { a + 1 }].technical_id == other);
                }
            }
        }
    }
}

/// The final mutation under each technical ID of a batch, in ascending order of the IDs.
pub fn terminal_mutations(batch: &Batch) -> (mutations: Vec<TerminalMutation>)
    ensures
        terminates(
            mutations@,
            insert_pairs(batch.inserts@),
            delete_pairs(batch.deletes@),
        ),
{
    let mut mutations: Vec<TerminalMutation> = Vec::new();
    let ghost inserts = insert_pairs(batch.inserts@);
    let ghost deletes = delete_pairs(batch.deletes@);
    let mut index: usize = 0;
    while index < batch.inserts.len()
        invariant
            inserts == insert_pairs(batch.inserts@),
            index <= batch.inserts@.len(),
            terminates(mutations@, inserts.take(index as int), Seq::empty()),
        decreases batch.inserts@.len() - index,
    {
        let insert: Insert = batch.inserts[index];
        set_terminal(
            &mut mutations,
            TerminalMutation {
                row_index: insert.row_index,
                technical_id: insert.technical_id,
                deleted: false,
            },
            Ghost(inserts.take(index as int)),
            Ghost(Seq::empty()),
        );
        assert(inserts.take(index as int).push((insert.row_index, insert.technical_id))
            =~= inserts.take(index + 1));
        index += 1;
    }
    assert(inserts.take(index as int) =~= inserts);
    let mut next: usize = 0;
    assert(deletes.take(0) =~= Seq::empty());
    while next < batch.deletes.len()
        invariant
            deletes == delete_pairs(batch.deletes@),
            next <= batch.deletes@.len(),
            terminates(mutations@, inserts, deletes.take(next as int)),
        decreases batch.deletes@.len() - next,
    {
        let delete: Delete = batch.deletes[next];
        set_terminal(
            &mut mutations,
            TerminalMutation {
                row_index: delete.row_index,
                technical_id: delete.technical_id,
                deleted: true,
            },
            Ghost(inserts),
            Ghost(deletes.take(next as int)),
        );
        assert(deletes.take(next as int).push((delete.row_index, delete.technical_id))
            =~= deletes.take(next + 1));
        next += 1;
    }
    assert(deletes.take(next as int) =~= deletes);
    mutations
}

} // verus!
