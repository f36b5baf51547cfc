//! Planning event by event: batches that are bounded by a fixed number of mutations.

use crate::bytes::same_bytes;
use crate::change::{events, lemma_row_events, Change, RecordBatch};
use crate::relation::batch::{EXHAUSTED_ID, FIRST_TECHNICAL_ID, MAX_MUTATIONS_PER_BATCH};
use crate::relation::position::{
    advance_position, ensure_id_capacity, ids_suffice, inserts_among, lies_at, offset_of,
    on_boundary, position_mismatch, row_holds, stands_in, validate_batch_boundary,
    validate_position_for_change, Continuation, Mismatch, Mutation, MutationKind, Position,
    StepError,
};
use crate::relation::row::{canonical_bytes, canonical_fault, canonical_row, RowError};
use crate::text::abs;
use vstd::prelude::*;

verus! {

/// Why a batch cannot be planned.
#[derive(Debug)]
pub enum PlanError {
    Step(StepError),
    Row(RowError),
    MissingRetraction { row_index: u64, needed: u64, available: u64 },
}

/// What a batch has done so far to the instances of one row: the IDs that it has inserted and
/// not deleted again, ascending, and the existing IDs that it deletes.
#[derive(Debug)]
pub struct OverlayRow {
    pub key: Vec<u8>,
    pub pending_inserts: Vec<u64>,
    pub selected_deletes: Vec<u64>,
}

/// What has to be asked of the target: up to `take` of the smallest IDs of the row at
/// `row_index` that are not excluded, and how many there are, counted up to `scan`.
#[derive(Debug)]
pub struct Query {
    pub row_index: usize,
    pub needed: u64,
    pub scan: u64,
    pub take: u64,
    pub excluded: Vec<u64>,
}

/// What a target replies.
#[derive(Debug)]
pub struct MatchingIds {
    pub count: u64,
    pub selected: Vec<u64>,
}

/// What comes next in planning a batch.
#[derive(Debug)]
pub enum PlanStep {
    Continue,
    Ask(Query),
    Done(Continuation),
}

/// A batch that is being planned.
#[derive(Debug)]
pub struct BatchPlanner {
    pub start_position: Position,
    pub position: Position,
    pub next_id: u64,
    pub next_id_after: u64,
    pub mutations: Vec<Mutation>,
    pub overlay: Vec<OverlayRow>,
    /// How many stored instances of a row a target is asked to count at most.
    pub scan_limit: u64,
}

/// Each mutation stands for its event, insertions take consecutive IDs from the frontier, and
/// deletions take existing IDs or IDs that were inserted before, each of them once.
pub open spec fn batch_fits(
    diffs: Seq<i64>,
    start: int,
    next_id: u64,
    mutations: Seq<Mutation>,
) -> bool {
    &&& forall|i: int|
        0 <= i < mutations.len() ==> #[trigger] mutation_fits(diffs, start, next_id, mutations, i)
    &&& forall|i: int, j: int|
        0 <= i < j < mutations.len() && (#[trigger] mutations[i]).kind is Delete && (
        #[trigger] mutations[j]).kind is Delete ==> mutations[i].technical_id
            != mutations[j].technical_id
    &&& forall|i: int, j: int|
        0 <= i < j < mutations.len() && (#[trigger] mutations[i]).kind is Delete && (
        #[trigger] mutations[j]).row_index == mutations[i].row_index ==> mutations[i].technical_id
            < mutations[j].technical_id
}

/// A mutation stands for its event, under an ID that its kind allows.
pub open spec fn mutation_fits(
    diffs: Seq<i64>,
    start: int,
    next_id: u64,
    mutations: Seq<Mutation>,
    i: int,
) -> bool {
    let mutation = mutations[i];
    &&& row_holds(diffs, mutation.row_index as int, start + i)
    &&& mutation.kind is Insert <==> diffs[mutation.row_index as int] > 0
    &&& mutation.kind is Insert ==> mutation.technical_id == next_id + inserts_among(mutations, i)
    &&& mutation.kind is Delete ==> 0 < mutation.technical_id < next_id + inserts_among(
        mutations,
        i,
    )
}

/// Whether a batch deletes an ID.
pub open spec fn deletes(mutations: Seq<Mutation>, id: u64) -> bool {
    exists|i: int|
        0 <= i < mutations.len() && (#[trigger] mutations[i]).kind is Delete
            && mutations[i].technical_id == id
}

/// The IDs that a row has pending are new ones, ascending, and the batch has not deleted them.
pub open spec fn pending_fits(
    pending: Seq<u64>,
    next_id: u64,
    next_id_after: u64,
    mutations: Seq<Mutation>,
) -> bool {
    &&& forall|a: int|
        0 <= a < pending.len() ==> {
            &&& next_id <= #[trigger] pending[a] < next_id_after
            &&& !deletes(mutations, pending[a])
        }
    &&& forall|a: int, b: int|
        0 <= a < b < pending.len() ==> #[trigger] pending[a] < #[trigger] pending[b]
}

/// No ID is pending for two rows.
pub open spec fn pending_disjoint(overlay: Seq<OverlayRow>) -> bool {
    forall|e: int, f: int, a: int, b: int|
        #![trigger overlay[e].pending_inserts@[a], overlay[f].pending_inserts@[b]]
        0 <= e < overlay.len() && 0 <= f < overlay.len() && e != f && 0 <= a
            < overlay[e].pending_inserts@.len() && 0 <= b < overlay[f].pending_inserts@.len()
            ==> overlay[e].pending_inserts@[a] != overlay[f].pending_inserts@[b]
}

/// The entry of a key in an overlay.
pub open spec fn overlay_at(overlay: Seq<OverlayRow>, key: Seq<u8>, count: int) -> Option<int>
    decreases count,
{
    if count <= 0 {
        None
    } else {
        match overlay_at(overlay, key, count - 1) {
            Some(index) => Some(index),
            None => if overlay[count - 1].key@ == key {
                Some(count - 1)
            } else {
                None
            },
        }
    }
}

/// The IDs that are pending for a key.
pub open spec fn pending_of(overlay: Seq<OverlayRow>, key: Seq<u8>) -> Seq<u64> {
    match overlay_at(overlay, key, overlay.len() as int) {
        Some(index) => overlay[index].pending_inserts@,
        None => Seq::empty(),
    }
}

/// The existing IDs that are deleted for a key.
pub open spec fn excluded_of(overlay: Seq<OverlayRow>, key: Seq<u8>) -> Seq<u64> {
    match overlay_at(overlay, key, overlay.len() as int) {
        Some(index) => overlay[index].selected_deletes@,
        None => Seq::empty(),
    }
}

/// The IDs that the first `count` mutations have inserted for a row and not deleted again,
/// ascending: a deletion of a new ID takes the oldest of them.
pub open spec fn pending_by(
    records: RecordBatch,
    next_id: u64,
    mutations: Seq<Mutation>,
    key: Seq<u8>,
    count: int,
) -> Seq<u64>
    decreases count,
{
    if count <= 0 {
        Seq::empty()
    } else {
        let before = pending_by(records, next_id, mutations, key, count - 1);
        let mutation = mutations[count - 1];
        if canonical_bytes(records, mutation.row_index as int) != key {
            before
        } else if mutation.kind is Insert {
            before.push(mutation.technical_id)
        } else if mutation.technical_id >= next_id && before.len() > 0 {
            before.skip(1)
        } else {
            before
        }
    }
}

/// The existing IDs that the first `count` mutations delete for a row.
pub open spec fn excluded_by(
    records: RecordBatch,
    next_id: u64,
    mutations: Seq<Mutation>,
    key: Seq<u8>,
    count: int,
) -> Seq<u64>
    decreases count,
{
    if count <= 0 {
        Seq::empty()
    } else {
        let before = excluded_by(records, next_id, mutations, key, count - 1);
        let mutation = mutations[count - 1];
        if canonical_bytes(records, mutation.row_index as int) == key && mutation.kind is Delete
            && mutation.technical_id < next_id {
            before.push(mutation.technical_id)
        } else {
            before
        }
    }
}

/// The overlay says what the mutations have done to each row.
pub open spec fn overlay_tells(
    records: RecordBatch,
    next_id: u64,
    overlay: Seq<OverlayRow>,
    mutations: Seq<Mutation>,
) -> bool {
    forall|key: Seq<u8>|
        #![trigger pending_of(overlay, key)]
        #![trigger excluded_of(overlay, key)]
        {
            &&& pending_of(overlay, key) == pending_by(
                records,
                next_id,
                mutations,
                key,
                mutations.len() as int,
            )
            &&& excluded_of(overlay, key) == excluded_by(
                records,
                next_id,
                mutations,
                key,
                mutations.len() as int,
            )
        }
}

/// A mutation is one of a row that has an identity, and a deletion of a new ID takes the
/// oldest that was inserted before it for the same row.
pub open spec fn takes_own(
    records: RecordBatch,
    next_id: u64,
    mutations: Seq<Mutation>,
    i: int,
) -> bool {
    let mutation = mutations[i];
    let pending = pending_by(
        records,
        next_id,
        mutations,
        canonical_bytes(records, mutation.row_index as int),
        i,
    );
    &&& canonical_fault(records, mutation.row_index as int) is None
    &&& mutation.kind is Delete && mutation.technical_id >= next_id ==> pending.len() > 0
        && pending[0] == mutation.technical_id
}

/// Each deletion of a new ID takes the oldest of its row.
pub open spec fn own_rows(records: RecordBatch, next_id: u64, mutations: Seq<Mutation>) -> bool {
    forall|i: int|
        0 <= i < mutations.len() ==> #[trigger] takes_own(records, next_id, mutations, i)
}

/// A batch that has only begun, at a position.
pub open spec fn begun(
    planner: BatchPlanner,
    change: Change,
    next_id: u64,
    start_position: Position,
) -> bool {
    &&& planner.wf(change)
    &&& planner.start_position == start_position
    &&& planner.position == start_position
    &&& planner.next_id == next_id
    &&& planner.mutations@.len() == 0
    &&& planner.overlay@.len() == 0
    &&& planner.scan_limit == u64::MAX
}

impl BatchPlanner {
    /// What holds between two steps of planning for a change.
    pub open spec fn wf(&self, change: Change) -> bool {
        let diffs = change.diffs@;
        let start = offset_of(diffs, self.start_position);
        &&& change.wf()
        &&& stands_in(diffs, self.start_position)
        &&& on_boundary(diffs, self.start_position)
        &&& stands_in(diffs, self.position)
        &&& self.mutations@.len() < MAX_MUTATIONS_PER_BATCH
        &&& offset_of(diffs, self.position) == start + self.mutations@.len()
        &&& self.position.row_index >= self.start_position.row_index
        &&& self.mutations@.len() > 0 ==> self.position.remaining == abs(
            diffs[self.position.row_index as int] as int,
        )
        &&& FIRST_TECHNICAL_ID <= self.next_id
        &&& self.next_id_after == self.next_id + inserts_among(
            self.mutations@,
            self.mutations@.len() as int,
        )
        &&& self.next_id_after <= EXHAUSTED_ID
        &&& batch_fits(diffs, start, self.next_id, self.mutations@)
        &&& forall|e: int|
            0 <= e < self.overlay@.len() ==> pending_fits(
                (#[trigger] self.overlay@[e]).pending_inserts@,
                self.next_id,
                self.next_id_after,
                self.mutations@,
            )
        &&& pending_disjoint(self.overlay@)
        &&& overlay_tells(change.records, self.next_id, self.overlay@, self.mutations@)
        &&& own_rows(change.records, self.next_id, self.mutations@)
    }

    /// How many events of the current row the batch still has room for.
    pub open spec fn room(&self) -> nat {
        let capacity = (MAX_MUTATIONS_PER_BATCH - self.mutations@.len()) as nat;
        if self.position.remaining as nat <= capacity {
            self.position.remaining as nat
        } else {
            capacity
        }
    }

    /// The identity of the current row.
    pub open spec fn key(&self, change: Change) -> Seq<u8> {
        canonical_bytes(change.records, self.position.row_index as int)
    }

    /// Begins a batch at a position.
    pub fn new(change: &Change, next_id: u64, start_position: Position) -> (result: Result<
        BatchPlanner,
        StepError,
    >)
        requires
            change.wf(),
            FIRST_TECHNICAL_ID <= next_id <= EXHAUSTED_ID,
        ensures
            match result {
                Ok(planner) => begun(planner, *change, next_id, start_position),
                Err(error) => if !stands_in(change.diffs@, start_position) {
                    &&& position_mismatch(change.diffs@, start_position) is Some
                    &&& error == StepError::InputMismatch(
                        position_mismatch(change.diffs@, start_position)->0,
                    )
                } else {
                    &&& !on_boundary(change.diffs@, start_position)
                    &&& error == StepError::InputMismatch(Mismatch::BatchBoundary)
                },
            },
    {
        validate_position_for_change(change, start_position)?;
        validate_batch_boundary(change, start_position)?;
        Ok(
            BatchPlanner {
                start_position,
                position: start_position,
                next_id,
                next_id_after: next_id,
                mutations: Vec::new(),
                overlay: Vec::new(),
                scan_limit: u64::MAX,
            },
        )
    }
}

/// The mutations of one row: one for each of `ids`.
pub open spec fn row_mutations(kind: MutationKind, row_index: u64, ids: Seq<u64>) -> Seq<Mutation> {
    ids.map_values(|id: u64| Mutation { kind, row_index, technical_id: id })
}

/// Consecutive IDs.
pub open spec fn id_range(first: u64, count: nat) -> Seq<u64> {
    Seq::new(count, |k: int| (first + k) as u64)
}

proof fn lemma_inserts_prefix(left: Seq<Mutation>, right: Seq<Mutation>, count: int)
    requires
        0 <= count <= left.len(),
        count <= right.len(),
        forall|i: int| 0 <= i < count ==> left[i] == #[trigger] right[i],
    ensures
        inserts_among(left, count) == inserts_among(right, count),
    decreases count,
{
    if count > 0 {
        lemma_inserts_prefix(left, right, count - 1);
    }
}

proof fn lemma_inserts_of_row(
    mutations: Seq<Mutation>,
    kind: MutationKind,
    row_index: u64,
    ids: Seq<u64>,
    count: int,
)
    requires
        0 <= count <= ids.len(),
    ensures
        inserts_among(
            mutations + row_mutations(kind, row_index, ids),
            mutations.len() + count,
        ) == inserts_among(mutations, mutations.len() as int) + (if kind is Insert {
            count
        } else {
            0
        }),
    decreases count,
{
    let whole = mutations + row_mutations(kind, row_index, ids);
    if count > 0 {
        lemma_inserts_of_row(mutations, kind, row_index, ids, count - 1);
        assert(whole[mutations.len() + count - 1] == row_mutations(kind, row_index, ids)[count
            - 1]);
    } else {
        lemma_inserts_prefix(whole, mutations, mutations.len() as int);
    }
}

pub proof fn lemma_inserts_grow(mutations: Seq<Mutation>, low: int, high: int)
    requires
        low <= high,
    ensures
        inserts_among(mutations, low) <= inserts_among(mutations, high),
    decreases high - low,
{
    if low < high {
        lemma_inserts_grow(mutations, low, high - 1);
    }
}

/// All deleted IDs lie below the next new one.
proof fn lemma_deletes_below(diffs: Seq<i64>, start: int, next_id: u64, mutations: Seq<Mutation>)
    requires
        batch_fits(diffs, start, next_id, mutations),
    ensures
        forall|i: int|
            0 <= i < mutations.len() && (#[trigger] mutations[i]).kind is Delete
                ==> mutations[i].technical_id < next_id + inserts_among(
                mutations,
                mutations.len() as int,
            ),
{
    assert forall|i: int|
        0 <= i < mutations.len() && (#[trigger] mutations[i]).kind is Delete implies mutations[i].technical_id
        < next_id + inserts_among(mutations, mutations.len() as int) by {
        assert(mutation_fits(diffs, start, next_id, mutations, i));
        lemma_inserts_grow(mutations, i, mutations.len() as int);
    }
}

/// A batch that fits still fits once the mutations of a row were added to it.
proof fn lemma_row_added(
    diffs: Seq<i64>,
    start: int,
    next_id: u64,
    mutations: Seq<Mutation>,
    kind: MutationKind,
    row_index: u64,
    ids: Seq<u64>,
)
    requires
        batch_fits(diffs, start, next_id, mutations),
        next_id + mutations.len() + ids.len() <= u64::MAX,
        row_index < diffs.len(),
        kind is Insert <==> diffs[row_index as int] > 0,
        events(diffs, row_index as int) <= start + mutations.len(),
        start + mutations.len() + ids.len() <= events(diffs, row_index + 1),
        forall|i: int| 0 <= i < mutations.len() && mutations[i].kind is Delete ==> (
        #[trigger] mutations[i]).row_index != row_index,
        kind is Insert ==> forall|k: int|
            0 <= k < ids.len() ==> #[trigger] ids[k] == next_id + inserts_among(
                mutations,
                mutations.len() as int,
            ) + k,
        kind is Delete ==> forall|k: int|
            0 <= k < ids.len() ==> 0 < #[trigger] ids[k] < next_id + inserts_among(
                mutations,
                mutations.len() as int,
            ) && !deletes(mutations, ids[k]),
        forall|j: int, k: int| 0 <= j < k < ids.len() ==> #[trigger] ids[j] < #[trigger] ids[k],
    ensures
        batch_fits(diffs, start, next_id, mutations + row_mutations(kind, row_index, ids)),
{
    let part = row_mutations(kind, row_index, ids);
    let whole = mutations + part;
    let count = mutations.len() as int;
    assert forall|i: int| 0 <= i < whole.len() implies #[trigger] mutation_fits(
        diffs,
        start,
        next_id,
        whole,
        i,
    ) by {
        if i < count {
            assert(mutation_fits(diffs, start, next_id, mutations, i));
            lemma_inserts_prefix(whole, mutations, i);
        } else {
            assert(whole[i] == part[i - count]);
            assert(part[i - count].technical_id == ids[i - count]);
            lemma_inserts_of_row(mutations, kind, row_index, ids, i - count);
        }
    }
    assert forall|i: int, j: int|
        0 <= i < j < whole.len() && (#[trigger] whole[i]).kind is Delete && (
        #[trigger] whole[j]).kind is Delete implies whole[i].technical_id
        != whole[j].technical_id by {
        if j >= count {
            assert(whole[j].technical_id == ids[j - count]);
            if i < count {
                if mutations[i].technical_id == ids[j - count] {
                    assert(deletes(mutations, ids[j - count]));
                }
            } else {
                assert(whole[i].technical_id == ids[i - count]);
            }
        }
    }
    assert forall|i: int, j: int|
        0 <= i < j < whole.len() && (#[trigger] whole[i]).kind is Delete && (
        #[trigger] whole[j]).row_index == whole[i].row_index implies whole[i].technical_id
        < whole[j].technical_id by {
        if j >= count {
            assert(whole[j].technical_id == ids[j - count]);
            if i >= count {
                assert(whole[i].technical_id == ids[i - count]);
            }
        }
    }
}

impl BatchPlanner {
    /// The place of a key in the overlay, where it gets one if it has none.
    fn overlay_place(&mut self, key: Vec<u8>, Ghost(change): Ghost<Change>) -> (place: usize)
        requires
            old(self).wf(change),
        ensures
            final(self).wf(change),
            final(self).start_position == old(self).start_position,
            final(self).position == old(self).position,
            final(self).next_id == old(self).next_id,
            final(self).scan_limit == old(self).scan_limit,
            final(self).next_id_after == old(self).next_id_after,
            final(self).mutations == old(self).mutations,
            place < final(self).overlay@.len(),
            final(self).overlay@[place as int].key@ == key@,
            overlay_at(final(self).overlay@, key@, final(self).overlay@.len() as int) == Some(
                place as int,
            ),
            pending_of(final(self).overlay@, key@) == pending_of(old(self).overlay@, key@),
            excluded_of(final(self).overlay@, key@) == excluded_of(old(self).overlay@, key@),
            match overlay_at(old(self).overlay@, key@, old(self).overlay@.len() as int) {
                Some(index) => final(self).overlay@ == old(self).overlay@,
                None => {
                    &&& final(self).overlay@.len() == old(self).overlay@.len() + 1
                    &&& final(self).overlay@.drop_last() == old(self).overlay@
                    &&& final(self).overlay@.last().pending_inserts@.len() == 0
                    &&& final(self).overlay@.last().selected_deletes@.len() == 0
                },
            },
    {
        let mut index: usize = 0;
        while index < self.overlay.len()
            invariant
                old(self).wf(change),
                *self == *old(self),
                index <= self.overlay@.len(),
                overlay_at(self.overlay@, key@, index as int) is None,
            decreases self.overlay@.len() - index,
        {
            if same_bytes(self.overlay[index].key.as_slice(), key.as_slice()) {
                proof {
                    lemma_overlay_stays(
                        self.overlay@,
                        self.overlay@,
                        key@,
                        index + 1,
                        self.overlay@.len() as int,
                    );
                }
                return index;
            }
            index += 1;
        }
        let ghost before = self.overlay@;
        let ghost name = key@;
        let row: OverlayRow = OverlayRow {
            key,
            pending_inserts: Vec::new(),
            selected_deletes: Vec::new(),
        };
        self.overlay.push(row);
        proof {
            assert(self.overlay@.drop_last() =~= before);
            lemma_overlay_prefix(before, self.overlay@, name, before.len() as int);
            assert(pending_of(self.overlay@, name) =~= pending_of(before, name));
            assert(excluded_of(self.overlay@, name) =~= excluded_of(before, name));
            assert forall|other: Seq<u8>|
                #![trigger pending_of(self.overlay@, other)]
                #![trigger excluded_of(self.overlay@, other)]
                pending_of(self.overlay@, other) == pending_of(before, other) && excluded_of(
                    self.overlay@,
                    other,
                ) == excluded_of(before, other) by {
                lemma_overlay_prefix(before, self.overlay@, other, before.len() as int);
                lemma_overlay_key(before, other, before.len() as int);
                if other == name {
                    assert(pending_of(self.overlay@, other) =~= pending_of(before, other));
                    assert(excluded_of(self.overlay@, other) =~= excluded_of(before, other));
                }
            }
        }
        index
    }
}

/// The place of a key is that of an entry with the key.
proof fn lemma_overlay_key(overlay: Seq<OverlayRow>, key: Seq<u8>, count: int)
    requires
        0 <= count <= overlay.len(),
    ensures
        match overlay_at(overlay, key, count) {
            Some(index) => 0 <= index < count && overlay[index].key@ == key,
            None => true,
        },
    decreases count,
{
    if count > 0 {
        lemma_overlay_key(overlay, key, count - 1);
    }
}

/// An entry that takes the place of the one of its key leaves the other rows as they are.
proof fn lemma_overlay_updated(
    overlay: Seq<OverlayRow>,
    place: int,
    own: OverlayRow,
    key: Seq<u8>,
)
    requires
        0 <= place < overlay.len(),
        overlay_at(overlay, overlay[place].key@, overlay.len() as int) == Some(place),
        own.key@ == overlay[place].key@,
    ensures
        ({
            let after = overlay.update(place, own);
            if key == own.key@ {
                pending_of(after, key) == own.pending_inserts@ && excluded_of(after, key)
                    == own.selected_deletes@
            } else {
                pending_of(after, key) == pending_of(overlay, key) && excluded_of(after, key)
                    == excluded_of(overlay, key)
            }
        }),
{
    let after = overlay.update(place, own);
    lemma_overlay_prefix(overlay, after, key, overlay.len() as int);
    lemma_overlay_key(overlay, key, overlay.len() as int);
}

/// What mutations have done depends on those that came before alone.
proof fn lemma_history_prefix(
    records: RecordBatch,
    next_id: u64,
    left: Seq<Mutation>,
    right: Seq<Mutation>,
    key: Seq<u8>,
    count: int,
)
    requires
        0 <= count <= left.len(),
        count <= right.len(),
        forall|i: int| 0 <= i < count ==> left[i] == #[trigger] right[i],
    ensures
        pending_by(records, next_id, left, key, count) == pending_by(
            records,
            next_id,
            right,
            key,
            count,
        ),
        excluded_by(records, next_id, left, key, count) == excluded_by(
            records,
            next_id,
            right,
            key,
            count,
        ),
    decreases count,
{
    if count > 0 {
        lemma_history_prefix(records, next_id, left, right, key, count - 1);
    }
}

/// Insertions of a row are pending for it.
proof fn lemma_history_inserts(
    records: RecordBatch,
    next_id: u64,
    mutations: Seq<Mutation>,
    row_index: u64,
    ids: Seq<u64>,
    key: Seq<u8>,
    count: int,
)
    requires
        0 <= count <= ids.len(),
    ensures
        ({
            let grown = mutations + row_mutations(MutationKind::Insert, row_index, ids);
            let before = mutations.len() as int;
            &&& pending_by(records, next_id, grown, key, before + count) == pending_by(
                records,
                next_id,
                mutations,
                key,
                before,
            ) + (if canonical_bytes(records, row_index as int) == key {
                ids.take(count)
            } else {
                Seq::empty()
            })
            &&& excluded_by(records, next_id, grown, key, before + count) == excluded_by(
                records,
                next_id,
                mutations,
                key,
                before,
            )
        }),
    decreases count,
{
    let part = row_mutations(MutationKind::Insert, row_index, ids);
    let grown = mutations + part;
    let before = mutations.len() as int;
    let pending = pending_by(records, next_id, mutations, key, before);
    if count > 0 {
        lemma_history_inserts(records, next_id, mutations, row_index, ids, key, count - 1);
        assert(grown[before + count - 1] == part[count - 1]);
        assert(ids.take(count) =~= ids.take(count - 1).push(ids[count - 1]));
        if canonical_bytes(records, row_index as int) == key {
            assert(pending + ids.take(count) =~= (pending + ids.take(count - 1)).push(
                ids[count - 1],
            ));
        }
    } else {
        lemma_history_prefix(records, next_id, grown, mutations, key, before);
        assert(pending + ids.take(0) =~= pending);
        assert(pending + Seq::<u64>::empty() =~= pending);
    }
}

/// Deletions of a row take existing IDs, and then the oldest pending ones.
proof fn lemma_history_deletes(
    records: RecordBatch,
    next_id: u64,
    mutations: Seq<Mutation>,
    row_index: u64,
    selected: Seq<u64>,
    more: int,
    key: Seq<u8>,
    count: int,
)
    requires
        forall|a: int| 0 <= a < selected.len() ==> #[trigger] selected[a] < next_id,
        ({
            let pending = pending_by(
                records,
                next_id,
                mutations,
                canonical_bytes(records, row_index as int),
                mutations.len() as int,
            );
            &&& 0 <= more <= pending.len()
            &&& forall|a: int| 0 <= a < pending.len() ==> #[trigger] pending[a] >= next_id
            &&& 0 <= count <= selected.len() + more
        }),
    ensures
        ({
            let own = canonical_bytes(records, row_index as int);
            let before = mutations.len() as int;
            let taken = pending_by(records, next_id, mutations, own, before).take(more);
            let grown = mutations + row_mutations(
                MutationKind::Delete,
                row_index,
                selected + taken,
            );
            let pending = pending_by(records, next_id, mutations, key, before);
            let excluded = excluded_by(records, next_id, mutations, key, before);
            if key != own {
                &&& pending_by(records, next_id, grown, key, before + count) == pending
                &&& excluded_by(records, next_id, grown, key, before + count) == excluded
            } else if count <= selected.len() {
                &&& pending_by(records, next_id, grown, key, before + count) == pending
                &&& excluded_by(records, next_id, grown, key, before + count) == excluded
                    + selected.take(count)
            } else {
                &&& pending_by(records, next_id, grown, key, before + count) == pending.skip(
                    count - selected.len(),
                )
                &&& excluded_by(records, next_id, grown, key, before + count) == excluded
                    + selected
            }
        }),
    decreases count,
{
    let own = canonical_bytes(records, row_index as int);
    let before = mutations.len() as int;
    let all = pending_by(records, next_id, mutations, own, before);
    let ids = selected + all.take(more);
    let part = row_mutations(MutationKind::Delete, row_index, ids);
    let grown = mutations + part;
    let excluded = excluded_by(records, next_id, mutations, key, before);
    if count > 0 {
        lemma_history_deletes(
            records,
            next_id,
            mutations,
            row_index,
            selected,
            more,
            key,
            count - 1,
        );
        assert(grown[before + count - 1] == part[count - 1]);
        assert(part[count - 1].technical_id == ids[count - 1]);
        if key == own {
            if count <= selected.len() {
                assert(ids[count - 1] == selected[count - 1]);
                assert(excluded + selected.take(count) =~= (excluded + selected.take(
                    count - 1,
                )).push(selected[count - 1]));
            } else {
                let rest = count - selected.len();
                assert(ids[count - 1] == all[rest - 1]);
                if rest == 1 {
                    assert(all.skip(0) =~= all);
                    assert(selected.take(count - 1) =~= selected);
                }
                assert(all.skip(rest - 1).skip(1) =~= all.skip(rest));
            }
        }
    } else {
        lemma_history_prefix(records, next_id, grown, mutations, key, before);
        assert(excluded + selected.take(0) =~= excluded);
    }
}

/// The IDs that are deleted behind others are taken in order.
proof fn lemma_takes_own_stays(
    records: RecordBatch,
    next_id: u64,
    mutations: Seq<Mutation>,
    part: Seq<Mutation>,
)
    requires
        own_rows(records, next_id, mutations),
        forall|i: int|
            mutations.len() <= i < mutations.len() + part.len() ==> #[trigger] takes_own(
                records,
                next_id,
                mutations + part,
                i,
            ),
    ensures
        own_rows(records, next_id, mutations + part),
{
    let grown = mutations + part;
    assert forall|i: int| 0 <= i < grown.len() implies #[trigger] takes_own(
        records,
        next_id,
        grown,
        i,
    ) by {
        if i < mutations.len() {
            assert(takes_own(records, next_id, mutations, i));
            lemma_history_prefix(
                records,
                next_id,
                grown,
                mutations,
                canonical_bytes(records, mutations[i].row_index as int),
                i,
            );
        }
    }
}

proof fn lemma_overlay_prefix(
    left: Seq<OverlayRow>,
    right: Seq<OverlayRow>,
    key: Seq<u8>,
    count: int,
)
    requires
        0 <= count <= left.len(),
        count <= right.len(),
        forall|i: int| 0 <= i < count ==> (#[trigger] left[i]).key@ == right[i].key@,
    ensures
        overlay_at(left, key, count) == overlay_at(right, key, count),
    decreases count,
{
    if count > 0 {
        lemma_overlay_prefix(left, right, key, count - 1);
    }
}

proof fn lemma_overlay_stays(
    left: Seq<OverlayRow>,
    right: Seq<OverlayRow>,
    key: Seq<u8>,
    low: int,
    high: int,
)
    requires
        low <= high <= right.len(),
        left == right,
        overlay_at(left, key, low) is Some,
    ensures
        overlay_at(right, key, high) == overlay_at(left, key, low),
    decreases high - low,
{
    if low < high {
        lemma_overlay_stays(left, right, key, low, high - 1);
    }
}

/// A reply keeps to its query: as many IDs as were counted and asked for, ascending, all of
/// them existing ones that the batch does not delete already.
pub open spec fn reply_fits(
    matching: MatchingIds,
    take: nat,
    next_id: u64,
    mutations: Seq<Mutation>,
) -> bool {
    &&& matching.selected@.len() == (if matching.count <= take {
        matching.count as nat
    } else {
        take
    })
    &&& forall|a: int|
        0 <= a < matching.selected@.len() ==> {
            &&& 0 < #[trigger] matching.selected@[a] < next_id
            &&& !deletes(mutations, matching.selected@[a])
        }
    &&& forall|a: int, b: int|
        0 <= a < b < matching.selected@.len() ==> #[trigger] matching.selected@[a]
            < #[trigger] matching.selected@[b]
}

/// A step plans a row that enters, or asks for one that leaves.
pub open spec fn stepped(
    before: BatchPlanner,
    after: BatchPlanner,
    change: Change,
    step: PlanStep,
) -> bool {
    let position = before.position;
    let row = position.row_index as int;
    let take = before.room();
    &&& canonical_fault(change.records, row) is None
    &&& after.start_position == before.start_position
    &&& after.next_id == before.next_id
    &&& after.scan_limit == before.scan_limit
    &&& if change.diffs@[row] > 0 {
        &&& ids_suffice(before.next_id_after, position.remaining)
        &&& after.mutations@ == before.mutations@ + row_mutations(
            MutationKind::Insert,
            position.row_index,
            id_range(before.next_id_after, take),
        )
        &&& after.next_id_after == before.next_id_after + take
        &&& match step {
            PlanStep::Continue => after.wf(change),
            PlanStep::Done(continuation) => after.finished(change, continuation),
            PlanStep::Ask(_) => false,
        }
    } else {
        &&& after.wf(change)
        &&& after.mutations == before.mutations
        &&& after.next_id_after == before.next_id_after
        &&& after.position == before.position
        &&& step is Ask
        &&& asks(step->Ask_0, before, change)
    }
}

/// A reply plans a row that leaves.
pub open spec fn answered(
    before: BatchPlanner,
    after: BatchPlanner,
    change: Change,
    matching: MatchingIds,
    step: PlanStep,
) -> bool {
    let position = before.position;
    let pending = pending_of(before.overlay@, before.key(change));
    &&& capped_sum(matching.count, pending.len()) >= position.remaining
    &&& after.start_position == before.start_position
    &&& after.next_id == before.next_id
    &&& after.scan_limit == before.scan_limit
    &&& after.next_id_after == before.next_id_after
    &&& after.mutations@ == before.mutations@ + row_mutations(
        MutationKind::Delete,
        position.row_index,
        retracted(matching, pending, before.room()),
    )
    &&& match step {
        PlanStep::Continue => after.wf(change),
        PlanStep::Done(continuation) => after.finished(change, continuation),
        PlanStep::Ask(_) => false,
    }
}

/// The sum of two numbers, or the largest one where that is too large.
pub open spec fn capped_sum(left: u64, right: nat) -> u64 {
    if left + right > u64::MAX {
        u64::MAX
    } else {
        (left + right) as u64
    }
}

/// The IDs that a retraction takes: existing ones first, and then the oldest pending ones.
pub open spec fn retracted(matching: MatchingIds, pending: Seq<u64>, take: nat) -> Seq<u64> {
    matching.selected@ + pending.take(take - matching.selected@.len())
}

impl BatchPlanner {
    /// The batch is complete: it leads to `continuation`, at the end of the change or of the
    /// room for mutations.
    pub open spec fn finished(&self, change: Change, continuation: Continuation) -> bool {
        let diffs = change.diffs@;
        let start = offset_of(diffs, self.start_position);
        &&& change.wf()
        &&& stands_in(diffs, self.start_position)
        &&& on_boundary(diffs, self.start_position)
        &&& 0 < self.mutations@.len() <= MAX_MUTATIONS_PER_BATCH
        &&& lies_at(diffs, continuation, start + self.mutations@.len())
        &&& continuation is Position ==> self.mutations@.len() == MAX_MUTATIONS_PER_BATCH
        &&& FIRST_TECHNICAL_ID <= self.next_id
        &&& self.next_id_after == self.next_id + inserts_among(
            self.mutations@,
            self.mutations@.len() as int,
        )
        &&& self.next_id_after <= EXHAUSTED_ID
        &&& batch_fits(diffs, start, self.next_id, self.mutations@)
        &&& own_rows(change.records, self.next_id, self.mutations@)
    }

    /// Goes on behind the row whose mutations were just added.
    fn advance(&mut self, change: &Change, take: u64) -> (step: PlanStep)
        requires
            change.wf(),
            stands_in(change.diffs@, old(self).start_position),
            on_boundary(change.diffs@, old(self).start_position),
            stands_in(change.diffs@, old(self).position),
            old(self).position.row_index >= old(self).start_position.row_index,
            0 < take <= old(self).position.remaining,
            take <= old(self).mutations@.len() <= MAX_MUTATIONS_PER_BATCH,
            take < old(self).position.remaining ==> old(self).mutations@.len()
                == MAX_MUTATIONS_PER_BATCH,
            offset_of(change.diffs@, old(self).position) + take == offset_of(
                change.diffs@,
                old(self).start_position,
            ) + old(self).mutations@.len(),
            FIRST_TECHNICAL_ID <= old(self).next_id,
            old(self).next_id_after == old(self).next_id + inserts_among(
                old(self).mutations@,
                old(self).mutations@.len() as int,
            ),
            old(self).next_id_after <= EXHAUSTED_ID,
            batch_fits(
                change.diffs@,
                offset_of(change.diffs@, old(self).start_position),
                old(self).next_id,
                old(self).mutations@,
            ),
            forall|e: int|
                0 <= e < old(self).overlay@.len() ==> pending_fits(
                    (#[trigger] old(self).overlay@[e]).pending_inserts@,
                    old(self).next_id,
                    old(self).next_id_after,
                    old(self).mutations@,
                ),
            pending_disjoint(old(self).overlay@),
            overlay_tells(
                change.records,
                old(self).next_id,
                old(self).overlay@,
                old(self).mutations@,
            ),
            own_rows(change.records, old(self).next_id, old(self).mutations@),
        ensures
            final(self).start_position == old(self).start_position,
            final(self).next_id == old(self).next_id,
            final(self).scan_limit == old(self).scan_limit,
            final(self).next_id_after == old(self).next_id_after,
            final(self).mutations == old(self).mutations,
            final(self).overlay == old(self).overlay,
            match step {
                PlanStep::Continue => final(self).wf(*change),
                PlanStep::Done(continuation) => final(self).finished(*change, continuation),
                PlanStep::Ask(_) => false,
            },
    {
        let advanced = advance_position(change, self.position, take);
        match advanced {
            Ok(Continuation::Done) => PlanStep::Done(Continuation::Done),
            Ok(Continuation::Position(next)) => {
                let ghost before = self.position;
                self.position = next;
                if self.mutations.len() == MAX_MUTATIONS_PER_BATCH {
                    PlanStep::Done(Continuation::Position(next))
                } else {
                    proof {
                        let diffs = change.diffs@;
                        lemma_row_events(diffs, before.row_index as int);
                        lemma_row_events(diffs, next.row_index as int);
                        if next.row_index <= before.row_index {
                            crate::relation::position::lemma_events_grow(
                                diffs,
                                next.row_index + 1,
                                before.row_index + 1,
                            );
                        }
                        if next.row_index > before.row_index + 1 {
                            crate::relation::position::lemma_events_grow(
                                diffs,
                                before.row_index + 1,
                                next.row_index - 1,
                            );
                            lemma_row_events(diffs, next.row_index - 1);
                            assert(diffs[next.row_index - 1] != 0);
                        }
                    }
                    PlanStep::Continue
                }
            },
            Err(_) => PlanStep::Continue,
        }
    }

    /// Plans the current row as far as that needs no target. A row that enters gets its IDs;
    /// for a row that leaves, the target has to be asked.
    #[verifier::rlimit(40)]
    pub fn step(&mut self, change: &Change) -> (result: Result<PlanStep, PlanError>)
        requires
            old(self).wf(*change),
        ensures
            ({
                let diffs = change.diffs@;
                let position = old(self).position;
                let row = position.row_index as int;
                match result {
                    Ok(step) => stepped(*old(self), *final(self), *change, step),
                    Err(PlanError::Row(error)) => canonical_fault(change.records, row) == Some(
                        error@,
                    ),
                    Err(PlanError::Step(error)) => {
                        &&& canonical_fault(change.records, row) is None
                        &&& diffs[row] > 0
                        &&& !ids_suffice(old(self).next_id_after, position.remaining)
                        &&& error == (StepError::TechnicalIdExhausted {
                            next_id: old(self).next_id_after,
                            needed: position.remaining,
                        })
                    },
                    Err(_) => false,
                }
            }),
    {
        let ghost diffs = change.diffs@;
        let ghost start = offset_of(diffs, self.start_position);
        let position: Position = self.position;
        let row: usize = position.row_index as usize;
        let diff: i64 = change.diffs[row];
        let key: Vec<u8> = match canonical_row(&change.records, row) {
            Ok(key) => key,
            Err(error) => {
                return Err(PlanError::Row(error));
            },
        };
        let capacity: u64 = (MAX_MUTATIONS_PER_BATCH - self.mutations.len()) as u64;
        let take: u64 = if position.remaining <= capacity {
            position.remaining
        } else {
            capacity
        };
        proof {
            assert(diffs[row as int] != 0);
            lemma_row_events(diffs, row as int);
        }
        if diff > 0 {
            if let Err(error) = ensure_id_capacity(self.next_id_after, position.remaining) {
                return Err(PlanError::Step(error));
            }
            let ghost entered = *self;
            let place: usize = self.overlay_place(key, Ghost(*change));
            let ghost before = self.mutations@;
            let ghost overlay_before = self.overlay@;
            let ghost ids = id_range(self.next_id_after, take as nat);
            let first: u64 = self.next_id_after;
            let mut own: OverlayRow = self.overlay.remove(place);
            let ghost own_before = own;
            let mut count: u64 = 0;
            while count < take
                invariant
                    count <= take,
                    first + take <= EXHAUSTED_ID,
                    ids == id_range(first, take as nat),
                    self.next_id_after == first + count,
                    self.mutations@ == before + row_mutations(
                        MutationKind::Insert,
                        position.row_index,
                        ids.take(count as int),
                    ),
                    own.pending_inserts@ == own_before.pending_inserts@ + ids.take(count as int),
                    own.key == own_before.key,
                    own.selected_deletes == own_before.selected_deletes,
                    self.start_position == entered.start_position,
                    self.position == position,
                    self.next_id == entered.next_id,
                    self.scan_limit == entered.scan_limit,
                    self.overlay@ == overlay_before.remove(place as int),
                decreases take - count,
            {
                let technical_id: u64 = self.next_id_after;
                self.next_id_after = self.next_id_after + 1;
                own.pending_inserts.push(technical_id);
                self.mutations.push(
                    Mutation {
                        kind: MutationKind::Insert,
                        row_index: position.row_index,
                        technical_id,
                    },
                );
                count += 1;
                assert(ids.take(count as int) =~= ids.take(count - 1).push(technical_id));
                assert(self.mutations@ =~= before + row_mutations(
                    MutationKind::Insert,
                    position.row_index,
                    ids.take(count as int),
                ));
                assert(own.pending_inserts@ =~= own_before.pending_inserts@ + ids.take(
                    count as int,
                ));
            }
            self.overlay.insert(place, own);
            proof {
                assert(ids.take(count as int) =~= ids);
                assert(self.overlay@ =~= overlay_before.update(place as int, own));
                lemma_current_row_is_new(entered, *change);
                lemma_row_added(
                    diffs,
                    start,
                    self.next_id,
                    before,
                    MutationKind::Insert,
                    position.row_index,
                    ids,
                );
                lemma_inserts_of_row(
                    before,
                    MutationKind::Insert,
                    position.row_index,
                    ids,
                    ids.len() as int,
                );
                lemma_deletes_below(diffs, start, self.next_id, before);
                lemma_pending_grows(
                    overlay_before,
                    place as int,
                    own,
                    self.next_id,
                    first,
                    before,
                    position.row_index,
                    ids,
                );
                lemma_row_entered(
                    change.records,
                    self.next_id,
                    overlay_before,
                    place as int,
                    own,
                    before,
                    position.row_index,
                    ids,
                );
            }
            Ok(self.advance(change, take))
        } else {
            let ghost entered = *self;
            let ghost name = key@;
            let place: usize = self.overlay_place(key, Ghost(*change));
            let entry: &OverlayRow = &self.overlay[place];
            let pending: u64 = entry.pending_inserts.len() as u64;
            let required: u64 = position.remaining.saturating_sub(pending);
            let wanted: u64 = if required >= take {
                required
            } else {
                take
            };
            let scan: u64 = if wanted <= self.scan_limit {
                wanted
            } else {
                self.scan_limit
            };
            let excluded: Vec<u64> = copy_ids(&entry.selected_deletes);
            Ok(
                PlanStep::Ask(
                    Query { row_index: row, needed: position.remaining, scan, take, excluded },
                ),
            )
        }
    }
}

impl BatchPlanner {
    /// Plans the current row, which leaves, with what the target has replied.
    #[verifier::rlimit(40)]
    pub fn answer(&mut self, change: &Change, matching: MatchingIds) -> (result: Result<
        PlanStep,
        PlanError,
    >)
        requires
            old(self).wf(*change),
            change.diffs@[old(self).position.row_index as int] < 0,
            canonical_fault(change.records, old(self).position.row_index as int) is None,
            reply_fits(matching, old(self).room(), old(self).next_id, old(self).mutations@),
        ensures
            ({
                let position = old(self).position;
                let pending = pending_of(old(self).overlay@, old(self).key(*change));
                let available = capped_sum(matching.count, pending.len());
                match result {
                    Ok(step) => answered(*old(self), *final(self), *change, matching, step),
                    Err(PlanError::MissingRetraction { row_index, needed, available: found }) => {
                        &&& available < position.remaining
                        &&& row_index == position.row_index
                        &&& needed == position.remaining
                        &&& found == available
                    },
                    Err(_) => false,
                }
            }),
    {
        let ghost diffs = change.diffs@;
        let ghost start = offset_of(diffs, self.start_position);
        let ghost entered = *self;
        let position: Position = self.position;
        let row: usize = position.row_index as usize;
        let key: Vec<u8> = match canonical_row(&change.records, row) {
            Ok(key) => key,
            Err(error) => {
                return Err(PlanError::Row(error));
            },
        };
        let capacity: u64 = (MAX_MUTATIONS_PER_BATCH - self.mutations.len()) as u64;
        let take: u64 = if position.remaining <= capacity {
            position.remaining
        } else {
            capacity
        };
        let place: usize = self.overlay_place(key, Ghost(*change));
        let pending: u64 = self.overlay[place].pending_inserts.len() as u64;
        let available: u64 = matching.count.saturating_add(pending);
        if available < position.remaining {
            return Err(
                PlanError::MissingRetraction {
                    row_index: position.row_index,
                    needed: position.remaining,
                    available,
                },
            );
        }
        let ghost before = self.mutations@;
        let ghost overlay_before = self.overlay@;
        let mut own: OverlayRow = self.overlay.remove(place);
        let ghost own_pending = own.pending_inserts@;
        let selected: usize = matching.selected.len();
        let more: usize = take as usize - selected;
        let ghost ids = retracted(matching, own_pending, take as nat);
        let mut picked: Vec<u64> = copy_ids(&matching.selected);
        let mut rest: Vec<u64> = Vec::new();
        let mut index: usize = 0;
        while index < own.pending_inserts.len()
            invariant
                index <= own.pending_inserts@.len(),
                own.pending_inserts@ == own_pending,
                more <= own_pending.len(),
                picked@ == matching.selected@ + own_pending.take(if index <= more {
                    index as int
                } else {
                    more as int
                }),
                rest@ == own_pending.subrange(
                    more as int,
                    if index <= more {
                        more as int
                    } else {
                        index as int
                    },
                ),
            decreases own.pending_inserts@.len() - index,
        {
            let id: u64 = own.pending_inserts[index];
            if index < more {
                picked.push(id);
                assert(own_pending.take(index + 1) =~= own_pending.take(index as int).push(id));
                assert(picked@ =~= matching.selected@ + own_pending.take(index + 1));
                assert(rest@ =~= own_pending.subrange(more as int, more as int));
            } else {
                rest.push(id);
                assert(rest@ =~= own_pending.subrange(more as int, index + 1));
            }
            index += 1;
        }
        assert(picked@ =~= ids);
        let mut count: usize = 0;
        while count < picked.len()
            invariant
                count <= picked@.len(),
                picked@ == ids,
                self.mutations@ == before + row_mutations(
                    MutationKind::Delete,
                    position.row_index,
                    ids.take(count as int),
                ),
                self.start_position == entered.start_position,
                self.position == position,
                self.next_id == entered.next_id,
                self.scan_limit == entered.scan_limit,
                self.next_id_after == entered.next_id_after,
                self.overlay@ == overlay_before.remove(place as int),
            decreases picked@.len() - count,
        {
            let technical_id: u64 = picked[count];
            self.mutations.push(
                Mutation {
                    kind: MutationKind::Delete,
                    row_index: position.row_index,
                    technical_id,
                },
            );
            count += 1;
            assert(ids.take(count as int) =~= ids.take(count - 1).push(technical_id));
            assert(self.mutations@ =~= before + row_mutations(
                MutationKind::Delete,
                position.row_index,
                ids.take(count as int),
            ));
        }
        own.pending_inserts = rest;
        push_ids(&mut own.selected_deletes, &matching.selected);
        self.overlay.insert(place, own);
        proof {
            assert(ids.take(count as int) =~= ids);
            assert(self.overlay@ =~= overlay_before.update(place as int, own));
            lemma_row_events(diffs, row as int);
            lemma_current_row_is_new(entered, *change);
            lemma_retracted_ids(
                matching,
                own_pending,
                take as nat,
                self.next_id,
                self.next_id_after,
                before,
            );
            lemma_row_added(
                diffs,
                start,
                self.next_id,
                before,
                MutationKind::Delete,
                position.row_index,
                ids,
            );
            lemma_inserts_of_row(
                before,
                MutationKind::Delete,
                position.row_index,
                ids,
                ids.len() as int,
            );
            lemma_pending_shrinks(
                overlay_before,
                place as int,
                own,
                self.next_id,
                self.next_id_after,
                before,
                position.row_index,
                matching,
                more as int,
            );
            assert(pending_fits(own_pending, self.next_id, self.next_id_after, before));
            assert(own_pending.subrange(more as int, own_pending.len() as int)
                =~= own_pending.skip(more as int));
            lemma_row_retracted(
                change.records,
                self.next_id,
                overlay_before,
                place as int,
                own,
                before,
                position.row_index,
                matching.selected@,
                more as int,
            );
        }
        Ok(self.advance(change, take))
    }
}

/// What the overlay says once a row has entered under new IDs.
proof fn lemma_row_entered(
    records: RecordBatch,
    next_id: u64,
    overlay: Seq<OverlayRow>,
    place: int,
    own: OverlayRow,
    mutations: Seq<Mutation>,
    row_index: u64,
    ids: Seq<u64>,
)
    requires
        overlay_tells(records, next_id, overlay, mutations),
        own_rows(records, next_id, mutations),
        canonical_fault(records, row_index as int) is None,
        0 <= place < overlay.len(),
        overlay[place].key@ == canonical_bytes(records, row_index as int),
        overlay_at(overlay, overlay[place].key@, overlay.len() as int) == Some(place),
        own.key@ == overlay[place].key@,
        own.pending_inserts@ == overlay[place].pending_inserts@ + ids,
        own.selected_deletes@ == overlay[place].selected_deletes@,
    ensures
        ({
            let grown = mutations + row_mutations(MutationKind::Insert, row_index, ids);
            &&& overlay_tells(records, next_id, overlay.update(place, own), grown)
            &&& own_rows(records, next_id, grown)
        }),
{
    let name = canonical_bytes(records, row_index as int);
    let part = row_mutations(MutationKind::Insert, row_index, ids);
    let grown = mutations + part;
    let after = overlay.update(place, own);
    assert(pending_of(overlay, name) == overlay[place].pending_inserts@);
    assert(excluded_of(overlay, name) == overlay[place].selected_deletes@);
    assert forall|other: Seq<u8>|
        #![trigger pending_of(after, other)]
        #![trigger excluded_of(after, other)]
        {
            &&& pending_of(after, other) == pending_by(
                records,
                next_id,
                grown,
                other,
                grown.len() as int,
            )
            &&& excluded_of(after, other) == excluded_by(
                records,
                next_id,
                grown,
                other,
                grown.len() as int,
            )
        } by {
        lemma_overlay_updated(overlay, place, own, other);
        lemma_history_inserts(
            records,
            next_id,
            mutations,
            row_index,
            ids,
            other,
            ids.len() as int,
        );
        assert(pending_of(overlay, other) == pending_by(
            records,
            next_id,
            mutations,
            other,
            mutations.len() as int,
        ));
        assert(ids.take(ids.len() as int) =~= ids);
        assert(pending_of(overlay, other) + Seq::<u64>::empty() =~= pending_of(overlay, other));
    }
    assert forall|i: int| mutations.len() <= i < mutations.len()
        + part.len() implies #[trigger] takes_own(records, next_id, grown, i) by {
        assert(grown[i] == part[i - mutations.len()]);
    }
    lemma_takes_own_stays(records, next_id, mutations, part);
}

/// What the overlay says once a retraction has taken existing IDs and the oldest pending ones.
proof fn lemma_row_retracted(
    records: RecordBatch,
    next_id: u64,
    overlay: Seq<OverlayRow>,
    place: int,
    own: OverlayRow,
    mutations: Seq<Mutation>,
    row_index: u64,
    selected: Seq<u64>,
    more: int,
)
    requires
        overlay_tells(records, next_id, overlay, mutations),
        own_rows(records, next_id, mutations),
        canonical_fault(records, row_index as int) is None,
        0 <= place < overlay.len(),
        overlay[place].key@ == canonical_bytes(records, row_index as int),
        overlay_at(overlay, overlay[place].key@, overlay.len() as int) == Some(place),
        own.key@ == overlay[place].key@,
        0 <= more <= overlay[place].pending_inserts@.len(),
        forall|a: int| 0 <= a < selected.len() ==> #[trigger] selected[a] < next_id,
        forall|a: int|
            0 <= a < overlay[place].pending_inserts@.len()
                ==> #[trigger] overlay[place].pending_inserts@[a] >= next_id,
        own.pending_inserts@ == overlay[place].pending_inserts@.skip(more),
        own.selected_deletes@ == overlay[place].selected_deletes@ + selected,
    ensures
        ({
            let ids = selected + overlay[place].pending_inserts@.take(more);
            let grown = mutations + row_mutations(MutationKind::Delete, row_index, ids);
            &&& overlay_tells(records, next_id, overlay.update(place, own), grown)
            &&& own_rows(records, next_id, grown)
        }),
{
    let pending = overlay[place].pending_inserts@;
    let name = canonical_bytes(records, row_index as int);
    let ids = selected + pending.take(more);
    let part = row_mutations(MutationKind::Delete, row_index, ids);
    let grown = mutations + part;
    let after = overlay.update(place, own);
    assert(pending_of(overlay, name) == pending);
    assert(excluded_of(overlay, name) == overlay[place].selected_deletes@);
    assert forall|other: Seq<u8>|
        #![trigger pending_of(after, other)]
        #![trigger excluded_of(after, other)]
        {
            &&& pending_of(after, other) == pending_by(
                records,
                next_id,
                grown,
                other,
                grown.len() as int,
            )
            &&& excluded_of(after, other) == excluded_by(
                records,
                next_id,
                grown,
                other,
                grown.len() as int,
            )
        } by {
        lemma_overlay_updated(overlay, place, own, other);
        assert(pending_of(overlay, other) == pending_by(
            records,
            next_id,
            mutations,
            other,
            mutations.len() as int,
        ));
        lemma_history_deletes(
            records,
            next_id,
            mutations,
            row_index,
            selected,
            more,
            other,
            ids.len() as int,
        );
        if more == 0 {
            assert(pending.skip(0) =~= pending);
            assert(selected.take(ids.len() as int) =~= selected);
        }
    }
    assert forall|i: int| mutations.len() <= i < mutations.len()
        + part.len() implies #[trigger] takes_own(records, next_id, grown, i) by {
        let k = i - mutations.len();
        assert(grown[i] == part[k]);
        assert(part[k].technical_id == ids[k]);
        lemma_history_deletes(
            records,
            next_id,
            mutations,
            row_index,
            selected,
            more,
            name,
            k,
        );
        if k < selected.len() {
            assert(ids[k] == selected[k]);
        } else {
            assert(ids[k] == pending[k - selected.len()]);
            if k == selected.len() {
                assert(pending.skip(0) =~= pending);
            }
        }
    }
    lemma_takes_own_stays(records, next_id, mutations, part);
}

/// Whether a batch deletes an ID.
fn deletes_already(mutations: &Vec<Mutation>, id: u64) -> (found: bool)
    ensures
        found == deletes(mutations@, id),
{
    let mut index: usize = 0;
    while index < mutations.len()
        invariant
            index <= mutations@.len(),
            forall|i: int|
                0 <= i < index ==> !((#[trigger] mutations@[i]).kind is Delete
                    && mutations@[i].technical_id == id),
        decreases mutations@.len() - index,
    {
        let mutation: Mutation = mutations[index];
        if mutation.kind == MutationKind::Delete && mutation.technical_id == id {
            assert(mutations@[index as int].kind is Delete);
            return true;
        }
        index += 1;
    }
    false
}

impl BatchPlanner {
    /// Whether the reply of a target keeps to what was asked for the current row.
    pub fn accepts(&self, matching: &MatchingIds) -> (fits: bool)
        requires
            self.mutations@.len() <= MAX_MUTATIONS_PER_BATCH,
        ensures
            fits == reply_fits(*matching, self.room(), self.next_id, self.mutations@),
    {
        let capacity: u64 = (MAX_MUTATIONS_PER_BATCH - self.mutations.len()) as u64;
        let take: u64 = if self.position.remaining <= capacity {
            self.position.remaining
        } else {
            capacity
        };
        let expected: u64 = if matching.count <= take {
            matching.count
        } else {
            take
        };
        if matching.selected.len() as u64 != expected {
            return false;
        }
        let mut index: usize = 0;
        while index < matching.selected.len()
            invariant
                index <= matching.selected@.len(),
                forall|a: int|
                    0 <= a < index ==> {
                        &&& 0 < #[trigger] matching.selected@[a] < self.next_id
                        &&& !deletes(self.mutations@, matching.selected@[a])
                    },
                forall|a: int, b: int|
                    0 <= a < b < index ==> #[trigger] matching.selected@[a]
                        < #[trigger] matching.selected@[b],
            decreases matching.selected@.len() - index,
        {
            let id: u64 = matching.selected[index];
            if id == 0 || id >= self.next_id || deletes_already(&self.mutations, id) {
                assert(!(0 < matching.selected@[index as int] < self.next_id) || deletes(
                    self.mutations@,
                    matching.selected@[index as int],
                ));
                return false;
            }
            if index > 0 && matching.selected[index - 1] >= id {
                assert(matching.selected@[index - 1] >= matching.selected@[index as int]);
                return false;
            }
            index += 1;
        }
        true
    }
}

/// Appends some IDs.
fn push_ids(ids: &mut Vec<u64>, more: &Vec<u64>)
    ensures
        final(ids)@ == old(ids)@ + more@,
{
    let mut index: usize = 0;
    while index < more.len()
        invariant
            index <= more@.len(),
            ids@ == old(ids)@ + more@.take(index as int),
        decreases more@.len() - index,
    {
        ids.push(more[index]);
        index += 1;
        assert(ids@ =~= old(ids)@ + more@.take(index as int));
    }
    assert(ids@ =~= old(ids)@ + more@);
}

/// The IDs that a retraction takes ascend, and none of them is deleted already.
proof fn lemma_retracted_ids(
    matching: MatchingIds,
    pending: Seq<u64>,
    take: nat,
    next_id: u64,
    next_id_after: u64,
    mutations: Seq<Mutation>,
)
    requires
        reply_fits(matching, take, next_id, mutations),
        pending_fits(pending, next_id, next_id_after, mutations),
        matching.selected@.len() + pending.len() >= take,
        0 < next_id <= next_id_after,
    ensures
        ({
            let ids = retracted(matching, pending, take);
            &&& ids.len() == take
            &&& forall|k: int|
                0 <= k < ids.len() ==> 0 < #[trigger] ids[k] < next_id_after && !deletes(
                    mutations,
                    ids[k],
                )
            &&& forall|j: int, k: int|
                0 <= j < k < ids.len() ==> #[trigger] ids[j] < #[trigger] ids[k]
        }),
{
    let ids = retracted(matching, pending, take);
    let selected = matching.selected@;
    assert forall|k: int| 0 <= k < ids.len() implies 0 < #[trigger] ids[k] < next_id_after
        && !deletes(mutations, ids[k]) by {
        if k < selected.len() {
            assert(ids[k] == selected[k]);
        } else {
            assert(ids[k] == pending[k - selected.len()]);
        }
    }
    assert forall|j: int, k: int| 0 <= j < k < ids.len() implies #[trigger] ids[j]
        < #[trigger] ids[k] by {
        if k < selected.len() {
            assert(selected[j] < selected[k]);
        } else if j < selected.len() {
            assert(ids[j] == selected[j]);
            assert(ids[k] == pending[k - selected.len()]);
        } else {
            assert(pending[j - selected.len()] < pending[k - selected.len()]);
        }
    }
}

/// Pending IDs stay in order once a retraction has taken the oldest of one row.
proof fn lemma_pending_shrinks(
    overlay: Seq<OverlayRow>,
    place: int,
    own: OverlayRow,
    next_id: u64,
    next_id_after: u64,
    mutations: Seq<Mutation>,
    row_index: u64,
    matching: MatchingIds,
    more: int,
)
    requires
        0 <= place < overlay.len(),
        0 <= more <= overlay[place].pending_inserts@.len(),
        own.pending_inserts@ == overlay[place].pending_inserts@.subrange(
            more,
            overlay[place].pending_inserts@.len() as int,
        ),
        forall|e: int|
            0 <= e < overlay.len() ==> pending_fits(
                (#[trigger] overlay[e]).pending_inserts@,
                next_id,
                next_id_after,
                mutations,
            ),
        pending_disjoint(overlay),
        forall|a: int|
            0 <= a < matching.selected@.len() ==> #[trigger] matching.selected@[a] < next_id,
    ensures
        ({
            let after = overlay.update(place, own);
            let ids = matching.selected@ + overlay[place].pending_inserts@.take(more);
            let grown = mutations + row_mutations(MutationKind::Delete, row_index, ids);
            &&& forall|e: int|
                0 <= e < after.len() ==> pending_fits(
                    (#[trigger] after[e]).pending_inserts@,
                    next_id,
                    next_id_after,
                    grown,
                )
            &&& pending_disjoint(after)
        }),
{
    let after = overlay.update(place, own);
    let taken = overlay[place].pending_inserts@;
    let ids = matching.selected@ + taken.take(more);
    let part = row_mutations(MutationKind::Delete, row_index, ids);
    let grown = mutations + part;
    assert forall|id: u64| #[trigger] deletes(grown, id) && id >= next_id && !deletes(
        mutations,
        id,
    ) implies exists|b: int| 0 <= b < more && #[trigger] taken[b] == id by {
        let i = choose|i: int|
            0 <= i < grown.len() && (#[trigger] grown[i]).kind is Delete && grown[i].technical_id
                == id;
        if i < mutations.len() {
            assert(mutations[i].kind is Delete && mutations[i].technical_id == id);
            assert(deletes(mutations, id));
        } else {
            let k = i - mutations.len();
            assert(grown[i] == part[k]);
            assert(part[k].technical_id == ids[k]);
            if k < matching.selected@.len() {
                assert(ids[k] == matching.selected@[k]);
            } else {
                assert(taken[k - matching.selected@.len()] == id);
            }
        }
    }
    assert forall|e: int| 0 <= e < after.len() implies pending_fits(
        (#[trigger] after[e]).pending_inserts@,
        next_id,
        next_id_after,
        grown,
    ) by {
        let pending = after[e].pending_inserts@;
        let before = overlay[e].pending_inserts@;
        let offset = if e == place {
            more
        } else {
            0
        };
        assert(pending_fits(before, next_id, next_id_after, mutations));
        assert forall|a: int| 0 <= a < pending.len() implies {
            &&& next_id <= #[trigger] pending[a] < next_id_after
            &&& !deletes(grown, pending[a])
        } by {
            assert(pending[a] == before[a + offset]);
            if deletes(grown, pending[a]) {
                let b = choose|b: int| 0 <= b < more && #[trigger] taken[b] == pending[a];
                if e == place {
                    assert(before[b] < before[a + more]);
                } else {
                    assert(overlay[e].pending_inserts@[a] != overlay[place].pending_inserts@[b]);
                }
            }
        }
        assert forall|a: int, b: int| 0 <= a < b < pending.len() implies #[trigger] pending[a]
            < #[trigger] pending[b] by {
            assert(before[a + offset] < before[b + offset]);
        }
    }
    assert forall|e: int, f: int, a: int, b: int|
        #![trigger after[e].pending_inserts@[a], after[f].pending_inserts@[b]]
        0 <= e < after.len() && 0 <= f < after.len() && e != f && 0 <= a
            < after[e].pending_inserts@.len() && 0 <= b < after[f].pending_inserts@.len() implies
        after[e].pending_inserts@[a] != after[f].pending_inserts@[b] by {
        let x = if e == place {
            a + more
        } else {
            a
        };
        let y = if f == place {
            b + more
        } else {
            b
        };
        assert(overlay[e].pending_inserts@[x] != overlay[f].pending_inserts@[y]);
    }
}

/// A query asks for what the current row of a planner needs.
pub open spec fn asks(query: Query, planner: BatchPlanner, change: Change) -> bool {
    let key = planner.key(change);
    let pending = pending_of(planner.overlay@, key).len();
    let needed = planner.position.remaining;
    let required = if needed >= pending {
        (needed - pending) as nat
    } else {
        0
    };
    let wanted = if required >= planner.room() {
        required
    } else {
        planner.room()
    };
    &&& query.row_index == planner.position.row_index
    &&& query.needed == needed
    &&& query.take == planner.room()
    &&& query.scan == (if wanted <= planner.scan_limit {
        wanted
    } else {
        planner.scan_limit as nat
    })
    &&& query.excluded@ == excluded_of(planner.overlay@, key)
}

/// A copy of some IDs.
fn copy_ids(ids: &Vec<u64>) -> (copy: Vec<u64>)
    ensures
        copy@ == ids@,
{
    let mut copy: Vec<u64> = Vec::new();
    let mut index: usize = 0;
    while index < ids.len()
        invariant
            index <= ids@.len(),
            copy@ == ids@.take(index as int),
        decreases ids@.len() - index,
    {
        copy.push(ids[index]);
        index += 1;
        assert(copy@ =~= ids@.take(index as int));
    }
    assert(copy@ =~= ids@);
    copy
}

/// No mutation of the batch belongs to the row at which planning stands.
proof fn lemma_current_row_is_new(planner: BatchPlanner, change: Change)
    requires
        planner.wf(change),
    ensures
        forall|i: int|
            0 <= i < planner.mutations@.len() ==> (#[trigger] planner.mutations@[i]).row_index
                < planner.position.row_index,
{
    let diffs = change.diffs@;
    let start = offset_of(diffs, planner.start_position);
    let row = planner.position.row_index as int;
    lemma_row_events(diffs, row);
    assert forall|i: int| 0 <= i < planner.mutations@.len() implies (
    #[trigger] planner.mutations@[i]).row_index < planner.position.row_index by {
        assert(mutation_fits(diffs, start, planner.next_id, planner.mutations@, i));
        let other = planner.mutations@[i].row_index as int;
        if other >= row {
            crate::relation::position::lemma_events_grow(diffs, row, other);
        }
    }
}

/// Pending IDs stay in order once a row has added the next ones.
proof fn lemma_pending_grows(
    overlay: Seq<OverlayRow>,
    place: int,
    own: OverlayRow,
    next_id: u64,
    first: u64,
    mutations: Seq<Mutation>,
    row_index: u64,
    ids: Seq<u64>,
)
    requires
        0 <= place < overlay.len(),
        next_id <= first,
        first + ids.len() <= u64::MAX,
        ids == id_range(first, ids.len()),
        own.pending_inserts@ == overlay[place].pending_inserts@ + ids,
        forall|e: int|
            0 <= e < overlay.len() ==> pending_fits(
                (#[trigger] overlay[e]).pending_inserts@,
                next_id,
                first,
                mutations,
            ),
        pending_disjoint(overlay),
        forall|i: int|
            0 <= i < mutations.len() && (#[trigger] mutations[i]).kind is Delete
                ==> mutations[i].technical_id < first,
    ensures
        ({
            let after = overlay.update(place, own);
            let grown = mutations + row_mutations(MutationKind::Insert, row_index, ids);
            &&& forall|e: int|
                0 <= e < after.len() ==> pending_fits(
                    (#[trigger] after[e]).pending_inserts@,
                    next_id,
                    (first + ids.len()) as u64,
                    grown,
                )
            &&& pending_disjoint(after)
        }),
{
    let after = overlay.update(place, own);
    let part = row_mutations(MutationKind::Insert, row_index, ids);
    let grown = mutations + part;
    assert forall|id: u64| deletes(grown, id) implies #[trigger] deletes(mutations, id) by {
        let i = choose|i: int|
            0 <= i < grown.len() && (#[trigger] grown[i]).kind is Delete && grown[i].technical_id
                == id;
        if i >= mutations.len() {
            assert(grown[i] == part[i - mutations.len()]);
        } else {
            assert(mutations[i].kind is Delete);
        }
    }
    assert forall|e: int| 0 <= e < after.len() implies pending_fits(
        (#[trigger] after[e]).pending_inserts@,
        next_id,
        (first + ids.len()) as u64,
        grown,
    ) by {
        let pending = after[e].pending_inserts@;
        let before = overlay[e].pending_inserts@;
        assert(pending_fits(before, next_id, first, mutations));
        assert forall|a: int| 0 <= a < pending.len() implies {
            &&& next_id <= #[trigger] pending[a] < first + ids.len()
            &&& !deletes(grown, pending[a])
        } by {
            if a < before.len() {
                assert(pending[a] == before[a]);
            } else {
                assert(pending[a] == ids[a - before.len()]);
                if deletes(mutations, pending[a]) {
                    let i = choose|i: int|
                        0 <= i < mutations.len() && (#[trigger] mutations[i]).kind is Delete
                            && mutations[i].technical_id == pending[a];
                    assert(mutations[i].technical_id < first);
                }
            }
        }
        assert forall|a: int, b: int| 0 <= a < b < pending.len() implies #[trigger] pending[a]
            < #[trigger] pending[b] by {
            if b < before.len() {
                assert(before[a] < before[b]);
            } else if a < before.len() {
                assert(pending[b] == ids[b - before.len()]);
                assert(before[a] < first);
            }
        }
    }
    assert forall|e: int, f: int, a: int, b: int|
        #![trigger after[e].pending_inserts@[a], after[f].pending_inserts@[b]]
        0 <= e < after.len() && 0 <= f < after.len() && e != f && 0 <= a
            < after[e].pending_inserts@.len() && 0 <= b < after[f].pending_inserts@.len() implies
        after[e].pending_inserts@[a] != after[f].pending_inserts@[b] by {
        let pe = overlay[e].pending_inserts@;
        let pf = overlay[f].pending_inserts@;
        assert(pending_fits(pe, next_id, first, mutations));
        assert(pending_fits(pf, next_id, first, mutations));
        if a < pe.len() && b < pf.len() {
            assert(overlay[e].pending_inserts@[a] != overlay[f].pending_inserts@[b]);
        } else if a < pe.len() {
            assert(pe[a] < first);
        } else if b < pf.len() {
            assert(pf[b] < first);
        }
    }
}

} // verus!
