//! The stored instances of a row, as a target answers a query with them.

use crate::change::Change;
use crate::relation::batch::MAX_MUTATIONS_PER_BATCH;
use crate::relation::stepwise::{
    asks, capped_sum, deletes, pending_of, reply_fits, BatchPlanner, MatchingIds, Query,
};
use vstd::prelude::*;

verus! {

/// The IDs that are not among the excluded ones, in their order.
pub open spec fn kept(ids: Seq<u64>, excluded: Seq<u64>) -> Seq<u64>
    decreases ids.len(),
{
    if ids.len() == 0 {
        Seq::empty()
    } else if excluded.contains(ids.last()) {
        kept(ids.drop_last(), excluded)
    } else {
        kept(ids.drop_last(), excluded).push(ids.last())
    }
}

/// How many of the stored instances are counted: no more than the scan asks for.
pub open spec fn counted(ids: Seq<u64>, query: Query) -> nat {
    let found = kept(ids, query.excluded@).len();
    if found <= query.scan {
        found
    } else {
        query.scan as nat
    }
}

/// The first of the stored instances, as many as are counted and taken.
pub open spec fn chosen(ids: Seq<u64>, query: Query) -> Seq<u64> {
    let count = counted(ids, query);
    kept(ids, query.excluded@).take(
        if count <= query.take {
            count as int
        } else {
            query.take as int
        },
    )
}

fn holds_id(ids: &Vec<u64>, id: u64) -> (held: bool)
    ensures
        held == ids@.contains(id),
{
    let mut index: usize = 0;
    while index < ids.len()
        invariant
            index <= ids@.len(),
            forall|i: int| 0 <= i < index ==> #[trigger] ids@[i] != id,
        decreases ids@.len() - index,
    {
        if ids[index] == id {
            assert(ids@[index as int] == id);
            return true;
        }
        index += 1;
    }
    false
}

/// Answers a query from the IDs that a target stores for its row: the excluded ones are left
/// out, and the rest is counted and taken as far as the query asks.
pub fn select_instances(ids: &Vec<u64>, query: &Query) -> (matching: MatchingIds)
    ensures
        matching.count == counted(ids@, *query),
        matching.selected@ == chosen(ids@, *query),
{
    let mut count: u64 = 0;
    let mut selected: Vec<u64> = Vec::new();
    let mut index: usize = 0;
    assert(ids@.take(0) =~= Seq::empty());
    assert(selected@ =~= chosen(ids@.take(0), *query));
    while index < ids.len()
        invariant
            index <= ids@.len(),
            count == counted(ids@.take(index as int), *query),
            selected@ == chosen(ids@.take(index as int), *query),
        decreases ids@.len() - index,
    {
        let id: u64 = ids[index];
        let ghost before = kept(ids@.take(index as int), query.excluded@);
        assert(ids@.take(index + 1).drop_last() =~= ids@.take(index as int));
        assert(ids@.take(index + 1).last() == id);
        if !holds_id(&query.excluded, id) {
            assert(kept(ids@.take(index + 1), query.excluded@) == before.push(id));
            if count < query.scan {
                if count < query.take {
                    selected.push(id);
                }
                count += 1;
            }
            assert(selected@ =~= chosen(ids@.take(index + 1), *query));
        }
        index += 1;
    }
    assert(ids@.take(index as int) =~= ids@);
    MatchingIds { count, selected }
}

proof fn lemma_kept(ids: Seq<u64>, excluded: Seq<u64>)
    requires
        forall|i: int, j: int| 0 <= i < j < ids.len() ==> #[trigger] ids[i] < #[trigger] ids[j],
    ensures
        forall|a: int|
            0 <= a < kept(ids, excluded).len() ==> ids.contains(#[trigger] kept(ids, excluded)[a])
                && !excluded.contains(kept(ids, excluded)[a]),
        forall|a: int, b: int|
            0 <= a < b < kept(ids, excluded).len() ==> #[trigger] kept(ids, excluded)[a]
                < #[trigger] kept(ids, excluded)[b],
    decreases ids.len(),
{
    if ids.len() > 0 {
        let rest = ids.drop_last();
        lemma_kept(rest, excluded);
        let found = kept(ids, excluded);
        let before = kept(rest, excluded);
        assert(ids[ids.len() - 1] == ids.last());
        assert forall|a: int| 0 <= a < before.len() implies ids.contains(#[trigger] before[a])
            && before[a] < ids.last() by {
            assert(rest.contains(before[a]));
            let i = rest.index_of(before[a]);
            assert(ids[i] == before[a]);
        }
        assert forall|a: int, b: int| 0 <= a < b < found.len() implies #[trigger] found[a]
            < #[trigger] found[b] by {
            if b < before.len() {
                assert(before[a] < before[b]);
            } else {
                assert(found[a] == before[a]);
            }
        }
        assert forall|a: int| 0 <= a < found.len() implies ids.contains(#[trigger] found[a])
            && !excluded.contains(found[a]) by {
            if a < before.len() {
                assert(found[a] == before[a]);
            }
        }
    }
}

/// A true reply is accepted: where the stored IDs of the row ascend, lie below the frontier and
/// are deleted by the batch only where the query excludes them, what is selected of them keeps
/// to what was asked.
pub proof fn law_true_reply_is_accepted(
    planner: BatchPlanner,
    change: Change,
    query: Query,
    ids: Seq<u64>,
    matching: MatchingIds,
)
    requires
        asks(query, planner, change),
        forall|i: int| 0 <= i < ids.len() ==> 0 < #[trigger] ids[i] < planner.next_id,
        forall|i: int, j: int| 0 <= i < j < ids.len() ==> #[trigger] ids[i] < #[trigger] ids[j],
        forall|i: int|
            0 <= i < ids.len() && deletes(planner.mutations@, #[trigger] ids[i])
                ==> query.excluded@.contains(ids[i]),
        matching.count == counted(ids, query),
        matching.selected@ == chosen(ids, query),
    ensures
        reply_fits(matching, planner.room(), planner.next_id, planner.mutations@),
{
    let found = kept(ids, query.excluded@);
    lemma_kept(ids, query.excluded@);
    assert forall|a: int| 0 <= a < matching.selected@.len() implies 0
        < #[trigger] matching.selected@[a] < planner.next_id && !deletes(
        planner.mutations@,
        matching.selected@[a],
    ) by {
        assert(matching.selected@[a] == found[a]);
        let i = ids.index_of(found[a]);
        assert(ids[i] == found[a]);
    }
    assert forall|a: int, b: int| 0 <= a < b < matching.selected@.len() implies
        #[trigger] matching.selected@[a] < #[trigger] matching.selected@[b] by {
        assert(found[a] < found[b]);
    }
}

proof fn lemma_kept_iff(ids: Seq<u64>, excluded: Seq<u64>, id: u64)
    ensures
        kept(ids, excluded).contains(id) <==> ids.contains(id) && !excluded.contains(id),
    decreases ids.len(),
{
    if ids.len() > 0 {
        let rest = ids.drop_last();
        let before = kept(rest, excluded);
        let now = kept(ids, excluded);
        lemma_kept_iff(rest, excluded, id);
        assert(ids =~= rest.push(ids.last()));
        if rest.contains(id) {
            let i = rest.index_of(id);
            assert(ids[i] == id);
        }
        if ids.contains(id) && id != ids.last() {
            let i = ids.index_of(id);
            assert(rest[i] == id);
        }
        if !excluded.contains(ids.last()) {
            assert(now == before.push(ids.last()));
            if before.contains(id) {
                let i = before.index_of(id);
                assert(now[i] == id);
            }
            assert(now[before.len() as int] == ids.last());
            if now.contains(id) && id != ids.last() {
                let i = now.index_of(id);
                assert(before[i] == id);
            }
        }
    }
}

/// No stored instance is overlooked: what a row may be taken from are exactly the stored
/// instances that are not excluded. They are counted up to what the scan asks for, and the first
/// of them are chosen.
pub proof fn law_no_instance_is_overlooked(ids: Seq<u64>, query: Query, id: u64)
    ensures
        ({
            let found = kept(ids, query.excluded@);
            let count = counted(ids, query);
            &&& found.contains(id) <==> ids.contains(id) && !query.excluded@.contains(id)
            &&& count == found.len() || count == query.scan && count < found.len()
            &&& chosen(ids, query).is_prefix_of(found)
            &&& chosen(ids, query).len() == count || chosen(ids, query).len() == query.take
                && query.take < count
        }),
{
    let found = kept(ids, query.excluded@);
    lemma_kept_iff(ids, query.excluded@, id);
    let size = chosen(ids, query).len() as int;
    assert(chosen(ids, query) =~= found.take(size));
}

/// A retraction is never refused while there are enough instances: where the stored instances
/// that the batch does not delete yet, and the pending ones of the row, make up what the row
/// takes away, what the target is asked to count suffices to find that out.
pub proof fn law_enough_instances_are_never_missing(
    planner: BatchPlanner,
    change: Change,
    query: Query,
    ids: Seq<u64>,
)
    requires
        asks(query, planner, change),
        planner.scan_limit >= planner.position.remaining,
        planner.mutations@.len() <= MAX_MUTATIONS_PER_BATCH,
        kept(ids, query.excluded@).len() + pending_of(
            planner.overlay@,
            planner.key(change),
        ).len() >= planner.position.remaining,
    ensures
        capped_sum(
            counted(ids, query) as u64,
            pending_of(planner.overlay@, planner.key(change)).len(),
        ) >= planner.position.remaining,
{
}

} // verus!
