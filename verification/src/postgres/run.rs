//! The deliveries that carry one change to its end.

use crate::change::{events, lemma_row_events, Change};
use crate::postgres::runtime::{
    delivery_start, law_settlement_stands_behind_delivery, ready_bytes, ready_of, settlement_of,
    state_mismatch, ReadyState, Settlement,
};
use crate::postgres::state::{
    law_state_round_trip, read_as, read_fault, settled, state_fault, PostgresSinkState,
};
use crate::relation::position::{
    lemma_steps_through, offset_of, row_holds, stands_for, MutationKind,
};
use vstd::prelude::*;

verus! {

/// A delivery that may be stored and belongs to a change.
pub open spec fn delivers(delivery: PostgresSinkState, change: Change) -> bool {
    &&& delivery is Prepared
    &&& state_fault(delivery) is None
    &&& state_mismatch(delivery, change.diffs@) is None
}

/// A delivery begins where a ready sink goes on.
pub open spec fn follows(delivery: PostgresSinkState, ready: ReadyState, change: Change) -> bool {
    &&& delivery->delivery == ready.next_delivery
    &&& delivery->next_id_before == ready.next_id
    &&& delivery->start_position == delivery_start(ready, change)
}

/// The deliveries of one change: each begins where the settlement of the one before it has left
/// the sink, and only the last one completes the input.
pub open spec fn carries(
    change: Change,
    first: ReadyState,
    deliveries: Seq<PostgresSinkState>,
) -> bool {
    &&& first.position is None
    &&& deliveries.len() > 0
    &&& forall|k: int| 0 <= k < deliveries.len() ==> delivers(#[trigger] deliveries[k], change)
    &&& follows(deliveries[0], first, change)
    &&& forall|k: int|
        0 < k < deliveries.len() ==> follows(
            #[trigger] deliveries[k],
            ready_of(settlement_of(deliveries[k - 1])),
            change,
        )
    &&& forall|k: int|
        0 <= k < deliveries.len() ==> settlement_of(#[trigger] deliveries[k]).completes_input == (k
            == deliveries.len() - 1)
}

/// How many events lie before a delivery.
pub open spec fn begins_at(delivery: PostgresSinkState, change: Change) -> int {
    offset_of(change.diffs@, delivery->start_position)
}

/// How many events lie before the end of a delivery.
pub open spec fn ends_at(delivery: PostgresSinkState, change: Change) -> int {
    begins_at(delivery, change) + delivery->mutations@.len()
}

/// The mutation at `index` of a delivery is the one of the event at `offset`: it names the row
/// of the event, and inserts where the row enters.
pub open spec fn carries_event(
    delivery: PostgresSinkState,
    change: Change,
    index: int,
    offset: int,
) -> bool {
    let mutation = delivery->mutations@[index];
    let row = mutation.row_index as int;
    &&& 0 <= index < delivery->mutations@.len()
    &&& begins_at(delivery, change) + index == offset
    &&& row_holds(change.diffs@, row, offset)
    &&& (mutation.kind == MutationKind::Insert) == (change.diffs@[row] > 0)
}

#[verifier::rlimit(40)]
proof fn lemma_delivery(
    change: Change,
    first: ReadyState,
    deliveries: Seq<PostgresSinkState>,
    k: int,
)
    requires
        change.wf(),
        carries(change, first, deliveries),
        0 <= k < deliveries.len(),
    ensures
        k == 0 ==> begins_at(deliveries[k], change) == 0,
        k > 0 ==> begins_at(deliveries[k], change) == ends_at(deliveries[k - 1], change),
        k == deliveries.len() - 1 ==> ends_at(deliveries[k], change) == events(
            change.diffs@,
            change.diffs@.len() as int,
        ),
        deliveries[k]->mutations@.len() > 0,
        forall|i: int|
            0 <= i < deliveries[k]->mutations@.len() ==> #[trigger] carries_event(
                deliveries[k],
                change,
                i,
                begins_at(deliveries[k], change) + i,
            ),
{
    let diffs = change.diffs@;
    let delivery = deliveries[k];
    assert(delivers(delivery, change));
    law_settlement_stands_behind_delivery(delivery, diffs);
    if k == 0 {
        lemma_row_events(diffs, 0);
        assert(diffs[0] != 0);
    } else {
        assert(delivers(deliveries[k - 1], change));
        assert(!settlement_of(deliveries[k - 1]).completes_input);
        law_settlement_stands_behind_delivery(deliveries[k - 1], diffs);
        assert(follows(deliveries[k], ready_of(settlement_of(deliveries[k - 1])), change));
    }
    let start = begins_at(delivery, change);
    let next_id = (settled(delivery)->0).1;
    lemma_steps_through(
        diffs,
        next_id,
        delivery->start_position,
        delivery->Prepared_continuation,
        delivery->mutations@,
    );
    assert forall|i: int| 0 <= i < delivery->mutations@.len() implies #[trigger] carries_event(
        delivery,
        change,
        i,
        start + i,
    ) by {
        assert(stands_for(diffs, delivery->mutations@, start, next_id, i));
    }
}

#[verifier::rlimit(40)]
proof fn lemma_ends_grow(
    change: Change,
    first: ReadyState,
    deliveries: Seq<PostgresSinkState>,
    low: int,
    high: int,
)
    requires
        change.wf(),
        carries(change, first, deliveries),
        0 <= low < high < deliveries.len(),
    ensures
        ends_at(deliveries[low], change) <= begins_at(deliveries[high], change),
    decreases high - low,
{
    lemma_delivery(change, first, deliveries, high);
    if low < high - 1 {
        lemma_ends_grow(change, first, deliveries, low, high - 1);
        lemma_delivery(change, first, deliveries, high - 1);
    }
}

#[verifier::rlimit(40)]
proof fn lemma_carried(
    change: Change,
    first: ReadyState,
    deliveries: Seq<PostgresSinkState>,
    k: int,
    offset: int,
) -> (place: (int, int))
    requires
        change.wf(),
        carries(change, first, deliveries),
        0 <= k < deliveries.len(),
        0 <= offset < ends_at(deliveries[k], change),
    ensures
        0 <= place.0 <= k,
        carries_event(deliveries[place.0], change, place.1, offset),
    decreases k,
{
    lemma_delivery(change, first, deliveries, k);
    let start = begins_at(deliveries[k], change);
    if offset < start {
        lemma_carried(change, first, deliveries, k - 1, offset)
    } else {
        assert(carries_event(deliveries[k], change, offset - start, start + (offset - start)));
        (k, offset - start)
    }
}

/// The deliveries of one change carry every event of it, and each event once: for each there is
/// one delivery and one mutation of it that names the row of the event and does to it what its
/// difference says.
#[verifier::rlimit(40)]
pub proof fn law_deliveries_carry_each_event_once(
    change: Change,
    first: ReadyState,
    deliveries: Seq<PostgresSinkState>,
    offset: int,
)
    requires
        change.wf(),
        carries(change, first, deliveries),
        0 <= offset < events(change.diffs@, change.diffs@.len() as int),
    ensures
        exists|k: int, i: int|
            0 <= k < deliveries.len() && #[trigger] carries_event(
                deliveries[k],
                change,
                i,
                offset,
            ),
        forall|k: int, i: int, l: int, j: int|
            0 <= k < deliveries.len() && 0 <= l < deliveries.len() && #[trigger] carries_event(
                deliveries[k],
                change,
                i,
                offset,
            ) && #[trigger] carries_event(deliveries[l], change, j, offset) ==> k == l && i == j,
{
    let last = deliveries.len() - 1;
    lemma_delivery(change, first, deliveries, last);
    let place = lemma_carried(change, first, deliveries, last, offset);
    assert(carries_event(deliveries[place.0], change, place.1, offset));
    assert forall|k: int, i: int, l: int, j: int|
        0 <= k < deliveries.len() && 0 <= l < deliveries.len() && #[trigger] carries_event(
            deliveries[k],
            change,
            i,
            offset,
        ) && #[trigger] carries_event(deliveries[l], change, j, offset) implies k == l && i
        == j by {
        if k < l {
            lemma_ends_grow(change, first, deliveries, k, l);
        } else if l < k {
            lemma_ends_grow(change, first, deliveries, l, k);
        }
    }
}

/// After a restart a sink goes on where the settled delivery has left it: what is stored then
/// reads back as the same frontiers and the same position.
pub proof fn law_settled_sink_is_restored(settlement: Settlement, restored: PostgresSinkState)
    requires
        state_fault(
            PostgresSinkState::Ready {
                next_delivery: settlement.next_delivery,
                next_id: settlement.next_id,
                position: settlement.position,
            },
        ) is None,
        read_as(ready_bytes(ready_of(settlement)), restored),
    ensures
        read_fault(ready_bytes(ready_of(settlement))) is None,
        restored == (PostgresSinkState::Ready {
            next_delivery: settlement.next_delivery,
            next_id: settlement.next_id,
            position: settlement.position,
        }),
{
    law_state_round_trip(
        PostgresSinkState::Ready {
            next_delivery: settlement.next_delivery,
            next_id: settlement.next_id,
            position: settlement.position,
        },
    );
}

} // verus!
