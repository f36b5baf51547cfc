//! What a relation refuses, and how it says so.

use crate::relation::row::{RowError, RowErrorModel};
use crate::text::{decimal, push_decimal};
use vstd::prelude::*;

verus! {

/// A rule of relations that was broken.
#[derive(Clone, Copy, Debug, PartialEq, Eq, Structural)]
pub enum RelationFault {
    NextId,
    EventCountOverflow,
    BatchLimit,
    Reservation { next_id: u64, admission: u64 },
    RetractionOverflow,
    RetractionLimit,
    LookupResults,
    InvalidMatches,
    MissingInstances { row_index: usize, needed: u64, count: u64 },
    PlanCoverage,
    InsertFrontier,
    PreparedIds,
    PreparedInserts,
    MissingDeletion,
    PreparedDeletions,
    ConsumedInsert,
    PositiveOverflow,
    ReservationOverflow,
    CapacityExhausted,
    RecoveryCapacity,
    EventBytesOverflow,
    Truncated,
    PlanVersion,
    PlanCount,
    TrailingBytes,
}

/// What a fault is called.
pub open spec fn relation_fault_text(value: RelationFault) -> Seq<char> {
    match value {
        RelationFault::NextId => "relation sink: next ID is outside 1..=i64::MAX+1"@,
        RelationFault::EventCountOverflow => {
            "relation sink: relation batch event count exceeds u64"@
        },
        RelationFault::BatchLimit => "relation sink: relation batch exceeds its mutation limit"@,
        RelationFault::Reservation { next_id, admission } => {
            "relation sink: technical ID range from "@ + decimal(next_id as nat)
                + " cannot reserve "@ + decimal(admission as nat) + " inserts"@
        },
        RelationFault::RetractionOverflow => "relation sink: retraction count overflows u64"@,
        RelationFault::RetractionLimit => {
            "relation sink: retraction exceeds the maximum target row count"@
        },
        RelationFault::LookupResults => {
            "relation sink: target returned a different number of lookup results"@
        },
        RelationFault::InvalidMatches => {
            "relation sink: target returned invalid matching row IDs or count"@
        },
        RelationFault::MissingInstances { row_index, needed, count } => {
            "relation sink: row "@ + decimal(row_index as nat) + " needs "@
                + decimal(needed as nat) + " existing instances, but only "@
                + decimal(count as nat) + " exist"@
        },
        RelationFault::PlanCoverage => {
            "relation sink: prepared relation plan does not cover its input"@
        },
        RelationFault::InsertFrontier => "relation sink: invalid insert ID frontier"@,
        RelationFault::PreparedIds => "relation sink: invalid prepared technical IDs"@,
        RelationFault::PreparedInserts => "relation sink: prepared inserts do not match the input"@,
        RelationFault::MissingDeletion => "relation sink: missing prepared deletion"@,
        RelationFault::PreparedDeletions => {
            "relation sink: prepared deletions do not match the input"@
        },
        RelationFault::ConsumedInsert => {
            "relation sink: deletion cannot consume a later or different insert"@
        },
        RelationFault::PositiveOverflow => "relation sink: positive event count exceeds u64"@,
        RelationFault::ReservationOverflow => {
            "relation sink: technical ID reservation exceeds u64"@
        },
        RelationFault::CapacityExhausted => "relation sink: technical ID capacity is exhausted"@,
        RelationFault::RecoveryCapacity => {
            "relation sink: buffered positive events exceed the remaining technical ID capacity"@
        },
        RelationFault::EventBytesOverflow => {
            "relation sink: target mutation byte charge exceeds u64"@
        },
        RelationFault::Truncated => "relation sink: truncated relation sink state"@,
        RelationFault::PlanVersion => "relation sink: unknown relation-plan version"@,
        RelationFault::PlanCount => "relation sink: invalid relation-plan mutation count"@,
        RelationFault::TrailingBytes => "buffered sink: trailing control-state bytes"@,
    }
}

impl RelationFault {
    /// What a fault is called.
    pub fn message(&self) -> (text: String)
        ensures
            text@ == relation_fault_text(*self),
    {
        match self {
            RelationFault::NextId => "relation sink: next ID is outside 1..=i64::MAX+1".to_owned(),
            RelationFault::EventCountOverflow => {
                "relation sink: relation batch event count exceeds u64".to_owned()
            },
            RelationFault::BatchLimit => {
                "relation sink: relation batch exceeds its mutation limit".to_owned()
            },
            RelationFault::Reservation { next_id, admission } => {
                let mut text: String = "relation sink: technical ID range from ".to_owned();
                push_decimal(&mut text, *next_id as u64);
                text.append(" cannot reserve ");
                push_decimal(&mut text, *admission as u64);
                text.append(" inserts");
                text
            },
            RelationFault::RetractionOverflow => {
                "relation sink: retraction count overflows u64".to_owned()
            },
            RelationFault::RetractionLimit => {
                "relation sink: retraction exceeds the maximum target row count".to_owned()
            },
            RelationFault::LookupResults => {
                "relation sink: target returned a different number of lookup results".to_owned()
            },
            RelationFault::InvalidMatches => {
                "relation sink: target returned invalid matching row IDs or count".to_owned()
            },
            RelationFault::MissingInstances { row_index, needed, count } => {
                let mut text: String = "relation sink: row ".to_owned();
                push_decimal(&mut text, *row_index as u64);
                text.append(" needs ");
                push_decimal(&mut text, *needed as u64);
                text.append(" existing instances, but only ");
                push_decimal(&mut text, *count as u64);
                text.append(" exist");
                text
            },
            RelationFault::PlanCoverage => {
                "relation sink: prepared relation plan does not cover its input".to_owned()
            },
            RelationFault::InsertFrontier => "relation sink: invalid insert ID frontier".to_owned(),
            RelationFault::PreparedIds => {
                "relation sink: invalid prepared technical IDs".to_owned()
            },
            RelationFault::PreparedInserts => {
                "relation sink: prepared inserts do not match the input".to_owned()
            },
            RelationFault::MissingDeletion => "relation sink: missing prepared deletion".to_owned(),
            RelationFault::PreparedDeletions => {
                "relation sink: prepared deletions do not match the input".to_owned()
            },
            RelationFault::ConsumedInsert => {
                "relation sink: deletion cannot consume a later or different insert".to_owned()
            },
            RelationFault::PositiveOverflow => {
                "relation sink: positive event count exceeds u64".to_owned()
            },
            RelationFault::ReservationOverflow => {
                "relation sink: technical ID reservation exceeds u64".to_owned()
            },
            RelationFault::CapacityExhausted => {
                "relation sink: technical ID capacity is exhausted".to_owned()
            },
            RelationFault::RecoveryCapacity => {
                "relation sink: buffered positive events exceed the remaining technical ID capacity".to_owned()
            },
            RelationFault::EventBytesOverflow => {
                "relation sink: target mutation byte charge exceeds u64".to_owned()
            },
            RelationFault::Truncated => "relation sink: truncated relation sink state".to_owned(),
            RelationFault::PlanVersion => "relation sink: unknown relation-plan version".to_owned(),
            RelationFault::PlanCount => {
                "relation sink: invalid relation-plan mutation count".to_owned()
            },
            RelationFault::TrailingBytes => {
                "buffered sink: trailing control-state bytes".to_owned()
            },
        }
    }
}

/// Why relational work cannot go on.
#[derive(Debug)]
pub enum RelationError {
    Fault(RelationFault),
    Row(RowError),
    Target(String),
}

/// What a `RelationError` says.
pub ghost enum RelationErrorModel {
    Fault(RelationFault),
    Row(RowErrorModel),
    Target(Seq<char>),
}

impl View for RelationError {
    type V = RelationErrorModel;

    open spec fn view(&self) -> RelationErrorModel {
        match *self {
            RelationError::Fault(fault) => RelationErrorModel::Fault(fault),
            RelationError::Row(error) => RelationErrorModel::Row(error@),
            RelationError::Target(message) => RelationErrorModel::Target(message@),
        }
    }
}

} // verus!
