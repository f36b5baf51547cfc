//! What the faults of a buffer are called.

use crate::buffered::state::BufferFault;
use crate::text::{decimal, push_decimal};
use vstd::prelude::*;

verus! {

/// What a fault is called.
pub open spec fn buffer_fault_text(value: BufferFault) -> Seq<char> {
    match value {
        BufferFault::Truncated => "buffered sink: truncated control state"@,
        BufferFault::Version => "buffered sink: unknown control-state version"@,
        BufferFault::Phase => "buffered sink: unknown control-state phase"@,
        BufferFault::TrailingBytes => "buffered sink: trailing control-state bytes"@,
        BufferFault::HeadTag => "buffered sink: invalid buffer-head tag"@,
        BufferFault::InvalidState => "buffered sink: invalid buffer control state"@,
        BufferFault::InvalidSettlement => "buffered sink: invalid prepared settlement"@,
        BufferFault::NextBatchIdZero => "buffered sink: next batch ID is zero"@,
        BufferFault::BatchIdRange => "buffered sink: prepared batch ID is outside 1..u64::MAX"@,
        BufferFault::BatchIdCapacity => {
            "buffered sink: buffered input cannot drain before the batch ID range is exhausted"@
        },
        BufferFault::EventLimitZero => "buffered sink: batch event limit must be nonzero"@,
        BufferFault::EncodedLimitZero => "buffered sink: batch encoded-byte limit must be nonzero"@,
        BufferFault::ItemLimitZero => "buffered sink: buffer item byte limit must be nonzero"@,
        BufferFault::TargetLimitZero => "buffered sink: target batch byte limit must be nonzero"@,
        BufferFault::EmptyBuffer => "buffered sink: cannot load a batch from an empty buffer"@,
        BufferFault::HeadReachesTail => "buffered sink: buffer head reaches or exceeds its tail"@,
        BufferFault::EntryMissing { sequence } => {
            "buffered sink: buffer entry "@ + decimal(sequence as nat) + " is missing"@
        },
        BufferFault::EntryTooLarge { sequence } => {
            "buffered sink: buffer entry "@ + decimal(sequence as nat)
                + " exceeds the delivery byte limit"@
        },
        BufferFault::EntryUndecodable { sequence } => {
            "buffered sink: buffer entry "@ + decimal(sequence as nat) + " does not decode"@
        },
        BufferFault::SchemaMismatch => {
            "buffered sink: buffered Change Schema differs from the bound Schema"@
        },
        BufferFault::EncodedOverflow => "buffered sink: encoded Change size exceeds u64"@,
        BufferFault::EntryBoundary => {
            "buffered sink: an entry-boundary position has a nonzero row index"@
        },
        BufferFault::PositionMismatch => {
            "buffered sink: buffer position does not match its Change"@
        },
        BufferFault::RowIndexOutside => "buffered sink: buffer row index exceeds its Change"@,
        BufferFault::ZeroCharge => "buffered sink: target event byte charge must be nonzero"@,
        BufferFault::OversizedMutation => {
            "buffered sink: one target mutation exceeds the target batch byte limit"@
        },
        BufferFault::RetainedUnderflow => "buffered sink: buffer retained-byte count underflow"@,
        BufferFault::PendingUnderflow => "buffered sink: buffer pending-event count underflow"@,
        BufferFault::CountOverflow => "buffered sink: Change event count exceeds u64"@,
        BufferFault::PendingOverflow => "buffered sink: buffer pending-event count exceeds u64"@,
        BufferFault::PositiveOverflow => "buffered sink: buffer positive-event count exceeds u64"@,
        BufferFault::RetainedOverflow => "buffered sink: buffer retained-byte count exceeds u64"@,
        BufferFault::SequenceExhausted => "buffered sink: buffer sequence is exhausted"@,
        BufferFault::AccountingExceeded => {
            "buffered sink: buffer contents exceed their control-state accounting"@
        },
        BufferFault::AccountingMismatch => {
            "buffered sink: buffer contents do not match their control-state accounting"@
        },
        BufferFault::OutsideRange => {
            "buffered sink: buffer contains an entry outside its control-state range"@
        },
        BufferFault::CapacityExceeded => {
            "buffered sink: buffer control state exceeds its capacity"@
        },
        BufferFault::RetainedCapacity => {
            "buffered sink: buffer retained-byte capacity is exhausted"@
        },
        BufferFault::EventCapacity => "buffered sink: buffered-event capacity is exhausted"@,
        BufferFault::ChangeTooManyEvents => {
            "buffered sink: Change exceeds the buffered-event capacity"@
        },
        BufferFault::ItemCapacity => {
            "buffered sink: encoded Change exceeds the single-item byte capacity"@
        },
        BufferFault::EntryExists { sequence } => {
            "buffered sink: buffer entry "@ + decimal(sequence as nat) + " already exists"@
        },
        BufferFault::SettledEntryMissing { sequence } => {
            "buffered sink: settled buffer entry "@ + decimal(sequence as nat) + " is missing"@
        },
        BufferFault::EventSettlement => "buffered sink: invalid prepared event settlement"@,
        BufferFault::DeliveryLimit => "buffered sink: prepared delivery exceeds the event limit"@,
        BufferFault::SettlementMismatch => {
            "buffered sink: prepared settlement does not match its buffered batch"@
        },
        BufferFault::PositiveSettlement => {
            "buffered sink: prepared positive-event settlement underflow"@
        },
        BufferFault::ControlTooLarge => "buffered sink: control state exceeds its byte limit"@,
        BufferFault::InputPort => "buffered sink: only input port zero is supported"@,
        BufferFault::InputSchema => "buffered sink: input Schema differs from the bound Schema"@,
        BufferFault::Failed => {
            "buffered sink: runtime must be reopened after a post-commit failure"@
        },
        BufferFault::Target => "buffered sink: the target refused the work"@,
        BufferFault::PreparedInput => {
            "buffered sink: prepared input is required to decode its plan"@
        },
    }
}

impl BufferFault {
    /// What a fault is called.
    pub fn message(&self) -> (text: String)
        ensures
            text@ == buffer_fault_text(*self),
    {
        match self {
            BufferFault::Truncated => "buffered sink: truncated control state".to_owned(),
            BufferFault::Version => "buffered sink: unknown control-state version".to_owned(),
            BufferFault::Phase => "buffered sink: unknown control-state phase".to_owned(),
            BufferFault::TrailingBytes => "buffered sink: trailing control-state bytes".to_owned(),
            BufferFault::HeadTag => "buffered sink: invalid buffer-head tag".to_owned(),
            BufferFault::InvalidState => "buffered sink: invalid buffer control state".to_owned(),
            BufferFault::InvalidSettlement => {
                "buffered sink: invalid prepared settlement".to_owned()
            },
            BufferFault::NextBatchIdZero => "buffered sink: next batch ID is zero".to_owned(),
            BufferFault::BatchIdRange => {
                "buffered sink: prepared batch ID is outside 1..u64::MAX".to_owned()
            },
            BufferFault::BatchIdCapacity => {
                "buffered sink: buffered input cannot drain before the batch ID range is exhausted".to_owned()
            },
            BufferFault::EventLimitZero => {
                "buffered sink: batch event limit must be nonzero".to_owned()
            },
            BufferFault::EncodedLimitZero => {
                "buffered sink: batch encoded-byte limit must be nonzero".to_owned()
            },
            BufferFault::ItemLimitZero => {
                "buffered sink: buffer item byte limit must be nonzero".to_owned()
            },
            BufferFault::TargetLimitZero => {
                "buffered sink: target batch byte limit must be nonzero".to_owned()
            },
            BufferFault::EmptyBuffer => {
                "buffered sink: cannot load a batch from an empty buffer".to_owned()
            },
            BufferFault::HeadReachesTail => {
                "buffered sink: buffer head reaches or exceeds its tail".to_owned()
            },
            BufferFault::EntryMissing { sequence } => {
                let mut text: String = "buffered sink: buffer entry ".to_owned();
                push_decimal(&mut text, *sequence as u64);
                text.append(" is missing");
                text
            },
            BufferFault::EntryTooLarge { sequence } => {
                let mut text: String = "buffered sink: buffer entry ".to_owned();
                push_decimal(&mut text, *sequence as u64);
                text.append(" exceeds the delivery byte limit");
                text
            },
            BufferFault::EntryUndecodable { sequence } => {
                let mut text: String = "buffered sink: buffer entry ".to_owned();
                push_decimal(&mut text, *sequence as u64);
                text.append(" does not decode");
                text
            },
            BufferFault::SchemaMismatch => {
                "buffered sink: buffered Change Schema differs from the bound Schema".to_owned()
            },
            BufferFault::EncodedOverflow => {
                "buffered sink: encoded Change size exceeds u64".to_owned()
            },
            BufferFault::EntryBoundary => {
                "buffered sink: an entry-boundary position has a nonzero row index".to_owned()
            },
            BufferFault::PositionMismatch => {
                "buffered sink: buffer position does not match its Change".to_owned()
            },
            BufferFault::RowIndexOutside => {
                "buffered sink: buffer row index exceeds its Change".to_owned()
            },
            BufferFault::ZeroCharge => {
                "buffered sink: target event byte charge must be nonzero".to_owned()
            },
            BufferFault::OversizedMutation => {
                "buffered sink: one target mutation exceeds the target batch byte limit".to_owned()
            },
            BufferFault::RetainedUnderflow => {
                "buffered sink: buffer retained-byte count underflow".to_owned()
            },
            BufferFault::PendingUnderflow => {
                "buffered sink: buffer pending-event count underflow".to_owned()
            },
            BufferFault::CountOverflow => {
                "buffered sink: Change event count exceeds u64".to_owned()
            },
            BufferFault::PendingOverflow => {
                "buffered sink: buffer pending-event count exceeds u64".to_owned()
            },
            BufferFault::PositiveOverflow => {
                "buffered sink: buffer positive-event count exceeds u64".to_owned()
            },
            BufferFault::RetainedOverflow => {
                "buffered sink: buffer retained-byte count exceeds u64".to_owned()
            },
            BufferFault::SequenceExhausted => {
                "buffered sink: buffer sequence is exhausted".to_owned()
            },
            BufferFault::AccountingExceeded => {
                "buffered sink: buffer contents exceed their control-state accounting".to_owned()
            },
            BufferFault::AccountingMismatch => {
                "buffered sink: buffer contents do not match their control-state accounting".to_owned()
            },
            BufferFault::OutsideRange => {
                "buffered sink: buffer contains an entry outside its control-state range".to_owned()
            },
            BufferFault::CapacityExceeded => {
                "buffered sink: buffer control state exceeds its capacity".to_owned()
            },
            BufferFault::RetainedCapacity => {
                "buffered sink: buffer retained-byte capacity is exhausted".to_owned()
            },
            BufferFault::EventCapacity => {
                "buffered sink: buffered-event capacity is exhausted".to_owned()
            },
            BufferFault::ChangeTooManyEvents => {
                "buffered sink: Change exceeds the buffered-event capacity".to_owned()
            },
            BufferFault::ItemCapacity => {
                "buffered sink: encoded Change exceeds the single-item byte capacity".to_owned()
            },
            BufferFault::EntryExists { sequence } => {
                let mut text: String = "buffered sink: buffer entry ".to_owned();
                push_decimal(&mut text, *sequence as u64);
                text.append(" already exists");
                text
            },
            BufferFault::SettledEntryMissing { sequence } => {
                let mut text: String = "buffered sink: settled buffer entry ".to_owned();
                push_decimal(&mut text, *sequence as u64);
                text.append(" is missing");
                text
            },
            BufferFault::EventSettlement => {
                "buffered sink: invalid prepared event settlement".to_owned()
            },
            BufferFault::DeliveryLimit => {
                "buffered sink: prepared delivery exceeds the event limit".to_owned()
            },
            BufferFault::SettlementMismatch => {
                "buffered sink: prepared settlement does not match its buffered batch".to_owned()
            },
            BufferFault::PositiveSettlement => {
                "buffered sink: prepared positive-event settlement underflow".to_owned()
            },
            BufferFault::ControlTooLarge => {
                "buffered sink: control state exceeds its byte limit".to_owned()
            },
            BufferFault::InputPort => "buffered sink: only input port zero is supported".to_owned(),
            BufferFault::InputSchema => {
                "buffered sink: input Schema differs from the bound Schema".to_owned()
            },
            BufferFault::Failed => {
                "buffered sink: runtime must be reopened after a post-commit failure".to_owned()
            },
            BufferFault::Target => "buffered sink: the target refused the work".to_owned(),
            BufferFault::PreparedInput => {
                "buffered sink: prepared input is required to decode its plan".to_owned()
            },
        }
    }
}

} // verus!
