//! The part of the buffer that one delivery carries.

use crate::change::Change;
use crate::text::{abs, magnitude};
use vstd::prelude::*;

verus! {

/// A change to deliver, and for each row the multiplicity that the target must admit
/// before any of it becomes visible.
#[derive(Debug)]
pub struct DeliveryBatch {
    pub change: Change,
    pub admissions: Vec<u64>,
}

impl DeliveryBatch {
    /// One admission per row, at least as large as what the row delivers.
    pub open spec fn wf(&self) -> bool {
        &&& self.change.wf()
        &&& admissions_fit(self.change.diffs@, self.admissions@)
    }

    /// A delivery, unless the admissions do not belong to the change.
    pub fn new(change: Change, admissions: Vec<u64>) -> (result: Option<DeliveryBatch>)
        requires
            change.wf(),
        ensures
            result is Some <==> admissions_fit(change.diffs@, admissions@),
            result is Some ==> result->0 == (DeliveryBatch { change, admissions }) && result->0.wf(),
    {
        if change.diffs.len() != admissions.len() {
            return None;
        }
        let mut row: usize = 0;
        while row < admissions.len()
            invariant
                change.diffs@.len() == admissions@.len(),
                row <= admissions@.len(),
                forall|i: int|
                    0 <= i < row ==> #[trigger] admissions@[i] >= abs(change.diffs@[i] as int),
            decreases admissions@.len() - row,
        {
            if admissions[row] < magnitude(change.diffs[row]) {
                assert(admissions@[row as int] < abs(change.diffs@[row as int] as int));
                return None;
            }
            row += 1;
        }
        Some(DeliveryBatch { change, admissions })
    }

    /// The multiplicity to admit for the row at `row_index`.
    pub fn admission(&self, row_index: usize) -> (admission: u64)
        requires
            row_index < self.admissions@.len(),
        ensures
            admission == self.admissions@[row_index as int],
    {
        self.admissions[row_index]
    }
}

/// One admission per multiplicity, none smaller than it.
pub open spec fn admissions_fit(diffs: Seq<i64>, admissions: Seq<u64>) -> bool {
    &&& diffs.len() == admissions.len()
    &&& forall|i: int|
        0 <= i < admissions.len() ==> #[trigger] admissions[i] >= abs(diffs[i] as int)
}

} // verus!
