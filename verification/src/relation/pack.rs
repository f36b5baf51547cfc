//! Rows packed into statements of bounded size.

use vstd::prelude::*;

verus! {

/// What one statement may hold: its frame and its rows take at most `bytes`, and there are
/// at most `rows` rows. One row is let in whatever its size.
#[derive(Clone, Copy, Debug)]
pub struct PackLimits {
    pub frame: usize,
    pub bytes: usize,
    pub rows: usize,
}

/// The sum of the sizes from `start` up to `end`.
pub open spec fn size_sum(sizes: Seq<usize>, start: int, end: int) -> nat
    decreases end - start,
{
    if start >= end {
        0
    } else {
        size_sum(sizes, start, end - 1) + sizes[end - 1] as nat
    }
}

/// Whether a statement with the rows from `start` up to `end` has room for the next one.
pub open spec fn has_room(sizes: Seq<usize>, start: int, end: int, limits: PackLimits) -> bool {
    &&& end < sizes.len()
    &&& end - start < limits.rows
    &&& limits.frame + size_sum(sizes, start, end + 1) <= limits.bytes
}

/// Where the statement that begins at `start` and reaches to `end` has to stop.
pub open spec fn piece_end(sizes: Seq<usize>, start: int, end: int, limits: PackLimits) -> int
    decreases sizes.len() - end,
{
    if has_room(sizes, start, end, limits) {
        piece_end(sizes, start, end + 1, limits)
    } else {
        end
    }
}

/// Where each statement stops: each takes its first row, and then all that it has room for.
pub open spec fn pieces(sizes: Seq<usize>, start: int, limits: PackLimits) -> Seq<int>
    decreases sizes.len() - start,
{
    if start < 0 || start >= sizes.len() {
        Seq::empty()
    } else {
        let end = piece_end(sizes, start, start + 1, limits);
        if start < end <= sizes.len() {
            seq![end] + pieces(sizes, end, limits)
        } else {
            Seq::empty()
        }
    }
}

/// A statement stops behind where it is known to reach, and within the rows.
proof fn lemma_piece_end(sizes: Seq<usize>, start: int, end: int, limits: PackLimits)
    requires
        0 <= start < end <= sizes.len(),
    ensures
        end <= piece_end(sizes, start, end, limits) <= sizes.len(),
    decreases sizes.len() - end,
{
    if has_room(sizes, start, end, limits) {
        lemma_piece_end(sizes, start, end + 1, limits);
    }
}

/// The numbers as integers.
pub open spec fn ends_of(ends: Seq<usize>) -> Seq<int> {
    ends.map_values(|end: usize| end as int)
}

/// Packs rows of these sizes, and tells where each statement stops.
pub fn pack(sizes: &Vec<usize>, limits: PackLimits) -> (ends: Vec<usize>)
    ensures
        ends_of(ends@) == pieces(sizes@, 0, limits),
{
    let mut ends: Vec<usize> = Vec::new();
    let mut start: usize = 0;
    assert(ends_of(ends@) + pieces(sizes@, 0, limits) =~= pieces(sizes@, 0, limits));
    while start < sizes.len()
        invariant
            start <= sizes@.len(),
            ends_of(ends@) + pieces(sizes@, start as int, limits) == pieces(sizes@, 0, limits),
        decreases sizes@.len() - start,
    {
        let mut end: usize = start + 1;
        let mut held: Option<usize> = limits.frame.checked_add(sizes[start]);
        assert(size_sum(sizes@, start as int, start as int) == 0);
        assert(size_sum(sizes@, start as int, end as int) == sizes@[start as int] as nat);
        let mut open: bool = true;
        while open
            invariant
                start < end <= sizes@.len(),
                open ==> piece_end(sizes@, start as int, start + 1, limits) == piece_end(
                    sizes@,
                    start as int,
                    end as int,
                    limits,
                ),
                !open ==> piece_end(sizes@, start as int, start + 1, limits) == end,
                match held {
                    Some(held) => held == limits.frame + size_sum(sizes@, start as int, end as int),
                    None => limits.frame + size_sum(sizes@, start as int, end as int) > usize::MAX,
                },
            decreases sizes@.len() - end, open as int,
        {
            let grown: Option<usize> = if end < sizes.len() {
                match held {
                    Some(held) => held.checked_add(sizes[end]),
                    None => None,
                }
            } else {
                None
            };
            proof {
                if end < sizes@.len() {
                    assert(size_sum(sizes@, start as int, end + 1) == size_sum(
                        sizes@,
                        start as int,
                        end as int,
                    ) + sizes@[end as int] as nat);
                }
            }
            if end < sizes.len() && end - start < limits.rows && grown.is_some()
                && grown.unwrap() <= limits.bytes {
                held = grown;
                assert(has_room(sizes@, start as int, end as int, limits));
                end += 1;
            } else {
                assert(!has_room(sizes@, start as int, end as int, limits));
                open = false;
            }
        }
        let ghost before = ends@;
        ends.push(end);
        proof {
            assert(ends_of(ends@) =~= ends_of(before).push(end as int));
            assert(pieces(sizes@, start as int, limits) == seq![end as int] + pieces(
                sizes@,
                end as int,
                limits,
            ));
            assert(ends_of(ends@) + pieces(sizes@, end as int, limits) =~= ends_of(before)
                + pieces(sizes@, start as int, limits));
        }
        start = end;
    }
    assert(ends_of(ends@) + pieces(sizes@, start as int, limits) =~= ends_of(ends@));
    ends
}

/// The rows between one stop and the next.
pub open spec fn piece_start(ends: Seq<int>, index: int) -> int {
    if index <= 0 {
        0
    } else {
        ends[index - 1]
    }
}

pub proof fn lemma_pieces_cover(sizes: Seq<usize>, start: int, limits: PackLimits)
    requires
        0 <= start < sizes.len(),
    ensures
        ({
            let ends = pieces(sizes, start, limits);
            &&& ends.len() > 0
            &&& ends.last() == sizes.len()
            &&& ends[0] > start
            &&& forall|i: int| 0 < i < ends.len() ==> ends[i - 1] < #[trigger] ends[i]
            &&& forall|i: int| 0 <= i < ends.len() ==> start < #[trigger] ends[i] <= sizes.len()
        }),
    decreases sizes.len() - start,
{
    let end = piece_end(sizes, start, start + 1, limits);
    lemma_piece_end(sizes, start, start + 1, limits);
    let rest = pieces(sizes, end, limits);
    let ends = pieces(sizes, start, limits);
    assert(ends == seq![end] + rest);
    if end < sizes.len() {
        lemma_pieces_cover(sizes, end, limits);
        assert forall|i: int| 0 < i < ends.len() implies ends[i - 1] < #[trigger] ends[i] by {
            assert(ends[i] == rest[i - 1]);
            if i > 1 {
                assert(ends[i - 1] == rest[i - 2]);
            }
        }
        assert(ends.last() == rest.last());
    } else {
        assert(rest.len() == 0);
    }
}

/// The statements take every row, in order, and none of them is empty.
pub proof fn law_pieces_cover_all_rows(sizes: Seq<usize>, limits: PackLimits)
    requires
        sizes.len() > 0,
    ensures
        ({
            let ends = pieces(sizes, 0, limits);
            &&& ends.len() > 0
            &&& ends.last() == sizes.len()
            &&& forall|i: int|
                0 <= i < ends.len() ==> piece_start(ends, i) < #[trigger] ends[i]
        }),
{
    lemma_pieces_cover(sizes, 0, limits);
    let ends = pieces(sizes, 0, limits);
    assert forall|i: int| 0 <= i < ends.len() implies piece_start(ends, i) < #[trigger] ends[i] by {
        if i > 0 {
            assert(ends[i - 1] < ends[i]);
        }
    }
}

proof fn lemma_piece_fits(sizes: Seq<usize>, start: int, end: int, limits: PackLimits)
    requires
        0 <= start < end <= sizes.len(),
        end - start <= 1 || (end - start <= limits.rows && limits.frame + size_sum(
            sizes,
            start,
            end,
        ) <= limits.bytes),
    ensures
        ({
            let stop = piece_end(sizes, start, end, limits);
            stop - start <= 1 || (stop - start <= limits.rows && limits.frame + size_sum(
                sizes,
                start,
                stop,
            ) <= limits.bytes)
        }),
    decreases sizes.len() - end,
{
    if has_room(sizes, start, end, limits) {
        lemma_piece_fits(sizes, start, end + 1, limits);
    }
}

proof fn lemma_pieces_fit(sizes: Seq<usize>, from: int, limits: PackLimits, index: int)
    requires
        0 <= from < sizes.len(),
        0 <= index < pieces(sizes, from, limits).len(),
    ensures
        ({
            let ends = pieces(sizes, from, limits);
            let start = if index == 0 {
                from
            } else {
                ends[index - 1]
            };
            ends[index] - start <= 1 || (ends[index] - start <= limits.rows && limits.frame
                + size_sum(sizes, start, ends[index]) <= limits.bytes)
        }),
    decreases sizes.len() - from,
{
    let end = piece_end(sizes, from, from + 1, limits);
    lemma_piece_end(sizes, from, from + 1, limits);
    lemma_piece_fits(sizes, from, from + 1, limits);
    let rest = pieces(sizes, end, limits);
    if index > 0 {
        assert(end < sizes.len());
        lemma_pieces_fit(sizes, end, limits, index - 1);
        if index > 1 {
            assert(pieces(sizes, from, limits)[index - 1] == rest[index - 2]);
        }
        assert(pieces(sizes, from, limits)[index] == rest[index - 1]);
    }
}

/// A statement of more than one row keeps to the limits.
pub proof fn law_pieces_keep_limits(sizes: Seq<usize>, limits: PackLimits, index: int)
    requires
        0 <= index < pieces(sizes, 0, limits).len(),
    ensures
        ({
            let ends = pieces(sizes, 0, limits);
            let start = piece_start(ends, index);
            ends[index] - start <= 1 || (ends[index] - start <= limits.rows && limits.frame
                + size_sum(sizes, start, ends[index]) <= limits.bytes)
        }),
{
    assert(sizes.len() > 0);
    lemma_pieces_fit(sizes, 0, limits, index);
}

proof fn lemma_piece_full(sizes: Seq<usize>, start: int, end: int, limits: PackLimits)
    requires
        0 <= start < end <= sizes.len(),
    ensures
        !has_room(sizes, start, piece_end(sizes, start, end, limits), limits),
    decreases sizes.len() - end,
{
    if has_room(sizes, start, end, limits) {
        lemma_piece_full(sizes, start, end + 1, limits);
    }
}

proof fn lemma_pieces_full(sizes: Seq<usize>, start: int, limits: PackLimits, index: int)
    requires
        0 <= start < sizes.len(),
        0 <= index < pieces(sizes, start, limits).len() - 1,
    ensures
        ({
            let ends = pieces(sizes, start, limits);
            let first = if index == 0 {
                start
            } else {
                ends[index - 1]
            };
            ends[index] + 1 - first > limits.rows || limits.frame + size_sum(
                sizes,
                first,
                ends[index] + 1,
            ) > limits.bytes
        }),
    decreases sizes.len() - start,
{
    let end = piece_end(sizes, start, start + 1, limits);
    let rest = pieces(sizes, end, limits);
    let ends = pieces(sizes, start, limits);
    lemma_piece_end(sizes, start, start + 1, limits);
    lemma_piece_full(sizes, start, start + 1, limits);
    assert(ends == seq![end] + rest);
    if index == 0 {
        assert(rest.len() > 0);
        assert(end < sizes.len());
    } else {
        assert(end < sizes.len());
        lemma_pieces_full(sizes, end, limits, index - 1);
        assert(ends[index] == rest[index - 1]);
        if index > 1 {
            assert(ends[index - 1] == rest[index - 2]);
        }
    }
}

/// Each statement is as long as it may be: one row more would exceed its limits.
pub proof fn law_pieces_are_as_long_as_they_may_be(
    sizes: Seq<usize>,
    limits: PackLimits,
    index: int,
)
    requires
        0 <= index < pieces(sizes, 0, limits).len() - 1,
    ensures
        ({
            let ends = pieces(sizes, 0, limits);
            let start = piece_start(ends, index);
            ends[index] + 1 - start > limits.rows || limits.frame + size_sum(
                sizes,
                start,
                ends[index] + 1,
            ) > limits.bytes
        }),
{
    assert(sizes.len() > 0);
    lemma_pieces_full(sizes, 0, limits, index);
}

/// A row is in a statement.
pub open spec fn lies_in(ends: Seq<int>, piece: int, row: int) -> bool {
    piece_start(ends, piece) <= row < ends[piece]
}

proof fn lemma_ends_rise(ends: Seq<int>, low: int, high: int)
    requires
        0 <= low <= high < ends.len(),
        forall|i: int| 0 < i < ends.len() ==> ends[i - 1] < #[trigger] ends[i],
    ensures
        ends[low] <= ends[high],
    decreases high - low,
{
    if low < high {
        lemma_ends_rise(ends, low, high - 1);
        assert(ends[high - 1] < ends[high]);
    }
}

proof fn lemma_found_in(ends: Seq<int>, row: int, last: int) -> (piece: int)
    requires
        0 <= last < ends.len(),
        0 <= row < ends[last],
    ensures
        0 <= piece <= last,
        lies_in(ends, piece, row),
    decreases last,
{
    if last > 0 && row < ends[last - 1] {
        lemma_found_in(ends, row, last - 1)
    } else {
        last
    }
}

/// Each row is in one statement, and in no other.
pub proof fn law_each_row_lies_in_one_piece(sizes: Seq<usize>, limits: PackLimits, row: int)
    requires
        0 <= row < sizes.len(),
    ensures
        ({
            let ends = pieces(sizes, 0, limits);
            &&& exists|i: int| 0 <= i < ends.len() && #[trigger] lies_in(ends, i, row)
            &&& forall|i: int, j: int|
                0 <= i < ends.len() && 0 <= j < ends.len() && #[trigger] lies_in(ends, i, row)
                    && #[trigger] lies_in(ends, j, row) ==> i == j
        }),
{
    let ends = pieces(sizes, 0, limits);
    lemma_pieces_cover(sizes, 0, limits);
    let found = lemma_found_in(ends, row, ends.len() - 1);
    assert(lies_in(ends, found, row));
    assert forall|i: int, j: int|
        0 <= i < ends.len() && 0 <= j < ends.len() && #[trigger] lies_in(ends, i, row)
            && #[trigger] lies_in(ends, j, row) implies i == j by {
        if i < j {
            lemma_ends_rise(ends, i, j - 1);
        } else if j < i {
            lemma_ends_rise(ends, j, i - 1);
        }
    }
}

} // verus!
