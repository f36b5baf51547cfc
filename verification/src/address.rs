//! Numeric network addresses.

use crate::text::{all_digits, chars_of, decimal_value, is_digit, part_views, parts_of, split};
use vstd::prelude::*;

verus! {

/// A number from 0 to 255 in decimal notation, without leading zeros.
pub open spec fn octet(text: Seq<char>) -> bool {
    &&& all_digits(text)
    &&& text.len() <= 3
    &&& text.len() > 1 ==> text[0] != '0'
    &&& decimal_value(text) <= 255
}

/// Four octets with dots between them.
pub open spec fn dotted(text: Seq<char>) -> bool {
    let parts = parts_of(text, '.');
    parts.len() == 4 && octet(parts[0]) && octet(parts[1]) && octet(parts[2]) && octet(parts[3])
}

/// Whether a character is a hexadecimal digit.
pub open spec fn is_hex(c: char) -> bool {
    is_digit(c) || ('a' <= c && c <= 'f') || ('A' <= c && c <= 'F')
}

/// One to four hexadecimal digits.
pub open spec fn hex_group(text: Seq<char>) -> bool {
    1 <= text.len() <= 4 && forall|i: int| 0 <= i < text.len() ==> is_hex(#[trigger] text[i])
}

/// How many groups of sixteen bits some parts stand for: each is a group, and where `dots` is
/// set the last one may be four octets, which stand for two groups.
pub open spec fn group_count(parts: Seq<Seq<char>>, dots: bool) -> Option<nat> {
    let last = parts.last();
    if forall|i: int| 0 <= i < parts.len() - 1 ==> hex_group(#[trigger] parts[i]) {
        if hex_group(last) {
            Some(parts.len())
        } else if dots && dotted(last) {
            Some(parts.len() + 1)
        } else {
            None
        }
    } else {
        None
    }
}

/// How many groups a text stands for; an empty one stands for none.
pub open spec fn groups_in(text: Seq<char>, dots: bool) -> Option<nat> {
    if text.len() == 0 {
        Some(0)
    } else {
        group_count(parts_of(text, ':'), dots)
    }
}

/// Where the first two colons in a row stand among the first `count` characters.
pub open spec fn gap_at(text: Seq<char>, count: int) -> Option<int>
    decreases count,
{
    if count <= 0 {
        None
    } else {
        match gap_at(text, count - 1) {
            Some(index) => Some(index),
            None => if count < text.len() && text[count - 1] == ':' && text[count] == ':' {
                Some(count - 1)
            } else {
                None
            },
        }
    }
}

/// Eight groups with colons between them, or fewer with a gap of two colons in one place.
pub open spec fn coloned(text: Seq<char>) -> bool {
    match gap_at(text, text.len() as int) {
        None => text.len() > 0 && groups_in(text, true) == Some(8nat),
        Some(index) => {
            let head = groups_in(text.take(index), false);
            let tail = groups_in(text.skip(index + 2), true);
            head is Some && tail is Some && head->0 + tail->0 <= 7
        },
    }
}

/// A numeric address of version 4 or 6.
pub open spec fn numeric_address(text: Seq<char>) -> bool {
    dotted(text) || coloned(text)
}

fn is_octet(chars: &Vec<char>) -> (result: bool)
    ensures
        result == octet(chars@),
{
    if chars.len() == 0 || chars.len() > 3 {
        return false;
    }
    if chars.len() > 1 && chars[0] == '0' {
        return false;
    }
    let mut value: u32 = 0;
    let mut index: usize = 0;
    assert(chars@.take(0) =~= Seq::empty());
    while index < chars.len()
        invariant
            index <= chars@.len() <= 3,
            value == decimal_value(chars@.take(index as int)),
            index == 0 ==> value == 0,
            index == 1 ==> value < 10,
            index == 2 ==> value < 100,
            index == 3 ==> value < 1000,
            forall|i: int| 0 <= i < index ==> is_digit(#[trigger] chars@[i]),
        decreases chars@.len() - index,
    {
        let c: char = chars[index];
        if c < '0' || c > '9' {
            assert(!is_digit(chars@[index as int]));
            return false;
        }
        assert(chars@.take(index + 1).drop_last() =~= chars@.take(index as int));
        value = value * 10 + (c as u32 - '0' as u32);
        index += 1;
    }
    assert(chars@.take(index as int) =~= chars@);
    value <= 255
}

pub(crate) fn is_dotted(chars: &Vec<char>) -> (result: bool)
    ensures
        result == dotted(chars@),
{
    let parts: Vec<Vec<char>> = split(chars.as_slice(), '.');
    assert(parts_of(chars@, '.').len() == parts@.len());
    if parts.len() != 4 {
        return false;
    }
    proof {
        assert(part_views(parts@)[0] == parts@[0]@);
        assert(part_views(parts@)[1] == parts@[1]@);
        assert(part_views(parts@)[2] == parts@[2]@);
        assert(part_views(parts@)[3] == parts@[3]@);
    }
    is_octet(&parts[0]) && is_octet(&parts[1]) && is_octet(&parts[2]) && is_octet(&parts[3])
}

pub(crate) fn is_hex_group(chars: &Vec<char>) -> (result: bool)
    ensures
        result == hex_group(chars@),
{
    if chars.len() == 0 || chars.len() > 4 {
        return false;
    }
    let mut index: usize = 0;
    while index < chars.len()
        invariant
            index <= chars@.len() <= 4,
            forall|i: int| 0 <= i < index ==> is_hex(#[trigger] chars@[i]),
        decreases chars@.len() - index,
    {
        let c: char = chars[index];
        let hex: bool = ('0' <= c && c <= '9') || ('a' <= c && c <= 'f') || ('A' <= c && c <= 'F');
        if !hex {
            assert(!is_hex(chars@[index as int]));
            return false;
        }
        index += 1;
    }
    true
}

fn count_groups(chars: &Vec<char>, dots: bool) -> (count: Option<u64>)
    ensures
        match count {
            Some(count) => groups_in(chars@, dots) == Some(count as nat),
            None => groups_in(chars@, dots) is None || groups_in(chars@, dots)->0 > 1000,
        },
{
    if chars.len() == 0 {
        return Some(0);
    }
    let parts: Vec<Vec<char>> = split(chars.as_slice(), ':');
    let ghost views = part_views(parts@);
    assert(views == parts_of(chars@, ':'));
    if parts.len() > 1000 {
        return None;
    }
    let mut index: usize = 0;
    while index < parts.len() - 1
        invariant
            1 <= parts@.len() <= 1000,
            views == part_views(parts@),
            views == parts_of(chars@, ':'),
            chars@.len() > 0,
            index <= parts@.len() - 1,
            forall|i: int| 0 <= i < index ==> hex_group(#[trigger] views[i]),
        decreases parts@.len() - index,
    {
        assert(views[index as int] == parts@[index as int]@);
        if !is_hex_group(&parts[index]) {
            assert(!hex_group(views[index as int]));
            return None;
        }
        index += 1;
    }
    let last: &Vec<char> = &parts[parts.len() - 1];
    assert(views.last() == last@);
    if is_hex_group(last) {
        Some(parts.len() as u64)
    } else if dots && is_dotted(last) {
        Some(parts.len() as u64 + 1)
    } else {
        None
    }
}

pub proof fn lemma_gap_stays(text: Seq<char>, low: int, high: int)
    requires
        low <= high,
        gap_at(text, low) is Some,
    ensures
        gap_at(text, high) == gap_at(text, low),
    decreases high - low,
{
    if low < high {
        lemma_gap_stays(text, low, high - 1);
    }
}

pub(crate) fn copy_range(chars: &Vec<char>, start: usize, end: usize) -> (part: Vec<char>)
    requires
        start <= end <= chars@.len(),
    ensures
        part@ == chars@.subrange(start as int, end as int),
{
    let mut part: Vec<char> = Vec::new();
    let mut index: usize = start;
    while index < end
        invariant
            start <= index <= end <= chars@.len(),
            part@ == chars@.subrange(start as int, index as int),
        decreases end - index,
    {
        part.push(chars[index]);
        index += 1;
        assert(part@ =~= chars@.subrange(start as int, index as int));
    }
    part
}

pub(crate) fn is_coloned(chars: &Vec<char>) -> (result: bool)
    ensures
        result == coloned(chars@),
{
    let mut gap: Option<usize> = None;
    let mut index: usize = 0;
    while index < chars.len() && gap.is_none()
        invariant
            index <= chars@.len(),
            match gap {
                None => gap_at(chars@, index as int) is None,
                Some(place) => gap_at(chars@, index as int) == Some(place as int) && place + 2
                    <= chars@.len(),
            },
        decreases chars@.len() - index,
    {
        if index + 1 < chars.len() && chars[index] == ':' && chars[index + 1] == ':' {
            gap = Some(index);
        }
        index += 1;
    }
    match gap {
        None => {
            match count_groups(chars, true) {
                Some(count) => chars.len() > 0 && count == 8,
                None => false,
            }
        },
        Some(place) => {
            proof {
                lemma_gap_stays(chars@, index as int, chars@.len() as int);
            }
            let head: Vec<char> = copy_range(chars, 0, place);
            let tail: Vec<char> = copy_range(chars, place + 2, chars.len());
            proof {
                assert(head@ =~= chars@.take(place as int));
                assert(tail@ =~= chars@.skip(place + 2));
            }
            match (count_groups(&head, false), count_groups(&tail, true)) {
                (Some(head_count), Some(tail_count)) => head_count <= 7 && tail_count <= 7
                    && head_count + tail_count <= 7,
                _ => false,
            }
        },
    }
}

/// Whether a text is a numeric address of version 4 or 6.
pub fn is_numeric_address(text: &str) -> (result: bool)
    ensures
        result == numeric_address(text@),
{
    let chars: Vec<char> = chars_of(text);
    is_dotted(&chars) || is_coloned(&chars)
}

} // verus!
