//! How a numeric address is written.

use crate::address::{
    coloned, copy_range, dotted, gap_at, group_count, groups_in, hex_group, is_dotted, is_hex_group,
    is_hex, lemma_gap_stays, numeric_address, octet,
};
use crate::text::{
    chars_of, decimal, decimal_value, digit_value, hex_char, hex_digit, is_digit, join, joined,
    part_views, parts_of, push_char, push_decimal, split, views,
};
use vstd::prelude::*;

verus! {

/// The number that a hexadecimal digit stands for.
pub open spec fn hex_digit_value(c: char) -> nat {
    if is_digit(c) {
        digit_value(c)
    } else if 'a' <= c && c <= 'f' {
        (c as u32 - 'a' as u32 + 10) as nat
    } else {
        (c as u32 - 'A' as u32 + 10) as nat
    }
}

/// The number that hexadecimal digits spell.
pub open spec fn hex_value(text: Seq<char>) -> nat
    decreases text.len(),
{
    if text.len() == 0 {
        0
    } else {
        16 * hex_value(text.drop_last()) + hex_digit_value(text.last())
    }
}

/// The two groups of sixteen bits that four octets stand for.
pub open spec fn octet_groups(text: Seq<char>) -> Seq<nat> {
    let parts = parts_of(text, '.');
    seq![
        256 * decimal_value(parts[0]) + decimal_value(parts[1]),
        256 * decimal_value(parts[2]) + decimal_value(parts[3]),
    ]
}

/// The groups that the first `count` parts stand for.
pub open spec fn part_groups(parts: Seq<Seq<char>>, count: int) -> Seq<nat>
    decreases count,
{
    if count <= 0 {
        Seq::empty()
    } else {
        let part = parts[count - 1];
        part_groups(parts, count - 1) + (if hex_group(part) {
            seq![hex_value(part)]
        } else {
            octet_groups(part)
        })
    }
}

/// The groups that a text stands for.
pub open spec fn values_in(text: Seq<char>) -> Seq<nat> {
    if text.len() == 0 {
        Seq::empty()
    } else {
        part_groups(parts_of(text, ':'), parts_of(text, ':').len() as int)
    }
}

/// The eight groups of an address of version 6: a gap stands for groups of zero.
pub open spec fn groups_of(text: Seq<char>) -> Seq<nat> {
    match gap_at(text, text.len() as int) {
        None => values_in(text),
        Some(index) => {
            let head = values_in(text.take(index));
            let tail = values_in(text.skip(index + 2));
            head + zeros((8 - head.len() - tail.len()) as nat) + tail
        },
    }
}

pub open spec fn zeros(count: nat) -> Seq<nat> {
    Seq::new(count, |i: int| 0nat)
}

/// How many groups from `start` on are zero.
pub open spec fn zero_run(groups: Seq<nat>, start: int) -> nat
    decreases groups.len() - start,
{
    if start < 0 || start >= groups.len() || groups[start] != 0 {
        0
    } else {
        1 + zero_run(groups, start + 1)
    }
}

/// Where the longest run of zeros begins among the first `count` places, the first of them
/// where several are as long.
pub open spec fn longest_run(groups: Seq<nat>, count: int) -> int
    decreases count,
{
    if count <= 1 {
        0
    } else {
        let before = longest_run(groups, count - 1);
        if zero_run(groups, count - 1) > zero_run(groups, before) {
            count - 1
        } else {
            before
        }
    }
}

/// A number in hexadecimal notation, without leading zeros.
pub open spec fn hex_text(value: nat) -> Seq<char>
    decreases value,
{
    if value < 16 {
        seq![hex_digit(value)]
    } else {
        hex_text(value / 16).push(hex_digit(value % 16))
    }
}

/// Groups with colons between them.
pub open spec fn group_text(groups: Seq<nat>) -> Seq<char> {
    joined(groups.map_values(|group: nat| hex_text(group)), ":"@)
}

/// An address of version 6 in its canonical notation: an address of version 4 that is mapped
/// into it keeps its octets, and else the longest run of at least two zeros is left out.
pub open spec fn canonical_six(groups: Seq<nat>) -> Seq<char> {
    let start = longest_run(groups, groups.len() as int);
    let run = zero_run(groups, start);
    if groups.take(6) == zeros(5).push(0xffff) {
        "::ffff:"@ + decimal(groups[6] / 256) + "."@ + decimal(groups[6] % 256) + "."@ + decimal(
            groups[7] / 256,
        ) + "."@ + decimal(groups[7] % 256)
    } else if run > 1 {
        group_text(groups.take(start)) + "::"@ + group_text(groups.skip(start + run))
    } else {
        group_text(groups)
    }
}

/// A numeric address in its canonical notation.
pub open spec fn canonical_address(text: Seq<char>) -> Seq<char> {
    if dotted(text) {
        text
    } else {
        canonical_six(groups_of(text))
    }
}

/// The views of groups as numbers.
pub open spec fn group_views(groups: Seq<u16>) -> Seq<nat> {
    groups.map_values(|group: u16| group as nat)
}

fn read_hex(chars: &Vec<char>) -> (value: u16)
    requires
        hex_group(chars@),
    ensures
        value == hex_value(chars@),
{
    let mut value: u32 = 0;
    let mut index: usize = 0;
    assert(chars@.take(0) =~= Seq::empty());
    while index < chars.len()
        invariant
            hex_group(chars@),
            index <= chars@.len() <= 4,
            value == hex_value(chars@.take(index as int)),
            index == 0 ==> value == 0,
            index == 1 ==> value < 0x10,
            index == 2 ==> value < 0x100,
            index == 3 ==> value < 0x1000,
            index == 4 ==> value < 0x1_0000,
        decreases chars@.len() - index,
    {
        let c: char = chars[index];
        assert(is_hex(chars@[index as int]));
        let digit: u32 = if '0' <= c && c <= '9' {
            c as u32 - '0' as u32
        } else if 'a' <= c && c <= 'f' {
            c as u32 - 'a' as u32 + 10
        } else {
            c as u32 - 'A' as u32 + 10
        };
        assert(chars@.take(index + 1).drop_last() =~= chars@.take(index as int));
        value = value * 16 + digit;
        index += 1;
    }
    assert(chars@.take(index as int) =~= chars@);
    value as u16
}

fn read_octet(chars: &Vec<char>) -> (value: u16)
    requires
        octet(chars@),
    ensures
        value == decimal_value(chars@),
        value <= 255,
{
    let mut value: u32 = 0;
    let mut index: usize = 0;
    assert(chars@.take(0) =~= Seq::empty());
    while index < chars.len()
        invariant
            octet(chars@),
            index <= chars@.len() <= 3,
            value == decimal_value(chars@.take(index as int)),
            index == 0 ==> value == 0,
            index == 1 ==> value < 10,
            index == 2 ==> value < 100,
            index == 3 ==> value < 1000,
        decreases chars@.len() - index,
    {
        let c: char = chars[index];
        assert(is_digit(chars@[index as int]));
        assert(chars@.take(index + 1).drop_last() =~= chars@.take(index as int));
        value = value * 10 + (c as u32 - '0' as u32);
        index += 1;
    }
    assert(chars@.take(index as int) =~= chars@);
    value as u16
}

fn push_octet_groups(groups: &mut Vec<u16>, chars: &Vec<char>)
    requires
        dotted(chars@),
    ensures
        group_views(final(groups)@) == group_views(old(groups)@) + octet_groups(chars@),
{
    let parts: Vec<Vec<char>> = split(chars.as_slice(), '.');
    proof {
        assert(parts_of(chars@, '.').len() == parts@.len());
        assert(part_views(parts@)[0] == parts@[0]@);
        assert(part_views(parts@)[1] == parts@[1]@);
        assert(part_views(parts@)[2] == parts@[2]@);
        assert(part_views(parts@)[3] == parts@[3]@);
    }
    let first: u16 = read_octet(&parts[0]) * 256 + read_octet(&parts[1]);
    let second: u16 = read_octet(&parts[2]) * 256 + read_octet(&parts[3]);
    groups.push(first);
    groups.push(second);
    assert(group_views(groups@) =~= group_views(old(groups)@) + octet_groups(chars@));
}

/// Appends the groups that a text stands for.
fn push_values(groups: &mut Vec<u16>, chars: &Vec<char>, dots: bool)
    requires
        groups_in(chars@, dots) is Some,
    ensures
        group_views(final(groups)@) == group_views(old(groups)@) + values_in(chars@),
        values_in(chars@).len() == groups_in(chars@, dots)->0,
{
    if chars.len() == 0 {
        assert(group_views(groups@) =~= group_views(groups@) + values_in(chars@));
        return;
    }
    let parts: Vec<Vec<char>> = split(chars.as_slice(), ':');
    let ghost texts = part_views(parts@);
    let ghost before = group_views(groups@);
    assert(texts == parts_of(chars@, ':'));
    let mut index: usize = 0;
    assert(group_views(groups@) =~= before + part_groups(texts, 0));
    while index < parts.len()
        invariant
            index <= parts@.len(),
            parts@.len() >= 1,
            texts == part_views(parts@),
            group_count(texts, dots) is Some,
            group_views(groups@) == before + part_groups(texts, index as int),
            index < parts@.len() ==> part_groups(texts, index as int).len() == index,
            index == parts@.len() ==> part_groups(texts, index as int).len() == group_count(
                texts,
                dots,
            )->0,
        decreases parts@.len() - index,
    {
        let ghost grown = group_views(groups@);
        let part: &Vec<char> = &parts[index];
        assert(texts[index as int] == part@);
        proof {
            if index + 1 == parts@.len() {
                assert(texts.last() == part@);
            } else {
                assert(hex_group(texts[index as int]));
            }
        }
        if is_hex_group(part) {
            groups.push(read_hex(part));
            assert(group_views(groups@) =~= grown.push(hex_value(part@)));
        } else {
            push_octet_groups(groups, part);
        }
        index += 1;
        assert(group_views(groups@) =~= before + part_groups(texts, index as int));
    }
}

/// The groups of an address of version 6.
fn read_groups(chars: &Vec<char>) -> (groups: Vec<u16>)
    requires
        coloned(chars@),
    ensures
        group_views(groups@) == groups_of(chars@),
        groups@.len() == 8,
{
    let mut gap: Option<usize> = None;
    let mut index: usize = 0;
    while index < chars.len() && gap.is_none()
        invariant
            index <= chars@.len(),
            match gap {
                None => gap_at(chars@, index as int) is None,
                Some(place) => gap_at(chars@, index as int) == Some(place as int) && place + 2
                    <= chars@.len(),
            },
        decreases chars@.len() - index,
    {
        if index + 1 < chars.len() && chars[index] == ':' && chars[index + 1] == ':' {
            gap = Some(index);
        }
        index += 1;
    }
    let mut groups: Vec<u16> = Vec::new();
    match gap {
        None => {
            push_values(&mut groups, chars, true);
            assert(group_views(groups@) =~= values_in(chars@));
            assert(group_views(groups@).len() == groups@.len());
        },
        Some(place) => {
            proof {
                lemma_gap_stays(chars@, index as int, chars@.len() as int);
            }
            let head: Vec<char> = copy_range(chars, 0, place);
            let tail: Vec<char> = copy_range(chars, place + 2, chars.len());
            proof {
                assert(head@ =~= chars@.take(place as int));
                assert(tail@ =~= chars@.skip(place + 2));
            }
            let mut last: Vec<u16> = Vec::new();
            push_values(&mut last, &tail, true);
            push_values(&mut groups, &head, false);
            let ghost left = values_in(head@);
            let ghost right = values_in(tail@);
            proof {
                assert(group_views(groups@) =~= left);
                assert(group_views(last@) =~= right);
                assert(group_views(groups@).len() == groups@.len());
                assert(group_views(last@).len() == last@.len());
            }
            let ghost fill = (8 - left.len() - right.len()) as nat;
            let mut count: usize = 0;
            assert(group_views(groups@) =~= left + zeros(0));
            while groups.len() + last.len() < 8
                invariant
                    groups@.len() == left.len() + count,
                    groups@.len() + last@.len() <= 8,
                    group_views(groups@) == left + zeros(count as nat),
                decreases 8 - groups@.len() - last@.len(),
            {
                let ghost grown = group_views(groups@);
                groups.push(0);
                count += 1;
                assert(group_views(groups@) =~= grown.push(0));
                assert(zeros(count as nat) =~= zeros((count - 1) as nat).push(0));
                assert(group_views(groups@) =~= left + zeros(count as nat));
            }
            assert(count == fill);
            let mut place: usize = 0;
            assert(group_views(groups@) =~= left + zeros(fill) + right.take(0));
            while place < last.len()
                invariant
                    place <= last@.len(),
                    group_views(last@) == right,
                    group_views(groups@) == left + zeros(fill) + right.take(place as int),
                decreases last@.len() - place,
            {
                let ghost grown = group_views(groups@);
                groups.push(last[place]);
                assert(right[place as int] == last@[place as int]);
                place += 1;
                assert(group_views(groups@) =~= grown.push(right[place - 1]));
                assert(right.take(place as int) =~= right.take(place - 1).push(right[place - 1]));
                assert(group_views(groups@) =~= left + zeros(fill) + right.take(place as int));
            }
            assert(right.take(place as int) =~= right);
            assert(group_views(groups@).len() == groups@.len());
        },
    }
    groups
}

fn push_hex(text: &mut String, value: u16)
    ensures
        final(text)@ == old(text)@ + hex_text(value as nat),
    decreases value,
{
    if value < 16 {
        push_char(text, hex_char(value as u8));
        assert(text@ =~= old(text)@ + hex_text(value as nat));
    } else {
        push_hex(text, value / 16);
        push_char(text, hex_char((value % 16) as u8));
        assert(text@ =~= old(text)@ + hex_text(value as nat));
    }
}

/// Some of the groups with colons between them.
fn write_groups(groups: &Vec<u16>, start: usize, end: usize) -> (text: String)
    requires
        start <= end <= groups@.len(),
    ensures
        text@ == group_text(group_views(groups@).subrange(start as int, end as int)),
{
    let ghost shown = group_views(groups@).subrange(start as int, end as int);
    let ghost expected = shown.map_values(|group: nat| hex_text(group));
    let mut parts: Vec<String> = Vec::new();
    let mut index: usize = start;
    assert(views(parts@) =~= expected.take(0));
    while index < end
        invariant
            start <= index <= end <= groups@.len(),
            shown == group_views(groups@).subrange(start as int, end as int),
            expected == shown.map_values(|group: nat| hex_text(group)),
            views(parts@) == expected.take(index - start),
        decreases end - index,
    {
        let mut part: String = String::new();
        push_hex(&mut part, groups[index]);
        assert(part@ =~= hex_text(groups@[index as int] as nat));
        assert(expected[index - start] == part@);
        let ghost grown = views(parts@);
        parts.push(part);
        index += 1;
        assert(views(parts@) =~= grown.push(part@));
        assert(expected.take(index - start) =~= expected.take(index - start - 1).push(part@));
    }
    assert(expected.take(index - start) =~= expected);
    join(parts.as_slice(), ":")
}

fn count_zeros(groups: &Vec<u16>, start: usize) -> (run: usize)
    requires
        start <= groups@.len(),
    ensures
        run == zero_run(group_views(groups@), start as int),
        start + run <= groups@.len(),
    decreases groups@.len() - start,
{
    if start < groups.len() && groups[start] == 0 {
        1 + count_zeros(groups, start + 1)
    } else {
        0
    }
}

/// Where the longest run of zeros begins, and how long it is.
fn find_zeros(groups: &Vec<u16>) -> (found: (usize, usize))
    requires
        groups@.len() > 0,
    ensures
        found.0 == longest_run(group_views(groups@), groups@.len() as int),
        found.1 == zero_run(group_views(groups@), found.0 as int),
        found.0 + found.1 <= groups@.len(),
{
    let mut best: usize = 0;
    let mut run: usize = count_zeros(groups, 0);
    let mut index: usize = 1;
    while index < groups.len()
        invariant
            1 <= index <= groups@.len(),
            best == longest_run(group_views(groups@), index as int),
            run == zero_run(group_views(groups@), best as int),
            best + run <= groups@.len(),
        decreases groups@.len() - index,
    {
        let other: usize = count_zeros(groups, index);
        if other > run {
            best = index;
            run = other;
        }
        index += 1;
    }
    (best, run)
}

/// Whether an address of version 4 is mapped into these groups.
fn is_mapped(groups: &Vec<u16>) -> (mapped: bool)
    requires
        groups@.len() == 8,
    ensures
        mapped == (group_views(groups@).take(6) == zeros(5).push(0xffff)),
{
    let ghost shown = group_views(groups@);
    let mapped: bool = groups[0] == 0 && groups[1] == 0 && groups[2] == 0 && groups[3] == 0
        && groups[4] == 0 && groups[5] == 0xffff;
    proof {
        if mapped {
            assert(shown.take(6) =~= zeros(5).push(0xffff));
        } else if shown.take(6) == zeros(5).push(0xffff) {
            let wanted = zeros(5).push(0xffff);
            assert(shown.take(6)[0] == wanted[0]);
            assert(shown.take(6)[1] == wanted[1]);
            assert(shown.take(6)[2] == wanted[2]);
            assert(shown.take(6)[3] == wanted[3]);
            assert(shown.take(6)[4] == wanted[4]);
            assert(shown.take(6)[5] == wanted[5]);
        }
    }
    mapped
}

/// Writes a numeric address in its canonical notation.
pub fn write_address(text: &str) -> (written: String)
    requires
        numeric_address(text@),
    ensures
        written@ == canonical_address(text@),
        brief(written@, 100),
{
    let chars: Vec<char> = chars_of(text);
    if is_dotted(&chars) {
        proof {
            lemma_address_is_brief(text@, Seq::empty());
        }
        return text.to_owned();
    }
    let groups: Vec<u16> = read_groups(&chars);
    let ghost shown = group_views(groups@);
    proof {
        lemma_address_is_brief(text@, groups@);
    }
    if is_mapped(&groups) {
        let mut written: String = "::ffff:".to_owned();
        push_decimal(&mut written, (groups[6] / 256) as u64);
        written.append(".");
        push_decimal(&mut written, (groups[6] % 256) as u64);
        written.append(".");
        push_decimal(&mut written, (groups[7] / 256) as u64);
        written.append(".");
        push_decimal(&mut written, (groups[7] % 256) as u64);
        return written;
    }
    let (start, run): (usize, usize) = find_zeros(&groups);
    if run > 1 {
        let mut written: String = write_groups(&groups, 0, start);
        written.append("::");
        written.append(write_groups(&groups, start + run, groups.len()).as_str());
        proof {
            assert(shown.subrange(0, start as int) =~= shown.take(start as int));
            assert(shown.subrange(start + run, 8) =~= shown.skip(start + run));
        }
        written
    } else {
        assert(shown.subrange(0, 8) =~= shown);
        write_groups(&groups, 0, groups.len())
    }
}

/// A text of at most `bound` characters, none of which is a number sign.
pub open spec fn brief(text: Seq<char>, bound: int) -> bool {
    text.len() <= bound && forall|i: int| 0 <= i < text.len() ==> #[trigger] text[i] != '#'
}

proof fn lemma_brief_joined(left: Seq<char>, right: Seq<char>, low: int, high: int)
    requires
        brief(left, low),
        brief(right, high),
    ensures
        brief(left + right, low + high),
{
    assert forall|i: int| 0 <= i < (left + right).len() implies #[trigger] (left + right)[i]
        != '#' by {
        if i < left.len() {
            assert(left[i] != '#');
        } else {
            assert(right[i - left.len()] != '#');
        }
    }
}

proof fn lemma_hex_text_is_brief(value: nat, digits: nat)
    requires
        value < pow16(digits),
        digits > 0,
    ensures
        brief(hex_text(value), digits as int),
    decreases digits,
{
    if value >= 16 {
        assert(pow16(0) == 1);
        assert(digits == 1 ==> pow16(digits) == 16 * pow16(0));
        assert(digits > 1);
        assert(value / 16 < pow16((digits - 1) as nat)) by (nonlinear_arith)
            requires
                value < 16 * pow16((digits - 1) as nat),
        ;
        lemma_hex_text_is_brief(value / 16, (digits - 1) as nat);
        lemma_brief_joined(
            hex_text(value / 16),
            seq![hex_digit(value % 16)],
            digits - 1,
            1,
        );
        assert(hex_text(value) =~= hex_text(value / 16) + seq![hex_digit(value % 16)]);
    }
}

/// How many numbers some hexadecimal digits can spell.
spec fn pow16(digits: nat) -> nat
    decreases digits,
{
    if digits == 0 {
        1
    } else {
        16 * pow16((digits - 1) as nat)
    }
}

/// A number of three digits at most.
proof fn lemma_decimal_is_brief(value: nat)
    requires
        value < 1000,
    ensures
        brief(decimal(value), 3),
{
    reveal_with_fuel(decimal, 4);
    assert(value / 10 < 100);
    assert(value / 10 / 10 < 10);
}

proof fn lemma_joined_is_brief(parts: Seq<Seq<char>>, separator: Seq<char>, bound: int)
    requires
        bound >= 0,
        brief(separator, 1),
        forall|i: int| 0 <= i < parts.len() ==> brief(#[trigger] parts[i], bound),
    ensures
        brief(joined(parts, separator), (bound + 1) * parts.len()),
    decreases parts.len(),
{
    if parts.len() == 1 {
        assert(brief(parts[0], bound));
    } else if parts.len() > 1 {
        let rest = parts.drop_last();
        assert forall|i: int| 0 <= i < rest.len() implies brief(#[trigger] rest[i], bound) by {
            assert(brief(parts[i], bound));
        }
        lemma_joined_is_brief(rest, separator, bound);
        assert(brief(parts[parts.len() - 1], bound));
        lemma_brief_joined(joined(rest, separator), separator, (bound + 1) * rest.len(), 1);
        lemma_brief_joined(
            joined(rest, separator) + separator,
            parts.last(),
            (bound + 1) * rest.len() + 1,
            bound,
        );
        assert((bound + 1) * rest.len() + 1 + bound == (bound + 1) * parts.len())
            by (nonlinear_arith)
            requires
                parts.len() == rest.len() + 1,
        ;
    }
}

/// A text is as short as its parts and the marks between them, and holds what they hold.
proof fn lemma_parts_are_brief(text: Seq<char>, mark: char, bound: int)
    requires
        mark != '#',
        bound >= 0,
        forall|i: int|
            0 <= i < parts_of(text, mark).len() ==> brief(
                #[trigger] parts_of(text, mark)[i],
                bound,
            ),
    ensures
        parts_of(text, mark).len() >= 1,
        brief(
            text,
            (bound + 1) * (parts_of(text, mark).len() - 1) + parts_of(text, mark).last().len(),
        ),
    decreases text.len(),
{
    if text.len() > 0 {
        let rest = text.drop_last();
        let before = parts_of(rest, mark);
        let parts = parts_of(text, mark);
        lemma_part_exists(rest, mark);
        assert forall|i: int| 0 <= i < before.len() implies brief(
            #[trigger] before[i],
            bound,
        ) by {
            assert(brief(parts[i], bound));
            if i == before.len() - 1 && text.last() != mark {
                assert(parts[i] == before[i].push(text.last()));
                assert forall|j: int| 0 <= j < before[i].len() implies #[trigger] before[i][j]
                    != '#' by {
                    assert(parts[i][j] != '#');
                }
            }
        }
        lemma_parts_are_brief(rest, mark, bound);
        if text.last() != mark {
            let own = parts[parts.len() - 1];
            assert(brief(own, bound));
            assert(own[own.len() - 1] == text.last());
            assert(own.len() == before.last().len() + 1);
        } else {
            assert(brief(before[before.len() - 1], bound));
            assert((bound + 1) * (before.len() - 1) + bound + 1 == (bound + 1) * (parts.len() - 1))
                by (nonlinear_arith)
                requires
                    parts.len() == before.len() + 1,
            ;
        }
        assert forall|i: int| 0 <= i < text.len() implies #[trigger] text[i] != '#' by {
            if i < rest.len() {
                assert(rest[i] != '#');
            }
        }
    }
}

proof fn lemma_part_exists(text: Seq<char>, mark: char)
    ensures
        parts_of(text, mark).len() >= 1,
    decreases text.len(),
{
    if text.len() > 0 {
        lemma_part_exists(text.drop_last(), mark);
    }
}

proof fn lemma_group_text_is_brief(groups: Seq<nat>)
    requires
        groups.len() <= 8,
        forall|i: int| 0 <= i < groups.len() ==> #[trigger] groups[i] < 0x1_0000,
    ensures
        brief(group_text(groups), 40),
{
    let parts = groups.map_values(|group: nat| hex_text(group));
    assert forall|i: int| 0 <= i < parts.len() implies brief(#[trigger] parts[i], 4) by {
        reveal_with_fuel(pow16, 5);
        assert(groups[i] < 0x1_0000);
        lemma_hex_text_is_brief(groups[i], 4);
    }
    reveal_strlit(":");
    lemma_joined_is_brief(parts, ":"@, 4);
}

/// A canonical address has at most a hundred characters, and no number sign.
proof fn lemma_address_is_brief(text: Seq<char>, groups: Seq<u16>)
    requires
        numeric_address(text),
        !dotted(text) ==> groups.len() == 8 && group_views(groups) == groups_of(text),
    ensures
        brief(canonical_address(text), 100),
{
    if dotted(text) {
        let parts = parts_of(text, '.');
        assert forall|i: int| 0 <= i < parts.len() implies brief(#[trigger] parts[i], 3) by {
            assert(octet(parts[i]));
            assert forall|j: int| 0 <= j < parts[i].len() implies #[trigger] parts[i][j]
                != '#' by {
                assert(is_digit(parts[i][j]));
            }
        }
        lemma_parts_are_brief(text, '.', 3);
        assert(brief(parts[3], 3));
    } else {
        let all = groups_of(text);
        assert forall|i: int| 0 <= i < all.len() implies #[trigger] all[i] < 0x1_0000 by {
            assert(all[i] == groups[i] as nat);
        }
        let start = longest_run(all, 8);
        let run = zero_run(all, start);
        if all.take(6) == zeros(5).push(0xffff) {
            reveal_strlit("::ffff:");
            reveal_strlit(".");
            assert(all[6] < 0x1_0000 && all[7] < 0x1_0000);
            lemma_decimal_is_brief(all[6] / 256);
            lemma_decimal_is_brief(all[6] % 256);
            lemma_decimal_is_brief(all[7] / 256);
            lemma_decimal_is_brief(all[7] % 256);
            let a = "::ffff:"@ + decimal(all[6] / 256);
            let b = a + "."@ + decimal(all[6] % 256);
            let c = b + "."@ + decimal(all[7] / 256);
            lemma_brief_joined("::ffff:"@, decimal(all[6] / 256), 7, 3);
            lemma_brief_joined(a, "."@, 10, 1);
            lemma_brief_joined(a + "."@, decimal(all[6] % 256), 11, 3);
            lemma_brief_joined(b, "."@, 14, 1);
            lemma_brief_joined(b + "."@, decimal(all[7] / 256), 15, 3);
            lemma_brief_joined(c, "."@, 18, 1);
            lemma_brief_joined(c + "."@, decimal(all[7] % 256), 19, 3);
        } else if run > 1 {
            reveal_strlit("::");
            lemma_run_within(all, 8);
            assert forall|i: int| 0 <= i < all.take(start).len() implies #[trigger] all.take(
                start,
            )[i] < 0x1_0000 by {
                assert(all[i] < 0x1_0000);
            }
            assert forall|i: int| 0 <= i < all.skip(start + run).len() implies #[trigger] all.skip(
                start + run,
            )[i] < 0x1_0000 by {
                assert(all[i + start + run] < 0x1_0000);
            }
            lemma_group_text_is_brief(all.take(start));
            lemma_group_text_is_brief(all.skip(start + run));
            lemma_brief_joined(group_text(all.take(start)), "::"@, 40, 2);
            lemma_brief_joined(
                group_text(all.take(start)) + "::"@,
                group_text(all.skip(start + run)),
                42,
                40,
            );
        } else {
            lemma_group_text_is_brief(all);
        }
    }
}

proof fn lemma_zero_run_within(groups: Seq<nat>, start: int)
    requires
        0 <= start <= groups.len(),
    ensures
        start + zero_run(groups, start) <= groups.len(),
    decreases groups.len() - start,
{
    if start < groups.len() && groups[start] == 0 {
        lemma_zero_run_within(groups, start + 1);
    }
}

proof fn lemma_run_within(groups: Seq<nat>, count: int)
    requires
        1 <= count <= groups.len(),
    ensures
        0 <= longest_run(groups, count) < count,
        longest_run(groups, count) + zero_run(groups, longest_run(groups, count)) <= groups.len(),
    decreases count,
{
    if count > 1 {
        lemma_run_within(groups, count - 1);
        lemma_zero_run_within(groups, count - 1);
    } else {
        lemma_zero_run_within(groups, 0);
    }
}

} // verus!
