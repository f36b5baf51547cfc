//! What the canonical notation of an address stands for.

use crate::address::{
    coloned, dotted, gap_at, groups_in, hex_group, is_hex, lemma_gap_stays, numeric_address, octet,
};
use crate::notation::{
    canonical_six, group_text, groups_of, hex_digit_value, hex_text, hex_value, longest_run,
    octet_groups, part_groups, values_in, zero_run, zeros,
};
use crate::reading::{law_joined_parts_are_read, lemma_decimal_read, lemma_digits_hold};
use crate::text::{decimal, decimal_value, digit, hex_digit, joined};
use vstd::prelude::*;

verus! {

/// Numbers of sixteen bits.
pub open spec fn sixteen_bits(groups: Seq<nat>) -> bool {
    forall|i: int| 0 <= i < groups.len() ==> #[trigger] groups[i] < 0x1_0000
}

proof fn lemma_hex_digit(value: nat)
    requires
        value < 16,
    ensures
        is_hex(hex_digit(value)),
        hex_digit_value(hex_digit(value)) == value,
{
}

proof fn lemma_hex_text(value: nat, digits: nat, bound: nat)
    requires
        0 < digits <= 4,
        value < bound,
        digits == 1 ==> bound == 16,
        digits == 2 ==> bound == 256,
        digits == 3 ==> bound == 4096,
        digits == 4 ==> bound == 65536,
    ensures
        1 <= hex_text(value).len() <= digits,
        hex_value(hex_text(value)) == value,
        forall|i: int| 0 <= i < hex_text(value).len() ==> is_hex(#[trigger] hex_text(value)[i]),
    decreases digits,
{
    let text = hex_text(value);
    if value < 16 {
        lemma_hex_digit(value);
        assert(text.drop_last() =~= Seq::empty());
        assert(hex_value(text.drop_last()) == 0);
    } else {
        assert(value / 16 < bound / 16);
        lemma_hex_text(value / 16, (digits - 1) as nat, bound / 16);
        lemma_hex_digit(value % 16);
        assert(text.drop_last() =~= hex_text(value / 16));
        assert forall|i: int| 0 <= i < text.len() implies is_hex(#[trigger] text[i]) by {
            if i < hex_text(value / 16).len() {
                assert(text[i] == hex_text(value / 16)[i]);
            }
        }
    }
}

proof fn lemma_group(value: nat)
    requires
        value < 0x1_0000,
    ensures
        hex_group(hex_text(value)),
        hex_value(hex_text(value)) == value,
        !hex_text(value).contains(':'),
{
    lemma_hex_text(value, 4, 65536);
}

/// The texts of groups.
spec fn group_texts(groups: Seq<nat>) -> Seq<Seq<char>> {
    groups.map_values(|group: nat| hex_text(group))
}

proof fn lemma_part_groups(groups: Seq<nat>, count: int)
    requires
        sixteen_bits(groups),
        0 <= count <= groups.len(),
    ensures
        part_groups(group_texts(groups), count) == groups.take(count),
    decreases count,
{
    if count > 0 {
        lemma_part_groups(groups, count - 1);
        assert(groups[count - 1] < 0x1_0000);
        lemma_group(groups[count - 1]);
        assert(groups.take(count) =~= groups.take(count - 1) + seq![groups[count - 1]]);
    } else {
        assert(groups.take(0) =~= Seq::empty());
    }
}

/// What the text of some groups looks like: no two colons in a row, none at its ends.
spec fn no_gap(text: Seq<char>) -> bool {
    &&& text.len() > 0 ==> text[0] != ':' && text.last() != ':'
    &&& forall|i: int| 0 <= i < text.len() - 1 ==> !(#[trigger] text[i] == ':' && text[i + 1]
        == ':')
}

proof fn lemma_no_gap(groups: Seq<nat>)
    requires
        sixteen_bits(groups),
    ensures
        no_gap(group_text(groups)),
        groups.len() > 0 ==> group_text(groups).len() > 0,
        groups.len() == 0 ==> group_text(groups).len() == 0,
    decreases groups.len(),
{
    reveal_strlit(":");
    let texts = group_texts(groups);
    if groups.len() > 0 {
        let last = hex_text(groups.last());
        assert(groups[groups.len() - 1] < 0x1_0000);
        lemma_group(groups.last());
        assert forall|i: int| 0 <= i < last.len() implies last[i] != ':' by {
            assert(last.contains(last[i]));
        }
        if groups.len() > 1 {
            let rest = groups.drop_last();
            assert forall|i: int| 0 <= i < rest.len() implies #[trigger] rest[i] < 0x1_0000 by {
                assert(rest[i] == groups[i]);
            }
            lemma_no_gap(rest);
            assert(texts.drop_last() =~= group_texts(rest));
            let before = group_text(rest);
            let text = group_text(groups);
            assert(text == before + ":"@ + last);
            assert forall|i: int| 0 <= i < text.len() - 1 implies !(#[trigger] text[i] == ':'
                && text[i + 1] == ':') by {
                if i + 1 < before.len() {
                    assert(text[i] == before[i] && text[i + 1] == before[i + 1]);
                } else if i < before.len() {
                    assert(text[i] == before.last());
                } else if i > before.len() {
                    assert(text[i] == last[i - before.len() - 1]);
                } else {
                    assert(text[i + 1] == last[0]);
                }
            }
            assert(text.last() == last.last());
        } else {
            assert(group_text(groups) == last);
        }
    }
}

proof fn lemma_values(groups: Seq<nat>)
    requires
        sixteen_bits(groups),
    ensures
        values_in(group_text(groups)) == groups,
{
    let texts = group_texts(groups);
    lemma_no_gap(groups);
    if groups.len() > 0 {
        reveal_strlit(":");
        assert(":"@ =~= seq![':']);
        assert forall|i: int| 0 <= i < texts.len() implies !(#[trigger] texts[i]).contains(
            ':',
        ) by {
            assert(groups[i] < 0x1_0000);
            lemma_group(groups[i]);
        }
        law_joined_parts_are_read(texts, ':');
        lemma_part_groups(groups, groups.len() as int);
        assert(groups.take(groups.len() as int) =~= groups);
    } else {
        assert(groups =~= Seq::empty());
    }
}

proof fn lemma_no_gap_before(text: Seq<char>, count: int)
    requires
        0 <= count <= text.len(),
        forall|i: int|
            0 <= i < count && i + 1 < text.len() ==> !(#[trigger] text[i] == ':' && text[i + 1]
                == ':'),
    ensures
        gap_at(text, count) is None,
    decreases count,
{
    if count > 0 {
        lemma_no_gap_before(text, count - 1);
        assert(!(text[count - 1] == ':' && text[count] == ':') || count == text.len());
    }
}

proof fn lemma_gap(head: Seq<char>, tail: Seq<char>)
    requires
        no_gap(head),
    ensures
        gap_at(head + "::"@ + tail, (head + "::"@ + tail).len() as int) == Some(head.len() as int),
        (head + "::"@ + tail).take(head.len() as int) == head,
        (head + "::"@ + tail).skip(head.len() as int + 2) == tail,
{
    reveal_strlit("::");
    let text = head + "::"@ + tail;
    let place = head.len() as int;
    assert forall|i: int| 0 <= i < place && i + 1 < text.len() implies !(#[trigger] text[i] == ':'
        && text[i + 1] == ':') by {
        assert(text[i] == head[i]);
        if i + 1 < place {
            assert(text[i + 1] == head[i + 1]);
        } else {
            assert(head.last() == head[i]);
        }
    }
    lemma_no_gap_before(text, place);
    assert(text[place] == ':' && text[place + 1] == ':');
    assert(gap_at(text, place + 1) == Some(place));
    lemma_gap_stays(text, place + 1, text.len() as int);
    assert(text.take(place) =~= head);
    assert(text.skip(place + 2) =~= tail);
}

proof fn lemma_zero_run(groups: Seq<nat>, start: int)
    requires
        0 <= start <= groups.len(),
    ensures
        start + zero_run(groups, start) <= groups.len(),
        forall|i: int|
            start <= i < start + zero_run(groups, start) ==> #[trigger] groups[i] == 0,
    decreases groups.len() - start,
{
    if start < groups.len() && groups[start] == 0 {
        lemma_zero_run(groups, start + 1);
    }
}

proof fn lemma_longest(groups: Seq<nat>, count: int)
    requires
        1 <= count <= groups.len(),
    ensures
        0 <= longest_run(groups, count) < count,
    decreases count,
{
    if count > 1 {
        lemma_longest(groups, count - 1);
    }
}

proof fn lemma_octets(a: nat, b: nat, c: nat, d: nat)
    requires
        a < 256,
        b < 256,
        c < 256,
        d < 256,
    ensures
        ({
            let text = decimal(a) + "."@ + decimal(b) + "."@ + decimal(c) + "."@ + decimal(d);
            &&& octet_groups(text) == seq![256 * a + b, 256 * c + d]
            &&& !text.contains(':')
            &&& !hex_group(text)
        }),
{
    let text = decimal(a) + "."@ + decimal(b) + "."@ + decimal(c) + "."@ + decimal(d);
    let parts = seq![decimal(a), decimal(b), decimal(c), decimal(d)];
    reveal_strlit(".");
    assert("."@ =~= seq!['.']);
    lemma_number(a);
    lemma_number(b);
    lemma_number(c);
    lemma_number(d);
    assert(parts.drop_last() =~= seq![decimal(a), decimal(b), decimal(c)]);
    assert(parts.drop_last().drop_last() =~= seq![decimal(a), decimal(b)]);
    assert(parts.drop_last().drop_last().drop_last() =~= seq![decimal(a)]);
    reveal_with_fuel(joined, 5);
    assert(joined(parts, seq!['.']) =~= text);
    law_joined_parts_are_read(parts, '.');
    assert(text[decimal(a).len() as int] == '.');
    assert(!is_hex('.'));
    assert forall|i: int| 0 <= i < text.len() implies text[i] != ':' by {
        lemma_each(parts, text, i);
    }
}

proof fn lemma_each(parts: Seq<Seq<char>>, text: Seq<char>, i: int)
    requires
        parts.len() == 4,
        text == parts[0] + "."@ + parts[1] + "."@ + parts[2] + "."@ + parts[3],
        forall|p: int| 0 <= p < 4 ==> !(#[trigger] parts[p]).contains(':'),
        0 <= i < text.len(),
    ensures
        text[i] != ':',
{
    reveal_strlit(".");
    let a = parts[0].len() as int;
    let b = a + 1 + parts[1].len();
    let c = b + 1 + parts[2].len();
    assert(!parts[0].contains(':') && !parts[1].contains(':') && !parts[2].contains(':')
        && !parts[3].contains(':'));
    if i < a {
        assert(parts[0].contains(parts[0][i]));
    } else if a < i < b {
        assert(parts[1].contains(parts[1][i - a - 1]));
    } else if b < i < c {
        assert(parts[2].contains(parts[2][i - b - 1]));
    } else if c < i {
        assert(parts[3].contains(parts[3][i - c - 1]));
    }
}

proof fn lemma_number(value: nat)
    ensures
        decimal_value(decimal(value)) == value,
        !decimal(value).contains('.'),
        !decimal(value).contains(':'),
        decimal(value).len() > 0,
{
    lemma_decimal_read(value);
    lemma_digits_hold(value as int, '.');
    lemma_digits_hold(value as int, ':');
}

proof fn lemma_mapped(groups: Seq<nat>)
    requires
        groups.len() == 8,
        sixteen_bits(groups),
        groups.take(6) == zeros(5).push(0xffff),
    ensures
        groups_of(canonical_six(groups)) == groups,
{
    assert(groups[6] < 0x1_0000 && groups[7] < 0x1_0000);
    let a = groups[6] / 256;
    let b = groups[6] % 256;
    let c = groups[7] / 256;
    let d = groups[7] % 256;
    let octets = decimal(a) + "."@ + decimal(b) + "."@ + decimal(c) + "."@ + decimal(d);
    let tail = "ffff:"@ + octets;
    let text = canonical_six(groups);
    let empty = Seq::<char>::empty();
    lemma_octets(a, b, c, d);
    assert("::ffff:"@ =~= empty + "::"@ + "ffff:"@) by {
        reveal_strlit("::ffff:");
        reveal_strlit("::");
        reveal_strlit("ffff:");
    }
    assert(text =~= empty + "::"@ + tail);
    lemma_gap(empty, tail);
    reveal_strlit("ffff:");
    let ffff = seq!['f', 'f', 'f', 'f'];
    let parts = seq![ffff, octets];
    assert(parts.drop_last() =~= seq![ffff]);
    reveal_with_fuel(joined, 3);
    assert(joined(parts, seq![':']) =~= tail);
    law_joined_parts_are_read(parts, ':');
    reveal_with_fuel(hex_value, 5);
    assert(ffff.drop_last() =~= seq!['f', 'f', 'f']);
    assert(ffff.drop_last().drop_last() =~= seq!['f', 'f']);
    assert(ffff.drop_last().drop_last().drop_last() =~= seq!['f']);
    assert(hex_value(ffff) == 0xffff);
    assert(hex_group(ffff));
    reveal_with_fuel(part_groups, 3);
    assert(values_in(tail) =~= seq![0xffffnat, groups[6], groups[7]]);
    assert(text.take(0) =~= empty);
    assert(values_in(empty) =~= Seq::empty());
    let all = Seq::<nat>::empty() + zeros(5) + seq![0xffffnat, groups[6], groups[7]];
    assert forall|i: int| 0 <= i < 8 implies all[i] == groups[i] by {
        if i < 6 {
            assert(groups.take(6)[i] == groups[i]);
            assert(zeros(5).push(0xffff)[i] == groups[i]);
        }
    }
    assert(all =~= groups);
}

/// The canonical notation of an address of version 6 stands for the same address: its eight
/// groups are read from it again, whichever notation it had.
pub proof fn law_canonical_notation_keeps_the_address(groups: Seq<nat>)
    requires
        groups.len() == 8,
        sixteen_bits(groups),
    ensures
        groups_of(canonical_six(groups)) == groups,
{
    let start = longest_run(groups, 8);
    let run = zero_run(groups, start) as int;
    lemma_longest(groups, 8);
    lemma_zero_run(groups, start);
    if groups.take(6) == zeros(5).push(0xffff) {
        lemma_mapped(groups);
    } else if run > 1 {
        let head = groups.take(start);
        let tail = groups.skip(start + run);
        assert forall|i: int| 0 <= i < head.len() implies #[trigger] head[i] < 0x1_0000 by {
            assert(head[i] == groups[i]);
        }
        assert forall|i: int| 0 <= i < tail.len() implies #[trigger] tail[i] < 0x1_0000 by {
            assert(tail[i] == groups[i + start + run]);
        }
        lemma_values(head);
        lemma_values(tail);
        lemma_no_gap(head);
        lemma_gap(group_text(head), group_text(tail));
        let all = head + zeros(run as nat) + tail;
        assert forall|i: int| 0 <= i < 8 implies all[i] == groups[i] by {
            if start <= i < start + run {
                assert(groups[i] == 0);
            }
        }
        assert(all =~= groups);
    } else {
        let text = group_text(groups);
        lemma_values(groups);
        lemma_no_gap(groups);
        assert forall|i: int| 0 <= i < text.len() && i + 1 < text.len() implies !(#[trigger] text[i]
            == ':' && text[i + 1] == ':') by {}
        lemma_no_gap_before(text, text.len() as int);
    }
}

proof fn lemma_counted(groups: Seq<nat>, dots: bool)
    requires
        sixteen_bits(groups),
    ensures
        groups_in(group_text(groups), dots) == Some(groups.len()),
{
    let texts = group_texts(groups);
    lemma_no_gap(groups);
    if groups.len() > 0 {
        reveal_strlit(":");
        assert(":"@ =~= seq![':']);
        assert forall|i: int| 0 <= i < texts.len() implies hex_group(#[trigger] texts[i])
            && !texts[i].contains(':') by {
            assert(groups[i] < 0x1_0000);
            lemma_group(groups[i]);
        }
        law_joined_parts_are_read(texts, ':');
        assert(hex_group(texts[texts.len() - 1]));
    }
}

proof fn lemma_octet(value: nat)
    requires
        value < 256,
    ensures
        octet(decimal(value)),
{
    lemma_decimal_read(value);
    reveal_with_fuel(decimal, 4);
    if value >= 10 {
        if value < 100 {
            assert(decimal(value)[0] == digit(value / 10));
        } else {
            assert(decimal(value)[0] == digit(value / 10 / 10));
        }
    }
}

proof fn lemma_dotted(a: nat, b: nat, c: nat, d: nat)
    requires
        octet(decimal(a)),
        octet(decimal(b)),
        octet(decimal(c)),
        octet(decimal(d)),
    ensures
        dotted(decimal(a) + "."@ + decimal(b) + "."@ + decimal(c) + "."@ + decimal(d)),
{
    let text = decimal(a) + "."@ + decimal(b) + "."@ + decimal(c) + "."@ + decimal(d);
    let parts = seq![decimal(a), decimal(b), decimal(c), decimal(d)];
    reveal_strlit(".");
    assert("."@ =~= seq!['.']);
    lemma_number(a);
    lemma_number(b);
    lemma_number(c);
    lemma_number(d);
    assert(parts.drop_last() =~= seq![decimal(a), decimal(b), decimal(c)]);
    assert(parts.drop_last().drop_last() =~= seq![decimal(a), decimal(b)]);
    assert(parts.drop_last().drop_last().drop_last() =~= seq![decimal(a)]);
    reveal_with_fuel(joined, 5);
    assert(joined(parts, seq!['.']) =~= text);
    law_joined_parts_are_read(parts, '.');
}

proof fn lemma_mapped_is_numeric(groups: Seq<nat>)
    requires
        groups.len() == 8,
        sixteen_bits(groups),
        groups.take(6) == zeros(5).push(0xffff),
    ensures
        coloned(canonical_six(groups)),
{
    assert(groups[6] < 0x1_0000 && groups[7] < 0x1_0000);
    let a = groups[6] / 256;
    let b = groups[6] % 256;
    let c = groups[7] / 256;
    let d = groups[7] % 256;
    let octets = decimal(a) + "."@ + decimal(b) + "."@ + decimal(c) + "."@ + decimal(d);
    let tail = "ffff:"@ + octets;
    let text = canonical_six(groups);
    let empty = Seq::<char>::empty();
    lemma_octets(a, b, c, d);
    lemma_octet(a);
    lemma_octet(b);
    lemma_octet(c);
    lemma_octet(d);
    lemma_dotted(a, b, c, d);
    assert("::ffff:"@ =~= empty + "::"@ + "ffff:"@) by {
        reveal_strlit("::ffff:");
        reveal_strlit("::");
        reveal_strlit("ffff:");
    }
    assert(text =~= empty + "::"@ + tail);
    lemma_gap(empty, tail);
    reveal_strlit("ffff:");
    let ffff = seq!['f', 'f', 'f', 'f'];
    let parts = seq![ffff, octets];
    assert(parts.drop_last() =~= seq![ffff]);
    reveal_with_fuel(joined, 3);
    assert(joined(parts, seq![':']) =~= tail);
    law_joined_parts_are_read(parts, ':');
    assert(hex_group(ffff));
    assert(parts.last() == octets);
    assert(groups_in(tail, true) == Some(3nat));
    assert(groups_in(empty, false) == Some(0nat));
}

/// The canonical notation of an address of version 6 is one of a numeric address, so that an
/// address that was written once is accepted again.
pub proof fn law_canonical_notation_is_accepted(groups: Seq<nat>)
    requires
        groups.len() == 8,
        sixteen_bits(groups),
    ensures
        numeric_address(canonical_six(groups)),
{
    let start = longest_run(groups, 8);
    let run = zero_run(groups, start) as int;
    lemma_longest(groups, 8);
    lemma_zero_run(groups, start);
    if groups.take(6) == zeros(5).push(0xffff) {
        lemma_mapped_is_numeric(groups);
    } else if run > 1 {
        let head = groups.take(start);
        let tail = groups.skip(start + run);
        assert forall|i: int| 0 <= i < head.len() implies #[trigger] head[i] < 0x1_0000 by {
            assert(head[i] == groups[i]);
        }
        assert forall|i: int| 0 <= i < tail.len() implies #[trigger] tail[i] < 0x1_0000 by {
            assert(tail[i] == groups[i + start + run]);
        }
        lemma_counted(head, false);
        lemma_counted(tail, true);
        lemma_no_gap(head);
        lemma_gap(group_text(head), group_text(tail));
    } else {
        let text = group_text(groups);
        lemma_counted(groups, true);
        lemma_no_gap(groups);
        assert forall|i: int| 0 <= i < text.len() && i + 1 < text.len() implies !(#[trigger] text[i]
            == ':' && text[i + 1] == ':') by {}
        lemma_no_gap_before(text, text.len() as int);
    }
}

} // verus!
