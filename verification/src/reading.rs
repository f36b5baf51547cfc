//! How texts that were written are read: numbers, bytes, names and literals.

use crate::text::{
    all_digits, decimal, decimal_value, digit, digit_value, filled, hex_digit, hex_of, is_digit,
    joined, lines_of, parts_of, records_of, replaced, signed_decimal, stands_at,
};
use vstd::prelude::*;

verus! {

/// The integer that a text spells, if it does.
pub open spec fn number_in(text: Seq<char>) -> Option<int> {
    if all_digits(text) {
        Some(decimal_value(text) as int)
    } else if text.len() > 0 && text[0] == '-' && all_digits(text.skip(1)) {
        Some(-(decimal_value(text.skip(1)) as int))
    } else {
        None
    }
}

pub proof fn lemma_decimal_read(value: nat)
    ensures
        all_digits(decimal(value)),
        decimal_value(decimal(value)) == value,
    decreases value,
{
    let text = decimal(value);
    if value < 10 {
        assert(text.drop_last() =~= Seq::empty());
        assert(decimal_value(text.drop_last()) == 0);
        assert(is_digit(text[0]));
        assert(digit_value(digit(value)) == value);
    } else {
        lemma_decimal_read(value / 10);
        assert(text.drop_last() =~= decimal(value / 10));
        assert(digit_value(digit(value % 10)) == value % 10);
        assert forall|i: int| 0 <= i < text.len() implies is_digit(#[trigger] text[i]) by {
            if i < decimal(value / 10).len() {
                assert(text[i] == decimal(value / 10)[i]);
            }
        }
    }
}

/// A number that was written is read as itself.
pub proof fn law_decimal_is_read(value: nat)
    ensures
        number_in(decimal(value)) == Some(value as int),
{
    lemma_decimal_read(value);
}

/// An integer that was written is read as itself, with its sign.
pub proof fn law_signed_decimal_is_read(value: int)
    ensures
        number_in(signed_decimal(value)) == Some(value),
{
    if value < 0 {
        let digits = decimal((-value) as nat);
        lemma_decimal_read((-value) as nat);
        assert(signed_decimal(value).skip(1) =~= digits);
        assert(!is_digit(signed_decimal(value)[0]));
    } else {
        lemma_decimal_read(value as nat);
    }
}

/// The value of a hexadecimal digit.
pub open spec fn hex_value(c: char) -> nat {
    if is_digit(c) {
        digit_value(c)
    } else {
        (c as u32 - 'a' as u32 + 10) as nat
    }
}

/// The bytes that pairs of hexadecimal digits spell.
pub open spec fn bytes_in(text: Seq<char>) -> Seq<u8> {
    Seq::new(
        text.len() / 2,
        |i: int| (16 * hex_value(text[2 * i]) + hex_value(text[2 * i + 1])) as u8,
    )
}

proof fn lemma_hex_value(value: nat)
    requires
        value < 16,
    ensures
        hex_value(hex_digit(value)) == value,
{
}

/// Bytes that were written in hexadecimal digits are read as themselves.
pub proof fn law_hex_is_read(bytes: Seq<u8>)
    ensures
        hex_of(bytes).len() == 2 * bytes.len(),
        bytes_in(hex_of(bytes)) == bytes,
    decreases bytes.len(),
{
    if bytes.len() > 0 {
        let before = bytes.drop_last();
        let text = hex_of(bytes);
        law_hex_is_read(before);
        lemma_hex_value((bytes.last() / 16) as nat);
        lemma_hex_value((bytes.last() % 16) as nat);
        assert forall|i: int| 0 <= i < bytes.len() implies #[trigger] bytes_in(text)[i]
            == bytes[i] by {
            if i < before.len() {
                assert(text[2 * i] == hex_of(before)[2 * i]);
                assert(text[2 * i + 1] == hex_of(before)[2 * i + 1]);
                assert(bytes_in(hex_of(before))[i] == before[i]);
            }
        }
    }
    assert(bytes_in(hex_of(bytes)) =~= bytes);
}

/// What stands between here and the closing mark, and what stands behind that. A doubled mark
/// stands for itself; where there are escapes, so does the character behind a backslash.
pub open spec fn quoted_body(text: Seq<char>, mark: char, escapes: bool) -> Option<
    (Seq<char>, Seq<char>),
>
    decreases text.len(),
{
    if text.len() == 0 {
        None
    } else if escapes && text[0] == '\\' {
        if text.len() == 1 {
            None
        } else {
            match quoted_body(text.skip(2), mark, escapes) {
                Some((name, rest)) => Some((seq![text[1]] + name, rest)),
                None => None,
            }
        }
    } else if text[0] == mark {
        if text.len() > 1 && text[1] == mark {
            match quoted_body(text.skip(2), mark, escapes) {
                Some((name, rest)) => Some((seq![mark] + name, rest)),
                None => None,
            }
        } else {
            Some((Seq::empty(), text.skip(1)))
        }
    } else {
        match quoted_body(text.skip(1), mark, escapes) {
            Some((name, rest)) => Some((seq![text[0]] + name, rest)),
            None => None,
        }
    }
}

/// The name or the text that stands in marks at the start of a text, and what stands behind it.
pub open spec fn quoted_in(text: Seq<char>, mark: char, escapes: bool) -> Option<
    (Seq<char>, Seq<char>),
> {
    if text.len() > 0 && text[0] == mark {
        quoted_body(text.skip(1), mark, escapes)
    } else {
        None
    }
}

/// A text does not go on with a mark.
pub open spec fn ends_name(rest: Seq<char>, mark: char) -> bool {
    rest.len() == 0 || rest[0] != mark
}

proof fn lemma_replaced_parts(left: Seq<char>, right: Seq<char>, mark: char, by: Seq<char>)
    ensures
        replaced(left + right, mark, by) == replaced(left, mark, by) + replaced(right, mark, by),
    decreases right.len(),
{
    let text = left + right;
    if right.len() == 0 {
        assert(text =~= left);
        assert(replaced(left, mark, by) + Seq::<char>::empty() =~= replaced(left, mark, by));
    } else {
        lemma_replaced_parts(left, right.drop_last(), mark, by);
        assert(text.drop_last() =~= left + right.drop_last());
        assert(text.last() == right.last());
        let end = if right.last() == mark {
            by
        } else {
            seq![right.last()]
        };
        assert((replaced(left, mark, by) + replaced(right.drop_last(), mark, by)) + end =~= replaced(
            left,
            mark,
            by,
        ) + (replaced(right.drop_last(), mark, by) + end));
    }
}

proof fn lemma_replaced_one(c: char, mark: char, by: Seq<char>)
    ensures
        replaced(seq![c], mark, by) == (if c == mark {
            by
        } else {
            seq![c]
        }),
{
    assert(seq![c].drop_last() =~= Seq::empty());
    assert(replaced(Seq::empty(), mark, by) =~= Seq::empty());
    let end = if c == mark {
        by
    } else {
        seq![c]
    };
    assert(Seq::<char>::empty() + end =~= end);
}

/// A name with its marks doubled, within marks, is read as itself.
pub proof fn law_doubled_name_is_read(name: Seq<char>, rest: Seq<char>, mark: char)
    requires
        ends_name(rest, mark),
    ensures
        quoted_in(
            seq![mark] + replaced(name, mark, seq![mark, mark]) + seq![mark] + rest,
            mark,
            false,
        ) == Some((name, rest)),
{
    let body = replaced(name, mark, seq![mark, mark]) + (seq![mark] + rest);
    lemma_doubled_body(name, rest, mark);
    assert((seq![mark] + replaced(name, mark, seq![mark, mark]) + seq![mark] + rest).skip(1)
        =~= body);
}

proof fn lemma_doubled_body(name: Seq<char>, rest: Seq<char>, mark: char)
    requires
        ends_name(rest, mark),
    ensures
        quoted_body(
            replaced(name, mark, seq![mark, mark]) + (seq![mark] + rest),
            mark,
            false,
        ) == Some((name, rest)),
    decreases name.len(),
{
    let by = seq![mark, mark];
    let text = replaced(name, mark, by) + (seq![mark] + rest);
    if name.len() == 0 {
        assert(text =~= seq![mark] + rest);
        assert(text.skip(1) =~= rest);
        assert(name =~= Seq::empty());
    } else {
        let after = name.skip(1);
        let inner = replaced(after, mark, by) + (seq![mark] + rest);
        assert(name =~= seq![name[0]] + after);
        lemma_replaced_parts(seq![name[0]], after, mark, by);
        lemma_replaced_one(name[0], mark, by);
        lemma_doubled_body(after, rest, mark);
        if name[0] == mark {
            assert(text.skip(2) =~= inner);
        } else {
            assert(text.skip(1) =~= inner);
        }
        assert(seq![name[0]] + after =~= name);
    }
}

/// A name whose backslashes are doubled and whose marks are behind a backslash or doubled,
/// within marks, is read as itself where there are escapes.
pub proof fn law_escaped_name_is_read(
    name: Seq<char>,
    rest: Seq<char>,
    mark: char,
    by: Seq<char>,
)
    requires
        mark != '\\',
        ends_name(rest, mark),
        by == seq!['\\', mark] || by == seq![mark, mark],
    ensures
        quoted_in(
            seq![mark] + replaced(replaced(name, '\\', seq!['\\', '\\']), mark, by) + seq![mark]
                + rest,
            mark,
            true,
        ) == Some((name, rest)),
{
    let body = replaced(replaced(name, '\\', seq!['\\', '\\']), mark, by) + (seq![mark] + rest);
    lemma_escaped_body(name, rest, mark, by);
    assert((seq![mark] + replaced(replaced(name, '\\', seq!['\\', '\\']), mark, by) + seq![mark]
        + rest).skip(1) =~= body);
}

proof fn lemma_escaped_body(name: Seq<char>, rest: Seq<char>, mark: char, by: Seq<char>)
    requires
        mark != '\\',
        ends_name(rest, mark),
        by == seq!['\\', mark] || by == seq![mark, mark],
    ensures
        quoted_body(
            replaced(replaced(name, '\\', seq!['\\', '\\']), mark, by) + (seq![mark] + rest),
            mark,
            true,
        ) == Some((name, rest)),
    decreases name.len(),
{
    let slashes = seq!['\\', '\\'];
    let text = replaced(replaced(name, '\\', slashes), mark, by) + (seq![mark] + rest);
    if name.len() == 0 {
        assert(text =~= seq![mark] + rest);
        assert(text.skip(1) =~= rest);
        assert(name =~= Seq::empty());
    } else {
        let c = name[0];
        let after = name.skip(1);
        let inner = replaced(replaced(after, '\\', slashes), mark, by) + (seq![mark] + rest);
        assert(name =~= seq![c] + after);
        lemma_replaced_parts(seq![c], after, '\\', slashes);
        lemma_replaced_one(c, '\\', slashes);
        lemma_replaced_parts(
            replaced(seq![c], '\\', slashes),
            replaced(after, '\\', slashes),
            mark,
            by,
        );
        lemma_escaped_body(after, rest, mark, by);
        if c == '\\' {
            assert(slashes =~= seq!['\\'] + seq!['\\']);
            lemma_replaced_parts(seq!['\\'], seq!['\\'], mark, by);
            lemma_replaced_one('\\', mark, by);
            assert(text.skip(2) =~= inner);
        } else {
            lemma_replaced_one(c, mark, by);
            if c == mark {
                assert(text.skip(2) =~= inner);
            } else {
                assert(text.skip(1) =~= inner);
            }
        }
        assert(seq![c] + after =~= name);
    }
}

proof fn lemma_whole_part(text: Seq<char>, mark: char)
    requires
        !text.contains(mark),
    ensures
        parts_of(text, mark) == seq![text],
    decreases text.len(),
{
    if text.len() > 0 {
        let rest = text.drop_last();
        assert forall|i: int| 0 <= i < rest.len() implies rest[i] != mark by {
            assert(text[i] == rest[i]);
            assert(text.contains(text[i]));
        }
        lemma_whole_part(rest, mark);
        assert(text.contains(text.last()));
        assert(rest.push(text.last()) =~= text);
        assert(parts_of(text, mark) =~= seq![text]);
    } else {
        assert(text =~= Seq::empty());
    }
}

proof fn lemma_parts_behind(before: Seq<char>, part: Seq<char>, mark: char)
    requires
        !part.contains(mark),
    ensures
        parts_of(before + seq![mark] + part, mark) == parts_of(before, mark).push(part),
    decreases part.len(),
{
    let text = before + seq![mark] + part;
    if part.len() == 0 {
        assert(text.drop_last() =~= before);
        assert(part =~= Seq::empty());
    } else {
        let rest = part.drop_last();
        assert forall|i: int| 0 <= i < rest.len() implies rest[i] != mark by {
            assert(part[i] == rest[i]);
            assert(part.contains(part[i]));
        }
        lemma_parts_behind(before, rest, mark);
        assert(part.contains(part.last()));
        assert(text.drop_last() =~= before + seq![mark] + rest);
        assert(rest.push(part.last()) =~= part);
        assert(parts_of(before, mark).push(rest).drop_last() =~= parts_of(before, mark));
    }
}

/// Parts that were joined by a mark which none of them holds are found again by cutting there.
pub proof fn law_joined_parts_are_read(parts: Seq<Seq<char>>, mark: char)
    requires
        parts.len() > 0,
        forall|i: int| 0 <= i < parts.len() ==> !(#[trigger] parts[i]).contains(mark),
    ensures
        parts_of(joined(parts, seq![mark]), mark) == parts,
    decreases parts.len(),
{
    if parts.len() == 1 {
        lemma_whole_part(parts[0], mark);
        assert(parts =~= seq![parts[0]]);
    } else {
        let rest = parts.drop_last();
        assert forall|i: int| 0 <= i < rest.len() implies !(#[trigger] rest[i]).contains(mark) by {
            assert(rest[i] == parts[i]);
        }
        law_joined_parts_are_read(rest, mark);
        assert(!parts[parts.len() - 1].contains(mark));
        lemma_parts_behind(joined(rest, seq![mark]), parts.last(), mark);
        assert(rest.push(parts.last()) =~= parts);
    }
}

/// Digits hold no other characters.
pub proof fn lemma_digits_hold(value: int, c: char)
    requires
        !is_digit(c),
        c != '-',
    ensures
        !signed_decimal(value).contains(c),
        value >= 0 ==> !decimal(value as nat).contains(c),
{
    if value < 0 {
        lemma_decimal_read((-value) as nat);
        let digits = decimal((-value) as nat);
        let text = signed_decimal(value);
        assert forall|i: int| 0 <= i < text.len() implies text[i] != c by {
            if i > 0 {
                assert(is_digit(digits[i - 1]));
            }
        }
    } else {
        lemma_decimal_read(value as nat);
    }
}

/// Whether a text begins with another.
pub open spec fn begins(text: Seq<char>, part: Seq<char>) -> bool {
    text.len() >= part.len() && text.take(part.len() as int) == part
}

/// What stands behind the text that another begins with.
pub open spec fn behind(text: Seq<char>, part: Seq<char>) -> Seq<char> {
    text.skip(part.len() as int)
}

pub proof fn lemma_begins(part: Seq<char>, rest: Seq<char>)
    ensures
        begins(part + rest, part),
        behind(part + rest, part) == rest,
{
    assert((part + rest).take(part.len() as int) =~= part);
    assert((part + rest).skip(part.len() as int) =~= rest);
}

/// A text that begins otherwise.
pub proof fn lemma_begins_not(text: Seq<char>, part: Seq<char>, place: int)
    requires
        0 <= place < part.len(),
        text.len() <= place || text[place] != part[place],
    ensures
        !begins(text, part),
{
    if begins(text, part) {
        assert(text.take(part.len() as int)[place] == text[place]);
    }
}

/// What stands before the first blank of a text.
pub open spec fn word_in(text: Seq<char>) -> Seq<char>
    decreases text.len(),
{
    if text.len() == 0 || text[0] == ' ' {
        Seq::empty()
    } else {
        seq![text[0]] + word_in(text.skip(1))
    }
}

pub proof fn lemma_word(word: Seq<char>, rest: Seq<char>)
    requires
        !word.contains(' '),
        rest.len() == 0 || rest[0] == ' ',
    ensures
        word_in(word + rest) == word,
    decreases word.len(),
{
    let text = word + rest;
    if word.len() == 0 {
        assert(text =~= rest);
        assert(word =~= Seq::empty());
    } else {
        let after = word.skip(1);
        assert(word.contains(word[0]));
        assert forall|i: int| 0 <= i < after.len() implies after[i] != ' ' by {
            assert(word.contains(word[i + 1]));
        }
        lemma_word(after, rest);
        assert(text.skip(1) =~= after + rest);
        assert(seq![word[0]] + after =~= word);
    }
}

/// Whether `part` stands somewhere in a text.
pub open spec fn holds_part(text: Seq<char>, part: Seq<char>) -> bool {
    exists|place: int| 0 <= place && #[trigger] stands_at(text, part, place)
}

pub proof fn lemma_holds_part(before: Seq<char>, part: Seq<char>, after: Seq<char>)
    ensures
        holds_part(before + part + after, part),
{
    let text = before + part + after;
    let place = before.len() as int;
    assert(text.subrange(place, place + part.len() as int) =~= part);
    assert(stands_at(text, part, place));
}

/// The object of a database that a text begins with, and what stands behind it.
pub open spec fn object_in(text: Seq<char>, mark: char, escapes: bool) -> Option<
    ((Seq<char>, Seq<char>), Seq<char>),
> {
    match quoted_in(text, mark, escapes) {
        Some((database, rest)) => if begins(rest, "."@) {
            match quoted_in(behind(rest, "."@), mark, escapes) {
                Some((object, end)) => Some(((database, object), end)),
                None => None,
            }
        } else {
            None
        },
        None => None,
    }
}

/// Whether a text ends with another.
pub open spec fn ends(text: Seq<char>, part: Seq<char>) -> bool {
    text.len() >= part.len() && text.skip(text.len() - part.len()) == part
}

/// Lines that were written one below the other are read again: each line that is not empty, in
/// order.
pub proof fn law_lines_are_read(lines: Seq<Seq<char>>)
    requires
        lines.len() > 0,
        forall|i: int|
            0 <= i < lines.len() ==> (#[trigger] lines[i]).len() > 0 && !lines[i].contains('\n')
                && lines[i].last() != '\r',
    ensures
        records_of(joined(lines, seq!['\n'])) == lines,
        records_of(joined(lines, seq!['\n']) + seq!['\n']) == lines,
{
    let text = joined(lines, seq!['\n']);
    let empty = Seq::<char>::empty();
    assert forall|i: int| 0 <= i < lines.len() implies !(#[trigger] lines[i]).contains('\n') by {}
    law_joined_parts_are_read(lines, '\n');
    assert(lines_of(text) =~= lines);
    lemma_filled(lines, lines.len() as int);
    assert(lines.take(lines.len() as int) =~= lines);
    lemma_parts_behind(text, empty, '\n');
    assert(text + seq!['\n'] + empty =~= text + seq!['\n']);
    let more = lines.push(empty);
    assert(lines_of(text + seq!['\n']) =~= more);
    lemma_filled(more, lines.len() as int);
    assert(more.take(lines.len() as int) =~= lines);
}

proof fn lemma_filled(texts: Seq<Seq<char>>, count: int)
    requires
        0 <= count <= texts.len(),
        forall|i: int| 0 <= i < count ==> (#[trigger] texts[i]).len() > 0,
    ensures
        filled(texts, count) == texts.take(count),
    decreases count,
{
    if count > 0 {
        lemma_filled(texts, count - 1);
        assert(texts.take(count - 1).push(texts[count - 1]) =~= texts.take(count));
    } else {
        assert(texts.take(0) =~= Seq::empty());
    }
}

/// A name that begins with a fixed text tells what stands behind it.
pub proof fn lemma_prefix_tells(prefix: Seq<char>, left: Seq<char>, right: Seq<char>)
    requires
        prefix + left == prefix + right,
    ensures
        left == right,
{
    lemma_begins(prefix, left);
    lemma_begins(prefix, right);
}

} // verus!
