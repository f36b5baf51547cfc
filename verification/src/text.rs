//! Text assembled and compared character by character.

use vstd::prelude::*;
use vstd::utf8::{encode_utf8, encode_utf8_decode_utf8, valid_utf8};

verus! {

/// The decimal digit of a number below ten.
pub open spec fn digit(value: nat) -> char {
    if value == 0 {
        '0'
    } else if value == 1 {
        '1'
    } else if value == 2 {
        '2'
    } else if value == 3 {
        '3'
    } else if value == 4 {
        '4'
    } else if value == 5 {
        '5'
    } else if value == 6 {
        '6'
    } else if value == 7 {
        '7'
    } else if value == 8 {
        '8'
    } else {
        '9'
    }
}

/// A natural number in decimal notation, without leading zeros.
pub open spec fn decimal(value: nat) -> Seq<char>
    decreases value,
{
    if value < 10 {
        seq![digit(value)]
    } else {
        decimal(value / 10).push(digit(value % 10))
    }
}

/// An integer in decimal notation, with a sign where it is negative.
pub open spec fn signed_decimal(value: int) -> Seq<char> {
    if value < 0 {
        seq!['-'] + decimal((-value) as nat)
    } else {
        decimal(value as nat)
    }
}

/// The parts in order, with `separator` between each two.
pub open spec fn joined(parts: Seq<Seq<char>>, separator: Seq<char>) -> Seq<char>
    decreases parts.len(),
{
    if parts.len() == 0 {
        Seq::empty()
    } else if parts.len() == 1 {
        parts[0]
    } else {
        joined(parts.drop_last(), separator) + separator + parts.last()
    }
}

/// `text` with each `mark` replaced by `substitute`.
pub open spec fn replaced(text: Seq<char>, mark: char, substitute: Seq<char>) -> Seq<char>
    decreases text.len(),
{
    if text.len() == 0 {
        Seq::empty()
    } else {
        replaced(text.drop_last(), mark, substitute) + (if text.last() == mark {
            substitute
        } else {
            seq![text.last()]
        })
    }
}

/// An ASCII letter in lower case; any other character as it is.
pub open spec fn lower(c: char) -> char {
    if 'A' <= c && c <= 'Z' {
        ((c as u32 + 32) as u8) as char
    } else {
        c
    }
}

/// `text` with its ASCII letters in lower case.
pub open spec fn lowered(text: Seq<char>) -> Seq<char> {
    text.map_values(|c: char| lower(c))
}

/// The views of some texts.
pub open spec fn views(texts: Seq<String>) -> Seq<Seq<char>> {
    texts.map_values(|text: String| text@)
}

/// The length of a text in UTF-8 bytes.
pub open spec fn byte_len(text: Seq<char>) -> nat {
    encode_utf8(text).len()
}

/// Calls `String::push`: the text grows by one character at its end.
#[verifier::external_body]
pub(crate) fn push_char(text: &mut String, c: char)
    ensures
        final(text)@ == old(text)@.push(c),
{
    text.push(c)
}

/// A text as it is shown for debugging, in quotes and with its escapes.
pub uninterp spec fn debug_string(text: Seq<char>) -> Seq<char>;

/// Calls the `Debug` formatting of `str`: what is shown depends on the text alone. Which
/// characters it escapes, and how, is not stated.
#[verifier::external_body]
pub(crate) fn debug_text(text: &str) -> (shown: String)
    ensures
        shown@ == debug_string(text@),
{
    format!("{text:?}")
}

/// Whether two texts hold the same characters.
pub fn same_text(left: &str, right: &str) -> (same: bool)
    ensures
        same == (left@ == right@),
{
    proof {
        encode_utf8_decode_utf8(left@);
        encode_utf8_decode_utf8(right@);
    }
    crate::bytes::same_bytes(left.as_bytes(), right.as_bytes())
}

/// The characters of a text.
pub fn chars_of(text: &str) -> (chars: Vec<char>)
    ensures
        chars@ == text@,
{
    let mut chars: Vec<char> = Vec::new();
    for c in iter: text.chars()
        invariant
            iter.seq() == text@,
            chars@ == text@.take(iter.index()),
    {
        chars.push(c);
        assert(chars@ =~= text@.take(iter.index() + 1));
    }
    assert(chars@ =~= text@);
    chars
}

/// The text that some characters spell.
pub fn text_of(chars: &[char]) -> (text: String)
    ensures
        text@ == chars@,
{
    let mut text: String = String::new();
    let mut index: usize = 0;
    while index < chars.len()
        invariant
            index <= chars@.len(),
            text@ == chars@.take(index as int),
        decreases chars@.len() - index,
    {
        push_char(&mut text, chars[index]);
        index += 1;
        assert(text@ =~= chars@.take(index as int));
    }
    assert(text@ =~= chars@);
    text
}

/// The length of a text in UTF-8 bytes.
pub fn text_bytes(text: &str) -> (length: usize)
    ensures
        length as nat == byte_len(text@),
{
    text.as_bytes().len()
}

/// Appends `value` in decimal notation.
pub fn push_decimal(text: &mut String, value: u64)
    ensures
        final(text)@ == old(text)@ + decimal(value as nat),
    decreases value,
{
    if value >= 10 {
        push_decimal(text, value / 10);
    }
    let unit: u64 = value % 10;
    let c: char = if unit == 0 {
        '0'
    } else if unit == 1 {
        '1'
    } else if unit == 2 {
        '2'
    } else if unit == 3 {
        '3'
    } else if unit == 4 {
        '4'
    } else if unit == 5 {
        '5'
    } else if unit == 6 {
        '6'
    } else if unit == 7 {
        '7'
    } else if unit == 8 {
        '8'
    } else {
        '9'
    };
    push_char(text, c);
    assert(text@ =~= old(text)@ + decimal(value as nat));
}

/// `value` in decimal notation.
pub fn decimal_text(value: u64) -> (text: String)
    ensures
        text@ == decimal(value as nat),
{
    let mut text: String = String::new();
    push_decimal(&mut text, value);
    assert(text@ =~= decimal(value as nat));
    text
}

/// `value` in decimal notation, with its sign.
pub fn signed_decimal_text(value: i64) -> (text: String)
    ensures
        text@ == signed_decimal(value as int),
{
    let mut text: String = String::new();
    if value < 0 {
        push_char(&mut text, '-');
        push_decimal(&mut text, magnitude(value));
        assert(text@ =~= signed_decimal(value as int));
    } else {
        push_decimal(&mut text, value as u64);
        assert(text@ =~= signed_decimal(value as int));
    }
    text
}

/// The absolute value of an integer.
pub open spec fn abs(value: int) -> nat {
    if value < 0 {
        (-value) as nat
    } else {
        value as nat
    }
}

/// The absolute value of `value`, which `i64::MIN` has too.
pub fn magnitude(value: i64) -> (result: u64)
    ensures
        result as nat == abs(value as int),
{
    if value >= 0 {
        value as u64
    } else if value == i64::MIN {
        0x8000_0000_0000_0000
    } else {
        (-value) as u64
    }
}

/// The texts in order, with `separator` between each two.
pub fn join(parts: &[String], separator: &str) -> (text: String)
    ensures
        text@ == joined(views(parts@), separator@),
{
    let mut text: String = String::new();
    let mut index: usize = 0;
    while index < parts.len()
        invariant
            index <= parts@.len(),
            text@ == joined(views(parts@).take(index as int), separator@),
        decreases parts@.len() - index,
    {
        let ghost grown = views(parts@).take(index + 1);
        assert(grown.drop_last() =~= views(parts@).take(index as int));
        if index > 0 {
            text.append(separator);
        }
        text.append(parts[index].as_str());
        if index == 0 {
            assert(text@ =~= parts@[0]@);
        }
        index += 1;
    }
    assert(views(parts@).take(index as int) =~= views(parts@));
    text
}

/// `text` with each `mark` replaced by `substitute`.
pub fn replace(text: &str, mark: char, substitute: &str) -> (result: String)
    ensures
        result@ == replaced(text@, mark, substitute@),
{
    let chars: Vec<char> = chars_of(text);
    let mut result: String = String::new();
    let mut index: usize = 0;
    while index < chars.len()
        invariant
            chars@ == text@,
            index <= chars@.len(),
            result@ == replaced(text@.take(index as int), mark, substitute@),
        decreases chars@.len() - index,
    {
        assert(text@.take(index + 1).drop_last() =~= text@.take(index as int));
        let c: char = chars[index];
        if c == mark {
            result.append(substitute);
        } else {
            push_char(&mut result, c);
            assert(result@ =~= replaced(text@.take(index as int), mark, substitute@) + seq![c]);
        }
        index += 1;
    }
    assert(text@.take(index as int) =~= text@);
    result
}

/// A character in lower case where it is an ASCII letter.
pub fn lower_char(c: char) -> (result: char)
    ensures
        result == lower(c),
{
    if 'A' <= c && c <= 'Z' {
        ((c as u32 + 32) as u8) as char
    } else {
        c
    }
}

/// `text` with its ASCII letters in lower case.
pub fn to_lower(text: &str) -> (result: String)
    ensures
        result@ == lowered(text@),
{
    let chars: Vec<char> = chars_of(text);
    let mut result: String = String::new();
    let mut index: usize = 0;
    while index < chars.len()
        invariant
            chars@ == text@,
            index <= chars@.len(),
            result@ == lowered(text@).take(index as int),
        decreases chars@.len() - index,
    {
        push_char(&mut result, lower_char(chars[index]));
        index += 1;
        assert(result@ =~= lowered(text@).take(index as int));
    }
    assert(result@ =~= lowered(text@));
    result
}

/// Whether two texts are equal but for the case of ASCII letters.
pub fn same_ignoring_case(left: &str, right: &str) -> (same: bool)
    ensures
        same == (lowered(left@) == lowered(right@)),
{
    let left_lower: String = to_lower(left);
    let right_lower: String = to_lower(right);
    same_text(left_lower.as_str(), right_lower.as_str())
}

/// Whether `text` holds the character `c`.
pub fn holds_char(text: &str, c: char) -> (found: bool)
    ensures
        found == text@.contains(c),
{
    let chars: Vec<char> = chars_of(text);
    let mut index: usize = 0;
    while index < chars.len()
        invariant
            chars@ == text@,
            index <= chars@.len(),
            forall|i: int| 0 <= i < index ==> text@[i] != c,
        decreases chars@.len() - index,
    {
        if chars[index] == c {
            assert(text@[index as int] == c);
            return true;
        }
        index += 1;
    }
    false
}

/// Calls `std::str::from_utf8`: the text that `bytes` encode, where they are valid UTF-8.
#[verifier::external_body]
pub(crate) fn utf8_text(bytes: &[u8]) -> (text: Option<String>)
    ensures
        match text {
            Some(text) => valid_utf8(bytes@) && encode_utf8(text@) == bytes@,
            None => !valid_utf8(bytes@),
        },
{
    match std::str::from_utf8(bytes) {
        Ok(text) => Some(text.to_owned()),
        Err(_) => None,
    }
}

/// `left` and `right`, one behind the other.
pub fn join_two(left: &str, right: &str) -> (text: String)
    ensures
        text@ == left@ + right@,
{
    let mut text: String = left.to_owned();
    text.append(right);
    text
}

/// The texts that follow some others.
pub fn push_texts(texts: &mut Vec<String>, more: &Vec<String>)
    ensures
        views(final(texts)@) == views(old(texts)@) + views(more@),
{
    let mut index: usize = 0;
    assert(views(texts@) =~= views(old(texts)@) + views(more@).take(0));
    while index < more.len()
        invariant
            index <= more@.len(),
            views(texts@) == views(old(texts)@) + views(more@).take(index as int),
        decreases more@.len() - index,
    {
        let ghost before = texts@;
        texts.push(more[index].clone());
        assert(views(texts@) =~= views(before).push(more@[index as int]@));
        index += 1;
        assert(views(texts@) =~= views(old(texts)@) + views(more@).take(index as int));
    }
    assert(views(more@).take(index as int) =~= views(more@));
}

/// Whether `text` begins with `prefix`.
pub fn starts_with(text: &str, prefix: &str) -> (starts: bool)
    ensures
        starts == (prefix@.len() <= text@.len() && text@.take(prefix@.len() as int) == prefix@),
{
    let chars: Vec<char> = chars_of(text);
    let expected: Vec<char> = chars_of(prefix);
    if expected.len() > chars.len() {
        return false;
    }
    let mut index: usize = 0;
    while index < expected.len()
        invariant
            chars@ == text@,
            expected@ == prefix@,
            index <= expected@.len() <= chars@.len(),
            forall|i: int| 0 <= i < index ==> chars@[i] == expected@[i],
        decreases expected@.len() - index,
    {
        if chars[index] != expected[index] {
            assert(text@.take(prefix@.len() as int)[index as int] != prefix@[index as int]);
            return false;
        }
        index += 1;
    }
    assert(text@.take(prefix@.len() as int) =~= prefix@);
    true
}

/// Whether a character is white space in the sense of Unicode.
pub open spec fn white(c: char) -> bool {
    let code = c as u32;
    ||| 0x9 <= code <= 0xd
    ||| code == 0x20
    ||| code == 0x85
    ||| code == 0xa0
    ||| code == 0x1680
    ||| 0x2000 <= code <= 0x200a
    ||| code == 0x2028
    ||| code == 0x2029
    ||| code == 0x202f
    ||| code == 0x205f
    ||| code == 0x3000
}

fn is_white(c: char) -> (result: bool)
    ensures
        result == white(c),
{
    let code: u32 = c as u32;
    (0x9 <= code && code <= 0xd) || code == 0x20 || code == 0x85 || code == 0xa0 || code == 0x1680
        || (0x2000 <= code && code <= 0x200a) || code == 0x2028 || code == 0x2029 || code == 0x202f
        || code == 0x205f || code == 0x3000
}

/// Whether a text holds nothing but white space.
pub open spec fn blank(text: Seq<char>) -> bool {
    forall|i: int| 0 <= i < text.len() ==> white(#[trigger] text[i])
}

pub fn is_blank(text: &str) -> (result: bool)
    ensures
        result == blank(text@),
{
    let chars: Vec<char> = chars_of(text);
    let mut index: usize = 0;
    while index < chars.len()
        invariant
            chars@ == text@,
            index <= chars@.len(),
            forall|i: int| 0 <= i < index ==> white(#[trigger] text@[i]),
        decreases chars@.len() - index,
    {
        if !is_white(chars[index]) {
            assert(!white(text@[index as int]));
            return false;
        }
        index += 1;
    }
    true
}

/// Whether a character is a decimal digit.
pub open spec fn is_digit(c: char) -> bool {
    '0' <= c && c <= '9'
}

/// The value of a decimal digit.
pub open spec fn digit_value(c: char) -> nat {
    (c as u32 - '0' as u32) as nat
}

/// Whether a text is made of decimal digits, at least one.
pub open spec fn all_digits(text: Seq<char>) -> bool {
    text.len() > 0 && forall|i: int| 0 <= i < text.len() ==> is_digit(#[trigger] text[i])
}

/// The number that decimal digits spell.
pub open spec fn decimal_value(text: Seq<char>) -> nat
    decreases text.len(),
{
    if text.len() == 0 {
        0
    } else {
        10 * decimal_value(text.drop_last()) + digit_value(text.last())
    }
}

/// The digits of a number behind its sign, if it has one: only a plus sign may stand there.
pub open spec fn unsigned_digits(text: Seq<char>) -> Seq<char> {
    if text.len() > 0 && text[0] == '+' {
        text.skip(1)
    } else {
        text
    }
}

/// The number that a text stands for, if it is one and fits `u64`.
pub open spec fn parsed_u64(text: Seq<char>) -> Option<u64> {
    let digits = unsigned_digits(text);
    if all_digits(digits) && decimal_value(digits) <= u64::MAX {
        Some(decimal_value(digits) as u64)
    } else {
        None
    }
}

proof fn lemma_decimal_value_grows(text: Seq<char>, low: int, high: int)
    requires
        0 <= low <= high <= text.len(),
    ensures
        decimal_value(text.take(low)) <= decimal_value(text.take(high)),
    decreases high,
{
    if low < high {
        lemma_decimal_value_grows(text, low, high - 1);
        assert(text.take(high).drop_last() =~= text.take(high - 1));
    }
}

/// Reads a number, which may have a plus sign.
pub fn parse_u64(text: &str) -> (value: Option<u64>)
    ensures
        value == parsed_u64(text@),
{
    let chars: Vec<char> = chars_of(text);
    let start: usize = if chars.len() > 0 && chars[0] == '+' {
        1
    } else {
        0
    };
    let ghost digits = unsigned_digits(text@);
    assert(digits =~= text@.skip(start as int));
    if chars.len() == start {
        return None;
    }
    let mut value: u64 = 0;
    let mut index: usize = start;
    assert(digits.take(0) =~= Seq::empty());
    while index < chars.len()
        invariant
            chars@ == text@,
            start <= 1,
            start < chars@.len(),
            start <= index <= chars@.len(),
            digits == unsigned_digits(text@),
            digits == text@.skip(start as int),
            value == decimal_value(digits.take(index - start)),
            forall|i: int| 0 <= i < index - start ==> is_digit(#[trigger] digits[i]),
        decreases chars@.len() - index,
    {
        let c: char = chars[index];
        assert(c == digits[index - start]);
        if c < '0' || c > '9' {
            assert(!is_digit(digits[index - start]));
            return None;
        }
        let unit: u64 = (c as u32 - '0' as u32) as u64;
        proof {
            assert(digits.take(index - start + 1).drop_last() =~= digits.take(index - start));
            lemma_decimal_value_grows(digits, index - start + 1, digits.len() as int);
            assert(digits.take(digits.len() as int) =~= digits);
        }
        let scaled: u64 = match value.checked_mul(10) {
            Some(scaled) => scaled,
            None => {
                return None;
            },
        };
        match scaled.checked_add(unit) {
            Some(sum) => {
                value = sum;
            },
            None => {
                return None;
            },
        }
        index += 1;
    }
    assert(digits.take(index - start) =~= digits);
    Some(value)
}

/// The hexadecimal digit of a number below sixteen, in lower case.
pub open spec fn hex_digit(value: nat) -> char {
    if value < 10 {
        digit(value)
    } else if value == 10 {
        'a'
    } else if value == 11 {
        'b'
    } else if value == 12 {
        'c'
    } else if value == 13 {
        'd'
    } else if value == 14 {
        'e'
    } else {
        'f'
    }
}

/// Bytes in hexadecimal notation, two digits each.
pub open spec fn hex_of(bytes: Seq<u8>) -> Seq<char>
    decreases bytes.len(),
{
    if bytes.len() == 0 {
        Seq::empty()
    } else {
        hex_of(bytes.drop_last()) + seq![
            hex_digit((bytes.last() / 16) as nat),
            hex_digit((bytes.last() % 16) as nat),
        ]
    }
}

pub(crate) fn hex_char(value: u8) -> (c: char)
    requires
        value < 16,
    ensures
        c == hex_digit(value as nat),
{
    if value == 0 {
        '0'
    } else if value == 1 {
        '1'
    } else if value == 2 {
        '2'
    } else if value == 3 {
        '3'
    } else if value == 4 {
        '4'
    } else if value == 5 {
        '5'
    } else if value == 6 {
        '6'
    } else if value == 7 {
        '7'
    } else if value == 8 {
        '8'
    } else if value == 9 {
        '9'
    } else if value == 10 {
        'a'
    } else if value == 11 {
        'b'
    } else if value == 12 {
        'c'
    } else if value == 13 {
        'd'
    } else if value == 14 {
        'e'
    } else {
        'f'
    }
}

/// Bytes in hexadecimal notation.
pub fn hex(bytes: &[u8]) -> (text: String)
    ensures
        text@ == hex_of(bytes@),
        text@.len() == 2 * bytes@.len(),
{
    let mut text: String = String::new();
    let mut index: usize = 0;
    while index < bytes.len()
        invariant
            index <= bytes@.len(),
            text@ == hex_of(bytes@.take(index as int)),
            text@.len() == 2 * index,
        decreases bytes@.len() - index,
    {
        let byte: u8 = bytes[index];
        push_char(&mut text, hex_char(byte / 16));
        push_char(&mut text, hex_char(byte % 16));
        proof {
            assert(bytes@.take(index + 1).drop_last() =~= bytes@.take(index as int));
            assert(text@ =~= hex_of(bytes@.take(index + 1)));
        }
        index += 1;
    }
    assert(bytes@.take(index as int) =~= bytes@);
    text
}

/// A number below `65536` in four hexadecimal digits.
pub open spec fn hex_four(value: nat) -> Seq<char> {
    seq![
        hex_digit(value / 4096),
        hex_digit(value / 256 % 16),
        hex_digit(value / 16 % 16),
        hex_digit(value % 16),
    ]
}

pub fn hex_four_text(value: u16) -> (text: String)
    ensures
        text@ == hex_four(value as nat),
{
    let mut text: String = String::new();
    push_char(&mut text, hex_char((value / 4096) as u8));
    push_char(&mut text, hex_char((value / 256 % 16) as u8));
    push_char(&mut text, hex_char((value / 16 % 16) as u8));
    push_char(&mut text, hex_char((value % 16) as u8));
    assert(text@ =~= hex_four(value as nat));
    text
}

/// A text cut at each `mark`: there is one part more than there are marks.
pub open spec fn parts_of(text: Seq<char>, mark: char) -> Seq<Seq<char>>
    decreases text.len(),
{
    if text.len() == 0 {
        seq![Seq::empty()]
    } else {
        let before = parts_of(text.drop_last(), mark);
        if text.last() == mark {
            before.push(Seq::empty())
        } else {
            before.drop_last().push(before.last().push(text.last()))
        }
    }
}

proof fn lemma_parts_exist(text: Seq<char>, mark: char)
    ensures
        parts_of(text, mark).len() >= 1,
    decreases text.len(),
{
    if text.len() > 0 {
        lemma_parts_exist(text.drop_last(), mark);
    }
}

/// The views of some parts.
pub open spec fn part_views(parts: Seq<Vec<char>>) -> Seq<Seq<char>> {
    parts.map_values(|part: Vec<char>| part@)
}

/// Cuts a text at each `mark`.
pub fn split(chars: &[char], mark: char) -> (parts: Vec<Vec<char>>)
    ensures
        part_views(parts@) == parts_of(chars@, mark),
        parts@.len() >= 1,
{
    let mut done: Vec<Vec<char>> = Vec::new();
    let mut current: Vec<char> = Vec::new();
    let mut index: usize = 0;
    proof {
        assert(chars@.take(0) =~= Seq::empty());
        assert(part_views(done@).push(current@) =~= parts_of(chars@.take(0), mark));
    }
    while index < chars.len()
        invariant
            index <= chars@.len(),
            part_views(done@).push(current@) == parts_of(chars@.take(index as int), mark),
        decreases chars@.len() - index,
    {
        let c: char = chars[index];
        let ghost before = part_views(done@);
        let ghost last = current@;
        proof {
            assert(chars@.take(index + 1).drop_last() =~= chars@.take(index as int));
            assert(before.push(last).drop_last() =~= before);
        }
        if c == mark {
            let mut finished: Vec<char> = Vec::new();
            core::mem::swap(&mut finished, &mut current);
            done.push(finished);
            proof {
                assert(part_views(done@) =~= before.push(last));
                assert(current@ =~= Seq::empty());
            }
        } else {
            current.push(c);
        }
        index += 1;
        assert(part_views(done@).push(current@) =~= parts_of(chars@.take(index as int), mark));
    }
    assert(chars@.take(index as int) =~= chars@);
    let ghost before = part_views(done@);
    done.push(current);
    assert(part_views(done@) =~= before.push(current@));
    done
}

/// A text without the white space at its end.
pub open spec fn trimmed_end(text: Seq<char>) -> Seq<char>
    decreases text.len(),
{
    if text.len() > 0 && white(text.last()) {
        trimmed_end(text.drop_last())
    } else {
        text
    }
}

/// A text without the white space at its beginning.
pub open spec fn trimmed_start(text: Seq<char>) -> Seq<char>
    decreases text.len(),
{
    if text.len() > 0 && white(text[0]) {
        trimmed_start(text.skip(1))
    } else {
        text
    }
}

/// A text without the white space around it.
pub open spec fn trimmed(text: Seq<char>) -> Seq<char> {
    trimmed_end(trimmed_start(text))
}

/// A text without the white space around it.
pub fn trim(text: &str) -> (result: String)
    ensures
        result@ == trimmed(text@),
{
    let chars: Vec<char> = chars_of(text);
    let mut start: usize = 0;
    assert(text@.skip(0) =~= text@);
    while start < chars.len() && is_white(chars[start])
        invariant
            chars@ == text@,
            start <= chars@.len(),
            trimmed_start(text@) == trimmed_start(text@.skip(start as int)),
        decreases chars@.len() - start,
    {
        assert(text@.skip(start as int).skip(1) =~= text@.skip(start + 1));
        start += 1;
    }
    let ghost rest = text@.skip(start as int);
    assert(trimmed_start(text@) == rest);
    let mut end: usize = chars.len();
    assert(rest.take(end - start) =~= rest);
    while end > start && is_white(chars[end - 1])
        invariant
            chars@ == text@,
            start <= end <= chars@.len(),
            rest == text@.skip(start as int),
            trimmed_end(rest) == trimmed_end(rest.take(end - start)),
        decreases end - start,
    {
        assert(rest.take(end - start).drop_last() =~= rest.take(end - start - 1));
        end -= 1;
    }
    let mut result: String = String::new();
    let mut index: usize = start;
    while index < end
        invariant
            chars@ == text@,
            start <= index <= end <= chars@.len(),
            result@ == text@.subrange(start as int, index as int),
        decreases end - index,
    {
        push_char(&mut result, chars[index]);
        index += 1;
        assert(result@ =~= text@.subrange(start as int, index as int));
    }
    assert(result@ =~= rest.take(end - start));
    result
}

/// A line that ended in a line feed, without the carriage return before it.
pub open spec fn without_return(line: Seq<char>) -> Seq<char> {
    if line.len() > 0 && line.last() == '\r' {
        line.drop_last()
    } else {
        line
    }
}

/// The lines of a text: what line feeds end, and what follows the last of them.
pub open spec fn lines_of(text: Seq<char>) -> Seq<Seq<char>> {
    let parts = parts_of(text, '\n');
    Seq::new(
        parts.len(),
        |i: int|
            if i < parts.len() - 1 {
                without_return(parts[i])
            } else {
                parts[i]
            },
    )
}

/// The first line of a text.
pub open spec fn line_at(text: Seq<char>) -> Seq<char> {
    lines_of(text)[0]
}

/// The lines of a text.
pub fn lines(text: &str) -> (lines: Vec<String>)
    ensures
        views(lines@) == lines_of(text@),
        lines@.len() >= 1,
{
    let chars: Vec<char> = chars_of(text);
    let parts: Vec<Vec<char>> = split(chars.as_slice(), '\n');
    let ghost cut = parts_of(text@, '\n');
    let mut lines: Vec<String> = Vec::new();
    let mut index: usize = 0;
    assert(views(lines@) =~= lines_of(text@).take(0));
    while index < parts.len()
        invariant
            cut == parts_of(text@, '\n'),
            part_views(parts@) == cut,
            index <= parts@.len(),
            lines@.len() == index,
            views(lines@) == lines_of(text@).take(index as int),
        decreases parts@.len() - index,
    {
        let part: &Vec<char> = &parts[index];
        assert(cut[index as int] == part@);
        let ghost before = lines@;
        let length: usize = part.len();
        let line: String = if index + 1 < parts.len() && length > 0 && part[length - 1] == '\r' {
            let mut shorter: Vec<char> = Vec::new();
            let mut place: usize = 0;
            while place < length - 1
                invariant
                    length == part@.len(),
                    length > 0,
                    place <= length - 1,
                    shorter@ == part@.take(place as int),
                decreases length - place,
            {
                shorter.push(part[place]);
                place += 1;
                assert(shorter@ =~= part@.take(place as int));
            }
            assert(shorter@ =~= part@.drop_last());
            text_of(shorter.as_slice())
        } else {
            text_of(part.as_slice())
        };
        lines.push(line);
        proof {
            assert(views(lines@) =~= views(before).push(line@));
            assert(lines_of(text@)[index as int] == line@);
            assert(views(lines@) =~= lines_of(text@).take(index + 1));
        }
        index += 1;
    }
    assert(lines_of(text@).take(index as int) =~= lines_of(text@));
    lines
}

/// The first line of a text.
pub fn first_line(text: &str) -> (line: String)
    ensures
        line@ == line_at(text@),
{
    let all: Vec<String> = lines(text);
    assert(views(all@)[0] == all@[0]@);
    all[0].clone()
}

/// The texts among the first `count` that are not empty.
pub open spec fn filled(texts: Seq<Seq<char>>, count: int) -> Seq<Seq<char>>
    decreases count,
{
    if count <= 0 {
        Seq::empty()
    } else if texts[count - 1].len() == 0 {
        filled(texts, count - 1)
    } else {
        filled(texts, count - 1).push(texts[count - 1])
    }
}

/// The lines of a text that are not empty.
pub open spec fn records_of(text: Seq<char>) -> Seq<Seq<char>> {
    filled(lines_of(text), lines_of(text).len() as int)
}

/// The lines of a text that are not empty.
pub fn records(text: &str) -> (records: Vec<String>)
    ensures
        views(records@) == records_of(text@),
{
    let all: Vec<String> = lines(text);
    let ghost texts = lines_of(text@);
    let mut records: Vec<String> = Vec::new();
    let mut index: usize = 0;
    assert(views(records@) =~= filled(texts, 0));
    while index < all.len()
        invariant
            views(all@) == texts,
            index <= all@.len(),
            views(records@) == filled(texts, index as int),
        decreases all@.len() - index,
    {
        assert(texts[index as int] == all@[index as int]@);
        let line: String = all[index].clone();
        if chars_of(line.as_str()).len() != 0 {
            let ghost before = records@;
            records.push(line);
            assert(views(records@) =~= views(before).push(line@));
        }
        index += 1;
    }
    assert(texts.len() == all@.len());
    records
}

/// White space of ASCII.
pub open spec fn ascii_white(c: char) -> bool {
    c == ' ' || c == '\t' || c == '\n' || c == '\x0c' || c == '\r'
}

/// The first `count` characters of a text without ASCII white space and backquotes.
pub open spec fn compacted(text: Seq<char>, count: int) -> Seq<char>
    decreases count,
{
    if count <= 0 {
        Seq::empty()
    } else if ascii_white(text[count - 1]) || text[count - 1] == '`' {
        compacted(text, count - 1)
    } else {
        compacted(text, count - 1).push(text[count - 1])
    }
}

/// A text without ASCII white space and backquotes.
pub open spec fn compact_of(text: Seq<char>) -> Seq<char> {
    compacted(text, text.len() as int)
}

/// A text without ASCII white space and backquotes.
pub fn compact(text: &str) -> (result: String)
    ensures
        result@ == compact_of(text@),
{
    let chars: Vec<char> = chars_of(text);
    let mut result: String = String::new();
    let mut index: usize = 0;
    while index < chars.len()
        invariant
            chars@ == text@,
            index <= chars@.len(),
            result@ == compacted(text@, index as int),
        decreases chars@.len() - index,
    {
        let c: char = chars[index];
        if !(c == ' ' || c == '\t' || c == '\n' || c == '\x0c' || c == '\r' || c == '`') {
            push_char(&mut result, c);
        }
        index += 1;
    }
    result
}

/// Whether `part` stands at `place` in a text.
pub open spec fn stands_at(text: Seq<char>, part: Seq<char>, place: int) -> bool {
    place + part.len() <= text.len() && text.subrange(place, place + part.len() as int) == part
}

/// The first place from `from` on at which `part` stands in a text.
pub open spec fn place_of(text: Seq<char>, part: Seq<char>, from: int) -> Option<int>
    decreases text.len() + 1 - from,
{
    if from < 0 || from + part.len() > text.len() {
        None
    } else if stands_at(text, part, from) {
        Some(from)
    } else {
        place_of(text, part, from + 1)
    }
}

fn is_at(chars: &Vec<char>, part: &Vec<char>, place: usize) -> (result: bool)
    requires
        place + part@.len() <= chars@.len(),
    ensures
        result == stands_at(chars@, part@, place as int),
{
    let mut index: usize = 0;
    let total: usize = chars.len();
    while index < part.len()
        invariant
            total == chars@.len(),
            place + part@.len() <= total,
            index <= part@.len(),
            forall|i: int| 0 <= i < index ==> chars@[place + i] == #[trigger] part@[i],
        decreases part@.len() - index,
    {
        if chars[place + index] != part[index] {
            assert(chars@.subrange(place as int, place + part@.len())[index as int]
                != part@[index as int]);
            return false;
        }
        index += 1;
    }
    assert(chars@.subrange(place as int, place + part@.len()) =~= part@);
    true
}

/// The place of the first `part` in a text.
pub fn find_text(text: &str, part: &str) -> (place: Option<usize>)
    ensures
        match place {
            Some(place) => place_of(text@, part@, 0) == Some(place as int),
            None => place_of(text@, part@, 0) is None,
        },
        place is Some ==> place->0 + part@.len() <= text@.len(),
{
    let chars: Vec<char> = chars_of(text);
    let wanted: Vec<char> = chars_of(part);
    let mut place: usize = 0;
    if wanted.len() > chars.len() {
        return None;
    }
    let last: usize = chars.len() - wanted.len();
    while place < last
        invariant
            chars@ == text@,
            wanted@ == part@,
            last + wanted@.len() == chars@.len(),
            place <= last,
            place_of(text@, part@, 0) == place_of(text@, part@, place as int),
        decreases last - place,
    {
        if is_at(&chars, &wanted, place) {
            return Some(place);
        }
        place += 1;
    }
    if is_at(&chars, &wanted, place) {
        Some(place)
    } else {
        assert(place_of(text@, part@, place + 1) is None);
        None
    }
}

/// A text from its character at `start` on.
pub fn rest_of(text: &str, start: usize) -> (rest: String)
    requires
        start <= text@.len(),
    ensures
        rest@ == text@.skip(start as int),
{
    let chars: Vec<char> = chars_of(text);
    let mut rest: String = String::new();
    let mut index: usize = start;
    while index < chars.len()
        invariant
            chars@ == text@,
            start <= index <= chars@.len(),
            rest@ == text@.subrange(start as int, index as int),
        decreases chars@.len() - index,
    {
        push_char(&mut rest, chars[index]);
        index += 1;
        assert(rest@ =~= text@.subrange(start as int, index as int));
    }
    assert(rest@ =~= text@.skip(start as int));
    rest
}

/// The texts from `start` up to `end`.
pub fn copy_range(texts: &Vec<String>, start: usize, end: usize) -> (part: Vec<String>)
    requires
        start <= end <= texts@.len(),
    ensures
        views(part@) == views(texts@).subrange(start as int, end as int),
{
    let mut part: Vec<String> = Vec::new();
    let mut index: usize = start;
    assert(views(part@) =~= views(texts@).subrange(start as int, start as int));
    while index < end
        invariant
            start <= index <= end <= texts@.len(),
            views(part@) == views(texts@).subrange(start as int, index as int),
        decreases end - index,
    {
        let ghost before = part@;
        let text: String = texts[index].clone();
        part.push(text);
        proof {
            assert(views(part@) =~= views(before).push(text@));
            assert(views(texts@)[index as int] == text@);
            assert(views(part@) =~= views(texts@).subrange(start as int, index + 1));
        }
        index += 1;
    }
    part
}

} // verus!
