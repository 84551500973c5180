//! Reading plan sources: lines, comments, words, and whole numbers.
use crate::identity::is_digit;
use vstd::prelude::*;

verus! {

/// The character is white space.
pub open spec fn is_space(character: char) -> bool {
    let code = character as int;
    ||| 0x9 <= code <= 0xd
    ||| code == 0x20
    ||| code == 0x85
    ||| code == 0xa0
    ||| code == 0x1680
    ||| 0x2000 <= code <= 0x200a
    ||| code == 0x2028
    ||| code == 0x2029
    ||| code == 0x202f
    ||| code == 0x205f
    ||| code == 0x3000
}

/// The pieces between line feeds; one more than there are line feeds.
pub open spec fn lines_of(source: Seq<char>) -> Seq<Seq<char>>
    decreases source.len(),
{
    if source.len() == 0 {
        seq![Seq::empty()]
    } else {
        let before = lines_of(source.drop_last());
        if source.last() == '\n' {
            before.push(Seq::empty())
        } else {
            before.drop_last().push(before.last().push(source.last()))
        }
    }
}

/// The part of a line in front of its first number sign.
pub open spec fn uncommented(line: Seq<char>) -> Seq<char>
    decreases line.len(),
{
    if line.len() == 0 || line[0] == '#' {
        Seq::empty()
    } else {
        seq![line[0]] + uncommented(line.skip(1))
    }
}

/// The runs of characters between white space.
pub open spec fn words_of(text: Seq<char>) -> Seq<Seq<char>>
    decreases text.len(),
{
    if text.len() == 0 {
        Seq::empty()
    } else {
        let front = text.drop_last();
        let before = words_of(front);
        if is_space(text.last()) {
            before
        } else if front.len() == 0 || is_space(front.last()) {
            before.push(seq![text.last()])
        } else {
            before.drop_last().push(before.last().push(text.last()))
        }
    }
}

/// The text without white space in front.
pub open spec fn trim_front(text: Seq<char>) -> Seq<char>
    decreases text.len(),
{
    if text.len() > 0 && is_space(text[0]) {
        trim_front(text.skip(1))
    } else {
        text
    }
}

/// The text without white space at the end.
pub open spec fn trim_back(text: Seq<char>) -> Seq<char>
    decreases text.len(),
{
    if text.len() > 0 && is_space(text.last()) {
        trim_back(text.drop_last())
    } else {
        text
    }
}

/// The text without white space around it.
pub open spec fn trimmed(text: Seq<char>) -> Seq<char> {
    trim_back(trim_front(text))
}

/// The number that a run of digits stands for.
pub open spec fn digits_value(digits: Seq<char>) -> nat
    decreases digits.len(),
{
    if digits.len() == 0 {
        0
    } else {
        10 * digits_value(digits.drop_last()) + (digits.last() as int - '0' as int) as nat
    }
}

/// The digits of a token: what follows an optional plus sign.
pub open spec fn unsigned_digits(token: Seq<char>) -> Seq<char> {
    if token.len() > 1 && token[0] == '+' {
        token.skip(1)
    } else {
        token
    }
}

/// The whole number up to `limit` that a token stands for, if it stands for
/// one: digits, with an optional plus sign in front.
pub open spec fn unsigned_value(token: Seq<char>, limit: nat) -> Option<nat> {
    let digits = unsigned_digits(token);
    if digits.len() > 0 && (forall|i: int| 0 <= i < digits.len() ==> is_digit(#[trigger] digits[i]))
        && digits_value(digits) <= limit {
        Some(digits_value(digits))
    } else {
        None
    }
}

/// Whether a character is white space.
pub fn whitespace(character: char) -> (space: bool)
    ensures
        space == is_space(character),
{
    let code: u32 = character as u32;
    (0x9 <= code && code <= 0xd) || code == 0x20 || code == 0x85 || code == 0xa0 || code == 0x1680
        || (0x2000 <= code && code <= 0x200a) || code == 0x2028 || code == 0x2029 || code == 0x202f
        || code == 0x205f || code == 0x3000
}

/// The characters of a text.
pub fn characters(text: &str) -> (result: Vec<char>)
    ensures
        result@ == text@,
{
    let mut result: Vec<char> = Vec::new();
    for character in iter: text.chars()
        invariant
            result@ == text@.take(iter.index() as int),
            iter.seq() == text@,
    {
        result.push(character);
        assert(result@ =~= text@.take(iter.index() + 1));
    }
    assert(text@.take(text@.len() as int) =~= text@);
    result
}

/// There is always a last line.
pub proof fn lines_are_some(source: Seq<char>)
    ensures
        lines_of(source).len() > 0,
    decreases source.len(),
{
    if source.len() > 0 {
        lines_are_some(source.drop_last());
    }
}

/// The pieces between line feeds.
pub fn lines(source: &[char]) -> (result: Vec<Vec<char>>)
    ensures
        result@.len() == lines_of(source@).len(),
        forall|i: int|
            0 <= i < result@.len() ==> (#[trigger] result@[i])@ == lines_of(source@)[i],
{
    let mut result: Vec<Vec<char>> = Vec::new();
    let mut current: Vec<char> = Vec::new();
    let mut index: usize = 0;
    while index < source.len()
        invariant
            index <= source@.len(),
            lines_of(source@.take(index as int)).len() == result@.len() + 1,
            current@ == lines_of(source@.take(index as int)).last(),
            forall|i: int|
                0 <= i < result@.len() ==> (#[trigger] result@[i])@ == lines_of(
                    source@.take(index as int),
                )[i],
        decreases source@.len() - index,
    {
        proof {
            let longer = source@.take(index + 1);
            assert(longer.drop_last() =~= source@.take(index as int));
            assert(longer.last() == source@[index as int]);
            lines_are_some(longer.drop_last());
        }
        if source[index] == '\n' {
            result.push(current);
            current = Vec::new();
        } else {
            current.push(source[index]);
        }
        index += 1;
    }
    assert(source@.take(index as int) =~= source@);
    result.push(current);
    result
}

/// A line is uncommented up to its first number sign.
proof fn uncommented_is_front(line: Seq<char>, end: int)
    requires
        0 <= end <= line.len(),
        forall|i: int| 0 <= i < end ==> line[i] != '#',
        end == line.len() || line[end] == '#',
    ensures
        uncommented(line) == line.take(end),
    decreases line.len(),
{
    if end > 0 {
        assert forall|i: int| 0 <= i < end - 1 implies line.skip(1)[i] != '#' by {
            assert(line.skip(1)[i] == line[i + 1]);
        }
        uncommented_is_front(line.skip(1), end - 1);
        assert(seq![line[0]] + line.skip(1).take(end - 1) =~= line.take(end));
    } else {
        assert(line.take(0) =~= Seq::empty());
    }
}

/// The part of a line in front of its first number sign.
pub fn strip_comment(line: &[char]) -> (text: &[char])
    ensures
        text@ == uncommented(line@),
{
    let mut end: usize = 0;
    while end < line.len() && line[end] != '#'
        invariant
            end <= line@.len(),
            forall|i: int| 0 <= i < end ==> line@[i] != '#',
        decreases line@.len() - end,
    {
        end += 1;
    }
    proof {
        uncommented_is_front(line@, end as int);
        assert(line@.subrange(0, end as int) =~= line@.take(end as int));
    }
    &line[0..end]
}

/// Leading white space is skipped one by one.
proof fn front_trims_to(text: Seq<char>, start: int)
    requires
        0 <= start <= text.len(),
        forall|i: int| 0 <= i < start ==> is_space(#[trigger] text[i]),
        start == text.len() || !is_space(text[start]),
    ensures
        trim_front(text) == text.skip(start),
    decreases text.len(),
{
    if start > 0 {
        assert(is_space(text[0]));
        assert forall|i: int| 0 <= i < start - 1 implies is_space(#[trigger] text.skip(1)[i]) by {
            assert(text.skip(1)[i] == text[i + 1]);
        }
        front_trims_to(text.skip(1), start - 1);
        assert(text.skip(1).skip(start - 1) =~= text.skip(start));
    } else {
        assert(text.skip(0) =~= text);
    }
}

/// Trailing white space is dropped one by one.
proof fn back_trims_to(text: Seq<char>, end: int)
    requires
        0 <= end <= text.len(),
        forall|i: int| end <= i < text.len() ==> is_space(#[trigger] text[i]),
        end == 0 || !is_space(text[end - 1]),
    ensures
        trim_back(text) == text.take(end),
    decreases text.len(),
{
    if end < text.len() {
        assert(is_space(text.last()));
        back_trims_to(text.drop_last(), end);
        assert(text.drop_last().take(end) =~= text.take(end));
    } else {
        assert(text.take(end) =~= text);
    }
}

/// The text without white space around it.
pub fn trim(text: &[char]) -> (result: &[char])
    ensures
        result@ == trimmed(text@),
{
    let mut start: usize = 0;
    while start < text.len() && whitespace(text[start])
        invariant
            start <= text@.len(),
            forall|i: int| 0 <= i < start ==> is_space(#[trigger] text@[i]),
        decreases text@.len() - start,
    {
        start += 1;
    }
    let mut end: usize = text.len();
    while end > start && whitespace(text[end - 1])
        invariant
            start <= end <= text@.len(),
            forall|i: int| end <= i < text@.len() ==> is_space(#[trigger] text@[i]),
        decreases end,
    {
        end -= 1;
    }
    proof {
        front_trims_to(text@, start as int);
        let rest = text@.skip(start as int);
        assert forall|i: int| end - start <= i < rest.len() implies is_space(#[trigger] rest[i]) by {
            assert(rest[i] == text@[i + start]);
        }
        if end > start {
            assert(rest[end - start - 1] == text@[end - 1]);
        }
        back_trims_to(rest, end - start);
        assert(text@.subrange(start as int, end as int) =~= rest.take(end - start));
    }
    &text[start..end]
}

/// The runs of characters between white space.
pub fn words(text: &[char]) -> (result: Vec<Vec<char>>)
    ensures
        result@.len() == words_of(text@).len(),
        forall|i: int| 0 <= i < result@.len() ==> (#[trigger] result@[i])@ == words_of(text@)[i],
{
    let mut result: Vec<Vec<char>> = Vec::new();
    let mut current: Vec<char> = Vec::new();
    let mut index: usize = 0;
    while index < text.len()
        invariant
            index <= text@.len(),
            ({
                let seen = text@.take(index as int);
                let inside = index > 0 && !is_space(seen.last());
                &&& inside ==> words_of(seen).len() == result@.len() + 1 && words_of(seen).last()
                    == current@ && current@.len() > 0
                &&& !inside ==> words_of(seen).len() == result@.len() && current@.len() == 0
                &&& forall|i: int|
                    0 <= i < result@.len() ==> (#[trigger] result@[i])@ == words_of(seen)[i]
            }),
        decreases text@.len() - index,
    {
        let ghost seen = text@.take(index as int);
        proof {
            let longer = text@.take(index + 1);
            assert(longer.drop_last() =~= seen);
            assert(longer.last() == text@[index as int]);
        }
        if whitespace(text[index]) {
            if current.len() > 0 {
                result.push(current);
                current = Vec::new();
            }
        } else {
            current.push(text[index]);
            proof {
                if index == 0 || is_space(seen.last()) {
                    assert(current@ =~= seq![text@[index as int]]);
                }
            }
        }
        index += 1;
    }
    assert(text@.take(index as int) =~= text@);
    if current.len() > 0 {
        result.push(current);
    }
    result
}

/// Whether a run of characters is the given text.
pub fn spells(characters: &[char], text: &str) -> (same: bool)
    ensures
        same == (characters@ == text@),
{
    let other: Vec<char> = self::characters(text);
    if characters.len() != other.len() {
        return false;
    }
    let mut index: usize = 0;
    while index < characters.len()
        invariant
            index <= characters@.len(),
            characters@.len() == other@.len(),
            other@ == text@,
            forall|i: int| 0 <= i < index ==> characters@[i] == other@[i],
        decreases characters@.len() - index,
    {
        if characters[index] != other[index] {
            return false;
        }
        index += 1;
    }
    assert(characters@ =~= text@);
    true
}

/// More digits never stand for less.
proof fn digits_grow(digits: Seq<char>, count: int)
    requires
        0 <= count <= digits.len(),
        forall|i: int| 0 <= i < digits.len() ==> is_digit(#[trigger] digits[i]),
    ensures
        digits_value(digits.take(count)) <= digits_value(digits),
    decreases digits.len(),
{
    if count < digits.len() {
        assert(digits.drop_last().take(count) =~= digits.take(count));
        digits_grow(digits.drop_last(), count);
    } else {
        assert(digits.take(count) =~= digits);
    }
}

/// The whole number up to `limit` that a token stands for, if it stands for
/// one.
pub fn parse_unsigned(token: &[char], limit: u32) -> (value: Option<u32>)
    ensures
        match unsigned_value(token@, limit as nat) {
            Some(number) => value matches Some(result) && result == number,
            None => value is None,
        },
{
    let start: usize = if token.len() > 1 && token[0] == '+' {
        1
    } else {
        0
    };
    let digits: &[char] = &token[start..token.len()];
    assert(digits@ =~= unsigned_digits(token@));
    if digits.len() == 0 {
        return None;
    }
    let mut bounded: bool = true;
    let mut value: u64 = 0;
    let mut index: usize = 0;
    proof {
        assert(digits@.take(0).len() == 0);
    }
    while index < digits.len()
        invariant
            index <= digits@.len(),
            digits@ == unsigned_digits(token@),
            forall|i: int| 0 <= i < index ==> is_digit(#[trigger] digits@[i]),
            bounded ==> value <= limit && value == digits_value(digits@.take(index as int)),
            !bounded ==> exists|count: int|
                0 <= count <= index && digits_value(#[trigger] digits@.take(count)) > limit,
        decreases digits@.len() - index,
    {
        let character: char = digits[index];
        if character < '0' || character > '9' {
            assert(!is_digit(digits@[index as int]));
            return None;
        }
        proof {
            let longer = digits@.take(index + 1);
            assert(longer.drop_last() =~= digits@.take(index as int));
            assert(longer.last() == character);
        }
        if bounded {
            let digit: u64 = (character as u32 - '0' as u32) as u64;
            let next: u64 = 10 * value + digit;
            if next > limit as u64 {
                bounded = false;
                assert(digits_value(digits@.take(index + 1)) > limit);
            } else {
                value = next;
            }
        }
        index += 1;
    }
    assert(digits@.take(index as int) =~= digits@);
    if bounded {
        Some(value as u32)
    } else {
        proof {
            let count = choose|count: int|
                0 <= count <= index && digits_value(#[trigger] digits@.take(count)) > limit;
            digits_grow(digits@, count);
        }
        None
    }
}

} // verus!
