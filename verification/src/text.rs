//! Text building: digits, hexadecimal digests and decimal numbers.
use vstd::prelude::*;
use vstd::string::StringExecFns;
use vstd::utf8::{encode_utf8, encode_utf8_decode_utf8};

verus! {

/// `String::push` appends one character to the end of the string; the
/// characters that stood there before keep their places.
pub assume_specification[ String::push ](text: &mut String, character: char)
    ensures
        final(text)@ == old(text)@.push(character),
;

/// The character of a digit below sixteen, lower case above nine.
pub open spec fn digit(value: int) -> char {
    if value < 10 {
        (48 + value) as char
    } else {
        (87 + value) as char
    }
}

/// The decimal digits of a number, most significant first, without leading
/// zeros.
pub open spec fn decimal(value: nat) -> Seq<char>
    decreases value,
{
    if value < 10 {
        seq![digit(value as int)]
    } else {
        decimal(value / 10).push(digit((value % 10) as int))
    }
}

/// The hexadecimal digits of a number, most significant first, without leading
/// zeros.
pub open spec fn hexadecimal_number(value: nat) -> Seq<char>
    decreases value,
{
    if value < 16 {
        seq![digit(value as int)]
    } else {
        hexadecimal_number(value / 16).push(digit((value % 16) as int))
    }
}

/// The decimal digits of a number, behind a minus sign where it is negative.
pub open spec fn signed_decimal(value: int) -> Seq<char> {
    if value < 0 {
        "-"@ + decimal((-value) as nat)
    } else {
        decimal(value as nat)
    }
}

/// Two hexadecimal digits per byte, the high half first.
pub open spec fn hexadecimal(bytes: Seq<u8>) -> Seq<char> {
    Seq::new(
        2 * bytes.len(),
        |i: int|
            if i % 2 == 0 {
                digit(bytes[i / 2] as int / 16)
            } else {
                digit(bytes[i / 2] as int % 16)
            },
    )
}

/// The character of a digit below sixteen.
pub fn digit_char(value: u8) -> (character: char)
    requires
        value < 16,
    ensures
        character == digit(value as int),
{
    if value < 10 {
        (48 + value) as char
    } else {
        (87 + value) as char
    }
}

/// Appends the decimal digits of `value`.
pub fn push_decimal(text: &mut String, value: u64)
    ensures
        final(text)@ == old(text)@ + decimal(value as nat),
    decreases value,
{
    if value >= 10 {
        push_decimal(text, value / 10);
    }
    text.push(digit_char((value % 10) as u8));
    proof {
        assert(text@ =~= old(text)@ + decimal(value as nat));
    }
}

/// Appends the hexadecimal digits of `value`.
pub fn push_hexadecimal(text: &mut String, value: u64)
    ensures
        final(text)@ == old(text)@ + hexadecimal_number(value as nat),
    decreases value,
{
    if value >= 16 {
        push_hexadecimal(text, value / 16);
    }
    text.push(digit_char((value % 16) as u8));
    proof {
        assert(text@ =~= old(text)@ + hexadecimal_number(value as nat));
    }
}

/// Appends the decimal digits of `value`, behind a minus sign where it is
/// negative.
pub fn push_signed(text: &mut String, value: i32)
    ensures
        final(text)@ == old(text)@ + signed_decimal(value as int),
{
    if value < 0 {
        text.append("-");
        push_decimal(text, (-(value as i64)) as u64);
    } else {
        push_decimal(text, value as u64);
    }
    proof {
        assert(text@ =~= old(text)@ + signed_decimal(value as int));
    }
}

/// The hexadecimal form of a digest.
pub fn format_digest(digest: &[u8]) -> (text: String)
    ensures
        text@ == hexadecimal(digest@),
{
    let mut text = String::new();
    let mut index: usize = 0;
    while index < digest.len()
        invariant
            index <= digest@.len(),
            text@ == hexadecimal(digest@.take(index as int)),
        decreases digest@.len() - index,
    {
        let byte: u8 = digest[index];
        text.push(digit_char(byte / 16));
        text.push(digit_char(byte % 16));
        index += 1;
        assert(text@ =~= hexadecimal(digest@.take(index as int)));
    }
    assert(digest@.take(index as int) =~= digest@);
    text
}

/// A string of the given characters.
pub fn text_of(characters: &[char]) -> (text: String)
    ensures
        text@ == characters@,
{
    let mut text = String::new();
    let mut index: usize = 0;
    while index < characters.len()
        invariant
            index <= characters@.len(),
            text@ == characters@.take(index as int),
        decreases characters@.len() - index,
    {
        text.push(characters[index]);
        index += 1;
        assert(text@ =~= characters@.take(index as int));
    }
    assert(characters@.take(index as int) =~= characters@);
    text
}

/// Whether two texts are the same; nothing is copied.
pub fn same_text(first: &str, second: &str) -> (same: bool)
    ensures
        same == (first@ == second@),
{
    let left: &[u8] = first.as_bytes();
    let right: &[u8] = second.as_bytes();
    if left.len() != right.len() {
        return false;
    }
    let mut index: usize = 0;
    while index < left.len()
        invariant
            index <= left@.len(),
            left@.len() == right@.len(),
            left@ == encode_utf8(first@),
            right@ == encode_utf8(second@),
            forall|i: int| 0 <= i < index ==> left@[i] == right@[i],
        decreases left@.len() - index,
    {
        if left[index] != right[index] {
            return false;
        }
        index += 1;
    }
    proof {
        assert(left@ =~= right@);
        encode_utf8_decode_utf8(first@);
        encode_utf8_decode_utf8(second@);
    }
    true
}

/// Different bytes have different hexadecimal forms.
pub proof fn hexadecimal_is_injective(first: Seq<u8>, second: Seq<u8>)
    requires
        hexadecimal(first) == hexadecimal(second),
    ensures
        first == second,
{
    assert(hexadecimal(first).len() == 2 * first.len());
    assert(hexadecimal(second).len() == 2 * second.len());
    assert forall|i: int| 0 <= i < first.len() implies first[i] == second[i] by {
        let a = first[i] as int;
        let b = second[i] as int;
        let high = 2 * i;
        let low = 2 * i + 1;
        assert(high / 2 == i && high % 2 == 0 && low / 2 == i && low % 2 == 1);
        assert(hexadecimal(first)[high] == digit(a / 16));
        assert(hexadecimal(second)[high] == digit(b / 16));
        assert(hexadecimal(first)[low] == digit(a % 16));
        assert(hexadecimal(second)[low] == digit(b % 16));
        digit_is_injective(a / 16, b / 16);
        digit_is_injective(a % 16, b % 16);
    }
    assert(first =~= second);
}

/// Different digits have different characters.
pub proof fn digit_is_injective(first: int, second: int)
    requires
        0 <= first < 16,
        0 <= second < 16,
        digit(first) == digit(second),
    ensures
        first == second,
{
    assert(digit(first) as int == digit(second) as int);
}

} // verus!
