//! Numbers as bytes and as digits.
use crate::bytes::{u16_at, u16_bytes, u32_at, u32_bytes, u64_at, u64_bytes};
use crate::digest::identity_text;
use crate::identity::is_digit;
use crate::source::{digits_value, unsigned_value};
use crate::text::{decimal, hexadecimal, hexadecimal_number, signed_decimal};
use vstd::prelude::*;

verus! {

/// Fields are read least significant byte first.
pub proof fn fields_are_read_little_endian(bytes: Seq<u8>, at: int)
    ensures
        u16_at(bytes, at) == bytes[at] + 256 * bytes[at + 1],
        u32_at(bytes, at) == bytes[at] + 256 * bytes[at + 1] + 65_536 * bytes[at + 2]
            + 16_777_216 * bytes[at + 3],
        u64_at(bytes, at) == bytes[at] + 256 * bytes[at + 1] + 65_536 * bytes[at + 2]
            + 16_777_216 * bytes[at + 3] + 4_294_967_296 * (bytes[at + 4] + 256 * bytes[at + 5]
            + 65_536 * bytes[at + 6] + 16_777_216 * bytes[at + 7]),
{
    reveal(u16_at);
    reveal(u32_at);
    reveal(u64_at);
}

/// Fields are written least significant byte first: the bytes that stand for a
/// number add up to it, each weighing 256 times the one before it.
pub proof fn fields_are_written_little_endian(short: u16, word: u32, long: u64)
    ensures
        u16_bytes(short).len() == 2,
        u16_bytes(short)[0] + 256 * u16_bytes(short)[1] == short,
        u32_bytes(word).len() == 4,
        u32_bytes(word)[0] + 256 * u32_bytes(word)[1] + 65_536 * u32_bytes(word)[2] + 16_777_216
            * u32_bytes(word)[3] == word,
        u64_bytes(long).len() == 8,
        u64_bytes(long)[0] + 256 * u64_bytes(long)[1] + 65_536 * u64_bytes(long)[2] + 16_777_216
            * u64_bytes(long)[3] + 4_294_967_296 * (u64_bytes(long)[4] + 256 * u64_bytes(long)[5]
            + 65_536 * u64_bytes(long)[6] + 16_777_216 * u64_bytes(long)[7]) == long,
{
    let low = (long % 0x1_0000_0000) as u32;
    let high = (long / 0x1_0000_0000) as u32;
    word_adds_up(word);
    word_adds_up(low);
    word_adds_up(high);
    assert(u64_bytes(long).subrange(0, 4) =~= u32_bytes(low));
    assert(u64_bytes(long).subrange(4, 8) =~= u32_bytes(high));
}

/// The four bytes of a number add up to it.
proof fn word_adds_up(word: u32)
    ensures
        u32_bytes(word)[0] + 256 * u32_bytes(word)[1] + 65_536 * u32_bytes(word)[2] + 16_777_216
            * u32_bytes(word)[3] == word,
{
}

/// A digit's worth, `0` to `9`.
pub open spec fn decimal_worth(character: char) -> int {
    character as int - 48
}

/// The character is a decimal digit.
pub open spec fn is_decimal(character: char) -> bool {
    48 <= character as int <= 57
}

/// What a run of digits is worth, each place ten times the one behind it.
pub open spec fn decimal_number(digits: Seq<char>) -> int
    decreases digits.len(),
{
    if digits.len() == 0 {
        0
    } else {
        10 * decimal_number(digits.drop_last()) + decimal_worth(digits.last())
    }
}

/// A number is printed in decimal digits that are worth it, without leading
/// zeros.
pub proof fn decimals_are_worth_their_number(value: nat)
    ensures
        decimal(value).len() > 0,
        forall|i: int| 0 <= i < decimal(value).len() ==> is_decimal(#[trigger] decimal(value)[i]),
        decimal_number(decimal(value)) == value,
        value > 0 ==> decimal(value)[0] != '0',
        value == 0 ==> decimal(value) == seq!['0'],
    decreases value,
{
    if value < 10 {
        let single = decimal(value);
        assert(single.drop_last().len() == 0);
        assert(decimal_number(single.drop_last()) == 0);
        assert(decimal_number(single) == decimal_worth(single.last()));
        if value == 0 {
            assert(single =~= seq!['0']);
        }
    } else {
        decimals_are_worth_their_number(value / 10);
        assert(decimal(value).drop_last() =~= decimal(value / 10));
        assert(decimal(value)[0] == decimal(value / 10)[0]);
        assert forall|i: int| 0 <= i < decimal(value).len() implies is_decimal(
            #[trigger] decimal(value)[i],
        ) by {
            if i < decimal(value / 10).len() {
                assert(is_decimal(decimal(value / 10)[i]));
            }
        }
    }
}

/// What follows a plus sign, if the token begins with one and goes on.
pub open spec fn behind_plus(token: Seq<char>) -> Seq<char> {
    if token.len() > 1 && token[0] == '+' {
        token.skip(1)
    } else {
        token
    }
}

/// The token is digits throughout.
pub open spec fn is_digits(token: Seq<char>) -> bool {
    token.len() > 0 && forall|i: int| 0 <= i < token.len() ==> is_decimal(#[trigger] token[i])
}

/// Reading a token as a whole number up to a limit: it must be digits, behind
/// one plus sign at most, and is then what the digits are worth.
pub proof fn whole_numbers_are_read_as_written(token: Seq<char>, limit: nat)
    ensures
        unsigned_value(token, limit) == (if is_digits(behind_plus(token)) && decimal_number(
            behind_plus(token),
        ) <= limit {
            Some(decimal_number(behind_plus(token)) as nat)
        } else {
            None
        }),
{
    let digits = behind_plus(token);
    if is_digits(digits) {
        digits_are_worth_the_same(digits);
        assert forall|i: int| 0 <= i < digits.len() implies is_digit(#[trigger] digits[i]) by {
            assert(is_decimal(digits[i]));
        }
    } else if digits.len() > 0 {
        let place = choose|i: int| 0 <= i < digits.len() && !is_decimal(#[trigger] digits[i]);
        assert(!is_digit(digits[place]));
    }
}

/// Both ways of adding up digits agree.
proof fn digits_are_worth_the_same(digits: Seq<char>)
    requires
        forall|i: int| 0 <= i < digits.len() ==> is_decimal(#[trigger] digits[i]),
    ensures
        digits_value(digits) == decimal_number(digits),
    decreases digits.len(),
{
    if digits.len() > 0 {
        assert forall|i: int| 0 <= i < digits.drop_last().len() implies is_decimal(
            #[trigger] digits.drop_last()[i],
        ) by {
            assert(is_decimal(digits[i]));
        }
        assert(is_decimal(digits[digits.len() - 1]));
        digits_are_worth_the_same(digits.drop_last());
    }
}

/// A printed number is read back, wherever it is within the limit.
pub proof fn printed_numbers_are_read_back(value: nat, limit: nat)
    ensures
        unsigned_value(decimal(value), limit) == (if value <= limit {
            Some(value)
        } else {
            None
        }),
{
    decimals_are_worth_their_number(value);
    whole_numbers_are_read_as_written(decimal(value), limit);
    assert(is_decimal(decimal(value)[0]));
    assert(behind_plus(decimal(value)) == decimal(value));
}

/// A hexadecimal digit's worth: `0` to `9`, then `a` to `f`.
pub open spec fn hexadecimal_worth(character: char) -> int {
    if 48 <= character as int <= 57 {
        character as int - 48
    } else if 97 <= character as int <= 102 {
        character as int - 87
    } else {
        -1
    }
}

/// A digest is printed with two digits per byte, the higher half first.
pub proof fn digests_are_printed_byte_by_byte(digest: Seq<u8>, index: int)
    requires
        0 <= index < digest.len(),
    ensures
        hexadecimal(digest).len() == 2 * digest.len(),
        0 <= hexadecimal_worth(hexadecimal(digest)[2 * index]) < 16,
        0 <= hexadecimal_worth(hexadecimal(digest)[2 * index + 1]) < 16,
        16 * hexadecimal_worth(hexadecimal(digest)[2 * index]) + hexadecimal_worth(
            hexadecimal(digest)[2 * index + 1],
        ) == digest[index],
        identity_text(digest) == "sha256:"@ + hexadecimal(digest),
{
    let high = 2 * index;
    let low = 2 * index + 1;
    assert(high / 2 == index && high % 2 == 0 && low / 2 == index && low % 2 == 1);
}

/// What a run of hexadecimal digits is worth.
pub open spec fn hexadecimal_value(digits: Seq<char>) -> int
    decreases digits.len(),
{
    if digits.len() == 0 {
        0
    } else {
        16 * hexadecimal_value(digits.drop_last()) + hexadecimal_worth(digits.last())
    }
}

/// A number is printed in hexadecimal digits that are worth it.
pub proof fn hexadecimals_are_worth_their_number(value: nat)
    ensures
        hexadecimal_number(value).len() > 0,
        hexadecimal_value(hexadecimal_number(value)) == value,
        forall|i: int|
            0 <= i < hexadecimal_number(value).len() ==> 0 <= hexadecimal_worth(
                #[trigger] hexadecimal_number(value)[i],
            ),
        value > 0 ==> hexadecimal_number(value)[0] != '0',
    decreases value,
{
    if value < 16 {
        let single = hexadecimal_number(value);
        assert(single.drop_last().len() == 0);
        assert(hexadecimal_value(single.drop_last()) == 0);
        assert(hexadecimal_value(single) == hexadecimal_worth(single.last()));
    } else {
        hexadecimals_are_worth_their_number(value / 16);
        assert(hexadecimal_number(value).drop_last() =~= hexadecimal_number(value / 16));
        assert forall|i: int| 0 <= i < hexadecimal_number(value).len() implies 0
            <= hexadecimal_worth(#[trigger] hexadecimal_number(value)[i]) by {
            if i < hexadecimal_number(value / 16).len() {
                assert(0 <= hexadecimal_worth(hexadecimal_number(value / 16)[i]));
            }
        }
    }
}

/// A signed number is printed as its distance from zero, behind a minus sign
/// where it is negative.
pub proof fn signed_numbers_carry_their_sign(value: int)
    ensures
        value >= 0 ==> signed_decimal(value) == decimal(value as nat),
        value < 0 ==> signed_decimal(value) == seq!['-'] + decimal((0 - value) as nat),
{
    reveal_strlit("-");
    assert("-"@ =~= seq!['-']);
}

} // verus!
