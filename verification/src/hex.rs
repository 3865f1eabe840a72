//! Numbers and bytes written in hexadecimal.

use vstd::arithmetic::power::{lemma_pow0, pow};
use vstd::prelude::*;
use vstd::string::*;

verus! {

/// The character of a hexadecimal digit.
pub open spec fn hex_digit(digit: nat) -> char
    recommends
        digit < 16,
{
    seq!['0', '1', '2', '3', '4', '5', '6', '7', '8', '9', 'a', 'b', 'c', 'd', 'e', 'f'][digit as int]
}

/// The last `width` hexadecimal digits of a number.
pub open spec fn fixed_hex(number: nat, width: nat) -> Seq<char>
    decreases width,
{
    if width == 0 {
        Seq::empty()
    } else {
        fixed_hex(number / 16, (width - 1) as nat).push(hex_digit(number % 16))
    }
}

/// The hexadecimal digits of a number, without leading zeros.
pub open spec fn short_hex(number: nat) -> Seq<char>
    decreases number,
{
    if number < 16 {
        seq![hex_digit(number)]
    } else {
        short_hex(number / 16).push(hex_digit(number % 16))
    }
}

/// A number with the prefix `0x` and no leading zeros.
pub open spec fn prefixed_hex(number: nat) -> Seq<char> {
    "0x"@ + short_hex(number)
}

/// An address with the prefix `0x` and all of its sixteen digits.
pub open spec fn address_hex(address: u64) -> Seq<char> {
    "0x"@ + fixed_hex(address as nat, 16)
}

/// The bytes with two digits each, every byte followed by a space.
pub open spec fn spaced_hex(bytes: Seq<u8>) -> Seq<char>
    decreases bytes.len(),
{
    if bytes.len() == 0 {
        Seq::empty()
    } else {
        spaced_hex(bytes.drop_last()) + fixed_hex(bytes.last() as nat, 2) + " "@
    }
}

/// A text followed by as many spaces as it takes to be `width` characters long.
pub open spec fn left_aligned(text: Seq<char>, width: nat) -> Seq<char> {
    if text.len() >= width {
        text
    } else {
        text + Seq::new((width - text.len()) as nat, |k: int| ' ')
    }
}

/// The number that a hexadecimal digit, in lower case, stands for.
pub open spec fn digit_value(digit: char) -> int {
    if '0' <= digit <= '9' {
        digit as int - '0' as int
    } else {
        digit as int - 'a' as int + 10
    }
}

/// A hexadecimal digit in lower case.
pub open spec fn is_digit(digit: char) -> bool {
    '0' <= digit <= '9' || 'a' <= digit <= 'f'
}

/// The number that a text of hexadecimal digits stands for.
pub open spec fn text_value(text: Seq<char>) -> int
    decreases text.len(),
{
    if text.len() == 0 {
        0
    } else {
        text_value(text.drop_last()) * 16 + digit_value(text.last())
    }
}

/// The text of a number reads back as the number. It has digits in lower case
/// only, and no leading zero unless it is the text of zero.
pub proof fn short_hex_reads_back(number: nat)
    ensures
        text_value(short_hex(number)) == number,
        forall|k: int| 0 <= k < short_hex(number).len() ==> is_digit(#[trigger] short_hex(number)[k]),
        short_hex(number).len() > 0,
        short_hex(number)[0] == '0' ==> number == 0 && short_hex(number).len() == 1,
    decreases number,
{
    let text = short_hex(number);
    if number < 16 {
        assert(text.drop_last() =~= Seq::empty());
        assert(text_value(text.drop_last()) == 0);
    } else {
        short_hex_reads_back(number / 16);
        assert(text.drop_last() =~= short_hex(number / 16));
    }
}

/// The text of a fixed number of digits has that many of them, in lower case,
/// and reads back as the number, if it is not too large for them.
pub proof fn fixed_hex_reads_back(number: nat, width: nat)
    ensures
        fixed_hex(number, width).len() == width,
        forall|k: int| 0 <= k < width ==> is_digit(#[trigger] fixed_hex(number, width)[k]),
        number < pow(16, width) ==> text_value(fixed_hex(number, width)) == number,
    decreases width,
{
    lemma_pow0(16);
    if width > 0 {
        let text = fixed_hex(number, width);
        fixed_hex_reads_back(number / 16, (width - 1) as nat);
        assert(text.drop_last() =~= fixed_hex(number / 16, (width - 1) as nat));
        assert(pow(16, width) == 16 * pow(16, (width - 1) as nat)) by {
            reveal(pow);
        }
    }
}

/// A number is written as `0x` and the digits that read back as it, without
/// leading zeros; an address as `0x` and sixteen digits that do.
pub proof fn prefixed_numbers_read_back(number: u64)
    ensures
        ({
            let text = prefixed_hex(number as nat);
            &&& text.len() >= 3
            &&& text[0] == '0'
            &&& text[1] == 'x'
            &&& text_value(text.skip(2)) == number
            &&& text[2] == '0' ==> text.len() == 3
            &&& forall|k: int| 2 <= k < text.len() ==> is_digit(#[trigger] text[k])
        }),
        ({
            let text = address_hex(number);
            &&& text.len() == 18
            &&& text[0] == '0'
            &&& text[1] == 'x'
            &&& text_value(text.skip(2)) == number
            &&& forall|k: int| 2 <= k < text.len() ==> is_digit(#[trigger] text[k])
        }),
{
    reveal_strlit("0x");
    short_hex_reads_back(number as nat);
    fixed_hex_reads_back(number as nat, 16);
    assert(pow(16, 16) == 0x1_0000_0000_0000_0000) by {
        reveal(pow);
        reveal_with_fuel(pow, 17);
    }
    assert(prefixed_hex(number as nat).skip(2) =~= short_hex(number as nat));
    assert(address_hex(number).skip(2) =~= fixed_hex(number as nat, 16));
}

/// The three characters of a text from `at` on are two digits that read as the
/// byte, and a space.
pub open spec fn shows_byte(text: Seq<char>, at: int, byte: u8) -> bool {
    &&& is_digit(text[at])
    &&& is_digit(text[at + 1])
    &&& digit_value(text[at]) * 16 + digit_value(text[at + 1]) == byte
    &&& text[at + 2] == ' '
}

/// Of bytes, every one is written as two digits that read back as it, and a
/// space.
pub proof fn spaced_bytes_read_back(bytes: Seq<u8>)
    ensures
        spaced_hex(bytes).len() == 3 * bytes.len(),
        forall|k: int|
            0 <= k < bytes.len() ==> shows_byte(spaced_hex(bytes), 3 * k, #[trigger] bytes[k]),
    decreases bytes.len(),
{
    if bytes.len() > 0 {
        reveal_strlit(" ");
        let before = bytes.drop_last();
        let n = before.len() as int;
        spaced_bytes_read_back(before);
        let digits = fixed_hex(bytes.last() as nat, 2);
        fixed_hex_reads_back(bytes.last() as nat, 2);
        assert(pow(16, 2) == 256) by {
            reveal(pow);
            reveal_with_fuel(pow, 3);
        }
        reveal_with_fuel(text_value, 3);
        let text = spaced_hex(bytes);
        assert(text == spaced_hex(before) + digits + " "@);
        assert(text[3 * n] == digits[0] && text[3 * n + 1] == digits[1] && text[3 * n + 2] == ' ');
        assert(digits.drop_last()[0] == digits[0]);
        assert forall|k: int| 0 <= k < bytes.len() implies shows_byte(
            spaced_hex(bytes),
            3 * k,
            #[trigger] bytes[k],
        ) by {
            if k < n {
                assert(shows_byte(spaced_hex(before), 3 * k, before[k]));
            }
        }
    }
}

/// A text that is aligned begins with the text, goes on with spaces, and is as
/// long as asked for or, if the text is longer, as the text.
pub proof fn aligned_text_is_followed_by_spaces(text: Seq<char>, width: nat)
    ensures
        ({
            let aligned = left_aligned(text, width);
            &&& aligned.len() == if text.len() < width {
                width
            } else {
                text.len()
            }
            &&& aligned.take(text.len() as int) == text
            &&& forall|k: int| text.len() <= k < aligned.len() ==> #[trigger] aligned[k] == ' '
        }),
{
    assert(left_aligned(text, width).take(text.len() as int) =~= text);
}

/// The text of a hexadecimal digit.
fn digit_text(digit: u64) -> (text: &'static str)
    requires
        digit < 16,
    ensures
        text@ == seq![hex_digit(digit as nat)],
{
    proof {
        reveal_strlit("0");
        reveal_strlit("1");
        reveal_strlit("2");
        reveal_strlit("3");
        reveal_strlit("4");
        reveal_strlit("5");
        reveal_strlit("6");
        reveal_strlit("7");
        reveal_strlit("8");
        reveal_strlit("9");
        reveal_strlit("a");
        reveal_strlit("b");
        reveal_strlit("c");
        reveal_strlit("d");
        reveal_strlit("e");
        reveal_strlit("f");
    }
    match digit {
        0 => "0",
        1 => "1",
        2 => "2",
        3 => "3",
        4 => "4",
        5 => "5",
        6 => "6",
        7 => "7",
        8 => "8",
        9 => "9",
        10 => "a",
        11 => "b",
        12 => "c",
        13 => "d",
        14 => "e",
        _ => "f",
    }
}

/// Appends the last `width` digits of `number`.
fn push_fixed_hex(out: &mut String, number: u64, width: u32)
    ensures
        final(out)@ == old(out)@ + fixed_hex(number as nat, width as nat),
    decreases width,
{
    if width > 0 {
        push_fixed_hex(out, number / 16, width - 1);
        out.append(digit_text(number % 16));
    }
    assert(out@ =~= old(out)@ + fixed_hex(number as nat, width as nat));
}

/// Appends the digits of `number`, without leading zeros.
fn push_short_hex(out: &mut String, number: u64)
    ensures
        final(out)@ == old(out)@ + short_hex(number as nat),
    decreases number,
{
    if number >= 16 {
        push_short_hex(out, number / 16);
    }
    out.append(digit_text(number % 16));
    assert(out@ =~= old(out)@ + short_hex(number as nat));
}

/// Writes a number with the prefix `0x` and no leading zeros.
pub fn format_hex(number: u64) -> (text: String)
    ensures
        text@ == prefixed_hex(number as nat),
{
    let mut text: String = "0x".to_string();
    push_short_hex(&mut text, number);
    text
}

/// Writes an address with the prefix `0x` and all of its sixteen digits.
pub fn format_address(address: u64) -> (text: String)
    ensures
        text@ == address_hex(address),
{
    let mut text: String = "0x".to_string();
    push_fixed_hex(&mut text, address, 16);
    text
}

/// Writes bytes with two digits each, every byte followed by a space.
pub fn format_bytes(bytes: &[u8]) -> (text: String)
    ensures
        text@ == spaced_hex(bytes@),
{
    let mut text: String = String::new();
    let mut k: usize = 0;
    while k < bytes.len()
        invariant
            k <= bytes.len(),
            text@ == spaced_hex(bytes@.take(k as int)),
        decreases bytes.len() - k,
    {
        proof {
            assert(bytes@.take(k + 1).drop_last() =~= bytes@.take(k as int));
        }
        push_fixed_hex(&mut text, bytes[k] as u64, 2);
        text.append(" ");
        k += 1;
    }
    proof {
        assert(bytes@.take(k as int) =~= bytes@);
    }
    text
}

/// Appends spaces to a text until it is `width` characters long.
pub fn align_left(text: String, width: usize) -> (aligned: String)
    ensures
        aligned@ == left_aligned(text@, width as nat),
{
    let mut aligned: String = text;
    let mut len: usize = aligned.as_str().unicode_len();
    while len < width
        invariant
            len == aligned@.len(),
            left_aligned(aligned@, width as nat) == left_aligned(text@, width as nat),
        decreases width - len,
    {
        let ghost before = aligned@;
        aligned.append(" ");
        len += 1;
        proof {
            reveal_strlit(" ");
            assert(left_aligned(aligned@, width as nat) =~= left_aligned(before, width as nat));
        }
    }
    aligned
}

} // verus!
