//! Decoding of hexadecimal text into bytes, two digits per byte.

use vstd::prelude::*;

verus! {

/// `c` is one of `0`-`9`, `A`-`F`, `a`-`f`.
pub open spec fn is_hex_digit(c: u8) -> bool {
    (0x30 <= c <= 0x39) || (0x41 <= c <= 0x46) || (0x61 <= c <= 0x66)
}

/// The number that the hex digit `c` stands for.
pub open spec fn hex_digit_value(c: u8) -> int
    recommends
        is_hex_digit(c),
{
    if c <= 0x39 {
        c - 0x30
    } else if c <= 0x46 {
        c - 0x41 + 10
    } else {
        c - 0x61 + 10
    }
}

/// `c` with an ASCII lower-case letter turned into its upper-case form.
pub open spec fn ascii_upper(c: u8) -> u8 {
    if 0x61 <= c <= 0x7a {
        (c - 0x20) as u8
    } else {
        c
    }
}

/// The four bits that one character of hex text contributes. For a hex digit
/// this is its value; any other byte goes through the same arithmetic, with
/// the subtraction wrapping, and is not rejected.
pub open spec fn nibble(c: u8) -> u8 {
    let d = ascii_upper(c).wrapping_sub(0x30);
    if d > 9 {
        (d - 7) as u8
    } else {
        d
    }
}

/// The byte that two characters of hex text decode to, high digit first.
pub open spec fn hex_byte(hi: u8, lo: u8) -> u8 {
    (nibble(hi) << 4) | nibble(lo)
}

/// The bytes that hex text decodes to. A trailing odd character is ignored.
pub open spec fn hex_bytes(hex: Seq<u8>) -> Seq<u8> {
    Seq::new((hex.len() / 2) as nat, |i: int| hex_byte(hex[2 * i], hex[2 * i + 1]))
}

/// The text consists of hex digits only.
pub open spec fn is_hex_text(hex: Seq<u8>) -> bool {
    forall|i: int| 0 <= i < hex.len() ==> is_hex_digit(#[trigger] hex[i])
}

/// On a hex digit, `nibble` is the digit's value.
pub proof fn lemma_nibble_of_digit(c: u8)
    requires
        is_hex_digit(c),
    ensures
        nibble(c) == hex_digit_value(c),
        nibble(c) < 16,
{
}

/// Two hex digits decode to sixteen times the first plus the second.
pub proof fn lemma_hex_byte_of_digits(hi: u8, lo: u8)
    requires
        is_hex_digit(hi),
        is_hex_digit(lo),
    ensures
        hex_byte(hi, lo) == 16 * hex_digit_value(hi) + hex_digit_value(lo),
{
    lemma_nibble_of_digit(hi);
    lemma_nibble_of_digit(lo);
    let h = nibble(hi);
    let l = nibble(lo);
    assert((h << 4) | l == 16 * h + l) by (bit_vector)
        requires
            h < 16,
            l < 16,
    ;
}

/// Well-formed hex text decodes digit pair by digit pair.
pub proof fn lemma_hex_bytes_of_text(hex: Seq<u8>)
    requires
        is_hex_text(hex),
    ensures
        hex_bytes(hex).len() == hex.len() / 2,
        forall|i: int|
            0 <= i < hex.len() / 2 ==> #[trigger] hex_bytes(hex)[i] == 16 * hex_digit_value(
                hex[2 * i],
            ) + hex_digit_value(hex[2 * i + 1]),
{
    assert forall|i: int| 0 <= i < hex.len() / 2 implies #[trigger] hex_bytes(hex)[i] == 16
        * hex_digit_value(hex[2 * i]) + hex_digit_value(hex[2 * i + 1]) by {
        lemma_hex_byte_of_digits(hex[2 * i], hex[2 * i + 1]);
    }
}

/// The four bits that one character of hex text contributes.
fn nibble_of(c: u8) -> (d: u8)
    ensures
        d == nibble(c),
{
    let up: u8 = if 0x61 <= c && c <= 0x7a { c - 0x20 } else { c };
    let d: u8 = up.wrapping_sub(0x30);
    if d > 9 {
        d - 7
    } else {
        d
    }
}

/// Decodes hex text into bytes, two characters per byte, high digit first.
///
/// A trailing odd character is dropped. Characters that are no hex digits are
/// not rejected: they decode as [`nibble`] says.
pub fn hex2byte(hex: &[u8]) -> (bytes: Vec<u8>)
    ensures
        bytes@ == hex_bytes(hex@),
        bytes@.len() == hex@.len() / 2,
        forall|i: int|
            0 <= i < hex@.len() / 2 && is_hex_digit(hex@[2 * i]) && is_hex_digit(hex@[2 * i + 1])
                ==> #[trigger] bytes@[i] == 16 * hex_digit_value(hex@[2 * i]) + hex_digit_value(
                hex@[2 * i + 1],
            ),
{
    let n: usize = hex.len();
    let pairs: usize = n / 2;
    let mut bytes: Vec<u8> = Vec::with_capacity(pairs);
    let mut i: usize = 0;
    while i < pairs
        invariant
            i <= pairs,
            n == hex@.len(),
            pairs == n / 2,
            bytes@.len() == i,
            forall|k: int| 0 <= k < i ==> #[trigger] bytes@[k] == hex_byte(hex@[2 * k], hex@[2 * k + 1]),
        decreases pairs - i,
    {
        let high: u8 = nibble_of(hex[2 * i]);
        let low: u8 = nibble_of(hex[2 * i + 1]);
        bytes.push((high << 4) | low);
        i += 1;
    }
    proof {
        assert forall|k: int|
            0 <= k < hex@.len() / 2 && is_hex_digit(hex@[2 * k]) && is_hex_digit(
                hex@[2 * k + 1],
            ) implies #[trigger] bytes@[k] == 16 * hex_digit_value(hex@[2 * k]) + hex_digit_value(
            hex@[2 * k + 1],
        ) by {
            lemma_hex_byte_of_digits(hex@[2 * k], hex@[2 * k + 1]);
        }
    }
    bytes
}

} // verus!
