use crate::error::CallParamsError;
use vstd::prelude::*;
use vstd::utf8::encode_utf8;

verus! {

/// Number of bytes in an address.
pub const ADDRESS_SIZE: usize = 20;

/// Number of bytes in a function selector.
pub const SELECTOR_SIZE: usize = 4;

/// The value of a hexadecimal digit given as an ASCII byte, in either case.
pub open spec fn hex_digit(c: u8) -> Option<u8> {
    if 0x30 <= c <= 0x39 {
        Some((c - 0x30) as u8)
    } else if 0x61 <= c <= 0x66 {
        Some((c - 0x61 + 10) as u8)
    } else if 0x41 <= c <= 0x46 {
        Some((c - 0x41 + 10) as u8)
    } else {
        None
    }
}

/// Does `text` begin with the two characters `0x`?
pub open spec fn has_prefix(text: Seq<u8>) -> bool {
    text.len() >= 2 && text[0] == 0x30 && text[1] == 0x78
}

/// `text` without a leading `0x`, if it has one.
pub open spec fn strip_prefix(text: Seq<u8>) -> Seq<u8> {
    if has_prefix(text) {
        text.skip(2)
    } else {
        text
    }
}

/// Is every byte of `digits` a hexadecimal digit?
pub open spec fn is_hex(digits: Seq<u8>) -> bool {
    forall|i: int| 0 <= i < digits.len() ==> (#[trigger] hex_digit(digits[i])) is Some
}

/// The byte written by the pair of digits at `2 * i` and `2 * i + 1`.
pub open spec fn hex_pair(digits: Seq<u8>, i: int) -> u8 {
    (16 * hex_digit(digits[2 * i]).unwrap() + hex_digit(digits[2 * i + 1]).unwrap()) as u8
}

/// The bytes written by `digits`, two digits to a byte, the high one first.
pub open spec fn hex_bytes(digits: Seq<u8>) -> Seq<u8> {
    Seq::new(digits.len() / 2, |i: int| hex_pair(digits, i))
}

/// The `n` bytes that `text` writes in hexadecimal: exactly `2 * n` digits of
/// either case, after an optional `0x`. Any other text writes nothing.
pub open spec fn decode_hex(text: Seq<u8>, n: nat) -> Option<Seq<u8>> {
    let digits = strip_prefix(text);
    if digits.len() == 2 * n && is_hex(digits) {
        Some(hex_bytes(digits))
    } else {
        None
    }
}

/// What is written decodes to exactly the number of bytes asked for.
pub proof fn lemma_decode_hex_len(text: Seq<u8>, n: nat)
    ensures
        decode_hex(text, n) matches Some(bytes) ==> bytes.len() == n,
{
}

fn hex_value(c: u8) -> (r: Option<u8>)
    ensures
        r == hex_digit(c),
{
    if 0x30 <= c && c <= 0x39 {
        Some(c - 0x30)
    } else if 0x61 <= c && c <= 0x66 {
        Some(c - 0x61 + 10)
    } else if 0x41 <= c && c <= 0x46 {
        Some(c - 0x41 + 10)
    } else {
        None
    }
}

fn decode(text: &[u8], n: usize) -> (r: Option<Vec<u8>>)
    requires
        n <= 32,
    ensures
        match decode_hex(text@, n as nat) {
            Some(bytes) => r matches Some(out) && out@ == bytes,
            None => r is None,
        },
{
    let start: usize = if text.len() >= 2 && text[0] == 0x30 && text[1] == 0x78 {
        2
    } else {
        0
    };
    let ghost digits: Seq<u8> = strip_prefix(text@);
    if text.len() - start != 2 * n {
        return None;
    }
    let mut out: Vec<u8> = Vec::new();
    let mut i: usize = 0;
    while i < n
        invariant
            i <= n <= 32,
            start <= 2,
            digits == text@.skip(start as int),
            digits.len() == 2 * n,
            text@.len() == start + 2 * n,
            out@.len() == i,
            forall|k: int| 0 <= k < i ==> out@[k] == hex_pair(digits, k),
            forall|k: int| 0 <= k < 2 * i ==> (#[trigger] hex_digit(digits[k])) is Some,
        decreases n - i,
    {
        let high: Option<u8> = hex_value(text[start + 2 * i]);
        let low: Option<u8> = hex_value(text[start + 2 * i + 1]);
        match (high, low) {
            (Some(h), Some(l)) => {
                out.push(16 * h + l);
            },
            _ => {
                assert(hex_digit(digits[2 * i]) is None || hex_digit(digits[2 * i + 1]) is None);
                return None;
            },
        }
        i += 1;
    }
    assert(out@ =~= hex_bytes(digits));
    Some(out)
}

/// Reads an address written as 40 hexadecimal digits, with or without a
/// leading `0x`.
pub fn parse_address(text: &str) -> (r: Result<Vec<u8>, CallParamsError>)
    ensures
        match decode_hex(encode_utf8(text@), 20) {
            Some(bytes) => r matches Ok(address) && address@ == bytes,
            None => r == Err::<Vec<u8>, CallParamsError>(CallParamsError::InvalidAddressFormat),
        },
        r matches Ok(address) ==> address@.len() == 20,
{
    match decode(text.as_bytes(), ADDRESS_SIZE) {
        Some(address) => Ok(address),
        None => Err(CallParamsError::InvalidAddressFormat),
    }
}

/// Reads a function selector written as 8 hexadecimal digits, with or
/// without a leading `0x`.
pub fn parse_selector(text: &str) -> (r: Result<Vec<u8>, CallParamsError>)
    ensures
        match decode_hex(encode_utf8(text@), 4) {
            Some(bytes) => r matches Ok(selector) && selector@ == bytes,
            None => r == Err::<Vec<u8>, CallParamsError>(CallParamsError::InvalidSelectorFormat),
        },
        r matches Ok(selector) ==> selector@.len() == 4,
{
    match decode(text.as_bytes(), SELECTOR_SIZE) {
        Some(selector) => Ok(selector),
        None => Err(CallParamsError::InvalidSelectorFormat),
    }
}

} // verus!
