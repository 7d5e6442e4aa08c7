use crate::error::CallParamsError;
use crate::hex::{decode_hex, parse_address, ADDRESS_SIZE};
use crate::parameter::{all_of_len, byte_seqs, char_seqs, valid_byte_len, valid_width};
use vstd::prelude::*;
use vstd::utf8::encode_utf8;

verus! {

/// What is wrong with a value of `len` bytes under the declared length
/// `fixed_len`: a value that is too long is reported first, then a length
/// that no fixed-size byte string can have.
pub open spec fn fixed_bytes_error(len: nat, fixed_len: nat) -> Option<CallParamsError> {
    if len > fixed_len {
        Some(CallParamsError::ValueExceedsFixedLength)
    } else if !valid_byte_len(fixed_len) {
        Some(CallParamsError::InvalidFixedLength)
    } else {
        None
    }
}

/// What is wrong with the width of an integer type.
pub open spec fn width_error(width: nat) -> Option<CallParamsError> {
    if valid_width(width) {
        None
    } else {
        Some(CallParamsError::InvalidWidth)
    }
}

/// The first of two findings.
pub open spec fn or_else(first: Option<CallParamsError>, second: Option<CallParamsError>) -> Option<
    CallParamsError,
> {
    if first is Some {
        first
    } else {
        second
    }
}

/// The finding on the first element that has one.
pub open spec fn first_error(findings: Seq<Option<CallParamsError>>) -> Option<CallParamsError>
    decreases findings.len(),
{
    if findings.len() == 0 {
        None
    } else if findings.first() is Some {
        findings.first()
    } else {
        first_error(findings.drop_first())
    }
}

/// The finding on each element of `values` under the element length
/// `fixed_byte_len`.
pub open spec fn element_findings(values: Seq<Seq<u8>>, fixed_byte_len: nat) -> Seq<
    Option<CallParamsError>,
> {
    Seq::new(values.len(), |i: int| fixed_bytes_error(values[i].len(), fixed_byte_len))
}

/// What is wrong with an array of byte strings under the element length
/// `fixed_byte_len`: the finding on its first faulty element, or, where
/// there is none, an element length that no fixed-size byte string can have.
pub open spec fn fixed_elements_error(values: Seq<Seq<u8>>, fixed_byte_len: nat) -> Option<
    CallParamsError,
> {
    or_else(
        first_error(element_findings(values, fixed_byte_len)),
        if valid_byte_len(fixed_byte_len) {
            None
        } else {
            Some(CallParamsError::InvalidFixedLength)
        },
    )
}

/// What is wrong with a list of addresses given as bytes.
pub open spec fn addresses_error(values: Seq<Seq<u8>>) -> Option<CallParamsError> {
    if all_of_len(values, 20) {
        None
    } else {
        Some(CallParamsError::InvalidAddressFormat)
    }
}

/// Does every text of `texts` write an address?
pub open spec fn all_addresses(texts: Seq<Seq<char>>) -> bool {
    forall|i: int| 0 <= i < texts.len() ==> (#[trigger] decode_hex(encode_utf8(texts[i]), 20)) is Some
}

/// The addresses that the texts of `texts` write.
pub open spec fn decoded_addresses(texts: Seq<Seq<char>>) -> Seq<Seq<u8>> {
    Seq::new(texts.len(), |i: int| decode_hex(encode_utf8(texts[i]), 20).unwrap())
}

/// What is wrong with a list of addresses given as text.
pub open spec fn address_texts_error(texts: Seq<Seq<char>>) -> Option<CallParamsError> {
    if all_addresses(texts) {
        None
    } else {
        Some(CallParamsError::InvalidAddressFormat)
    }
}

/// A fixed-size byte string is refused exactly when the value is longer
/// than the declared length, or that length is zero or more than 32.
pub proof fn lemma_fixed_bytes_refused(len: nat, fixed_len: nat)
    ensures
        fixed_bytes_error(len, fixed_len) is Some <==> len > fixed_len || fixed_len > 32
            || fixed_len == 0,
        fixed_bytes_error(len, fixed_len) is None <==> 0 < fixed_len <= 32 && len <= fixed_len,
{
}

/// Where every element before `i` is without finding and element `i` has
/// one, that is the first.
pub proof fn lemma_first_error_at(findings: Seq<Option<CallParamsError>>, i: int)
    requires
        0 <= i < findings.len(),
        findings[i] is Some,
        forall|k: int| 0 <= k < i ==> findings[k] is None,
    ensures
        first_error(findings) == findings[i],
    decreases i,
{
    if i > 0 {
        let rest = findings.drop_first();
        assert(findings.first() == findings[0]);
        assert(rest[i - 1] == findings[i]);
        assert forall|k: int| 0 <= k < i - 1 implies rest[k] is None by {
            assert(rest[k] == findings[k + 1]);
        }
        lemma_first_error_at(rest, i - 1);
    }
}

/// Where no element has a finding, there is no first.
pub proof fn lemma_first_error_none(findings: Seq<Option<CallParamsError>>)
    requires
        forall|k: int| 0 <= k < findings.len() ==> findings[k] is None,
    ensures
        first_error(findings) is None,
    decreases findings.len(),
{
    if findings.len() > 0 {
        let rest = findings.drop_first();
        assert(findings.first() == findings[0]);
        assert forall|k: int| 0 <= k < rest.len() implies rest[k] is None by {
            assert(rest[k] == findings[k + 1]);
        }
        lemma_first_error_none(rest);
    }
}

/// The first finding is the finding on some element, and there is none
/// exactly when no element has one.
pub proof fn lemma_first_error_member(findings: Seq<Option<CallParamsError>>)
    ensures
        match first_error(findings) {
            Some(e) => exists|i: int| 0 <= i < findings.len() && findings[i] == Some(e),
            None => forall|i: int| 0 <= i < findings.len() ==> findings[i] is None,
        },
    decreases findings.len(),
{
    if findings.len() > 0 {
        let rest = findings.drop_first();
        assert(findings.first() == findings[0]);
        if findings[0] is None {
            lemma_first_error_member(rest);
            match first_error(rest) {
                Some(e) => {
                    let i = choose|i: int| 0 <= i < rest.len() && rest[i] == Some(e);
                    assert(findings[i + 1] == Some(e));
                },
                None => {
                    assert forall|i: int| 0 <= i < findings.len() implies findings[i] is None by {
                        if i > 0 {
                            assert(rest[i - 1] == findings[i]);
                        }
                    }
                },
            }
        }
    }
}

/// An array of byte strings is accepted exactly when the element length is
/// valid and no element is longer; under a valid element length the only
/// finding is an element that is too long.
pub proof fn lemma_fixed_elements_error(values: Seq<Seq<u8>>, fixed_byte_len: nat)
    ensures
        fixed_elements_error(values, fixed_byte_len) is None <==> valid_byte_len(fixed_byte_len)
            && forall|i: int| 0 <= i < values.len() ==> (#[trigger] values[i]).len() <= fixed_byte_len,
        valid_byte_len(fixed_byte_len) && fixed_elements_error(values, fixed_byte_len) is Some
            ==> fixed_elements_error(values, fixed_byte_len) == Some(
            CallParamsError::ValueExceedsFixedLength,
        ),
{
    let findings = element_findings(values, fixed_byte_len);
    lemma_first_error_member(findings);
    match first_error(findings) {
        Some(e) => {
            let i = choose|i: int| 0 <= i < findings.len() && findings[i] == Some(e);
            assert(fixed_bytes_error(values[i].len(), fixed_byte_len) == Some(e));
        },
        None => {
            assert forall|i: int| 0 <= i < values.len() implies (#[trigger] values[i]).len()
                <= fixed_byte_len by {
                assert(findings[i] is None);
            }
        },
    }
    if valid_byte_len(fixed_byte_len) && (forall|i: int|
        0 <= i < values.len() ==> (#[trigger] values[i]).len() <= fixed_byte_len) {
        assert forall|k: int| 0 <= k < findings.len() implies findings[k] is None by {
            assert(values[k].len() <= fixed_byte_len);
        }
        lemma_first_error_none(findings);
    }
}

/// Checks the width of an integer type.
pub fn check_width(width: usize) -> (r: Result<(), CallParamsError>)
    ensures
        match width_error(width as nat) {
            None => r is Ok,
            Some(e) => r == Err::<(), CallParamsError>(e),
        },
{
    if 8 <= width && width <= 256 && width % 8 == 0 {
        Ok(())
    } else {
        Err(CallParamsError::InvalidWidth)
    }
}

/// Checks that each of `values` has the 20 bytes of an address.
pub fn check_addresses(values: &Vec<Vec<u8>>) -> (r: Result<(), CallParamsError>)
    ensures
        match addresses_error(byte_seqs(values@)) {
            None => r is Ok,
            Some(e) => r == Err::<(), CallParamsError>(e),
        },
{
    let mut i: usize = 0;
    while i < values.len()
        invariant
            i <= values@.len(),
            forall|k: int| 0 <= k < i ==> (#[trigger] byte_seqs(values@)[k]).len() == 20,
        decreases values@.len() - i,
    {
        if values[i].len() != ADDRESS_SIZE {
            assert(byte_seqs(values@)[i as int].len() != 20);
            return Err(CallParamsError::InvalidAddressFormat);
        }
        i += 1;
    }
    Ok(())
}

/// Reads each of `texts` as an address written in hexadecimal.
pub fn parse_addresses(texts: &Vec<String>) -> (r: Result<Vec<Vec<u8>>, CallParamsError>)
    ensures
        match address_texts_error(char_seqs(texts@)) {
            None => r matches Ok(addresses) && byte_seqs(addresses@) == decoded_addresses(
                char_seqs(texts@),
            ) && all_of_len(byte_seqs(addresses@), 20),
            Some(e) => r matches Err(found) && found == e,
        },
{
    let mut addresses: Vec<Vec<u8>> = Vec::new();
    let mut i: usize = 0;
    while i < texts.len()
        invariant
            i <= texts@.len(),
            addresses@.len() == i,
            forall|k: int|
                0 <= k < i ==> (#[trigger] decode_hex(encode_utf8(char_seqs(texts@)[k]), 20))
                    == Some(addresses@[k]@),
        decreases texts@.len() - i,
    {
        match parse_address(texts[i].as_str()) {
            Ok(address) => {
                addresses.push(address);
            },
            Err(e) => {
                assert(decode_hex(encode_utf8(char_seqs(texts@)[i as int]), 20) is None);
                return Err(e);
            },
        }
        i += 1;
    }
    proof {
        assert(byte_seqs(addresses@) =~= decoded_addresses(char_seqs(texts@)));
        assert forall|k: int| 0 <= k < addresses@.len() implies (#[trigger] byte_seqs(
            addresses@,
        )[k]).len() == 20 by {
            assert(decode_hex(encode_utf8(char_seqs(texts@)[k]), 20) == Some(addresses@[k]@));
        }
    }
    Ok(addresses)
}

} // verus!
