use crate::layout::{lay_out, slot_views, tuple_encoding, Slot, SlotView};
use crate::parameter::{
    blob_slots, byte_seqs, char_seqs, counted, int_words, left_padded, right_padded,
    signed_values, uint_words, unsigned_values, utf8_all, word_slots, Parameter, ParameterView,
};
use crate::word::{
    encode_blob, encode_bool, encode_signed, encode_unsigned, left_pad_word, push_bytes,
    right_pad_word,
};
use vstd::prelude::*;

verus! {

/// One dynamic element for each string: its UTF-8 bytes as a blob.
fn string_slots(values: &Vec<String>) -> (slots: Vec<Slot>)
    ensures
        slot_views(slots@) == blob_slots(utf8_all(char_seqs(values@))),
{
    let mut slots: Vec<Slot> = Vec::new();
    let mut i: usize = 0;
    while i < values.len()
        invariant
            i <= values@.len(),
            slots@.len() == i,
            forall|k: int|
                0 <= k < i ==> (#[trigger] slots@[k])@ == blob_slots(
                    utf8_all(char_seqs(values@)),
                )[k],
        decreases values@.len() - i,
    {
        let bytes: Vec<u8> = encode_blob(values[i].as_str().as_bytes());
        slots.push(Slot { dynamic: true, bytes });
        i += 1;
    }
    assert(slot_views(slots@) =~= blob_slots(utf8_all(char_seqs(values@))));
    slots
}

/// One dynamic element for each byte string: its bytes as a blob.
fn bytes_slots(values: &Vec<Vec<u8>>) -> (slots: Vec<Slot>)
    ensures
        slot_views(slots@) == blob_slots(byte_seqs(values@)),
{
    let mut slots: Vec<Slot> = Vec::new();
    let mut i: usize = 0;
    while i < values.len()
        invariant
            i <= values@.len(),
            slots@.len() == i,
            forall|k: int|
                0 <= k < i ==> (#[trigger] slots@[k])@ == blob_slots(byte_seqs(values@))[k],
        decreases values@.len() - i,
    {
        let bytes: Vec<u8> = encode_blob(values[i].as_slice());
        slots.push(Slot { dynamic: true, bytes });
        i += 1;
    }
    assert(slot_views(slots@) =~= blob_slots(byte_seqs(values@)));
    slots
}

/// One static element for each byte string, padded to a word: with zero
/// bytes before it where `leading` is set, after it otherwise.
fn padded_slots(values: &Vec<Vec<u8>>, leading: bool) -> (slots: Vec<Slot>)
    ensures
        slot_views(slots@) == word_slots(
            if leading {
                left_padded(byte_seqs(values@))
            } else {
                right_padded(byte_seqs(values@), 32)
            },
        ),
{
    let ghost words: Seq<Seq<u8>> = if leading {
        left_padded(byte_seqs(values@))
    } else {
        right_padded(byte_seqs(values@), 32)
    };
    let mut slots: Vec<Slot> = Vec::new();
    let mut i: usize = 0;
    while i < values.len()
        invariant
            i <= values@.len(),
            slots@.len() == i,
            words == if leading {
                left_padded(byte_seqs(values@))
            } else {
                right_padded(byte_seqs(values@), 32)
            },
            forall|k: int| 0 <= k < i ==> (#[trigger] slots@[k])@ == word_slots(words)[k],
        decreases values@.len() - i,
    {
        let bytes: Vec<u8> = if leading {
            left_pad_word(values[i].as_slice())
        } else {
            right_pad_word(values[i].as_slice())
        };
        slots.push(Slot { dynamic: false, bytes });
        i += 1;
    }
    assert(slot_views(slots@) =~= word_slots(words));
    slots
}

/// One static element for each signed integer.
fn signed_slots(values: &Vec<isize>) -> (slots: Vec<Slot>)
    ensures
        slot_views(slots@) == word_slots(int_words(signed_values(values@))),
{
    let mut slots: Vec<Slot> = Vec::new();
    let mut i: usize = 0;
    while i < values.len()
        invariant
            i <= values@.len(),
            slots@.len() == i,
            forall|k: int|
                0 <= k < i ==> (#[trigger] slots@[k])@ == word_slots(
                    int_words(signed_values(values@)),
                )[k],
        decreases values@.len() - i,
    {
        let bytes: Vec<u8> = encode_signed(values[i] as i128);
        slots.push(Slot { dynamic: false, bytes });
        i += 1;
    }
    assert(slot_views(slots@) =~= word_slots(int_words(signed_values(values@))));
    slots
}

/// One static element for each unsigned integer.
fn unsigned_slots(values: &Vec<usize>) -> (slots: Vec<Slot>)
    ensures
        slot_views(slots@) == word_slots(uint_words(unsigned_values(values@))),
{
    let mut slots: Vec<Slot> = Vec::new();
    let mut i: usize = 0;
    while i < values.len()
        invariant
            i <= values@.len(),
            slots@.len() == i,
            forall|k: int|
                0 <= k < i ==> (#[trigger] slots@[k])@ == word_slots(
                    uint_words(unsigned_values(values@)),
                )[k],
        decreases values@.len() - i,
    {
        let bytes: Vec<u8> = encode_unsigned(values[i] as u128);
        slots.push(Slot { dynamic: false, bytes });
        i += 1;
    }
    assert(slot_views(slots@) =~= word_slots(uint_words(unsigned_values(values@))));
    slots
}

/// Encodes an array from its elements: laid out as a sequence of their own,
/// after a word with their number where `with_count` is set.
fn encode_array(elements: &Vec<Slot>, with_count: bool) -> (out: Vec<u8>)
    ensures
        out@ == if with_count {
            counted(slot_views(elements@))
        } else {
            tuple_encoding(slot_views(elements@))
        },
{
    let body: Vec<u8> = lay_out(elements);
    if with_count {
        let mut out: Vec<u8> = encode_unsigned(elements.len() as u128);
        push_bytes(&mut out, body.as_slice());
        out
    } else {
        body
    }
}

impl Parameter {
    /// Tells whether the parameter stands in the tail, with its offset in
    /// the head, or in the head itself.
    pub fn is_dynamic(&self) -> (dynamic: bool)
        ensures
            dynamic == self@.is_dynamic(),
    {
        match self {
            Parameter::String(_) => true,
            Parameter::StringArray(_) => true,
            Parameter::FixedStringArray { .. } => true,
            Parameter::Bytes(_) => true,
            Parameter::FixedBytes { .. } => false,
            Parameter::ByteArray(_) => true,
            Parameter::FixedByteArray { .. } => true,
            Parameter::ByteFixedArray { .. } => true,
            Parameter::FixedByteFixedArray { .. } => false,
            Parameter::Bool(_) => false,
            Parameter::Int { .. } => false,
            Parameter::IntArray { .. } => true,
            Parameter::FixedIntArray { .. } => false,
            Parameter::Uint { .. } => false,
            Parameter::UintArray { .. } => true,
            Parameter::FixedUintArray { .. } => false,
            Parameter::Address(_) => false,
            Parameter::AddressArray(_) => true,
            Parameter::FixedAddressArray { .. } => false,
            Parameter::Function { .. } => false,
        }
    }

    /// Encodes the parameter by the rule of its type.
    pub fn encode(&self) -> (slot: Slot)
        ensures
            slot@ == self@.slot(),
    {
        let bytes: Vec<u8> = match self {
            Parameter::String(value) => encode_blob(value.as_str().as_bytes()),
            Parameter::StringArray(values) => encode_array(&string_slots(values), true),
            Parameter::FixedStringArray { values, .. } => encode_array(
                &string_slots(values),
                false,
            ),
            Parameter::Bytes(value) => encode_blob(value.as_slice()),
            Parameter::FixedBytes { value, .. } => right_pad_word(value.as_slice()),
            Parameter::ByteArray(values) => encode_array(&bytes_slots(values), true),
            Parameter::FixedByteArray { values, .. } => encode_array(
                &padded_slots(values, false),
                true,
            ),
            Parameter::ByteFixedArray { values, .. } => encode_array(&bytes_slots(values), false),
            Parameter::FixedByteFixedArray { values, .. } => encode_array(
                &padded_slots(values, false),
                false,
            ),
            Parameter::Bool(value) => encode_bool(*value),
            Parameter::Int { value, .. } => encode_signed(*value as i128),
            Parameter::IntArray { values, .. } => encode_array(&signed_slots(values), true),
            Parameter::FixedIntArray { values, .. } => encode_array(&signed_slots(values), false),
            Parameter::Uint { value, .. } => encode_unsigned(*value as u128),
            Parameter::UintArray { values, .. } => encode_array(&unsigned_slots(values), true),
            Parameter::FixedUintArray { values, .. } => encode_array(
                &unsigned_slots(values),
                false,
            ),
            Parameter::Address(value) => left_pad_word(value.as_slice()),
            Parameter::AddressArray(values) => encode_array(&padded_slots(values, true), true),
            Parameter::FixedAddressArray { values, .. } => encode_array(
                &padded_slots(values, true),
                false,
            ),
            Parameter::Function { address, selector } => {
                let mut both: Vec<u8> = Vec::new();
                push_bytes(&mut both, address.as_slice());
                push_bytes(&mut both, selector.as_slice());
                right_pad_word(both.as_slice())
            },
        };
        Slot { dynamic: self.is_dynamic(), bytes }
    }
}

/// The place that each parameter takes among the others.
pub open spec fn parameter_slots(parameters: Seq<ParameterView>) -> Seq<SlotView> {
    Seq::new(parameters.len(), |i: int| parameters[i].slot())
}

/// The contents of each parameter of `parameters`, in order.
pub open spec fn parameter_views(parameters: Seq<Parameter>) -> Seq<ParameterView> {
    Seq::new(parameters.len(), |i: int| parameters[i]@)
}

/// Encodes a sequence of parameters: a head with the static values and the
/// offsets of the dynamic ones, then a tail with the dynamic values.
pub fn encode_parameters(parameters: &Vec<Parameter>) -> (out: Vec<u8>)
    ensures
        out@ == tuple_encoding(parameter_slots(parameter_views(parameters@))),
{
    let mut slots: Vec<Slot> = Vec::new();
    let mut i: usize = 0;
    while i < parameters.len()
        invariant
            i <= parameters@.len(),
            slots@.len() == i,
            forall|k: int| 0 <= k < i ==> (#[trigger] slots@[k])@ == parameters@[k]@.slot(),
        decreases parameters@.len() - i,
    {
        let slot: Slot = parameters[i].encode();
        slots.push(slot);
        i += 1;
    }
    assert(slot_views(slots@) =~= parameter_slots(parameter_views(parameters@)));
    lay_out(&slots)
}

} // verus!
