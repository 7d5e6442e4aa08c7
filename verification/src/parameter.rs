use crate::layout::{
    head_len, lemma_head_len_of_single_words, lemma_tuple_encoding_len,
    lemma_tuple_encoding_of_statics, lemma_whole_words, tuple_encoding, SlotView,
};
use crate::word::{
    blob, bool_word, int_word, left_pad, lemma_be_bytes_len, lemma_blob_len, lemma_left_pad,
    lemma_right_pad, right_pad,
};
use vstd::prelude::*;
use vstd::utf8::encode_utf8;

verus! {

/// One argument of a call, in the form in which it is kept until the call is
/// assembled. The order of the variants' fields is the order of the
/// arguments of the operation that adds them.
#[derive(Clone, Debug, PartialEq, Eq)]
#[allow(inconsistent_fields)]
pub enum Parameter {
    /// `string`
    String(String),
    /// `string[]`
    StringArray(Vec<String>),
    /// `string[fixed_len]`
    FixedStringArray { values: Vec<String>, fixed_len: usize },
    /// `bytes`
    Bytes(Vec<u8>),
    /// `bytes<fixed_len>`, the value already padded to `fixed_len` bytes
    FixedBytes { value: Vec<u8>, fixed_len: usize },
    /// `bytes[]`
    ByteArray(Vec<Vec<u8>>),
    /// `bytes<fixed_byte_len>[]`, each element already padded
    FixedByteArray { values: Vec<Vec<u8>>, fixed_byte_len: usize },
    /// `bytes[fixed_len]`
    ByteFixedArray { values: Vec<Vec<u8>>, fixed_len: usize },
    /// `bytes<fixed_byte_len>[fixed_len]`, each element already padded
    FixedByteFixedArray { values: Vec<Vec<u8>>, fixed_byte_len: usize, fixed_len: usize },
    /// `bool`
    Bool(bool),
    /// `int<width>`
    Int { value: isize, width: usize },
    /// `int<width>[]`
    IntArray { values: Vec<isize>, width: usize },
    /// `int<width>[fixed_len]`
    FixedIntArray { values: Vec<isize>, width: usize, fixed_len: usize },
    /// `uint<width>`
    Uint { value: usize, width: usize },
    /// `uint<width>[]`
    UintArray { values: Vec<usize>, width: usize },
    /// `uint<width>[fixed_len]`
    FixedUintArray { values: Vec<usize>, width: usize, fixed_len: usize },
    /// `address`, 20 bytes
    Address(Vec<u8>),
    /// `address[]`
    AddressArray(Vec<Vec<u8>>),
    /// `address[fixed_len]`
    FixedAddressArray { values: Vec<Vec<u8>>, fixed_len: usize },
    /// `function`: the 20 bytes of an address and the 4 bytes of a selector
    Function { address: Vec<u8>, selector: Vec<u8> },
}

/// The mathematical content of a [`Parameter`].
#[allow(inconsistent_fields)]
pub enum ParameterView {
    String(Seq<char>),
    StringArray(Seq<Seq<char>>),
    FixedStringArray { values: Seq<Seq<char>>, fixed_len: nat },
    Bytes(Seq<u8>),
    FixedBytes { value: Seq<u8>, fixed_len: nat },
    ByteArray(Seq<Seq<u8>>),
    FixedByteArray { values: Seq<Seq<u8>>, fixed_byte_len: nat },
    ByteFixedArray { values: Seq<Seq<u8>>, fixed_len: nat },
    FixedByteFixedArray { values: Seq<Seq<u8>>, fixed_byte_len: nat, fixed_len: nat },
    Bool(bool),
    Int { value: int, width: nat },
    IntArray { values: Seq<int>, width: nat },
    FixedIntArray { values: Seq<int>, width: nat, fixed_len: nat },
    Uint { value: nat, width: nat },
    UintArray { values: Seq<nat>, width: nat },
    FixedUintArray { values: Seq<nat>, width: nat, fixed_len: nat },
    Address(Seq<u8>),
    AddressArray(Seq<Seq<u8>>),
    FixedAddressArray { values: Seq<Seq<u8>>, fixed_len: nat },
    Function { address: Seq<u8>, selector: Seq<u8> },
}

/// The contents of each byte string of `values`.
pub open spec fn byte_seqs(values: Seq<Vec<u8>>) -> Seq<Seq<u8>> {
    Seq::new(values.len(), |i: int| values[i]@)
}

/// The characters of each string of `values`.
pub open spec fn char_seqs(values: Seq<String>) -> Seq<Seq<char>> {
    Seq::new(values.len(), |i: int| values[i]@)
}

/// The numbers that `values` holds.
pub open spec fn signed_values(values: Seq<isize>) -> Seq<int> {
    Seq::new(values.len(), |i: int| values[i] as int)
}

/// The numbers that `values` holds.
pub open spec fn unsigned_values(values: Seq<usize>) -> Seq<nat> {
    Seq::new(values.len(), |i: int| values[i] as nat)
}

impl View for Parameter {
    type V = ParameterView;

    open spec fn view(&self) -> ParameterView {
        match self {
            Parameter::String(value) => ParameterView::String(value@),
            Parameter::StringArray(values) => ParameterView::StringArray(char_seqs(values@)),
            Parameter::FixedStringArray { values, fixed_len } => ParameterView::FixedStringArray {
                values: char_seqs(values@),
                fixed_len: *fixed_len as nat,
            },
            Parameter::Bytes(value) => ParameterView::Bytes(value@),
            Parameter::FixedBytes { value, fixed_len } => ParameterView::FixedBytes {
                value: value@,
                fixed_len: *fixed_len as nat,
            },
            Parameter::ByteArray(values) => ParameterView::ByteArray(byte_seqs(values@)),
            Parameter::FixedByteArray { values, fixed_byte_len } => ParameterView::FixedByteArray {
                values: byte_seqs(values@),
                fixed_byte_len: *fixed_byte_len as nat,
            },
            Parameter::ByteFixedArray { values, fixed_len } => ParameterView::ByteFixedArray {
                values: byte_seqs(values@),
                fixed_len: *fixed_len as nat,
            },
            Parameter::FixedByteFixedArray {
                values,
                fixed_byte_len,
                fixed_len,
            } => ParameterView::FixedByteFixedArray {
                values: byte_seqs(values@),
                fixed_byte_len: *fixed_byte_len as nat,
                fixed_len: *fixed_len as nat,
            },
            Parameter::Bool(value) => ParameterView::Bool(*value),
            Parameter::Int { value, width } => ParameterView::Int {
                value: *value as int,
                width: *width as nat,
            },
            Parameter::IntArray { values, width } => ParameterView::IntArray {
                values: signed_values(values@),
                width: *width as nat,
            },
            Parameter::FixedIntArray { values, width, fixed_len } => ParameterView::FixedIntArray {
                values: signed_values(values@),
                width: *width as nat,
                fixed_len: *fixed_len as nat,
            },
            Parameter::Uint { value, width } => ParameterView::Uint {
                value: *value as nat,
                width: *width as nat,
            },
            Parameter::UintArray { values, width } => ParameterView::UintArray {
                values: unsigned_values(values@),
                width: *width as nat,
            },
            Parameter::FixedUintArray {
                values,
                width,
                fixed_len,
            } => ParameterView::FixedUintArray {
                values: unsigned_values(values@),
                width: *width as nat,
                fixed_len: *fixed_len as nat,
            },
            Parameter::Address(value) => ParameterView::Address(value@),
            Parameter::AddressArray(values) => ParameterView::AddressArray(byte_seqs(values@)),
            Parameter::FixedAddressArray { values, fixed_len } => ParameterView::FixedAddressArray {
                values: byte_seqs(values@),
                fixed_len: *fixed_len as nat,
            },
            Parameter::Function { address, selector } => ParameterView::Function {
                address: address@,
                selector: selector@,
            },
        }
    }
}

/// Is `width` a number of bits that an integer type can have: a multiple of
/// 8 from 8 to 256?
pub open spec fn valid_width(width: nat) -> bool {
    8 <= width <= 256 && width % 8 == 0
}

/// Is `fixed_len` a number of bytes that a fixed-size byte string can have?
pub open spec fn valid_byte_len(fixed_len: nat) -> bool {
    0 < fixed_len <= 32
}

/// Has every element of `values` exactly `len` bytes?
pub open spec fn all_of_len(values: Seq<Seq<u8>>, len: nat) -> bool {
    forall|i: int| 0 <= i < values.len() ==> (#[trigger] values[i]).len() == len
}

/// The UTF-8 bytes of each string of `values`.
pub open spec fn utf8_all(values: Seq<Seq<char>>) -> Seq<Seq<u8>> {
    Seq::new(values.len(), |i: int| encode_utf8(values[i]))
}

/// The word of each integer of `values`.
pub open spec fn int_words(values: Seq<int>) -> Seq<Seq<u8>> {
    Seq::new(values.len(), |i: int| int_word(values[i]))
}

/// The word of each number of `values`.
pub open spec fn uint_words(values: Seq<nat>) -> Seq<Seq<u8>> {
    Seq::new(values.len(), |i: int| int_word(values[i] as int))
}

/// Each element of `values` with zero bytes after it, up to `n` bytes.
pub open spec fn right_padded(values: Seq<Seq<u8>>, n: nat) -> Seq<Seq<u8>> {
    Seq::new(values.len(), |i: int| right_pad(values[i], n))
}

/// Each element of `values` with zero bytes before it, up to a word.
pub open spec fn left_padded(values: Seq<Seq<u8>>) -> Seq<Seq<u8>> {
    Seq::new(values.len(), |i: int| left_pad(values[i]))
}

/// Static elements: each of `words` stands in the head of its array.
pub open spec fn word_slots(words: Seq<Seq<u8>>) -> Seq<SlotView> {
    Seq::new(words.len(), |i: int| SlotView { dynamic: false, bytes: words[i] })
}

/// Dynamic elements: each of `values` stands in the tail of its array, as a
/// blob.
pub open spec fn blob_slots(values: Seq<Seq<u8>>) -> Seq<SlotView> {
    Seq::new(values.len(), |i: int| SlotView { dynamic: true, bytes: blob(values[i]) })
}

/// An array whose length is part of its value: a word with the number of
/// elements, then the elements laid out as a sequence of their own.
pub open spec fn counted(elements: Seq<SlotView>) -> Seq<u8> {
    int_word(elements.len() as int) + tuple_encoding(elements)
}

impl ParameterView {
    /// The invariant of a stored parameter: its byte lengths and widths are
    /// those that its type allows. The number of elements that an array's
    /// type declares is kept as it was given and binds nothing.
    pub open spec fn wf(self) -> bool {
        match self {
            ParameterView::String(_) => true,
            ParameterView::StringArray(_) => true,
            ParameterView::FixedStringArray { .. } => true,
            ParameterView::Bytes(_) => true,
            ParameterView::FixedBytes { value, fixed_len } => valid_byte_len(fixed_len)
                && value.len() == fixed_len,
            ParameterView::ByteArray(_) => true,
            ParameterView::FixedByteArray { values, fixed_byte_len } => valid_byte_len(
                fixed_byte_len,
            ) && all_of_len(values, fixed_byte_len),
            ParameterView::ByteFixedArray { .. } => true,
            ParameterView::FixedByteFixedArray { values, fixed_byte_len, fixed_len } => {
                &&& valid_byte_len(fixed_byte_len)
                &&& all_of_len(values, fixed_byte_len)
            },
            ParameterView::Bool(_) => true,
            ParameterView::Int { value, width } => valid_width(width),
            ParameterView::IntArray { values, width } => valid_width(width),
            ParameterView::FixedIntArray { values, width, fixed_len } => valid_width(width),
            ParameterView::Uint { value, width } => valid_width(width),
            ParameterView::UintArray { values, width } => valid_width(width),
            ParameterView::FixedUintArray { values, width, fixed_len } => valid_width(width),
            ParameterView::Address(value) => value.len() == 20,
            ParameterView::AddressArray(values) => all_of_len(values, 20),
            ParameterView::FixedAddressArray { values, fixed_len } => all_of_len(values, 20),
            ParameterView::Function { address, selector } => address.len() == 20 && selector.len()
                == 4,
        }
    }

    /// Does the size of the encoding depend on the value? Strings, byte
    /// strings of any length, arrays of any length and arrays of such values
    /// are dynamic; everything else is static.
    pub open spec fn is_dynamic(self) -> bool {
        match self {
            ParameterView::String(_) => true,
            ParameterView::StringArray(_) => true,
            ParameterView::FixedStringArray { .. } => true,
            ParameterView::Bytes(_) => true,
            ParameterView::FixedBytes { .. } => false,
            ParameterView::ByteArray(_) => true,
            ParameterView::FixedByteArray { .. } => true,
            ParameterView::ByteFixedArray { .. } => true,
            ParameterView::FixedByteFixedArray { .. } => false,
            ParameterView::Bool(_) => false,
            ParameterView::Int { .. } => false,
            ParameterView::IntArray { .. } => true,
            ParameterView::FixedIntArray { .. } => false,
            ParameterView::Uint { .. } => false,
            ParameterView::UintArray { .. } => true,
            ParameterView::FixedUintArray { .. } => false,
            ParameterView::Address(_) => false,
            ParameterView::AddressArray(_) => true,
            ParameterView::FixedAddressArray { .. } => false,
            ParameterView::Function { .. } => false,
        }
    }

    /// The bytes that stand for the value: in the head for a static
    /// parameter, in the tail for a dynamic one.
    pub open spec fn encoding(self) -> Seq<u8> {
        match self {
            ParameterView::String(value) => blob(encode_utf8(value)),
            ParameterView::StringArray(values) => counted(blob_slots(utf8_all(values))),
            ParameterView::FixedStringArray { values, fixed_len } => tuple_encoding(
                blob_slots(utf8_all(values)),
            ),
            ParameterView::Bytes(value) => blob(value),
            ParameterView::FixedBytes { value, fixed_len } => right_pad(value, 32),
            ParameterView::ByteArray(values) => counted(blob_slots(values)),
            ParameterView::FixedByteArray { values, fixed_byte_len } => counted(
                word_slots(right_padded(values, 32)),
            ),
            ParameterView::ByteFixedArray { values, fixed_len } => tuple_encoding(
                blob_slots(values),
            ),
            ParameterView::FixedByteFixedArray {
                values,
                fixed_byte_len,
                fixed_len,
            } => tuple_encoding(word_slots(right_padded(values, 32))),
            ParameterView::Bool(value) => bool_word(value),
            ParameterView::Int { value, width } => int_word(value),
            ParameterView::IntArray { values, width } => counted(word_slots(int_words(values))),
            ParameterView::FixedIntArray { values, width, fixed_len } => tuple_encoding(
                word_slots(int_words(values)),
            ),
            ParameterView::Uint { value, width } => int_word(value as int),
            ParameterView::UintArray { values, width } => counted(word_slots(uint_words(values))),
            ParameterView::FixedUintArray { values, width, fixed_len } => tuple_encoding(
                word_slots(uint_words(values)),
            ),
            ParameterView::Address(value) => left_pad(value),
            ParameterView::AddressArray(values) => counted(word_slots(left_padded(values))),
            ParameterView::FixedAddressArray { values, fixed_len } => tuple_encoding(
                word_slots(left_padded(values)),
            ),
            ParameterView::Function { address, selector } => right_pad(address + selector, 32),
        }
    }

    /// The parameter as it takes its place among the others.
    pub open spec fn slot(self) -> SlotView {
        SlotView { dynamic: self.is_dynamic(), bytes: self.encoding() }
    }

    /// Number of words that the parameter takes in the head: one, but for a
    /// static array, which stands in the head with all the elements that it
    /// holds.
    pub open spec fn head_words(self) -> nat {
        match self {
            ParameterView::FixedByteFixedArray { values, .. } => values.len(),
            ParameterView::FixedIntArray { values, .. } => values.len(),
            ParameterView::FixedUintArray { values, .. } => values.len(),
            ParameterView::FixedAddressArray { values, .. } => values.len(),
            _ => 1,
        }
    }
}

/// An array of blobs takes a whole number of words.
pub proof fn lemma_blob_slots_len(values: Seq<Seq<u8>>)
    ensures
        tuple_encoding(blob_slots(values)).len() % 32 == 0,
        counted(blob_slots(values)).len() % 32 == 0,
{
    let slots = blob_slots(values);
    assert forall|i: int| 0 <= i < slots.len() implies (#[trigger] slots[i]).bytes.len() % 32
        == 0 by {
        lemma_blob_len(values[i]);
    }
    lemma_whole_words(slots);
    lemma_be_bytes_len(slots.len() as int, 32);
}

/// An array of words takes one word for each element.
pub proof fn lemma_word_slots_len(words: Seq<Seq<u8>>)
    requires
        forall|i: int| 0 <= i < words.len() ==> (#[trigger] words[i]).len() == 32,
    ensures
        tuple_encoding(word_slots(words)).len() == 32 * words.len(),
        counted(word_slots(words)).len() == 32 + 32 * words.len(),
{
    let slots = word_slots(words);
    assert forall|i: int| 0 <= i < slots.len() implies (#[trigger] slots[i]).head_size() == 32 by {
        assert(words[i].len() == 32);
    }
    lemma_head_len_of_single_words(slots);
    lemma_tuple_encoding_of_statics(slots, head_len(slots));
    lemma_tuple_encoding_len(slots);
    lemma_be_bytes_len(slots.len() as int, 32);
}

/// The size of a well-formed parameter: a whole number of words; for a
/// static parameter as many as `head_words` says; and in the head, for any
/// parameter, as many as `head_words` says.
pub proof fn lemma_encoding_len(parameter: ParameterView)
    requires
        parameter.wf(),
    ensures
        parameter.encoding().len() % 32 == 0,
        !parameter.is_dynamic() ==> parameter.encoding().len() == 32 * parameter.head_words(),
        parameter.slot().head_size() == 32 * parameter.head_words(),
{
    match parameter {
        ParameterView::String(value) => {
            lemma_blob_len(encode_utf8(value));
        },
        ParameterView::StringArray(values) => {
            lemma_blob_slots_len(utf8_all(values));
        },
        ParameterView::FixedStringArray { values, fixed_len } => {
            lemma_blob_slots_len(utf8_all(values));
        },
        ParameterView::Bytes(value) => {
            lemma_blob_len(value);
        },
        ParameterView::FixedBytes { value, fixed_len } => {
            lemma_right_pad(value, 32);
        },
        ParameterView::ByteArray(values) => {
            lemma_blob_slots_len(values);
        },
        ParameterView::FixedByteArray { values, fixed_byte_len } => {
            lemma_right_padded_words(values, fixed_byte_len);
            lemma_word_slots_len(right_padded(values, 32));
        },
        ParameterView::ByteFixedArray { values, fixed_len } => {
            lemma_blob_slots_len(values);
        },
        ParameterView::FixedByteFixedArray { values, fixed_byte_len, fixed_len } => {
            lemma_right_padded_words(values, fixed_byte_len);
            lemma_word_slots_len(right_padded(values, 32));
        },
        ParameterView::Bool(value) => {
            lemma_be_bytes_len(if value { 1 } else { 0 }, 32);
        },
        ParameterView::Int { value, width } => {
            lemma_be_bytes_len(value, 32);
        },
        ParameterView::IntArray { values, width } => {
            lemma_int_words(values);
            lemma_word_slots_len(int_words(values));
        },
        ParameterView::FixedIntArray { values, width, fixed_len } => {
            lemma_int_words(values);
            lemma_word_slots_len(int_words(values));
        },
        ParameterView::Uint { value, width } => {
            lemma_be_bytes_len(value as int, 32);
        },
        ParameterView::UintArray { values, width } => {
            lemma_uint_words(values);
            lemma_word_slots_len(uint_words(values));
        },
        ParameterView::FixedUintArray { values, width, fixed_len } => {
            lemma_uint_words(values);
            lemma_word_slots_len(uint_words(values));
        },
        ParameterView::Address(value) => {
            lemma_left_pad(value);
        },
        ParameterView::AddressArray(values) => {
            lemma_left_padded_words(values);
            lemma_word_slots_len(left_padded(values));
        },
        ParameterView::FixedAddressArray { values, fixed_len } => {
            lemma_left_padded_words(values);
            lemma_word_slots_len(left_padded(values));
        },
        ParameterView::Function { address, selector } => {
            lemma_right_pad(address + selector, 32);
        },
    }
}

proof fn lemma_right_padded_words(values: Seq<Seq<u8>>, fixed_byte_len: nat)
    requires
        valid_byte_len(fixed_byte_len),
        all_of_len(values, fixed_byte_len),
    ensures
        forall|i: int|
            0 <= i < values.len() ==> (#[trigger] right_padded(values, 32)[i]).len() == 32,
{
    assert forall|i: int| 0 <= i < values.len() implies (#[trigger] right_padded(
        values,
        32,
    )[i]).len() == 32 by {
        assert(values[i].len() == fixed_byte_len);
        lemma_right_pad(values[i], 32);
    }
}

proof fn lemma_left_padded_words(values: Seq<Seq<u8>>)
    requires
        all_of_len(values, 20),
    ensures
        forall|i: int| 0 <= i < values.len() ==> (#[trigger] left_padded(values)[i]).len() == 32,
{
    assert forall|i: int| 0 <= i < values.len() implies (#[trigger] left_padded(values)[i]).len()
        == 32 by {
        assert(values[i].len() == 20);
        lemma_left_pad(values[i]);
    }
}

proof fn lemma_int_words(values: Seq<int>)
    ensures
        forall|i: int| 0 <= i < values.len() ==> (#[trigger] int_words(values)[i]).len() == 32,
{
    assert forall|i: int| 0 <= i < values.len() implies (#[trigger] int_words(values)[i]).len()
        == 32 by {
        lemma_be_bytes_len(values[i], 32);
    }
}

proof fn lemma_uint_words(values: Seq<nat>)
    ensures
        forall|i: int| 0 <= i < values.len() ==> (#[trigger] uint_words(values)[i]).len() == 32,
{
    assert forall|i: int| 0 <= i < values.len() implies (#[trigger] uint_words(values)[i]).len()
        == 32 by {
        lemma_be_bytes_len(values[i] as int, 32);
    }
}

} // verus!
