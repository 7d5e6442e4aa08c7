use crate::assembler::{encode_parameters, parameter_slots, parameter_views};
use crate::error::CallParamsError;
use crate::hex::{decode_hex, parse_address, parse_selector, ADDRESS_SIZE, SELECTOR_SIZE};
use crate::layout::{head, head_len, tail};
use crate::parameter::{
    all_of_len, byte_seqs, char_seqs, right_padded, signed_values, unsigned_values,
    valid_byte_len, Parameter, ParameterView,
};
use crate::validate::{
    address_texts_error, addresses_error, check_addresses, check_width, decoded_addresses,
    element_findings, fixed_bytes_error, fixed_elements_error, lemma_first_error_at,
    lemma_first_error_none, parse_addresses, width_error,
};
use crate::word::{push_bytes, push_zeros, right_pad};
use vstd::prelude::*;
use vstd::utf8::encode_utf8;

verus! {

/// The arguments of one call, collected in order and then assembled into
/// the bytes that are sent with the call.
///
/// Every value is checked and brought into its stored form when it is added.
/// What was added is never changed, and assembling reads it without
/// consuming it.
#[derive(Debug)]
pub struct PyCallParams {
    function_name: Option<String>,
    selector: Option<Vec<u8>>,
    address: Option<Vec<u8>>,
    parameters: Vec<Parameter>,
}

/// The mathematical content of a [`PyCallParams`].
pub struct CallParamsView {
    /// Name of the function that is called, if one was given.
    pub function_name: Option<Seq<char>>,
    /// Selector of the function that is called, if one was given.
    pub selector: Option<Seq<u8>>,
    /// Address of the contract that is called, if one was given.
    pub address: Option<Seq<u8>>,
    /// The parameters, in the order in which they were added.
    pub parameters: Seq<ParameterView>,
}

/// The bytes of `part`, or none where it is absent.
pub open spec fn bytes_or_none(part: Option<Seq<u8>>) -> Seq<u8> {
    match part {
        Some(bytes) => bytes,
        None => Seq::empty(),
    }
}

/// What adding a parameter comes to: where nothing was found wrong with the
/// value, success and `parameter` added after the others; otherwise the
/// finding as the error, and the call as it was.
pub open spec fn added(
    before: CallParamsView,
    after: CallParamsView,
    r: Result<(), CallParamsError>,
    finding: Option<CallParamsError>,
    parameter: ParameterView,
) -> bool {
    match finding {
        None => r is Ok && after == before.appended(parameter),
        Some(e) => r == Err::<(), CallParamsError>(e) && after == before,
    }
}

impl CallParamsView {
    /// The invariant of the collected parameters: the selector has 4 bytes,
    /// the address 20, and every parameter is well formed.
    pub open spec fn wf(self) -> bool {
        &&& self.selector matches Some(selector) ==> selector.len() == 4
        &&& self.address matches Some(address) ==> address.len() == 20
        &&& forall|i: int| 0 <= i < self.parameters.len() ==> (#[trigger] self.parameters[i]).wf()
    }

    /// The same call with `parameter` added after the others.
    pub open spec fn appended(self, parameter: ParameterView) -> CallParamsView {
        CallParamsView { parameters: self.parameters.push(parameter), ..self }
    }

    /// What precedes the encoded parameters: the selector and the address,
    /// as far as they were given, as they are.
    pub open spec fn prefix(self) -> Seq<u8> {
        bytes_or_none(self.selector) + bytes_or_none(self.address)
    }

    /// The head section: for each parameter its value or the offset of its
    /// value, counted from the start of the head.
    pub open spec fn head_section(self) -> Seq<u8> {
        head(parameter_slots(self.parameters), head_len(parameter_slots(self.parameters)))
    }

    /// The tail section: the values of the dynamic parameters.
    pub open spec fn tail_section(self) -> Seq<u8> {
        tail(parameter_slots(self.parameters))
    }

    /// The assembled call: prefix, head section, tail section.
    pub open spec fn assembled(self) -> Seq<u8> {
        self.prefix() + self.head_section() + self.tail_section()
    }
}

impl View for PyCallParams {
    type V = CallParamsView;

    closed spec fn view(&self) -> CallParamsView {
        CallParamsView {
            function_name: match self.function_name {
                Some(name) => Some(name@),
                None => None,
            },
            selector: match self.selector {
                Some(selector) => Some(selector@),
                None => None,
            },
            address: match self.address {
                Some(address) => Some(address@),
                None => None,
            },
            parameters: parameter_views(self.parameters@),
        }
    }
}

impl PyCallParams {
    /// Starts a call without parameters, for the function of the given name
    /// if there is one.
    pub fn new(func: Option<String>) -> (params: PyCallParams)
        ensures
            params@ == (CallParamsView {
                function_name: match func {
                    Some(name) => Some(name@),
                    None => None,
                },
                selector: None,
                address: None,
                parameters: Seq::empty(),
            }),
            params@.wf(),
    {
        let params = PyCallParams {
            function_name: func,
            selector: None,
            address: None,
            parameters: Vec::new(),
        };
        assert(params@.parameters =~= Seq::empty());
        params
    }

    fn push(&mut self, parameter: Parameter)
        requires
            parameter@.wf(),
        ensures
            final(self)@ == old(self)@.appended(parameter@),
            old(self)@.wf() ==> final(self)@.wf(),
    {
        self.parameters.push(parameter);
        assert(self@.parameters =~= old(self)@.parameters.push(parameter@));
    }

    /// Brings a value to the length `fixed_len` by adding zero bytes after
    /// it. A value that is longer, or a length outside `1..=32`, is refused.
    pub fn prep_fixed_bytes(&self, param: Vec<u8>, fixed_len: usize) -> (r: Result<
        Vec<u8>,
        CallParamsError,
    >)
        ensures
            match fixed_bytes_error(param@.len(), fixed_len as nat) {
                None => r matches Ok(padded) && padded@ == right_pad(param@, fixed_len as nat)
                    && padded@.len() == fixed_len,
                Some(e) => r matches Err(found) && found == e,
            },
    {
        let mut param = param;
        if fixed_len < param.len() {
            Err(CallParamsError::ValueExceedsFixedLength)
        } else if fixed_len > 32 || fixed_len == 0 {
            Err(CallParamsError::InvalidFixedLength)
        } else {
            if param.len() < fixed_len {
                let missing: usize = fixed_len - param.len();
                push_zeros(&mut param, missing);
            }
            Ok(param)
        }
    }

    /// Brings each of `values` to the length `fixed_byte_len`, as
    /// `prep_fixed_bytes` does. The first element that is refused decides
    /// the error; without elements, the length alone is checked.
    fn prep_fixed_elements(&self, values: Vec<Vec<u8>>, fixed_byte_len: usize) -> (r: Result<
        Vec<Vec<u8>>,
        CallParamsError,
    >)
        ensures
            match fixed_elements_error(byte_seqs(values@), fixed_byte_len as nat) {
                None => r matches Ok(padded) && byte_seqs(padded@) == right_padded(
                    byte_seqs(values@),
                    fixed_byte_len as nat,
                ) && all_of_len(byte_seqs(padded@), fixed_byte_len as nat) && valid_byte_len(
                    fixed_byte_len as nat,
                ),
                Some(e) => r matches Err(found) && found == e,
            },
    {
        let ghost findings = element_findings(byte_seqs(values@), fixed_byte_len as nat);
        let mut padded: Vec<Vec<u8>> = Vec::new();
        let mut i: usize = 0;
        while i < values.len()
            invariant
                i <= values@.len(),
                padded@.len() == i,
                findings == element_findings(byte_seqs(values@), fixed_byte_len as nat),
                forall|k: int| 0 <= k < i ==> findings[k] is None,
                forall|k: int|
                    0 <= k < i ==> (#[trigger] padded@[k])@ == right_pad(
                        values@[k]@,
                        fixed_byte_len as nat,
                    ) && padded@[k]@.len() == fixed_byte_len,
            decreases values@.len() - i,
        {
            let mut element: Vec<u8> = Vec::new();
            push_bytes(&mut element, values[i].as_slice());
            assert(element@ =~= values@[i as int]@);
            match self.prep_fixed_bytes(element, fixed_byte_len) {
                Ok(value) => {
                    padded.push(value);
                },
                Err(e) => {
                    proof {
                        assert(findings[i as int] == Some(e));
                        lemma_first_error_at(findings, i as int);
                    }
                    return Err(e);
                },
            }
            i += 1;
        }
        proof {
            lemma_first_error_none(findings);
        }
        if fixed_byte_len > 32 || fixed_byte_len == 0 {
            Err(CallParamsError::InvalidFixedLength)
        } else {
            assert(byte_seqs(padded@) =~= right_padded(
                byte_seqs(values@),
                fixed_byte_len as nat,
            ));
            Ok(padded)
        }
    }

    /// Adds a `string`.
    pub fn add_string(&mut self, param: String) -> (r: Result<(), CallParamsError>)
        ensures
            added(old(self)@, final(self)@, r, None, ParameterView::String(param@)),
            old(self)@.wf() ==> final(self)@.wf(),
    {
        self.push(Parameter::String(param));
        Ok(())
    }

    /// Adds an array of strings, of any length.
    pub fn add_string_array(&mut self, param: Vec<String>) -> (r: Result<(), CallParamsError>)
        ensures
            added(
                old(self)@,
                final(self)@,
                r,
                None,
                ParameterView::StringArray(char_seqs(param@)),
            ),
            old(self)@.wf() ==> final(self)@.wf(),
    {
        self.push(Parameter::StringArray(param));
        Ok(())
    }

    /// Adds an array of strings whose type declares `fixed_len` elements.
    /// The strings and the declared length are kept as they are given.
    pub fn add_fixed_string_array(&mut self, param: Vec<String>, fixed_len: usize) -> (r: Result<
        (),
        CallParamsError,
    >)
        ensures
            added(
                old(self)@,
                final(self)@,
                r,
                None,
                ParameterView::FixedStringArray {
                    values: char_seqs(param@),
                    fixed_len: fixed_len as nat,
                },
            ),
            old(self)@.wf() ==> final(self)@.wf(),
    {
        self.push(Parameter::FixedStringArray { values: param, fixed_len });
        Ok(())
    }

    /// Adds a `bytes` value of any length.
    pub fn add_bytes(&mut self, param: Vec<u8>) -> (r: Result<(), CallParamsError>)
        ensures
            added(old(self)@, final(self)@, r, None, ParameterView::Bytes(param@)),
            old(self)@.wf() ==> final(self)@.wf(),
    {
        self.push(Parameter::Bytes(param));
        Ok(())
    }

    /// Adds a byte string of the fixed length `fixed_len`, filled up with
    /// zero bytes after the value. Nothing is added where the value is
    /// longer than `fixed_len` or `fixed_len` is outside `1..=32`.
    pub fn add_fixed_bytes(&mut self, param: Vec<u8>, fixed_len: usize) -> (r: Result<
        (),
        CallParamsError,
    >)
        ensures
            added(
                old(self)@,
                final(self)@,
                r,
                fixed_bytes_error(param@.len(), fixed_len as nat),
                ParameterView::FixedBytes {
                    value: right_pad(param@, fixed_len as nat),
                    fixed_len: fixed_len as nat,
                },
            ),
            old(self)@.wf() ==> final(self)@.wf(),
    {
        match self.prep_fixed_bytes(param, fixed_len) {
            Ok(value) => {
                self.push(Parameter::FixedBytes { value, fixed_len });
                Ok(())
            },
            Err(e) => Err(e),
        }
    }

    /// Adds an array of byte strings, of any length each and of any number.
    pub fn add_byte_array(&mut self, param: Vec<Vec<u8>>) -> (r: Result<(), CallParamsError>)
        ensures
            added(
                old(self)@,
                final(self)@,
                r,
                None,
                ParameterView::ByteArray(byte_seqs(param@)),
            ),
            old(self)@.wf() ==> final(self)@.wf(),
    {
        self.push(Parameter::ByteArray(param));
        Ok(())
    }

    /// Adds an array, of any length, of byte strings of the fixed length
    /// `fixed_byte_len`, each filled up with zero bytes after its value.
    pub fn add_fixed_byte_array(&mut self, param: Vec<Vec<u8>>, fixed_byte_len: usize) -> (r:
        Result<(), CallParamsError>)
        ensures
            added(
                old(self)@,
                final(self)@,
                r,
                fixed_elements_error(byte_seqs(param@), fixed_byte_len as nat),
                ParameterView::FixedByteArray {
                    values: right_padded(byte_seqs(param@), fixed_byte_len as nat),
                    fixed_byte_len: fixed_byte_len as nat,
                },
            ),
            old(self)@.wf() ==> final(self)@.wf(),
    {
        match self.prep_fixed_elements(param, fixed_byte_len) {
            Ok(values) => {
                self.push(Parameter::FixedByteArray { values, fixed_byte_len });
                Ok(())
            },
            Err(e) => Err(e),
        }
    }

    /// Adds an array of byte strings of any length whose type declares
    /// `fixed_len` elements. The byte strings and the declared length are
    /// kept as they are given.
    pub fn add_byte_fixed_array(&mut self, param: Vec<Vec<u8>>, fixed_len: usize) -> (r: Result<
        (),
        CallParamsError,
    >)
        ensures
            added(
                old(self)@,
                final(self)@,
                r,
                None,
                ParameterView::ByteFixedArray {
                    values: byte_seqs(param@),
                    fixed_len: fixed_len as nat,
                },
            ),
            old(self)@.wf() ==> final(self)@.wf(),
    {
        self.push(Parameter::ByteFixedArray { values: param, fixed_len });
        Ok(())
    }

    /// Adds an array, whose type declares `fixed_len` elements, of byte
    /// strings of the fixed length `fixed_byte_len`, each filled up with
    /// zero bytes after its value. The declared length is kept as it is
    /// given.
    pub fn add_fixed_byte_fixed_array(
        &mut self,
        param: Vec<Vec<u8>>,
        fixed_byte_len: usize,
        fixed_len: usize,
    ) -> (r: Result<(), CallParamsError>)
        ensures
            added(
                old(self)@,
                final(self)@,
                r,
                fixed_elements_error(byte_seqs(param@), fixed_byte_len as nat),
                ParameterView::FixedByteFixedArray {
                    values: right_padded(byte_seqs(param@), fixed_byte_len as nat),
                    fixed_byte_len: fixed_byte_len as nat,
                    fixed_len: fixed_len as nat,
                },
            ),
            old(self)@.wf() ==> final(self)@.wf(),
    {
        match self.prep_fixed_elements(param, fixed_byte_len) {
            Ok(values) => {
                self.push(Parameter::FixedByteFixedArray { values, fixed_byte_len, fixed_len });
                Ok(())
            },
            Err(e) => Err(e),
        }
    }

    /// Adds a `bool`.
    pub fn add_bool(&mut self, param: bool) -> (r: Result<(), CallParamsError>)
        ensures
            added(old(self)@, final(self)@, r, None, ParameterView::Bool(param)),
            old(self)@.wf() ==> final(self)@.wf(),
    {
        self.push(Parameter::Bool(param));
        Ok(())
    }

    /// Adds a signed integer of `width` bits.
    pub fn add_int(&mut self, param: isize, width: usize) -> (r: Result<(), CallParamsError>)
        ensures
            added(
                old(self)@,
                final(self)@,
                r,
                width_error(width as nat),
                ParameterView::Int { value: param as int, width: width as nat },
            ),
            old(self)@.wf() ==> final(self)@.wf(),
    {
        match check_width(width) {
            Ok(()) => {
                self.push(Parameter::Int { value: param, width });
                Ok(())
            },
            Err(e) => Err(e),
        }
    }

    /// Adds an array, of any length, of signed integers of `width` bits.
    pub fn add_int_array(&mut self, param: Vec<isize>, width: usize) -> (r: Result<
        (),
        CallParamsError,
    >)
        ensures
            added(
                old(self)@,
                final(self)@,
                r,
                width_error(width as nat),
                ParameterView::IntArray { values: signed_values(param@), width: width as nat },
            ),
            old(self)@.wf() ==> final(self)@.wf(),
    {
        match check_width(width) {
            Ok(()) => {
                self.push(Parameter::IntArray { values: param, width });
                Ok(())
            },
            Err(e) => Err(e),
        }
    }

    /// Adds an array of signed integers of `width` bits whose type declares
    /// `fixed_len` elements. The values and the declared length are kept as
    /// they are given.
    pub fn add_fixed_int_array(&mut self, param: Vec<isize>, width: usize, fixed_len: usize) -> (r:
        Result<(), CallParamsError>)
        ensures
            added(
                old(self)@,
                final(self)@,
                r,
                width_error(width as nat),
                ParameterView::FixedIntArray {
                    values: signed_values(param@),
                    width: width as nat,
                    fixed_len: fixed_len as nat,
                },
            ),
            old(self)@.wf() ==> final(self)@.wf(),
    {
        match check_width(width) {
            Ok(()) => {
                self.push(Parameter::FixedIntArray { values: param, width, fixed_len });
                Ok(())
            },
            Err(e) => Err(e),
        }
    }

    /// Adds an unsigned integer of `width` bits.
    pub fn add_uint(&mut self, param: usize, width: usize) -> (r: Result<(), CallParamsError>)
        ensures
            added(
                old(self)@,
                final(self)@,
                r,
                width_error(width as nat),
                ParameterView::Uint { value: param as nat, width: width as nat },
            ),
            old(self)@.wf() ==> final(self)@.wf(),
    {
        match check_width(width) {
            Ok(()) => {
                self.push(Parameter::Uint { value: param, width });
                Ok(())
            },
            Err(e) => Err(e),
        }
    }

    /// Adds an array, of any length, of unsigned integers of `width` bits.
    pub fn add_uint_array(&mut self, param: Vec<usize>, width: usize) -> (r: Result<
        (),
        CallParamsError,
    >)
        ensures
            added(
                old(self)@,
                final(self)@,
                r,
                width_error(width as nat),
                ParameterView::UintArray { values: unsigned_values(param@), width: width as nat },
            ),
            old(self)@.wf() ==> final(self)@.wf(),
    {
        match check_width(width) {
            Ok(()) => {
                self.push(Parameter::UintArray { values: param, width });
                Ok(())
            },
            Err(e) => Err(e),
        }
    }

    /// Adds an array of unsigned integers of `width` bits whose type
    /// declares `fixed_len` elements. The values and the declared length are
    /// kept as they are given.
    pub fn add_fixed_uint_array(&mut self, param: Vec<usize>, width: usize, fixed_len: usize) -> (r:
        Result<(), CallParamsError>)
        ensures
            added(
                old(self)@,
                final(self)@,
                r,
                width_error(width as nat),
                ParameterView::FixedUintArray {
                    values: unsigned_values(param@),
                    width: width as nat,
                    fixed_len: fixed_len as nat,
                },
            ),
            old(self)@.wf() ==> final(self)@.wf(),
    {
        match check_width(width) {
            Ok(()) => {
                self.push(Parameter::FixedUintArray { values: param, width, fixed_len });
                Ok(())
            },
            Err(e) => Err(e),
        }
    }

    /// Adds an address given as its 20 bytes.
    pub fn add_address(&mut self, param: Vec<u8>) -> (r: Result<(), CallParamsError>)
        ensures
            added(
                old(self)@,
                final(self)@,
                r,
                if param@.len() == 20 {
                    None
                } else {
                    Some(CallParamsError::InvalidAddressFormat)
                },
                ParameterView::Address(param@),
            ),
            old(self)@.wf() ==> final(self)@.wf(),
    {
        if param.len() == ADDRESS_SIZE {
            self.push(Parameter::Address(param));
            Ok(())
        } else {
            Err(CallParamsError::InvalidAddressFormat)
        }
    }

    /// Adds an address written as 40 hexadecimal digits, with or without a
    /// leading `0x`.
    pub fn add_address_string(&mut self, param: String) -> (r: Result<(), CallParamsError>)
        ensures
            match decode_hex(encode_utf8(param@), 20) {
                Some(address) => added(
                    old(self)@,
                    final(self)@,
                    r,
                    None,
                    ParameterView::Address(address),
                ),
                None => r == Err::<(), CallParamsError>(CallParamsError::InvalidAddressFormat)
                    && final(self)@ == old(self)@,
            },
            old(self)@.wf() ==> final(self)@.wf(),
    {
        match parse_address(param.as_str()) {
            Ok(address) => {
                self.push(Parameter::Address(address));
                Ok(())
            },
            Err(e) => Err(e),
        }
    }

    /// Adds an array, of any length, of addresses given as their 20 bytes.
    pub fn add_address_array(&mut self, param: Vec<Vec<u8>>) -> (r: Result<(), CallParamsError>)
        ensures
            added(
                old(self)@,
                final(self)@,
                r,
                addresses_error(byte_seqs(param@)),
                ParameterView::AddressArray(byte_seqs(param@)),
            ),
            old(self)@.wf() ==> final(self)@.wf(),
    {
        match check_addresses(&param) {
            Ok(()) => {
                self.push(Parameter::AddressArray(param));
                Ok(())
            },
            Err(e) => Err(e),
        }
    }

    /// Adds an array of addresses, given as their 20 bytes, whose type
    /// declares `fixed_len` elements. The addresses and the declared length
    /// are kept as they are given.
    pub fn add_fixed_address_array(&mut self, param: Vec<Vec<u8>>, fixed_len: usize) -> (r: Result<
        (),
        CallParamsError,
    >)
        ensures
            added(
                old(self)@,
                final(self)@,
                r,
                addresses_error(byte_seqs(param@)),
                ParameterView::FixedAddressArray {
                    values: byte_seqs(param@),
                    fixed_len: fixed_len as nat,
                },
            ),
            old(self)@.wf() ==> final(self)@.wf(),
    {
        match check_addresses(&param) {
            Ok(()) => {
                self.push(Parameter::FixedAddressArray { values: param, fixed_len });
                Ok(())
            },
            Err(e) => Err(e),
        }
    }

    /// Adds an array, of any length, of addresses written in hexadecimal.
    pub fn add_address_string_array(&mut self, param: Vec<String>) -> (r: Result<
        (),
        CallParamsError,
    >)
        ensures
            added(
                old(self)@,
                final(self)@,
                r,
                address_texts_error(char_seqs(param@)),
                ParameterView::AddressArray(decoded_addresses(char_seqs(param@))),
            ),
            old(self)@.wf() ==> final(self)@.wf(),
    {
        match parse_addresses(&param) {
            Ok(values) => {
                self.push(Parameter::AddressArray(values));
                Ok(())
            },
            Err(e) => Err(e),
        }
    }

    /// Adds an array of addresses, written in hexadecimal, whose type
    /// declares `fixed_len` elements. The declared length is kept as it is
    /// given.
    pub fn add_fixed_address_string_array(&mut self, param: Vec<String>, fixed_len: usize) -> (r:
        Result<(), CallParamsError>)
        ensures
            added(
                old(self)@,
                final(self)@,
                r,
                address_texts_error(char_seqs(param@)),
                ParameterView::FixedAddressArray {
                    values: decoded_addresses(char_seqs(param@)),
                    fixed_len: fixed_len as nat,
                },
            ),
            old(self)@.wf() ==> final(self)@.wf(),
    {
        match parse_addresses(&param) {
            Ok(values) => {
                self.push(Parameter::FixedAddressArray { values, fixed_len });
                Ok(())
            },
            Err(e) => Err(e),
        }
    }

    /// Adds a reference to a function: the 20 bytes of the contract's
    /// address and the 4 bytes of the function's selector. The address is
    /// checked before the selector.
    pub fn add_function(&mut self, addr: Vec<u8>, selector: Vec<u8>) -> (r: Result<
        (),
        CallParamsError,
    >)
        ensures
            added(
                old(self)@,
                final(self)@,
                r,
                if addr@.len() != 20 {
                    Some(CallParamsError::InvalidAddressFormat)
                } else if selector@.len() != 4 {
                    Some(CallParamsError::InvalidSelectorFormat)
                } else {
                    None
                },
                ParameterView::Function { address: addr@, selector: selector@ },
            ),
            old(self)@.wf() ==> final(self)@.wf(),
    {
        if addr.len() != ADDRESS_SIZE {
            Err(CallParamsError::InvalidAddressFormat)
        } else if selector.len() != SELECTOR_SIZE {
            Err(CallParamsError::InvalidSelectorFormat)
        } else {
            self.push(Parameter::Function { address: addr, selector });
            Ok(())
        }
    }

    /// Adds a reference to a function, its address written as 40 and its
    /// selector as 8 hexadecimal digits, each with or without a leading
    /// `0x`. The address is checked before the selector.
    pub fn add_function_string(&mut self, addr: String, selector: String) -> (r: Result<
        (),
        CallParamsError,
    >)
        ensures
            match (decode_hex(encode_utf8(addr@), 20), decode_hex(encode_utf8(selector@), 4)) {
                (Some(address), Some(selector)) => added(
                    old(self)@,
                    final(self)@,
                    r,
                    None,
                    ParameterView::Function { address, selector },
                ),
                (Some(_), None) => r == Err::<(), CallParamsError>(
                    CallParamsError::InvalidSelectorFormat,
                ) && final(self)@ == old(self)@,
                (None, _) => r == Err::<(), CallParamsError>(
                    CallParamsError::InvalidAddressFormat,
                ) && final(self)@ == old(self)@,
            },
            old(self)@.wf() ==> final(self)@.wf(),
    {
        match parse_address(addr.as_str()) {
            Ok(address) => match parse_selector(selector.as_str()) {
                Ok(selector) => {
                    self.push(Parameter::Function { address, selector });
                    Ok(())
                },
                Err(e) => Err(e),
            },
            Err(e) => Err(e),
        }
    }

    /// Sets the selector of the function that is called: 4 bytes, which
    /// will precede the encoded parameters. Other lengths are refused and
    /// change nothing.
    pub fn set_selector(&mut self, selector: Vec<u8>) -> (r: Result<(), CallParamsError>)
        ensures
            if selector@.len() == 4 {
                r is Ok && final(self)@ == (CallParamsView {
                    selector: Some(selector@),
                    ..old(self)@
                })
            } else {
                r == Err::<(), CallParamsError>(CallParamsError::InvalidSelectorFormat)
                    && final(self)@ == old(self)@
            },
            old(self)@.wf() ==> final(self)@.wf(),
    {
        if selector.len() == SELECTOR_SIZE {
            self.selector = Some(selector);
            Ok(())
        } else {
            Err(CallParamsError::InvalidSelectorFormat)
        }
    }

    /// Sets the selector of the function that is called from 8 hexadecimal
    /// digits, with or without a leading `0x`. Other text is refused and
    /// changes nothing.
    pub fn set_selector_string(&mut self, selector: String) -> (r: Result<(), CallParamsError>)
        ensures
            match decode_hex(encode_utf8(selector@), 4) {
                Some(bytes) => r is Ok && final(self)@ == (CallParamsView {
                    selector: Some(bytes),
                    ..old(self)@
                }),
                None => r == Err::<(), CallParamsError>(CallParamsError::InvalidSelectorFormat)
                    && final(self)@ == old(self)@,
            },
            old(self)@.wf() ==> final(self)@.wf(),
    {
        match parse_selector(selector.as_str()) {
            Ok(bytes) => {
                self.selector = Some(bytes);
                Ok(())
            },
            Err(e) => Err(e),
        }
    }

    /// Sets the address of the contract that is called: 20 bytes, which
    /// will precede the encoded parameters, after the selector. Other
    /// lengths are refused and change nothing.
    pub fn set_address(&mut self, address: Vec<u8>) -> (r: Result<(), CallParamsError>)
        ensures
            if address@.len() == 20 {
                r is Ok && final(self)@ == (CallParamsView {
                    address: Some(address@),
                    ..old(self)@
                })
            } else {
                r == Err::<(), CallParamsError>(CallParamsError::InvalidAddressFormat)
                    && final(self)@ == old(self)@
            },
            old(self)@.wf() ==> final(self)@.wf(),
    {
        if address.len() == ADDRESS_SIZE {
            self.address = Some(address);
            Ok(())
        } else {
            Err(CallParamsError::InvalidAddressFormat)
        }
    }

    /// Sets the address of the contract that is called from 40 hexadecimal
    /// digits, with or without a leading `0x`. Other text is refused and
    /// changes nothing.
    pub fn set_address_string(&mut self, address: String) -> (r: Result<(), CallParamsError>)
        ensures
            match decode_hex(encode_utf8(address@), 20) {
                Some(bytes) => r is Ok && final(self)@ == (CallParamsView {
                    address: Some(bytes),
                    ..old(self)@
                }),
                None => r == Err::<(), CallParamsError>(CallParamsError::InvalidAddressFormat)
                    && final(self)@ == old(self)@,
            },
            old(self)@.wf() ==> final(self)@.wf(),
    {
        match parse_address(address.as_str()) {
            Ok(bytes) => {
                self.address = Some(bytes);
                Ok(())
            },
            Err(e) => Err(e),
        }
    }

    /// The name of the function that is called, if one was given.
    pub fn function_name(&self) -> (name: &Option<String>)
        ensures
            match name {
                Some(text) => self@.function_name == Some(text@),
                None => self@.function_name is None,
            },
    {
        &self.function_name
    }

    /// The selector of the function that is called, if one was given.
    pub fn selector(&self) -> (selector: &Option<Vec<u8>>)
        ensures
            match selector {
                Some(bytes) => self@.selector == Some(bytes@),
                None => self@.selector is None,
            },
    {
        &self.selector
    }

    /// The address of the contract that is called, if one was given.
    pub fn address(&self) -> (address: &Option<Vec<u8>>)
        ensures
            match address {
                Some(bytes) => self@.address == Some(bytes@),
                None => self@.address is None,
            },
    {
        &self.address
    }

    /// The parameters in the order in which they were added, each in its
    /// stored form.
    pub fn parameters(&self) -> (parameters: &Vec<Parameter>)
        ensures
            parameter_views(parameters@) == self@.parameters,
    {
        &self.parameters
    }

    /// Number of parameters added so far.
    pub fn len(&self) -> (n: usize)
        ensures
            n == self@.parameters.len(),
    {
        self.parameters.len()
    }

    /// Tells whether no parameter was added yet.
    pub fn is_empty(&self) -> (empty: bool)
        ensures
            empty == (self@.parameters.len() == 0),
    {
        self.parameters.len() == 0
    }

    /// Assembles the call: the selector and the address as far as they were
    /// given, then the head section, then the tail section. The parameters
    /// are left as they are, so the same bytes come out each time.
    pub fn assemble(&self) -> (out: Vec<u8>)
        ensures
            out@ == self@.assembled(),
    {
        let mut out: Vec<u8> = Vec::new();
        match &self.selector {
            Some(selector) => {
                push_bytes(&mut out, selector.as_slice());
            },
            None => {},
        }
        match &self.address {
            Some(address) => {
                push_bytes(&mut out, address.as_slice());
            },
            None => {},
        }
        let encoded: Vec<u8> = encode_parameters(&self.parameters);
        push_bytes(&mut out, encoded.as_slice());
        assert(out@ =~= self@.assembled());
        out
    }
}

} // verus!
