use call_params::validate::{check_addresses, check_width, parse_addresses};
use call_params::{CallParamsError, Parameter, PyCallParams};

#[test]
fn new_call_is_empty() {
    let params = PyCallParams::new(None);
    assert!(params.is_empty());
    assert_eq!(params.len(), 0);
    assert_eq!(params.function_name(), &None);
    assert_eq!(params.selector(), &None);
    assert_eq!(params.address(), &None);
    assert!(params.parameters().is_empty());
}

#[test]
fn new_call_keeps_the_name() {
    let params = PyCallParams::new(Some("transfer".to_string()));
    assert_eq!(params.function_name(), &Some("transfer".to_string()));
    assert!(params.is_empty());
}

#[test]
fn padding_fills_with_zero_bytes() {
    let params = PyCallParams::new(None);
    assert_eq!(params.prep_fixed_bytes(vec![0xAA, 0xBB], 4), Ok(vec![0xAA, 0xBB, 0, 0]));
    assert_eq!(params.prep_fixed_bytes(vec![], 1), Ok(vec![0]));
    assert_eq!(params.prep_fixed_bytes(vec![], 32), Ok(vec![0; 32]));
    let mut expected = vec![1u8, 2, 3];
    expected.extend_from_slice(&[0u8; 29]);
    assert_eq!(params.prep_fixed_bytes(vec![1, 2, 3], 32), Ok(expected));
}

#[test]
fn padding_keeps_a_value_of_full_length() {
    let params = PyCallParams::new(None);
    assert_eq!(params.prep_fixed_bytes(vec![1, 2, 3], 3), Ok(vec![1, 2, 3]));
    assert_eq!(params.prep_fixed_bytes(vec![5; 32], 32), Ok(vec![5; 32]));
}

#[test]
fn padding_for_every_length() {
    let params = PyCallParams::new(None);
    for fixed_len in 1..=32usize {
        for len in 0..=fixed_len {
            let value: Vec<u8> = (0..len).map(|i| (i + 1) as u8).collect();
            let padded = params.prep_fixed_bytes(value.clone(), fixed_len).unwrap();
            assert_eq!(padded.len(), fixed_len);
            assert_eq!(&padded[..len], &value[..]);
            assert!(padded[len..].iter().all(|b| *b == 0));
        }
    }
}

#[test]
fn padding_refuses_a_longer_value() {
    let params = PyCallParams::new(None);
    assert_eq!(
        params.prep_fixed_bytes(vec![1, 2, 3, 4, 5], 4),
        Err(CallParamsError::ValueExceedsFixedLength)
    );
    assert_eq!(
        params.prep_fixed_bytes(vec![0; 33], 32),
        Err(CallParamsError::ValueExceedsFixedLength)
    );
}

#[test]
fn padding_refuses_an_invalid_length() {
    let params = PyCallParams::new(None);
    assert_eq!(params.prep_fixed_bytes(vec![1], 33), Err(CallParamsError::InvalidFixedLength));
    assert_eq!(params.prep_fixed_bytes(vec![], 0), Err(CallParamsError::InvalidFixedLength));
    assert_eq!(
        params.prep_fixed_bytes(vec![0; 40], usize::MAX),
        Err(CallParamsError::InvalidFixedLength)
    );
}

#[test]
fn a_longer_value_is_reported_before_an_invalid_length() {
    let params = PyCallParams::new(None);
    assert_eq!(
        params.prep_fixed_bytes(vec![0; 50], 40),
        Err(CallParamsError::ValueExceedsFixedLength)
    );
    assert_eq!(
        params.prep_fixed_bytes(vec![1], 0),
        Err(CallParamsError::ValueExceedsFixedLength)
    );
}

#[test]
fn fixed_bytes_are_stored_padded() {
    let mut params = PyCallParams::new(None);
    assert_eq!(params.add_fixed_bytes(vec![0xAA, 0xBB], 4), Ok(()));
    assert_eq!(
        params.parameters(),
        &vec![Parameter::FixedBytes { value: vec![0xAA, 0xBB, 0x00, 0x00], fixed_len: 4 }]
    );
}

#[test]
fn fixed_bytes_that_do_not_fit_are_refused() {
    let mut params = PyCallParams::new(None);
    assert_eq!(
        params.add_fixed_bytes(vec![1, 2, 3, 4, 5], 4),
        Err(CallParamsError::ValueExceedsFixedLength)
    );
    assert!(params.is_empty());
}

#[test]
fn refused_values_are_not_added() {
    let mut params = PyCallParams::new(None);
    params.add_bool(true).unwrap();
    let before = params.assemble();
    assert_eq!(params.add_fixed_bytes(vec![1], 33), Err(CallParamsError::InvalidFixedLength));
    assert_eq!(params.add_fixed_bytes(vec![], 0), Err(CallParamsError::InvalidFixedLength));
    assert_eq!(
        params.add_fixed_bytes(vec![1, 2], 1),
        Err(CallParamsError::ValueExceedsFixedLength)
    );
    assert_eq!(params.add_int(1, 7), Err(CallParamsError::InvalidWidth));
    assert_eq!(params.add_address(vec![1; 19]), Err(CallParamsError::InvalidAddressFormat));
    assert_eq!(
        params.add_function(vec![1; 20], vec![1; 5]),
        Err(CallParamsError::InvalidSelectorFormat)
    );
    assert_eq!(params.len(), 1);
    assert_eq!(params.parameters(), &vec![Parameter::Bool(true)]);
    assert_eq!(params.assemble(), before);
}

#[test]
fn a_refused_value_does_not_stop_the_call() {
    let mut params = PyCallParams::new(None);
    assert!(params.add_uint(1, 9).is_err());
    assert_eq!(params.add_uint(1, 8), Ok(()));
    assert_eq!(params.parameters(), &vec![Parameter::Uint { value: 1, width: 8 }]);
}

#[test]
fn parameters_keep_their_order() {
    let mut params = PyCallParams::new(None);
    params.add_string("a".to_string()).unwrap();
    params.add_bool(false).unwrap();
    params.add_bytes(vec![1]).unwrap();
    params.add_int(-5, 24).unwrap();
    assert_eq!(
        params.parameters(),
        &vec![
            Parameter::String("a".to_string()),
            Parameter::Bool(false),
            Parameter::Bytes(vec![1]),
            Parameter::Int { value: -5, width: 24 },
        ]
    );
    assert_eq!(params.len(), 4);
    assert!(!params.is_empty());
}

#[test]
fn every_kind_is_stored_as_given() {
    let mut params = PyCallParams::new(None);
    params.add_string_array(vec!["a".to_string()]).unwrap();
    params.add_fixed_string_array(vec!["a".to_string(), "b".to_string()], 2).unwrap();
    params.add_byte_array(vec![vec![1], vec![]]).unwrap();
    params.add_byte_fixed_array(vec![vec![1, 2]], 1).unwrap();
    params.add_int_array(vec![-1, 1], 8).unwrap();
    params.add_fixed_int_array(vec![-1, 1], 16, 2).unwrap();
    params.add_uint(9, 256).unwrap();
    params.add_uint_array(vec![1, 2], 8).unwrap();
    params.add_fixed_uint_array(vec![3], 8, 1).unwrap();
    params.add_address(vec![4; 20]).unwrap();
    params.add_address_array(vec![vec![5; 20]]).unwrap();
    params.add_fixed_address_array(vec![vec![6; 20]], 1).unwrap();
    params.add_function(vec![7; 20], vec![8; 4]).unwrap();
    assert_eq!(
        params.parameters(),
        &vec![
            Parameter::StringArray(vec!["a".to_string()]),
            Parameter::FixedStringArray {
                values: vec!["a".to_string(), "b".to_string()],
                fixed_len: 2
            },
            Parameter::ByteArray(vec![vec![1], vec![]]),
            Parameter::ByteFixedArray { values: vec![vec![1, 2]], fixed_len: 1 },
            Parameter::IntArray { values: vec![-1, 1], width: 8 },
            Parameter::FixedIntArray { values: vec![-1, 1], width: 16, fixed_len: 2 },
            Parameter::Uint { value: 9, width: 256 },
            Parameter::UintArray { values: vec![1, 2], width: 8 },
            Parameter::FixedUintArray { values: vec![3], width: 8, fixed_len: 1 },
            Parameter::Address(vec![4; 20]),
            Parameter::AddressArray(vec![vec![5; 20]]),
            Parameter::FixedAddressArray { values: vec![vec![6; 20]], fixed_len: 1 },
            Parameter::Function { address: vec![7; 20], selector: vec![8; 4] },
        ]
    );
}

#[test]
fn fixed_byte_array_pads_each_element_alone() {
    let mut params = PyCallParams::new(None);
    params.add_fixed_byte_array(vec![vec![1], vec![2, 3, 4], vec![]], 3).unwrap();
    assert_eq!(
        params.parameters(),
        &vec![Parameter::FixedByteArray {
            values: vec![vec![1, 0, 0], vec![2, 3, 4], vec![0, 0, 0]],
            fixed_byte_len: 3
        }]
    );
}

#[test]
fn fixed_byte_array_reports_its_first_faulty_element() {
    let mut params = PyCallParams::new(None);
    assert_eq!(
        params.add_fixed_byte_array(vec![vec![1], vec![1, 2, 3]], 2),
        Err(CallParamsError::ValueExceedsFixedLength)
    );
    // the first element fits under the invalid length, the second does not
    assert_eq!(
        params.add_fixed_byte_array(vec![vec![1], vec![0; 41]], 40),
        Err(CallParamsError::InvalidFixedLength)
    );
    assert_eq!(
        params.add_fixed_byte_array(vec![vec![0; 41], vec![1]], 40),
        Err(CallParamsError::ValueExceedsFixedLength)
    );
    assert_eq!(
        params.add_fixed_byte_array(vec![vec![]], 0),
        Err(CallParamsError::InvalidFixedLength)
    );
    assert!(params.is_empty());
}

#[test]
fn fixed_byte_array_without_elements_checks_the_length() {
    let mut params = PyCallParams::new(None);
    assert_eq!(params.add_fixed_byte_array(vec![], 33), Err(CallParamsError::InvalidFixedLength));
    assert_eq!(params.add_fixed_byte_array(vec![], 0), Err(CallParamsError::InvalidFixedLength));
    assert_eq!(params.add_fixed_byte_array(vec![], 32), Ok(()));
    assert_eq!(
        params.parameters(),
        &vec![Parameter::FixedByteArray { values: vec![], fixed_byte_len: 32 }]
    );
}

#[test]
fn fixed_byte_fixed_array_checks_its_elements() {
    let mut params = PyCallParams::new(None);
    assert_eq!(
        params.add_fixed_byte_fixed_array(vec![vec![1, 2, 3]], 2, 1),
        Err(CallParamsError::ValueExceedsFixedLength)
    );
    assert_eq!(
        params.add_fixed_byte_fixed_array(vec![vec![1]], 33, 1),
        Err(CallParamsError::InvalidFixedLength)
    );
    assert_eq!(
        params.add_fixed_byte_fixed_array(vec![], 0, 0),
        Err(CallParamsError::InvalidFixedLength)
    );
    assert!(params.is_empty());
    assert_eq!(params.add_fixed_byte_fixed_array(vec![vec![1], vec![2, 3]], 2, 2), Ok(()));
    assert_eq!(
        params.parameters(),
        &vec![Parameter::FixedByteFixedArray {
            values: vec![vec![1, 0], vec![2, 3]],
            fixed_byte_len: 2,
            fixed_len: 2
        }]
    );
}

#[test]
fn fixed_byte_fixed_array_pads_to_the_byte_length_alone() {
    // each element is padded to fixed_byte_len, whatever fixed_len is
    let mut params = PyCallParams::new(None);
    assert_eq!(params.add_fixed_byte_fixed_array(vec![vec![7]], 3, 5), Ok(()));
    assert_eq!(params.add_fixed_byte_fixed_array(vec![vec![1], vec![2]], 2, 1), Ok(()));
    assert_eq!(params.add_fixed_byte_fixed_array(vec![], 2, 0), Ok(()));
    assert_eq!(
        params.parameters(),
        &vec![
            Parameter::FixedByteFixedArray {
                values: vec![vec![7, 0, 0]],
                fixed_byte_len: 3,
                fixed_len: 5
            },
            Parameter::FixedByteFixedArray {
                values: vec![vec![1, 0], vec![2, 0]],
                fixed_byte_len: 2,
                fixed_len: 1
            },
            Parameter::FixedByteFixedArray { values: vec![], fixed_byte_len: 2, fixed_len: 0 },
        ]
    );
}

#[test]
fn declared_array_length_is_kept_as_given() {
    let mut params = PyCallParams::new(None);
    assert_eq!(params.add_fixed_string_array(vec![], 0), Ok(()));
    assert_eq!(params.add_fixed_string_array(vec!["a".to_string()], 2), Ok(()));
    assert_eq!(params.add_fixed_string_array(vec!["a".to_string(), "b".to_string()], 1), Ok(()));
    assert_eq!(params.add_byte_fixed_array(vec![vec![1], vec![2]], 1), Ok(()));
    assert_eq!(params.add_byte_fixed_array(vec![], 3), Ok(()));
    assert_eq!(params.add_fixed_int_array(vec![1, 2, 3], 8, 2), Ok(()));
    assert_eq!(params.add_fixed_int_array(vec![], 8, 0), Ok(()));
    assert_eq!(params.add_fixed_uint_array(vec![1], 8, 2), Ok(()));
    assert_eq!(params.add_fixed_uint_array(vec![], 256, 0), Ok(()));
    assert_eq!(params.add_fixed_address_array(vec![vec![0; 20]], 2), Ok(()));
    assert_eq!(params.add_fixed_address_array(vec![], 0), Ok(()));
    assert_eq!(
        params.parameters(),
        &vec![
            Parameter::FixedStringArray { values: vec![], fixed_len: 0 },
            Parameter::FixedStringArray { values: vec!["a".to_string()], fixed_len: 2 },
            Parameter::FixedStringArray {
                values: vec!["a".to_string(), "b".to_string()],
                fixed_len: 1
            },
            Parameter::ByteFixedArray { values: vec![vec![1], vec![2]], fixed_len: 1 },
            Parameter::ByteFixedArray { values: vec![], fixed_len: 3 },
            Parameter::FixedIntArray { values: vec![1, 2, 3], width: 8, fixed_len: 2 },
            Parameter::FixedIntArray { values: vec![], width: 8, fixed_len: 0 },
            Parameter::FixedUintArray { values: vec![1], width: 8, fixed_len: 2 },
            Parameter::FixedUintArray { values: vec![], width: 256, fixed_len: 0 },
            Parameter::FixedAddressArray { values: vec![vec![0; 20]], fixed_len: 2 },
            Parameter::FixedAddressArray { values: vec![], fixed_len: 0 },
        ]
    );
}

#[test]
fn an_array_may_have_more_than_32_elements() {
    let mut params = PyCallParams::new(None);
    assert_eq!(params.add_fixed_uint_array(vec![1; 40], 8, 40), Ok(()));
    assert_eq!(params.assemble().len(), 40 * 32);
}

#[test]
fn widths_are_multiples_of_eight_up_to_256() {
    let mut params = PyCallParams::new(None);
    let mut accepted: usize = 0;
    for width in 0..=300usize {
        let expected = if width >= 8 && width <= 256 && width % 8 == 0 {
            accepted += 1;
            Ok(())
        } else {
            Err(CallParamsError::InvalidWidth)
        };
        assert_eq!(params.add_int(-1, width), expected);
        assert_eq!(params.add_uint(1, width), expected);
        assert_eq!(check_width(width), expected);
    }
    assert_eq!(accepted, 32);
    assert_eq!(params.len(), 64);
    assert_eq!(params.add_int_array(vec![], 0), Err(CallParamsError::InvalidWidth));
    assert_eq!(params.add_uint_array(vec![1], 257), Err(CallParamsError::InvalidWidth));
    assert_eq!(params.add_uint_array(vec![1], usize::MAX), Err(CallParamsError::InvalidWidth));
}

#[test]
fn fixed_arrays_of_integers_check_the_width() {
    let mut params = PyCallParams::new(None);
    assert_eq!(params.add_fixed_int_array(vec![1, 2], 7, 2), Err(CallParamsError::InvalidWidth));
    assert_eq!(params.add_fixed_uint_array(vec![], 12, 0), Err(CallParamsError::InvalidWidth));
    assert_eq!(params.add_fixed_uint_array(vec![1], 264, 1), Err(CallParamsError::InvalidWidth));
    assert!(params.is_empty());
}

#[test]
fn addresses_have_twenty_bytes() {
    let mut params = PyCallParams::new(None);
    assert_eq!(params.add_address(vec![]), Err(CallParamsError::InvalidAddressFormat));
    assert_eq!(params.add_address(vec![0; 21]), Err(CallParamsError::InvalidAddressFormat));
    assert_eq!(
        params.add_address_array(vec![vec![0; 20], vec![0; 4]]),
        Err(CallParamsError::InvalidAddressFormat)
    );
    assert_eq!(
        params.add_fixed_address_array(vec![vec![0; 19]], 5),
        Err(CallParamsError::InvalidAddressFormat)
    );
    assert_eq!(
        params.add_function(vec![0; 4], vec![0; 20]),
        Err(CallParamsError::InvalidAddressFormat)
    );
    assert_eq!(
        params.add_function(vec![0; 19], vec![0; 5]),
        Err(CallParamsError::InvalidAddressFormat)
    );
    assert_eq!(
        params.add_function(vec![0; 20], vec![]),
        Err(CallParamsError::InvalidSelectorFormat)
    );
    assert!(params.is_empty());
    assert_eq!(params.add_address_array(vec![]), Ok(()));
}

#[test]
fn address_texts_are_parsed_before_they_are_stored() {
    let mut params = PyCallParams::new(None);
    params.add_address_string("0x000102030405060708090a0b0c0d0e0f10111213".to_string()).unwrap();
    let address: Vec<u8> = (0..20).collect();
    assert_eq!(params.parameters(), &vec![Parameter::Address(address)]);
}

#[test]
fn address_texts_that_do_not_parse_are_refused() {
    let mut params = PyCallParams::new(None);
    assert_eq!(
        params.add_address_string("not an address".to_string()),
        Err(CallParamsError::InvalidAddressFormat)
    );
    assert_eq!(
        params.add_address_string_array(vec![
            "000102030405060708090a0b0c0d0e0f10111213".to_string(),
            "000102030405060708090a0b0c0d0e0f1011121".to_string(),
        ]),
        Err(CallParamsError::InvalidAddressFormat)
    );
    assert_eq!(
        params.add_fixed_address_string_array(vec!["zz".to_string()], 1),
        Err(CallParamsError::InvalidAddressFormat)
    );
    assert_eq!(
        params.add_function_string("".to_string(), "".to_string()),
        Err(CallParamsError::InvalidAddressFormat)
    );
    assert_eq!(
        params.add_function_string(
            "000102030405060708090a0b0c0d0e0f10111213".to_string(),
            "a9059c".to_string()
        ),
        Err(CallParamsError::InvalidSelectorFormat)
    );
    assert!(params.is_empty());
}

#[test]
fn function_text_is_parsed_before_it_is_stored() {
    let mut params = PyCallParams::new(None);
    params
        .add_function_string(
            "000102030405060708090a0b0c0d0e0f10111213".to_string(),
            "0xA9059CBB".to_string(),
        )
        .unwrap();
    assert_eq!(
        params.parameters(),
        &vec![Parameter::Function {
            address: (0..20).collect(),
            selector: vec![0xA9, 0x05, 0x9C, 0xBB]
        }]
    );
}

#[test]
fn selector_and_address_are_kept() {
    let mut params = PyCallParams::new(Some("f".to_string()));
    assert_eq!(params.set_selector(vec![1, 2, 3, 4]), Ok(()));
    assert_eq!(params.set_address(vec![5; 20]), Ok(()));
    assert_eq!(params.selector(), &Some(vec![1, 2, 3, 4]));
    assert_eq!(params.address(), &Some(vec![5; 20]));
    assert_eq!(params.function_name(), &Some("f".to_string()));
    assert!(params.is_empty());
    assert_eq!(params.set_selector_string("0a0b0c0d".to_string()), Ok(()));
    assert_eq!(params.selector(), &Some(vec![10, 11, 12, 13]));
    assert_eq!(
        params.set_address_string("0x000102030405060708090a0b0c0d0e0f10111213".to_string()),
        Ok(())
    );
    assert_eq!(params.address(), &Some((0..20).collect::<Vec<u8>>()));
}

#[test]
fn selector_and_address_of_wrong_form_change_nothing() {
    let mut params = PyCallParams::new(None);
    params.set_selector(vec![1, 2, 3, 4]).unwrap();
    params.set_address(vec![5; 20]).unwrap();
    assert_eq!(params.set_selector(vec![1, 2, 3]), Err(CallParamsError::InvalidSelectorFormat));
    assert_eq!(params.set_selector(vec![]), Err(CallParamsError::InvalidSelectorFormat));
    assert_eq!(
        params.set_selector_string("f(uint256)".to_string()),
        Err(CallParamsError::InvalidSelectorFormat)
    );
    assert_eq!(params.set_address(vec![5; 32]), Err(CallParamsError::InvalidAddressFormat));
    assert_eq!(
        params.set_address_string("0x05".to_string()),
        Err(CallParamsError::InvalidAddressFormat)
    );
    assert_eq!(params.selector(), &Some(vec![1, 2, 3, 4]));
    assert_eq!(params.address(), &Some(vec![5; 20]));
}

#[test]
fn address_texts_are_stored_as_bytes_for_every_declared_length() {
    let text = "000102030405060708090a0b0c0d0e0f10111213".to_string();
    let bytes: Vec<u8> = (0..20).collect();
    for fixed_len in 0..4usize {
        let mut from_text = PyCallParams::new(None);
        let mut from_bytes = PyCallParams::new(None);
        assert_eq!(
            from_text.add_fixed_address_string_array(vec![text.clone(), text.clone()], fixed_len),
            Ok(())
        );
        assert_eq!(
            from_bytes.add_fixed_address_array(vec![bytes.clone(), bytes.clone()], fixed_len),
            Ok(())
        );
        assert_eq!(
            from_text.parameters(),
            &vec![Parameter::FixedAddressArray {
                values: vec![bytes.clone(), bytes.clone()],
                fixed_len
            }]
        );
        assert_eq!(from_text.assemble(), from_bytes.assemble());
    }
    let mut none = PyCallParams::new(None);
    assert_eq!(none.add_fixed_address_string_array(vec![], 0), Ok(()));
    assert_eq!(
        none.parameters(),
        &vec![Parameter::FixedAddressArray { values: vec![], fixed_len: 0 }]
    );
}

#[test]
fn address_checks() {
    assert_eq!(check_addresses(&vec![]), Ok(()));
    assert_eq!(check_addresses(&vec![vec![0; 20], vec![1; 20]]), Ok(()));
    assert_eq!(
        check_addresses(&vec![vec![0; 20], vec![1; 21]]),
        Err(CallParamsError::InvalidAddressFormat)
    );
    assert_eq!(parse_addresses(&vec![]), Ok(vec![]));
    assert_eq!(
        parse_addresses(&vec!["0x000102030405060708090a0b0c0d0e0f10111213".to_string()]),
        Ok(vec![(0..20).collect::<Vec<u8>>()])
    );
    assert_eq!(
        parse_addresses(&vec!["0x00".to_string()]),
        Err(CallParamsError::InvalidAddressFormat)
    );
}
