use rust_decimal::Decimal;
use rust_decimal_cql::decimal::{MAX_DECIMAL_MANTISSA, MAX_DECIMAL_SCALE};
use rust_decimal_cql::wire::mantissa_to_be_bytes;
use rust_decimal_cql::{
    extract_scale_and_mantissa_from_slice, ColumnKind, DecimalCql, DecimalCqlError,
};

#[test]
fn test_decimal_cql_deref() {
    let decimal = Decimal::new(12345, 2);
    let wrapper: DecimalCql = decimal.into();
    assert_eq!(wrapper.to_decimal().unwrap(), Decimal::new(12345, 2));
    assert_eq!(
        wrapper.to_decimal().unwrap() + Decimal::new(100, 0),
        Decimal::new(22345, 2)
    );
}

#[test]
fn test_decimal_cql_serialize() {
    let decimal = Decimal::new(12345, 2);
    let expected_bytes = [
        0, 0, 0, 20, 0, 0, 0, 2, 0, 0, 0, 0, 0, 0, 0, 0, 0, 0, 0, 0, 0, 0, 48, 57,
    ];
    let wrapper: DecimalCql = decimal.into();
    let mut buffer = Vec::new();
    wrapper.serialize(&mut buffer).unwrap();
    assert_eq!(
        buffer, expected_bytes,
        "Buffer should match expected_bytes exactly"
    );
}

#[test]
fn test_decimal_cql_no_frame() {
    let result = DecimalCql::deserialize(None);
    assert!(
        result.is_err(),
        "Deserialization should fail if frame slice is None"
    );
}

/// Values at the edges of both fields, and some in between.
fn samples() -> Vec<DecimalCql> {
    let mantissas = [
        0i128,
        1,
        -1,
        127,
        128,
        -128,
        -129,
        255,
        256,
        12345,
        -12345,
        MAX_DECIMAL_MANTISSA,
        -MAX_DECIMAL_MANTISSA,
        MAX_DECIMAL_MANTISSA + 1,
        i128::MAX,
        i128::MIN,
        i128::MIN + 1,
        0x0123_4567_89AB_CDEF_1011_1213_1415_1617,
    ];
    let scales = [0u32, 1, 2, 28, 29, 255, 65_536, 0x7FFF_FFFF, 0x8000_0000, u32::MAX];
    let mut all = Vec::new();
    for mantissa in mantissas {
        for scale in scales {
            all.push(DecimalCql { mantissa, scale });
        }
    }
    all
}

#[test]
fn what_is_written_reads_as_the_same_value() {
    for value in samples() {
        let mut cell = Vec::new();
        value.serialize(&mut cell).unwrap();
        assert_eq!(cell.len(), 24);
        let content = &cell[4..];
        assert_eq!(
            extract_scale_and_mantissa_from_slice(content).unwrap(),
            (value.scale, value.mantissa)
        );
        assert_eq!(DecimalCql::deserialize(Some(content)).unwrap(), value);
    }
}

#[test]
fn twenty_bytes_are_written_back_as_they_were_read() {
    let mut content = [0u8; 20];
    for round in 0..50u32 {
        for (i, byte) in content.iter_mut().enumerate() {
            *byte = (round.wrapping_mul(151) ^ (i as u32).wrapping_mul(89) ^ (round >> 2)) as u8;
        }
        let value = DecimalCql::deserialize(Some(&content)).unwrap();
        let mut cell = Vec::new();
        value.serialize(&mut cell).unwrap();
        assert_eq!(&cell[..4], &[0, 0, 0, 20]);
        assert_eq!(&cell[4..], &content);
    }
}

#[test]
fn a_cell_is_the_length_the_scale_and_sixteen_mantissa_bytes() {
    for value in samples() {
        let mut cell = Vec::new();
        value.serialize(&mut cell).unwrap();
        let mut expected = vec![0u8, 0, 0, 20];
        expected.extend_from_slice(&value.scale.to_be_bytes());
        expected.extend_from_slice(&value.mantissa.to_be_bytes());
        assert_eq!(cell, expected);
    }
}

#[test]
fn encode_gives_the_cell_without_its_length() {
    for value in samples() {
        let mut cell = Vec::new();
        value.serialize(&mut cell).unwrap();
        let bytes = value.encode().unwrap();
        assert_eq!(bytes.len(), 20);
        assert_eq!(&bytes[..], &cell[4..]);
        assert_eq!(DecimalCql::deserialize(Some(&bytes)).unwrap(), value);
    }
    assert_eq!(
        DecimalCql { mantissa: 12345, scale: 2 }.encode().unwrap(),
        vec![0, 0, 0, 2, 0, 0, 0, 0, 0, 0, 0, 0, 0, 0, 0, 0, 0, 0, 0x30, 0x39]
    );
}

#[test]
fn a_negative_zero_is_taken_as_zero() {
    let mut zero = Decimal::new(0, 2);
    zero.set_sign_negative(true);
    let value = DecimalCql::from(zero);
    assert_eq!(value, DecimalCql { mantissa: 0, scale: 2 });
    assert_eq!(
        value.encode().unwrap(),
        vec![0, 0, 0, 2, 0, 0, 0, 0, 0, 0, 0, 0, 0, 0, 0, 0, 0, 0, 0, 0]
    );
}

#[test]
fn the_written_bytes_of_123_45() {
    let value = DecimalCql { mantissa: 12345, scale: 2 };
    let mut cell = Vec::new();
    value.serialize(&mut cell).unwrap();
    assert_eq!(
        &cell[4..],
        &[0x00, 0x00, 0x00, 0x02, 0, 0, 0, 0, 0, 0, 0, 0, 0, 0, 0, 0, 0, 0, 0x30, 0x39]
    );
}

#[test]
fn a_negative_mantissa_is_written_in_twos_complement() {
    let value = DecimalCql { mantissa: -2, scale: 1 };
    let mut cell = Vec::new();
    value.serialize(&mut cell).unwrap();
    let mut expected = vec![0u8, 0, 0, 20, 0, 0, 0, 1];
    expected.extend_from_slice(&[0xFF; 15]);
    expected.push(0xFE);
    assert_eq!(cell, expected);
}

#[test]
fn serialize_appends_and_keeps_what_the_buffer_held() {
    let mut buffer = vec![0xAAu8, 0xBB, 0xCC];
    DecimalCql { mantissa: 1, scale: 0 }.serialize(&mut buffer).unwrap();
    DecimalCql { mantissa: -1, scale: 7 }.serialize(&mut buffer).unwrap();
    assert_eq!(buffer.len(), 3 + 24 + 24);
    assert_eq!(&buffer[..3], &[0xAA, 0xBB, 0xCC]);
    assert_eq!(
        DecimalCql::deserialize(Some(&buffer[7..27])).unwrap(),
        DecimalCql { mantissa: 1, scale: 0 }
    );
    assert_eq!(
        DecimalCql::deserialize(Some(&buffer[31..51])).unwrap(),
        DecimalCql { mantissa: -1, scale: 7 }
    );
}

#[test]
fn mantissa_bytes_are_the_big_endian_bytes_of_the_integer() {
    for value in samples() {
        assert_eq!(
            mantissa_to_be_bytes(value.mantissa),
            value.mantissa.to_be_bytes().to_vec()
        );
    }
    assert_eq!(
        mantissa_to_be_bytes(12345),
        vec![0, 0, 0, 0, 0, 0, 0, 0, 0, 0, 0, 0, 0, 0, 0x30, 0x39]
    );
}

#[test]
fn deserialize_reads_scale_and_mantissa() {
    assert_eq!(
        DecimalCql::deserialize(Some(&[0, 0, 0, 2, 130])).unwrap(),
        DecimalCql { mantissa: 130, scale: 2 }
    );
    assert_eq!(
        DecimalCql::deserialize(Some(&[0, 0, 0, 40])).unwrap(),
        DecimalCql { mantissa: 0, scale: 40 }
    );
}

#[test]
fn deserialize_names_each_failure() {
    assert!(matches!(
        DecimalCql::deserialize(None),
        Err(DecimalCqlError::FrameHasNoSlice())
    ));
    assert!(matches!(
        DecimalCql::deserialize(Some(&[])),
        Err(DecimalCqlError::ByteArrayTooShort(0))
    ));
    assert!(matches!(
        DecimalCql::deserialize(Some(&[0, 0, 0])),
        Err(DecimalCqlError::ByteArrayTooShort(3))
    ));
}

#[test]
fn from_takes_mantissa_and_scale_of_the_decimal() {
    assert_eq!(
        DecimalCql::from(Decimal::new(12345, 2)),
        DecimalCql { mantissa: 12345, scale: 2 }
    );
    assert_eq!(
        DecimalCql::from(Decimal::new(-987_654, 3)),
        DecimalCql { mantissa: -987_654, scale: 3 }
    );
    assert_eq!(
        DecimalCql::from(Decimal::ZERO),
        DecimalCql { mantissa: 0, scale: 0 }
    );
    assert_eq!(
        DecimalCql::from(Decimal::MAX),
        DecimalCql { mantissa: MAX_DECIMAL_MANTISSA, scale: 0 }
    );
    assert_eq!(
        DecimalCql::from(Decimal::MIN),
        DecimalCql { mantissa: -MAX_DECIMAL_MANTISSA, scale: 0 }
    );
    assert_eq!(
        DecimalCql::from(Decimal::from_i128_with_scale(1, 28)),
        DecimalCql { mantissa: 1, scale: 28 }
    );
}

#[test]
fn to_decimal_gives_the_decimal_with_that_mantissa_and_scale() {
    let value = DecimalCql { mantissa: -123_456, scale: 3 };
    let decimal = value.to_decimal().unwrap();
    assert_eq!(decimal, Decimal::new(-123_456, 3));
    assert_eq!(decimal.mantissa(), -123_456);
    assert_eq!(decimal.scale(), 3);
    assert_eq!(DecimalCql::from(decimal), value);
}

#[test]
fn to_decimal_is_none_exactly_beyond_what_a_decimal_holds() {
    assert_eq!(MAX_DECIMAL_SCALE, 28);
    assert_eq!(MAX_DECIMAL_MANTISSA, (1i128 << 96) - 1);
    for value in samples() {
        let fits = value.scale <= 28
            && value.mantissa >= -((1i128 << 96) - 1)
            && value.mantissa <= (1i128 << 96) - 1;
        assert_eq!(value.to_decimal().is_some(), fits);
        assert_eq!(
            Decimal::try_from_i128_with_scale(value.mantissa, value.scale).is_ok(),
            fits
        );
        if let Some(decimal) = value.to_decimal() {
            assert_eq!(DecimalCql::from(decimal), value);
        }
    }
    assert!(DecimalCql { mantissa: 1, scale: 28 }.to_decimal().is_some());
    assert!(DecimalCql { mantissa: 1, scale: 29 }.to_decimal().is_none());
    assert!(DecimalCql { mantissa: 1 << 96, scale: 0 }.to_decimal().is_none());
    assert!(DecimalCql { mantissa: -(1 << 96), scale: 0 }.to_decimal().is_none());
}

#[test]
fn a_decimal_goes_through_a_cell_and_back() {
    let decimal = Decimal::new(-31_415_926, 7);
    let mut cell = Vec::new();
    DecimalCql::from(decimal).serialize(&mut cell).unwrap();
    let back = DecimalCql::deserialize(Some(&cell[4..])).unwrap();
    assert_eq!(back.to_decimal().unwrap(), decimal);
    assert_eq!(back.to_decimal().unwrap().scale(), 7);
}

#[test]
fn type_check_accepts_a_decimal_column() {
    assert!(DecimalCql::type_check(&ColumnKind::Decimal).is_ok());
}

#[test]
fn type_check_refuses_other_columns_and_names_them() {
    let result = DecimalCql::type_check(&ColumnKind::Other("Native(Int)".to_string()));
    match result {
        Err(DecimalCqlError::MismatchedType(detail)) => {
            assert_eq!(detail, "Expected Decimal, got Native(Int)")
        }
        other => panic!("expected MismatchedType, got {:?}", other),
    }
    let result = DecimalCql::type_check(&ColumnKind::Other(String::new()));
    match result {
        Err(DecimalCqlError::MismatchedType(detail)) => {
            assert_eq!(detail, "Expected Decimal, got ")
        }
        other => panic!("expected MismatchedType, got {:?}", other),
    }
}
