use sinowealth_kb_tool::ihex::{
    from_ihex, to_ihex, ConversionError, ReaderError, UnpackingError,
};

#[test]
fn test_from_ihex() {
    let result = from_ihex(
        ":100000000200660227BD010A32646402CB9053DA13\n:00000001FF",
        16,
    )
    .unwrap();
    let expected = vec![
        2, 0, 102, 2, 39, 189, 1, 10, 50, 100, 100, 2, 203, 144, 83, 218,
    ];
    assert_eq!(result, expected);
}

#[test]
fn test_from_ihex_address_start_at_0x0001() {
    let result = from_ihex(
        ":100010000200660227BD010A32646402CB9053DA03\n:00000001FF",
        32,
    );
    let mut expected: Vec<u8> = Vec::new();
    expected.resize(16, 0);
    expected.extend_from_slice(&[
        2, 0, 102, 2, 39, 189, 1, 10, 50, 100, 100, 2, 203, 144, 83, 218,
    ]);
    assert_eq!(result, Ok(expected));
}

#[test]
fn test_from_ihex_err_checksum_mismatch() {
    let result = from_ihex(
        ":100000000200660227BD010A32646402CB9053DA00\n:00000001FF",
        16,
    );
    let expected = Err(ConversionError::Unpacking(UnpackingError::Parsing(
        ReaderError::ChecksumMismatch(0x13, 0x00),
    )));
    assert_eq!(result, expected);
}

#[test]
fn test_from_ihex_err_address_too_high() {
    let result = from_ihex(
        ":100010000200660227BD010A32646402CB9053DA03\n:00000001FF",
        16,
    );
    let expected = Err(ConversionError::Unpacking(UnpackingError::AddressTooHigh {
        addr: 0x20,
        size: 0x10,
    }));
    assert_eq!(result, expected);
}

#[test]
fn test_from_ihex_err_unsupported_record_type() {
    let result = from_ihex(":020000021000EC\n:00000001FF", 16);
    let expected = Err(ConversionError::Unpacking(
        UnpackingError::UnsupportedRecordType(2),
    ));
    assert_eq!(result, expected);
}

#[test]
fn test_from_ihex_err_invalid_characters() {
    let result = from_ihex(":10zz00000200660227BD010A32646402CB9053DA13", 16);
    let expected = Err(ConversionError::Unpacking(UnpackingError::Parsing(
        ReaderError::ContainsInvalidCharacters,
    )));
    assert_eq!(result, expected);
}

#[test]
fn test_from_ihex_err_missing_start_code() {
    let result = from_ihex("100000000200660227BD010A32646402CB9053DA13", 16);
    let expected = Err(ConversionError::Unpacking(UnpackingError::Parsing(
        ReaderError::MissingStartCode,
    )));
    assert_eq!(result, expected);
}

#[test]
fn test_from_ihex_err_not_even_length() {
    let result = from_ihex(":100000000200660227BD010A32646402CB9053DA1", 16);
    let expected = Err(ConversionError::Unpacking(UnpackingError::Parsing(
        ReaderError::RecordNotEvenLength,
    )));
    assert_eq!(result, expected);
}

#[test]
fn test_from_ihex_err_record_too_short() {
    let result = from_ihex(":0000", 16);
    let expected = Err(ConversionError::Unpacking(UnpackingError::Parsing(
        ReaderError::RecordTooShort,
    )));
    assert_eq!(result, expected);
}

#[test]
fn test_from_ihex_err_payload_length_mismatch() {
    // the count byte claims 0x11 bytes but the line carries 0x10
    let result = from_ihex(
        ":110000000200660227BD010A32646402CB9053DA12",
        16,
    );
    let expected = Err(ConversionError::Unpacking(UnpackingError::Parsing(
        ReaderError::PayloadLengthMismatch,
    )));
    assert_eq!(result, expected);
}

#[test]
fn test_from_ihex_err_unknown_record_type() {
    // record type 9 is no Intel-HEX record type at all
    let result = from_ihex(":00000009F7", 16);
    let expected = Err(ConversionError::Unpacking(UnpackingError::Parsing(
        ReaderError::UnsupportedRecordType(9),
    )));
    assert_eq!(result, expected);
}

#[test]
fn test_from_ihex_ignores_start_address_records() {
    // a start linear address record (type 5) carries no data to place
    let result = from_ihex(
        ":040000050000006691\n:100000000200660227BD010A32646402CB9053DA13\n:00000001FF",
        16,
    )
    .unwrap();
    assert_eq!(result.len(), 16);
    assert_eq!(result[2], 102);
}

#[test]
fn test_to_ihex_exact_text() {
    let data = vec![
        2, 0, 102, 2, 39, 189, 1, 10, 50, 100, 100, 2, 203, 144, 83, 218,
    ];
    let text = to_ihex(data).unwrap();
    assert_eq!(
        text,
        ":100000000200660227BD010A32646402CB9053DA13\n:00000001FF"
    );
}

#[test]
fn test_to_ihex_empty() {
    assert_eq!(to_ihex(Vec::new()).unwrap(), ":00000001FF");
}

#[test]
fn test_ihex_round_trip() {
    let mut data: Vec<u8> = Vec::new();
    for i in 0..4096 {
        data.push((i % 251) as u8);
    }
    let text = to_ihex(data.clone()).unwrap();
    let back = from_ihex(&text, 4096).unwrap();
    assert_eq!(back, data);
}

#[test]
fn test_from_ihex_crlf_lines() {
    let result = from_ihex(
        ":100000000200660227BD010A32646402CB9053DA13\r\n:00000001FF",
        16,
    )
    .unwrap();
    assert_eq!(result.len(), 16);
    assert_eq!(result[0], 2);
}
