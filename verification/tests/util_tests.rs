use sinowealth_kb_tool::part::Part;
use sinowealth_kb_tool::util::{
    convert_to_isp_payload, convert_to_jtag_payload, str_eq, to_hex_string, verify,
    PayloadConversionError, VerificationError,
};

#[test]
fn test_verify_success() {
    assert!(verify(&vec![1, 2, 3, 4], &vec![1, 2, 3, 4]).is_ok());
}

#[test]
fn test_verify_error_length_mismatch() {
    assert_eq!(
        verify(&vec![1, 2, 3, 4], &vec![1, 2, 3]),
        Err(VerificationError::LengthMismatch {
            expected: 4,
            actual: 3
        })
    );
}

#[test]
fn test_verify_error_byte_mismatch() {
    assert_eq!(
        verify(&vec![1, 2, 3, 4], &vec![1, 2, 4, 3]),
        Err(VerificationError::ByteMismatch {
            addr: 2,
            expected: 3,
            actual: 4
        })
    );
}

#[test]
fn test_convert_to_jtag_payload() {
    let part = Part::base_sh68f90();
    let mut firmware: Vec<u8> = vec![0; 65536];
    firmware[0] = 0x02;
    firmware[1] = 0x00;
    firmware[2] = 0x66;

    convert_to_jtag_payload(&mut firmware, part).unwrap();

    assert_eq!(firmware[0..3], [0x02, 0xf0, 0x00]);
    assert_eq!(firmware[0xeffb..0xeffe], [0x02, 0x00, 0x66]);
}

#[test]
fn test_convert_to_isp_payload() {
    let part = Part::base_sh68f90();
    let mut firmware: Vec<u8> = vec![0; 65536];
    firmware[0] = 0x02;
    firmware[1] = 0xf0;
    firmware[2] = 0x00;
    firmware[0xeffb] = 0x02;
    firmware[0xeffc] = 0x00;
    firmware[0xeffd] = 0x66;

    convert_to_isp_payload(&mut firmware, part).unwrap();

    assert_eq!(firmware[0..3], [0x02, 0x00, 0x66]);
    assert_eq!(firmware[0xeffb..0xeffe], [0x00, 0x00, 0x00]);
}

#[test]
fn test_convert_round_trip_restores_image() {
    let part = Part::base_sh68f90();
    let mut firmware: Vec<u8> = vec![0; 61440];
    firmware[0] = 0x02;
    firmware[1] = 0x01;
    firmware[2] = 0x23;
    firmware[100] = 0xaa;
    let original = firmware.clone();

    convert_to_jtag_payload(&mut firmware, part).unwrap();
    assert_ne!(firmware, original);
    convert_to_isp_payload(&mut firmware, part).unwrap();
    assert_eq!(firmware, original);
}

#[test]
fn test_convert_rejects_missing_ljmp() {
    let part = Part::base_sh68f90();
    let mut firmware: Vec<u8> = vec![0; 61440];
    assert_eq!(
        convert_to_jtag_payload(&mut firmware, part),
        Err(PayloadConversionError::LJMPNotFoundError { addr: 0 })
    );
    assert_eq!(
        convert_to_isp_payload(&mut firmware, part),
        Err(PayloadConversionError::LJMPNotFoundError { addr: 0 })
    );
}

#[test]
fn test_convert_rejects_out_of_range_target() {
    let part = Part::base_sh68f90();
    let mut firmware: Vec<u8> = vec![0; 61440];
    firmware[0] = 0x02;
    firmware[1] = 0xf0;
    firmware[2] = 0x00;
    assert_eq!(
        convert_to_jtag_payload(&mut firmware, part),
        Err(PayloadConversionError::UnexpectedAddressError {
            source_addr: 1,
            target_addr: 0xf000
        })
    );
}

#[test]
fn test_to_hex_string() {
    assert_eq!(to_hex_string(&[0x01, 0xab, 0xff]), "01 AB FF");
    assert_eq!(to_hex_string(&[0x5a]), "5A");
    assert_eq!(to_hex_string(&[]), "");
}

#[test]
fn test_str_eq() {
    assert!(str_eq("nuphy-air60", "nuphy-air60"));
    assert!(!str_eq("nuphy-air60", "nuphy-air75"));
    assert!(!str_eq("abc", "abcd"));
}
