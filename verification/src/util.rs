//! Byte-exact flash verification, the reset-vector payload converters, and
//! small string helpers shared across the crate.

use vstd::prelude::*;
use vstd::string::StringSliceAdditionalSpecFns;

verus! {

/// String equality decided over the UTF-8 bytes of both sides.
pub fn str_eq(a: &str, b: &str) -> (r: bool)
    ensures
        r == (a@ == b@),
{
    let ab = a.as_bytes();
    let bb = b.as_bytes();
    if ab.len() != bb.len() {
        proof {
            vstd::utf8::encode_utf8_decode_utf8(a@);
            vstd::utf8::encode_utf8_decode_utf8(b@);
        }
        return false;
    }
    let n = ab.len();
    let mut i: usize = 0;
    while i < n
        invariant
            n == ab@.len() == bb@.len(),
            i <= n,
            ab@ == a.spec_bytes(),
            bb@ == b.spec_bytes(),
            forall|j: int| 0 <= j < i ==> ab@[j] == bb@[j],
        decreases n - i,
    {
        if ab[i] != bb[i] {
            proof {
                vstd::utf8::encode_utf8_decode_utf8(a@);
                vstd::utf8::encode_utf8_decode_utf8(b@);
            }
            return false;
        }
        i = i + 1;
    }
    proof {
        assert(ab@ =~= bb@);
        vstd::utf8::encode_utf8_decode_utf8(a@);
        vstd::utf8::encode_utf8_decode_utf8(b@);
    }
    true
}

/// Outcome of comparing an expected flash image against a read-back.
#[derive(Debug, Clone, PartialEq, Eq, Structural)]
pub enum VerificationError {
    ByteMismatch { addr: usize, expected: u8, actual: u8 },
    LengthMismatch { expected: usize, actual: usize },
}

/// Compares two buffers byte-for-byte in address order and reports the first
/// mismatching offset only; differing lengths are reported before any bytes
/// are compared.
pub fn verify(expected: &[u8], actual: &[u8]) -> (r: Result<(), VerificationError>)
    ensures
        r is Ok <==> expected@ == actual@,
        expected@.len() != actual@.len() ==> r == Err::<(), VerificationError>(VerificationError::LengthMismatch {
            expected: expected@.len() as usize,
            actual: actual@.len() as usize,
        }),
        r matches Err(VerificationError::ByteMismatch { addr, expected: eb, actual: ab }) ==> {
            &&& expected@.len() == actual@.len()
            &&& addr < expected@.len()
            &&& expected@[addr as int] != actual@[addr as int]
            &&& eb == expected@[addr as int]
            &&& ab == actual@[addr as int]
            &&& forall|j: int| 0 <= j < addr ==> expected@[j] == actual@[j]
        },
        expected@.len() == actual@.len() && expected@ != actual@ ==> r matches Err(
            VerificationError::ByteMismatch { .. },
        ),
{
    if expected.len() != actual.len() {
        return Err(VerificationError::LengthMismatch {
            expected: expected.len(),
            actual: actual.len(),
        });
    }

    let n = expected.len();
    let mut i: usize = 0;
    while i < n
        invariant
            n == expected@.len() == actual@.len(),
            i <= n,
            forall|j: int| 0 <= j < i ==> expected@[j] == actual@[j],
        decreases n - i,
    {
        if expected[i] != actual[i] {
            return Err(VerificationError::ByteMismatch {
                addr: i,
                expected: expected[i],
                actual: actual[i],
            });
        }
        i = i + 1;
    }

    proof {
        assert(expected@ =~= actual@);
    }
    Ok(())
}

/// A firmware image whose shape does not match the expected reset-vector
/// layout.
#[derive(Debug, Clone, PartialEq, Eq, Structural)]
pub enum PayloadConversionError {
    LJMPNotFoundError { addr: u16 },
    UnexpectedAddressError { source_addr: u16, target_addr: u16 },
}

/// The 16-bit big-endian value held by two bytes.
pub open spec fn be16(hi: u8, lo: u8) -> u16 {
    (hi * 256 + lo) as u16
}

/// The JTAG layout of an ISP-layout image: the entry address at the front is
/// redirected to the bootloader entry (the firmware size), and a long jump to
/// the application's original entry address is placed just below the stash
/// offset at the end of the firmware region.
pub open spec fn jtag_image(s: Seq<u8>, fs: int) -> Seq<u8>
    recommends
        8 <= fs <= s.len(),
        fs <= 0xffff,
{
    s.update(1, (fs / 256) as u8).update(2, (fs % 256) as u8).update(fs - 5, 2u8).update(
        fs - 4,
        s[1],
    ).update(fs - 3, s[2])
}

/// The ISP layout of a JTAG-layout image: the application entry address is
/// read back out of the trailing long jump into the front reset vector, and
/// the trailing long jump is cleared.
pub open spec fn isp_image(s: Seq<u8>, fs: int) -> Seq<u8>
    recommends
        8 <= fs <= s.len(),
{
    s.update(1, s[fs - 4]).update(2, s[fs - 3]).update(fs - 5, 0u8).update(fs - 4, 0u8).update(
        fs - 3,
        0u8,
    )
}

/// Rewrites an ISP-layout image into the JTAG layout, in place.
///
/// The image must start with a long-jump opcode whose target lies in the
/// addressable application range; otherwise the image is left unchanged and
/// the structural error says what was wrong.
pub fn convert_to_jtag_payload(input: &mut Vec<u8>, part: crate::part::Part) -> (r: Result<
    (),
    PayloadConversionError,
>)
    requires
        8 <= part.firmware_size <= 0xffff,
        part.firmware_size <= old(input)@.len(),
    ensures
        old(input)@[0] != 0x02 ==> r == Err::<(), PayloadConversionError>(
            PayloadConversionError::LJMPNotFoundError { addr: 0 },
        ) && final(input)@ == old(input)@,
        old(input)@[0] == 0x02 && be16(old(input)@[1], old(input)@[2]) > 0xefff ==> r == Err::<
            (),
            PayloadConversionError,
        >(PayloadConversionError::UnexpectedAddressError {
            source_addr: 1,
            target_addr: be16(old(input)@[1], old(input)@[2]),
        }) && final(input)@ == old(input)@,
        old(input)@[0] == 0x02 && be16(old(input)@[1], old(input)@[2]) <= 0xefff ==> r == Ok::<
            (),
            PayloadConversionError,
        >(()) && final(input)@ == jtag_image(old(input)@, part.firmware_size as int),
{
    if input[0] != 0x02 {
        return Err(PayloadConversionError::LJMPNotFoundError { addr: 0 });
    }
    let b1 = input[1];
    let b2 = input[2];
    let main_fw_address: u16 = (b1 as u16) * 256 + (b2 as u16);
    if main_fw_address > 0xefff {
        return Err(PayloadConversionError::UnexpectedAddressError {
            source_addr: 1,
            target_addr: main_fw_address,
        });
    }
    let fs = part.firmware_size;
    input.set(1, (fs / 256) as u8);
    input.set(2, (fs % 256) as u8);
    input.set(fs - 5, 0x02);
    input.set(fs - 4, b1);
    input.set(fs - 3, b2);
    Ok(())
}

/// Rewrites a JTAG-layout image into the ISP layout, in place: the exact
/// inverse of the JTAG conversion.
///
/// Both the front reset vector and the trailing long jump are validated
/// before anything is written; on a structural error the image is unchanged.
pub fn convert_to_isp_payload(input: &mut Vec<u8>, part: crate::part::Part) -> (r: Result<
    (),
    PayloadConversionError,
>)
    requires
        8 <= part.firmware_size <= 0xffff,
        part.firmware_size <= old(input)@.len(),
    ensures
        old(input)@[0] != 0x02 ==> r == Err::<(), PayloadConversionError>(
            PayloadConversionError::LJMPNotFoundError { addr: 0 },
        ) && final(input)@ == old(input)@,
        old(input)@[0] == 0x02 && old(input)@[part.firmware_size - 5] != 0x02 ==> r == Err::<
            (),
            PayloadConversionError,
        >(PayloadConversionError::LJMPNotFoundError { addr: 0 }) && final(input)@ == old(input)@,
        old(input)@[0] == 0x02 && old(input)@[part.firmware_size - 5] == 0x02 && be16(
            old(input)@[part.firmware_size - 4],
            old(input)@[part.firmware_size - 3],
        ) > 0xefff ==> r == Err::<(), PayloadConversionError>(
            PayloadConversionError::UnexpectedAddressError {
                source_addr: (part.firmware_size - 4) as u16,
                target_addr: be16(
                    old(input)@[part.firmware_size - 4],
                    old(input)@[part.firmware_size - 3],
                ),
            },
        ) && final(input)@ == old(input)@,
        old(input)@[0] == 0x02 && old(input)@[part.firmware_size - 5] == 0x02 && be16(
            old(input)@[part.firmware_size - 4],
            old(input)@[part.firmware_size - 3],
        ) <= 0xefff ==> r == Ok::<(), PayloadConversionError>(()) && final(input)@ == isp_image(
            old(input)@,
            part.firmware_size as int,
        ),
{
    if input[0] != 0x02 {
        return Err(PayloadConversionError::LJMPNotFoundError { addr: 0 });
    }
    let fs = part.firmware_size;
    if input[fs - 5] != 0x02 {
        return Err(PayloadConversionError::LJMPNotFoundError { addr: 0 });
    }
    let b1 = input[fs - 4];
    let b2 = input[fs - 3];
    let main_fw_address: u16 = (b1 as u16) * 256 + (b2 as u16);
    if main_fw_address > 0xefff {
        return Err(PayloadConversionError::UnexpectedAddressError {
            source_addr: (fs - 4) as u16,
            target_addr: main_fw_address,
        });
    }
    input.set(1, b1);
    input.set(2, b2);
    input.set(fs - 5, 0x00);
    input.set(fs - 4, 0x00);
    input.set(fs - 3, 0x00);
    Ok(())
}

/// Converting an ISP-layout image to the JTAG layout and back restores it
/// exactly, for every image that starts with a long jump to a valid
/// application address and whose trailing long-jump slot is clear; the
/// intermediate image is a valid input for the inverse conversion.
pub proof fn lemma_convert_round_trip(s: Seq<u8>, fs: int)
    requires
        8 <= fs <= 0xffff,
        fs <= s.len(),
        s[0] == 0x02,
        be16(s[1], s[2]) <= 0xefff,
        s[fs - 5] == 0,
        s[fs - 4] == 0,
        s[fs - 3] == 0,
    ensures
        jtag_image(s, fs)[0] == 0x02,
        jtag_image(s, fs)[fs - 5] == 0x02,
        be16(jtag_image(s, fs)[fs - 4], jtag_image(s, fs)[fs - 3]) <= 0xefff,
        isp_image(jtag_image(s, fs), fs) == s,
{
    assert(isp_image(jtag_image(s, fs), fs) =~= s);
}

/// The uppercase hexadecimal digit for a value below sixteen.
pub open spec fn hex_digit(v: u8) -> char
    recommends
        v < 16,
{
    if v < 10 {
        ((0x30 + v) as u8) as char
    } else {
        ((0x37 + v) as u8) as char
    }
}

/// The two uppercase hexadecimal digits of a byte.
pub open spec fn hex_byte_chars(b: u8) -> Seq<char> {
    seq![hex_digit(b / 16), hex_digit(b % 16)]
}

/// Bytes rendered as two-digit uppercase hexadecimal, separated by spaces.
pub open spec fn hex_string_chars(bytes: Seq<u8>) -> Seq<char>
    decreases bytes.len(),
{
    if bytes.len() == 0 {
        seq![]
    } else if bytes.len() == 1 {
        hex_byte_chars(bytes[0])
    } else {
        hex_string_chars(bytes.drop_last()) + seq![' '] + hex_byte_chars(bytes.last())
    }
}

/// The ASCII byte of the uppercase hexadecimal digit for a value below sixteen.
pub open spec fn hex_digit_byte(v: u8) -> u8
    recommends
        v < 16,
{
    if v < 10 {
        (0x30 + v) as u8
    } else {
        (0x37 + v) as u8
    }
}

/// Relies on String::from_utf8: bytes below 128 decode to the ASCII
/// characters with the same code points, in order.
#[verifier::external_body]
pub(crate) fn ascii_to_string(bytes: &Vec<u8>) -> (r: String)
    requires
        forall|i: int| 0 <= i < bytes@.len() ==> bytes@[i] < 128,
    ensures
        r@.len() == bytes@.len(),
        forall|i: int| 0 <= i < bytes@.len() ==> r@[i] == bytes@[i] as char,
{
    String::from_utf8(bytes.clone()).unwrap_or_default()
}

/// Appends the two hexadecimal digit bytes of `b` to `out`.
pub(crate) fn push_hex_byte(out: &mut Vec<u8>, b: u8)
    ensures
        final(out)@ == old(out)@ + seq![hex_digit_byte(b / 16), hex_digit_byte(b % 16)],
{
    let hi = b / 16;
    let lo = b % 16;
    out.push(if hi < 10 { 0x30 + hi } else { 0x37 + hi });
    out.push(if lo < 10 { 0x30 + lo } else { 0x37 + lo });
}

proof fn lemma_hex_byte_ascii(b: u8)
    ensures
        hex_digit_byte(b / 16) < 128,
        hex_digit_byte(b % 16) < 128,
        hex_digit_byte(b / 16) as char == hex_digit(b / 16),
        hex_digit_byte(b % 16) as char == hex_digit(b % 16),
{
}

/// Renders bytes as space-separated two-digit uppercase hexadecimal.
pub fn to_hex_string(bytes: &[u8]) -> (r: String)
    ensures
        r@ == hex_string_chars(bytes@),
{
    let mut out: Vec<u8> = Vec::new();
    let n = bytes.len();
    let mut i: usize = 0;
    while i < n
        invariant
            n == bytes@.len(),
            i <= n,
            out@.len() == (if i == 0 { 0int } else { 3 * i - 1 }),
            forall|j: int| 0 <= j < out@.len() ==> out@[j] < 128,
            out@.map_values(|b: u8| b as char) == hex_string_chars(bytes@.take(i as int)),
        decreases n - i,
    {
        if i > 0 {
            out.push(0x20);
        }
        let b = bytes[i];
        push_hex_byte(&mut out, b);
        proof {
            lemma_hex_byte_ascii(b);
            assert(bytes@.take(i + 1).drop_last() =~= bytes@.take(i as int));
            assert(bytes@.take(i + 1).last() == b);
            if i == 0 {
                assert(out@.map_values(|x: u8| x as char) =~= hex_byte_chars(b));
            } else {
                assert(out@.map_values(|x: u8| x as char) =~= hex_string_chars(
                    bytes@.take(i as int),
                ) + seq![' '] + hex_byte_chars(b));
            }
        }
        i = i + 1;
    }
    proof {
        assert(bytes@.take(n as int) =~= bytes@);
    }
    let r = ascii_to_string(&out);
    proof {
        assert(r@ =~= out@.map_values(|b: u8| b as char));
    }
    r
}

} // verus!
