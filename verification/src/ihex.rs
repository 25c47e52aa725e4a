//! Intel-HEX text codec: encoding byte buffers into record lines and parsing
//! record lines back into byte buffers.
//!
//! Only `Data` and `EndOfFile` records are unpacked; extended segment and
//! extended linear address records are rejected as unsupported, and start
//! address records are ignored.

use vstd::prelude::*;
use vstd::string::StringSliceAdditionalSpecFns;
use crate::util::hex_digit_byte;

verus! {

/// One parsed record of an Intel-HEX file.
#[derive(Debug, Clone, PartialEq, Eq)]
pub enum Record {
    /// A data record: `value` placed at `offset`.
    Data { offset: u16, value: Vec<u8> },
    /// The end-of-file record; nothing after it is read.
    EndOfFile,
    /// A recognized record type (2 through 5) that carries no data here.
    Other { rtype: u8 },
}

/// The mathematical value of a [`Record`].
pub enum RecordModel {
    Data { offset: int, value: Seq<u8> },
    EndOfFile,
    Other { rtype: u8 },
}

impl View for Record {
    type V = RecordModel;

    open spec fn view(&self) -> RecordModel {
        match self {
            Record::Data { offset, value } => RecordModel::Data {
                offset: *offset as int,
                value: value@,
            },
            Record::EndOfFile => RecordModel::EndOfFile,
            Record::Other { rtype } => RecordModel::Other { rtype: *rtype },
        }
    }
}

/// A record line that cannot be read.
#[derive(Debug, Clone, PartialEq, Eq, Structural)]
pub enum ReaderError {
    MissingStartCode,
    ContainsInvalidCharacters,
    RecordNotEvenLength,
    RecordTooShort,
    PayloadLengthMismatch,
    /// The checksum the line should carry, and the one it carries.
    ChecksumMismatch(u8, u8),
    /// A record type above 5.
    UnsupportedRecordType(u8),
}

/// A record stream that cannot be unpacked into a byte buffer.
#[derive(Debug, Clone, PartialEq, Eq, Structural)]
pub enum UnpackingError {
    /// An extended segment or extended linear address record (type 2 or 4).
    UnsupportedRecordType(u8),
    Parsing(ReaderError),
    /// A data record ends at `addr`, past the buffer size `size`.
    AddressTooHigh { addr: usize, size: usize },
}

/// Any failure of the codec.
#[derive(Debug, Clone, PartialEq, Eq, Structural)]
pub enum ConversionError {
    Unpacking(UnpackingError),
}

/// True of the ASCII bytes of hexadecimal digits.
pub open spec fn is_hex_byte(c: u8) -> bool {
    (0x30 <= c <= 0x39) || (0x41 <= c <= 0x46) || (0x61 <= c <= 0x66)
}

/// The value of an ASCII hexadecimal digit.
pub open spec fn hex_val(c: u8) -> u8
    recommends
        is_hex_byte(c),
{
    if 0x30 <= c <= 0x39 {
        (c - 0x30) as u8
    } else if 0x41 <= c <= 0x46 {
        (c - 0x37) as u8
    } else {
        (c - 0x57) as u8
    }
}

/// True when every byte of `s` is an ASCII hexadecimal digit.
pub open spec fn all_hex(s: Seq<u8>) -> bool {
    forall|i: int| 0 <= i < s.len() ==> is_hex_byte(#[trigger] s[i])
}

/// The bytes decoded from a sequence of hexadecimal digit pairs.
pub open spec fn decode_hex(s: Seq<u8>) -> Seq<u8>
    recommends
        s.len() % 2 == 0,
        all_hex(s),
    decreases s.len(),
{
    if s.len() < 2 {
        seq![]
    } else {
        seq![(hex_val(s[0]) * 16 + hex_val(s[1])) as u8] + decode_hex(s.skip(2))
    }
}

/// The two ASCII hexadecimal digits of a byte, uppercase.
pub open spec fn hex_pair(b: u8) -> Seq<u8> {
    seq![hex_digit_byte(b / 16), hex_digit_byte(b % 16)]
}

/// A byte sequence rendered as ASCII hexadecimal digits, uppercase.
pub open spec fn hex_of(s: Seq<u8>) -> Seq<u8>
    decreases s.len(),
{
    if s.len() == 0 {
        seq![]
    } else {
        hex_pair(s[0]) + hex_of(s.drop_first())
    }
}

/// The sum of a byte sequence, without truncation.
pub open spec fn sum_bytes(s: Seq<u8>) -> int
    decreases s.len(),
{
    if s.len() == 0 {
        0
    } else {
        sum_bytes(s.drop_last()) + s.last()
    }
}

/// The checksum of a record's content bytes: the two's complement of their
/// sum.
pub open spec fn checksum_of(s: Seq<u8>) -> u8 {
    ((256 - sum_bytes(s) % 256) % 256) as u8
}

/// The content bytes of a record before hexadecimal encoding: count, the
/// big-endian offset, the record type, and the payload.
pub open spec fn record_raw(addr: int, rtype: u8, payload: Seq<u8>) -> Seq<u8>
    recommends
        0 <= addr <= 0xffff,
        payload.len() <= 255,
{
    seq![payload.len() as u8, (addr / 256) as u8, (addr % 256) as u8, rtype] + payload
}

/// One full record line: the start code, the content in hexadecimal, and the
/// checksum.
pub open spec fn record_line(addr: int, rtype: u8, payload: Seq<u8>) -> Seq<u8> {
    seq![0x3au8] + hex_of(record_raw(addr, rtype, payload).push(checksum_of(record_raw(
        addr,
        rtype,
        payload,
    ))))
}

/// What one nonempty line parses to.
pub open spec fn spec_parse_record(line: Seq<u8>) -> Result<RecordModel, ReaderError> {
    if line.len() == 0 || line[0] != 0x3a {
        Err(ReaderError::MissingStartCode)
    } else {
        let body = line.drop_first();
        if !all_hex(body) {
            Err(ReaderError::ContainsInvalidCharacters)
        } else if body.len() % 2 != 0 {
            Err(ReaderError::RecordNotEvenLength)
        } else {
            let d = decode_hex(body);
            if d.len() < 5 {
                Err(ReaderError::RecordTooShort)
            } else if d[0] != d.len() - 5 {
                Err(ReaderError::PayloadLengthMismatch)
            } else {
                let content = d.drop_last();
                let ck = d.last();
                if (sum_bytes(content) + ck) % 256 != 0 {
                    Err(ReaderError::ChecksumMismatch(checksum_of(content), ck))
                } else {
                    let rtype = d[3];
                    if rtype == 0 {
                        Ok(RecordModel::Data {
                            offset: d[1] * 256 + d[2],
                            value: d.subrange(4, d.len() - 1),
                        })
                    } else if rtype == 1 {
                        Ok(RecordModel::EndOfFile)
                    } else if rtype <= 5 {
                        Ok(RecordModel::Other { rtype })
                    } else {
                        Err(ReaderError::UnsupportedRecordType(rtype))
                    }
                }
            }
        }
    }
}

/// Reads one record line.
#[verifier::loop_isolation(false)]
fn parse_record(line: &Vec<u8>) -> (r: Result<Record, ReaderError>)
    ensures
        r matches Ok(rec) ==> spec_parse_record(line@) == Ok::<RecordModel, ReaderError>(rec@),
        r matches Err(e) ==> spec_parse_record(line@) == Err::<RecordModel, ReaderError>(e),
        r matches Ok(rec) ==> (rec@ matches RecordModel::Data { offset, value } ==> 0 <= offset
            <= 0xffff && value.len() <= 255),
{
    if line.len() == 0 || line[0] != 0x3a {
        return Err(ReaderError::MissingStartCode);
    }
    let n = line.len();
    let ghost body = line@.drop_first();

    // every byte after the start code must be a hexadecimal digit
    let mut j: usize = 1;
    while j < n
        invariant
            1 <= j <= n,
            n == line@.len(),
            body == line@.drop_first(),
            forall|i: int| 0 <= i < j - 1 ==> is_hex_byte(#[trigger] body[i]),
        decreases n - j,
    {
        let c = line[j];
        if !((0x30 <= c && c <= 0x39) || (0x41 <= c && c <= 0x46) || (0x61 <= c && c <= 0x66)) {
            proof {
                assert(body[j - 1] == c);
                assert(!is_hex_byte(body[j - 1]));
                assert(!all_hex(body));
            }
            return Err(ReaderError::ContainsInvalidCharacters);
        }
        j = j + 1;
    }
    proof {
        assert(all_hex(body));
    }

    if (n - 1) % 2 != 0 {
        return Err(ReaderError::RecordNotEvenLength);
    }

    // decode the digit pairs
    let mut d: Vec<u8> = Vec::new();
    let mut j: usize = 1;
    proof {
        assert(body.skip(0) =~= body);
        assert(d@ + decode_hex(body) =~= decode_hex(body));
    }
    while j < n - 1
        invariant
            1 <= j <= n,
            (j - 1) % 2 == 0,
            n == line@.len(),
            (n - 1) % 2 == 0,
            body == line@.drop_first(),
            all_hex(body),
            decode_hex(body) == d@ + decode_hex(body.skip(j - 1)),
            d@.len() == (j - 1) / 2,
        decreases n - j,
    {
        let hi = line[j];
        let lo = line[j + 1];
        let hv: u8 = if hi <= 0x39 {
            hi - 0x30
        } else if hi <= 0x46 {
            hi - 0x37
        } else {
            hi - 0x57
        };
        let lv: u8 = if lo <= 0x39 {
            lo - 0x30
        } else if lo <= 0x46 {
            lo - 0x37
        } else {
            lo - 0x57
        };
        proof {
            assert(body[j - 1] == hi && is_hex_byte(hi));
            assert(body[j as int] == lo && is_hex_byte(lo));
            assert(hv == hex_val(hi));
            assert(lv == hex_val(lo));
            assert(body.skip(j - 1).len() >= 2);
            assert(body.skip(j - 1)[0] == hi);
            assert(body.skip(j - 1)[1] == lo);
            assert(body.skip(j - 1).skip(2) =~= body.skip(j + 1));
        }
        d.push(hv * 16 + lv);
        proof {
            assert(decode_hex(body.skip(j - 1)) == seq![(hex_val(hi) * 16 + hex_val(lo)) as u8]
                + decode_hex(body.skip(j + 1)));
            assert(d@ + decode_hex(body.skip(j + 1)) =~= (d@.drop_last() + decode_hex(
                body.skip(j - 1),
            )));
        }
        j = j + 2;
    }
    proof {
        assert(j == n);
        assert(body.skip(j - 1) =~= Seq::<u8>::empty());
        assert(decode_hex(body.skip(j - 1)) =~= Seq::<u8>::empty());
        assert(decode_hex(body) =~= d@);
    }

    let dn = d.len();
    if dn < 5 {
        return Err(ReaderError::RecordTooShort);
    }
    if d[0] as usize != dn - 5 {
        return Err(ReaderError::PayloadLengthMismatch);
    }

    proof {
        assert(d@[0] <= 255);
    }

    // checksum: the content bytes and the trailing checksum must cancel
    let mut sum: u32 = 0;
    let mut j: usize = 0;
    while j < dn - 1
        invariant
            0 <= j <= dn - 1,
            dn == d@.len(),
            5 <= dn <= 260,
            sum == sum_bytes(d@.take(j as int)),
            sum <= j * 255,
        decreases dn - 1 - j,
    {
        proof {
            assert(d@.take(j + 1).drop_last() =~= d@.take(j as int));
            assert(d@.take(j + 1).last() == d@[j as int]);
        }
        sum = sum + d[j] as u32;
        j = j + 1;
    }
    proof {
        assert(d@.take(dn - 1) =~= d@.drop_last());
    }
    let ck = d[dn - 1];
    if (sum + ck as u32) % 256 != 0 {
        let expected: u8 = ((256 - (sum % 256)) % 256) as u8;
        proof {
            assert(sum_bytes(d@.drop_last()) >= 0);
            assert(expected == checksum_of(d@.drop_last()));
        }
        return Err(ReaderError::ChecksumMismatch(expected, ck));
    }

    let rtype = d[3];
    if rtype == 0 {
        let offset: u16 = (d[1] as u16) * 256 + (d[2] as u16);
        let mut value: Vec<u8> = Vec::new();
        let mut j: usize = 4;
        while j < dn - 1
            invariant
                4 <= j <= dn - 1,
                dn == d@.len(),
                5 <= dn,
                value@ == d@.subrange(4, j as int),
            decreases dn - 1 - j,
        {
            value.push(d[j]);
            proof {
                assert(d@.subrange(4, j + 1) =~= d@.subrange(4, j as int).push(d@[j as int]));
            }
            j = j + 1;
        }
        proof {
            assert(d@.len() - 5 == d@[0]);
            assert(value@.len() <= 255);
        }
        Ok(Record::Data { offset, value })
    } else if rtype == 1 {
        Ok(Record::EndOfFile)
    } else if rtype <= 5 {
        Ok(Record::Other { rtype })
    } else {
        Err(ReaderError::UnsupportedRecordType(rtype))
    }
}

/// The position of the first line feed in `s`, or `s.len()` if there is none.
pub open spec fn find_lf(s: Seq<u8>) -> nat
    decreases s.len(),
{
    if s.len() == 0 {
        0
    } else if s[0] == 0x0a {
        0
    } else {
        (1 + find_lf(s.drop_first())) as nat
    }
}

proof fn lemma_find_lf(s: Seq<u8>)
    ensures
        find_lf(s) <= s.len(),
        forall|j: int| 0 <= j < find_lf(s) ==> s[j] != 0x0a,
        find_lf(s) == s.len() || s[find_lf(s) as int] == 0x0a,
    decreases s.len(),
{
    if s.len() != 0 && s[0] != 0x0a {
        lemma_find_lf(s.drop_first());
        assert(forall|j: int| 1 <= j < find_lf(s) ==> s[j] == s.drop_first()[j - 1]);
    }
}

proof fn lemma_records_view_push(v: Seq<Record>, r: Record)
    ensures
        records_view(v.push(r)) == records_view(v).push(r@),
{
    let lhs = records_view(v.push(r));
    let rhs = records_view(v).push(r@);
    assert forall|i: int| 0 <= i < lhs.len() implies lhs[i] == rhs[i] by {
        if i < v.len() {
            assert(v.push(r)[i] == v[i]);
        } else {
            assert(v.push(r)[i] == r);
        }
    }
    assert(lhs =~= rhs);
}

/// A line with one trailing carriage return removed.
pub open spec fn strip_cr(line: Seq<u8>) -> Seq<u8> {
    if line.len() > 0 && line.last() == 0x0d {
        line.drop_last()
    } else {
        line
    }
}

/// What a whole text parses to: its nonempty lines read in order, stopping at
/// the first end-of-file record or the first unreadable line.
pub open spec fn spec_parse_lines(s: Seq<u8>) -> Result<Seq<RecordModel>, ReaderError>
    decreases s.len(),
{
    if s.len() == 0 {
        Ok(seq![])
    } else {
        let k = find_lf(s);
        let line = strip_cr(s.take(k as int));
        if k >= s.len() {
            if line.len() == 0 {
                Ok(seq![])
            } else {
                match spec_parse_record(line) {
                    Err(e) => Err(e),
                    Ok(RecordModel::EndOfFile) => Ok(seq![RecordModel::EndOfFile]),
                    Ok(r) => Ok(seq![r]),
                }
            }
        } else {
            let rest = s.skip(k + 1int);
            if line.len() == 0 {
                spec_parse_lines(rest)
            } else {
                match spec_parse_record(line) {
                    Err(e) => Err(e),
                    Ok(RecordModel::EndOfFile) => Ok(seq![RecordModel::EndOfFile]),
                    Ok(r) => match spec_parse_lines(rest) {
                        Err(e) => Err(e),
                        Ok(rs) => Ok(seq![r] + rs),
                    },
                }
            }
        }
    }
}

/// The mathematical values of a sequence of records.
pub open spec fn records_view(v: Seq<Record>) -> Seq<RecordModel> {
    v.map_values(|r: Record| r@)
}

/// A record prefix placed in front of a parse outcome.
pub open spec fn spec_combine(
    pre: Seq<RecordModel>,
    res: Result<Seq<RecordModel>, ReaderError>,
) -> Result<Seq<RecordModel>, ReaderError> {
    match res {
        Ok(rs) => Ok(pre + rs),
        Err(e) => Err(e),
    }
}

proof fn lemma_combine_step(
    pre: Seq<RecordModel>,
    r: RecordModel,
    res: Result<Seq<RecordModel>, ReaderError>,
)
    ensures
        spec_combine(pre, spec_combine(seq![r], res)) == spec_combine(pre.push(r), res),
{
    match res {
        Ok(rs) => {
            assert(pre + (seq![r] + rs) =~= pre.push(r) + rs);
        },
        Err(_) => {},
    }
}

/// Reads every record line of a text, in order, stopping at the first
/// end-of-file record; an unreadable line fails the whole read.
#[verifier::loop_isolation(false)]
#[verifier::rlimit(60)]
pub fn parse_records(text: &[u8]) -> (r: Result<Vec<Record>, ReaderError>)
    ensures
        r matches Ok(v) ==> spec_parse_lines(text@) == Ok::<Seq<RecordModel>, ReaderError>(
            records_view(v@),
        ),
        r matches Err(e) ==> spec_parse_lines(text@) == Err::<Seq<RecordModel>, ReaderError>(e),
        r matches Ok(v) ==> forall|i: int|
            0 <= i < v@.len() ==> (#[trigger] v@[i]@ matches RecordModel::Data { offset, value }
                ==> 0 <= offset <= 0xffff && value.len() <= 255),
{
    let n = text.len();
    let mut recs: Vec<Record> = Vec::new();
    let mut pos: usize = 0;
    proof {
        assert(text@.skip(0) =~= text@);
        assert(records_view(recs@) =~= Seq::<RecordModel>::empty());
        match spec_parse_lines(text@) {
            Ok(rs) => {
                assert(Seq::<RecordModel>::empty() + rs =~= rs);
            },
            Err(_) => {},
        }
    }
    while pos < n
        invariant
            pos <= n,
            spec_parse_lines(text@) == spec_combine(
                records_view(recs@),
                spec_parse_lines(text@.skip(pos as int)),
            ),
            forall|i: int|
                0 <= i < recs@.len() ==> (#[trigger] recs@[i]@ matches RecordModel::Data {
                    offset,
                    value,
                } ==> 0 <= offset <= 0xffff && value.len() <= 255),
        decreases n - pos,
    {
        let ghost s = text@.skip(pos as int);

        // find the end of the line
        let mut k: usize = pos;
        while k < n && text[k] != 0x0a
            invariant
                pos <= k <= n,
                forall|j: int| pos <= j < k ==> text@[j] != 0x0a,
            decreases n - k,
        {
            k = k + 1;
        }
        proof {
            lemma_find_lf(s);
            assert(forall|j: int| 0 <= j < k - pos ==> s[j] != 0x0a);
            if k < n {
                assert(s[k - pos] == 0x0a);
            }
            assert(find_lf(s) == k - pos);
        }

        // copy the line out, stripping one trailing carriage return
        let end = if k > pos && text[k - 1] == 0x0d {
            k - 1
        } else {
            k
        };
        let mut line: Vec<u8> = Vec::new();
        let mut t: usize = pos;
        while t < end
            invariant
                pos <= t <= end <= n,
                line@ == text@.subrange(pos as int, t as int),
            decreases end - t,
        {
            line.push(text[t]);
            proof {
                assert(text@.subrange(pos as int, t + 1) =~= text@.subrange(
                    pos as int,
                    t as int,
                ).push(text@[t as int]));
            }
            t = t + 1;
        }
        proof {
            assert(s.take(k - pos) =~= text@.subrange(pos as int, k as int));
            if k > pos && text@[k - 1] == 0x0d {
                assert(s.take(k - pos).last() == 0x0d);
                assert(strip_cr(s.take(k - pos)) =~= text@.subrange(pos as int, k - 1));
            } else {
                assert(strip_cr(s.take(k - pos)) =~= text@.subrange(pos as int, k as int));
            }
            assert(line@ == strip_cr(s.take(k - pos)));
        }

        if line.len() > 0 {
            match parse_record(&line) {
                Err(e) => {
                    return Err(e);
                },
                Ok(Record::EndOfFile) => {
                    let ghost prev = recs@;
                    recs.push(Record::EndOfFile);
                    proof {
                        lemma_records_view_push(prev, Record::EndOfFile);
                        assert(spec_parse_lines(s) == Ok::<Seq<RecordModel>, ReaderError>(
                            seq![RecordModel::EndOfFile],
                        ));
                        assert(records_view(prev) + seq![RecordModel::EndOfFile] =~= records_view(
                            prev,
                        ).push(RecordModel::EndOfFile));
                    }
                    return Ok(recs);
                },
                Ok(rec) => {
                    let ghost prev = recs@;
                    let ghost recm = rec@;
                    proof {
                        if k < n {
                            assert(s.skip(k - pos + 1int) =~= text@.skip(k + 1));
                            assert(spec_parse_lines(s) == spec_combine(
                                seq![recm],
                                spec_parse_lines(text@.skip(k + 1)),
                            ));
                            lemma_combine_step(
                                records_view(prev),
                                recm,
                                spec_parse_lines(text@.skip(k + 1)),
                            );
                        } else {
                            assert(spec_parse_lines(s) == Ok::<Seq<RecordModel>, ReaderError>(
                                seq![recm],
                            ));
                            assert(seq![recm] + seq![] =~= seq![recm]);
                            assert(spec_parse_lines(s) == spec_combine(
                                seq![recm],
                                Ok::<Seq<RecordModel>, ReaderError>(seq![]),
                            ));
                            lemma_combine_step(
                                records_view(prev),
                                recm,
                                Ok::<Seq<RecordModel>, ReaderError>(seq![]),
                            );
                        }
                    }
                    recs.push(rec);
                    proof {
                        lemma_records_view_push(prev, recs@.last());
                        assert(recs@ =~= prev.push(recs@.last()));
                    }
                },
            }
        } else {
            proof {
                if k < n {
                    assert(s.skip(k - pos + 1) =~= text@.skip(k + 1));
                    assert(spec_parse_lines(s) == spec_parse_lines(text@.skip(k + 1)));
                } else {
                    assert(spec_parse_lines(s) == Ok::<Seq<RecordModel>, ReaderError>(seq![]));
                }
            }
        }

        pos = if k < n {
            k + 1
        } else {
            n
        };
        proof {
            if pos == n {
                assert(text@.skip(n as int) =~= Seq::<u8>::empty());
            }
        }
    }
    proof {
        assert(text@.skip(n as int) =~= Seq::<u8>::empty());
        assert(spec_parse_lines(Seq::<u8>::empty()) == Ok::<Seq<RecordModel>, ReaderError>(seq![]));
        assert(records_view(recs@) + seq![] =~= records_view(recs@));
    }
    Ok(recs)
}

/// `val` written into `acc` at `off`, growing `acc` with zeroes first where
/// it ends before `off + val.len()`.
pub open spec fn write_at(acc: Seq<u8>, off: int, val: Seq<u8>) -> Seq<u8>
    recommends
        0 <= off,
{
    let end = off + val.len();
    let base = if end > acc.len() {
        acc + Seq::new((end - acc.len()) as nat, |i: int| 0u8)
    } else {
        acc
    };
    Seq::new(base.len(), |i: int| if off <= i < end { val[i - off] } else { base[i] })
}

/// The byte buffer a record stream unpacks to, over the accumulator `acc`:
/// data records are written at their offset, start-address records are
/// ignored, the first end-of-file record ends the stream, and extended
/// address records are rejected.
pub open spec fn spec_unpack_records(
    records: Seq<RecordModel>,
    max: int,
    acc: Seq<u8>,
) -> Result<Seq<u8>, UnpackingError>
    decreases records.len(),
{
    if records.len() == 0 {
        Ok(acc)
    } else {
        match records[0] {
            RecordModel::Data { offset, value } => {
                let end = offset + value.len();
                if end > max {
                    Err(UnpackingError::AddressTooHigh { addr: end as usize, size: max as usize })
                } else {
                    spec_unpack_records(records.drop_first(), max, write_at(acc, offset, value))
                }
            },
            RecordModel::EndOfFile => Ok(acc),
            RecordModel::Other { rtype } => {
                if rtype == 3 || rtype == 5 {
                    spec_unpack_records(records.drop_first(), max, acc)
                } else {
                    Err(UnpackingError::UnsupportedRecordType(rtype))
                }
            },
        }
    }
}

/// Unpacks a record stream into one byte buffer of at most `max_length`
/// bytes; gaps left by the data records read as zero.
#[verifier::loop_isolation(false)]
pub fn unpack_records(records: &Vec<Record>, max_length: usize) -> (r: Result<
    Vec<u8>,
    UnpackingError,
>)
    requires
        forall|i: int|
            0 <= i < records@.len() ==> (#[trigger] records@[i]@ matches RecordModel::Data {
                offset,
                value,
            } ==> 0 <= offset && offset + value.len() <= usize::MAX),
    ensures
        r matches Ok(v) ==> spec_unpack_records(records_view(records@), max_length as int, seq![])
            == Ok::<Seq<u8>, UnpackingError>(v@),
        r matches Err(e) ==> spec_unpack_records(records_view(records@), max_length as int, seq![])
            == Err::<Seq<u8>, UnpackingError>(e),
{
    let mut out: Vec<u8> = Vec::new();
    let mut idx: usize = 0;
    let n = records.len();
    proof {
        assert(records_view(records@).skip(0) =~= records_view(records@));
    }
    while idx < n
        invariant
            idx <= n,
            n == records@.len(),
            spec_unpack_records(records_view(records@), max_length as int, seq![])
                == spec_unpack_records(
                records_view(records@).skip(idx as int),
                max_length as int,
                out@,
            ),
        decreases n - idx,
    {
        let ghost rem = records_view(records@).skip(idx as int);
        proof {
            assert(rem[0] == records@[idx as int]@);
            assert(rem.drop_first() =~= records_view(records@).skip(idx + 1));
        }
        match &records[idx] {
            Record::Data { offset, value } => {
                let off = *offset as usize;
                let end = off + value.len();
                if end > max_length {
                    return Err(UnpackingError::AddressTooHigh { addr: end, size: max_length });
                }
                let ghost base_before = out@;
                while out.len() < end
                    invariant
                        out@.len() <= end || out@ == base_before,
                        base_before.len() >= end ==> out@ == base_before,
                        base_before.len() < end ==> out@.len() >= base_before.len(),
                        base_before.len() < end ==> out@ == base_before + Seq::new(
                            (out@.len() - base_before.len()) as nat,
                            |i: int| 0u8,
                        ),
                    decreases end - out@.len(),
                {
                    out.push(0);
                    proof {
                        assert(out@ =~= base_before + Seq::new(
                            (out@.len() - base_before.len()) as nat,
                            |i: int| 0u8,
                        ));
                    }
                }
                let ghost grown = out@;
                proof {
                    if base_before.len() < end {
                        assert(grown == base_before + Seq::new(
                            (grown.len() - base_before.len()) as nat,
                            |i: int| 0u8,
                        ));
                        assert(grown.len() == end);
                    }
                }
                let m = value.len();
                let mut j: usize = 0;
                while j < m
                    invariant
                        j <= m,
                        m == value@.len(),
                        off + m <= out@.len(),
                        out@.len() == grown.len(),
                        forall|t: int| 0 <= t < j ==> out@[off + t] == value@[t],
                        forall|t: int|
                            0 <= t < out@.len() && !(off <= t < off + j) ==> out@[t] == grown[t],
                    decreases m - j,
                {
                    out.set(off + j, value[j]);
                    j = j + 1;
                }
                proof {
                    assert(out@ =~= write_at(base_before, off as int, value@));
                }
            },
            Record::EndOfFile => {
                return Ok(out);
            },
            Record::Other { rtype } => {
                let t = *rtype;
                if t == 3 || t == 5 {
                } else {
                    return Err(UnpackingError::UnsupportedRecordType(t));
                }
            },
        }
        idx = idx + 1;
    }
    proof {
        assert(records_view(records@).skip(n as int) =~= Seq::<RecordModel>::empty());
    }
    Ok(out)
}

/// The byte buffer an Intel-HEX text decodes to.
pub open spec fn spec_from_ihex(text: Seq<u8>, max: int) -> Result<Seq<u8>, ConversionError> {
    match spec_parse_lines(text) {
        Err(e) => Err(ConversionError::Unpacking(UnpackingError::Parsing(e))),
        Ok(rs) => match spec_unpack_records(rs, max, seq![]) {
            Err(e) => Err(ConversionError::Unpacking(e)),
            Ok(v) => Ok(v),
        },
    }
}

/// Decodes an Intel-HEX text into the byte buffer it describes, which must
/// fit within `max_length` bytes.
pub fn from_ihex(ihex_string: &str, max_length: usize) -> (r: Result<Vec<u8>, ConversionError>)
    ensures
        r matches Ok(v) ==> spec_from_ihex(ihex_string.spec_bytes(), max_length as int) == Ok::<
            Seq<u8>,
            ConversionError,
        >(v@),
        r matches Err(e) ==> spec_from_ihex(ihex_string.spec_bytes(), max_length as int) == Err::<
            Seq<u8>,
            ConversionError,
        >(e),
{
    let text = ihex_string.as_bytes();
    match parse_records(text) {
        Err(e) => Err(ConversionError::Unpacking(UnpackingError::Parsing(e))),
        Ok(records) => match unpack_records(&records, max_length) {
            Err(e) => Err(ConversionError::Unpacking(e)),
            Ok(v) => Ok(v),
        },
    }
}

/// The end-of-file record line.
pub open spec fn eof_line() -> Seq<u8> {
    record_line(0, 1, seq![])
}

/// The data record lines of a buffer, in 16-byte chunks from `offset`, each
/// line followed by a line feed.
pub open spec fn data_lines_from(data: Seq<u8>, offset: int) -> Seq<u8>
    decreases data.len(),
{
    if data.len() == 0 {
        seq![]
    } else if data.len() <= 16 {
        record_line(offset, 0, data) + seq![0x0au8]
    } else {
        record_line(offset, 0, data.take(16)) + seq![0x0au8] + data_lines_from(
            data.skip(16),
            offset + 16,
        )
    }
}

/// The full Intel-HEX text of a buffer: its data record lines and the
/// end-of-file record line.
pub open spec fn ihex_text_bytes(data: Seq<u8>) -> Seq<u8> {
    data_lines_from(data, 0) + eof_line()
}

proof fn lemma_sum_bytes_push(s: Seq<u8>, b: u8)
    ensures
        sum_bytes(s.push(b)) == sum_bytes(s) + b,
{
    assert(s.push(b).drop_last() =~= s);
    assert(s.push(b).last() == b);
}

proof fn lemma_sum_bytes_empty()
    ensures
        sum_bytes(Seq::<u8>::empty()) == 0,
{
}

proof fn lemma_hex_of_empty()
    ensures
        hex_of(Seq::<u8>::empty()) == Seq::<u8>::empty(),
{
}

proof fn lemma_hex_of_append(a: Seq<u8>, b: Seq<u8>)
    ensures
        hex_of(a + b) == hex_of(a) + hex_of(b),
    decreases a.len(),
{
    if a.len() == 0 {
        assert(a + b =~= b);
        assert(hex_of(a) + hex_of(b) =~= hex_of(b));
    } else {
        assert((a + b)[0] == a[0]);
        assert((a + b).len() > 0);
        assert((a + b).drop_first() =~= a.drop_first() + b);
        lemma_hex_of_append(a.drop_first(), b);
        assert(hex_of(a + b) =~= hex_of(a) + hex_of(b));
    }
}

proof fn lemma_hex_of_singleton(x: u8)
    ensures
        hex_of(seq![x]) == hex_pair(x),
{
    lemma_hex_of_empty();
    assert(seq![x].len() == 1 && seq![x][0] == x);
    assert(seq![x].drop_first() =~= Seq::<u8>::empty());
    assert(hex_of(seq![x]) == hex_pair(x) + hex_of(seq![x].drop_first()));
    assert(hex_pair(x) + Seq::<u8>::empty() =~= hex_pair(x));
}

proof fn lemma_hex_of_push(s: Seq<u8>, x: u8)
    ensures
        hex_of(s.push(x)) == hex_of(s) + hex_pair(x),
{
    assert(s.push(x) =~= s + seq![x]);
    lemma_hex_of_append(s, seq![x]);
    lemma_hex_of_singleton(x);
}

/// Appends one record line (without a trailing line feed) to `out`.
#[verifier::loop_isolation(false)]
fn push_record_line(out: &mut Vec<u8>, addr: u16, rtype: u8, data: &Vec<u8>, from: usize, to: usize)
    requires
        from <= to <= data@.len(),
        to - from <= 255,
    ensures
        final(out)@ == old(out)@ + record_line(
            addr as int,
            rtype,
            data@.subrange(from as int, to as int),
        ),
        forall|i: int|
            old(out)@.len() <= i < final(out)@.len() ==> #[trigger] final(out)@[i] < 128,
{
    let ghost payload = data@.subrange(from as int, to as int);
    let ghost base = out@;

    let count: u8 = (to - from) as u8;
    let hi: u8 = (addr / 256) as u8;
    let lo: u8 = (addr % 256) as u8;

    out.push(0x3a);
    crate::util::push_hex_byte(out, count);
    crate::util::push_hex_byte(out, hi);
    crate::util::push_hex_byte(out, lo);
    crate::util::push_hex_byte(out, rtype);

    let ghost header = seq![count, hi, lo, rtype];
    proof {
        let h1 = seq![count];
        let h2 = h1.push(hi);
        let h3 = h2.push(lo);
        let h4 = h3.push(rtype);
        assert(header =~= h4);
        lemma_hex_of_singleton(count);
        lemma_hex_of_push(h1, hi);
        lemma_hex_of_push(h2, lo);
        lemma_hex_of_push(h3, rtype);
        assert(hex_of(header) =~= hex_pair(count) + hex_pair(hi) + hex_pair(lo) + hex_pair(rtype));
        assert(out@ =~= base + seq![0x3au8] + hex_of(header + payload.take(0))) by {
            assert(header + payload.take(0) =~= header);
        }
        lemma_sum_bytes_empty();
        assert(Seq::<u8>::empty().push(count) =~= h1);
        lemma_sum_bytes_push(Seq::<u8>::empty(), count);
        lemma_sum_bytes_push(h1, hi);
        lemma_sum_bytes_push(h2, lo);
        lemma_sum_bytes_push(h3, rtype);
        assert(sum_bytes(header) == count + hi + lo + rtype);
        assert(sum_bytes(header + payload.take(0)) == count + hi + lo + rtype) by {
            assert(header + payload.take(0) =~= header);
        }
    }

    let mut sum: u32 = count as u32 + hi as u32 + lo as u32 + rtype as u32;
    let mut j: usize = from;
    while j < to
        invariant
            from <= j <= to,
            sum == sum_bytes(header + payload.take(j - from)),
            sum <= (4 + (j - from)) * 255,
            out@ == base + seq![0x3au8] + hex_of(header + payload.take(j - from)),
        decreases to - j,
    {
        let b = data[j];
        crate::util::push_hex_byte(out, b);
        sum = sum + b as u32;
        proof {
            assert(payload[j - from] == b);
            assert(header + payload.take(j - from + 1) =~= (header + payload.take(j - from)).push(
                b,
            ));
            lemma_sum_bytes_push(header + payload.take(j - from), b);
            lemma_hex_of_push(header + payload.take(j - from), b);
            assert(out@ =~= base + seq![0x3au8] + hex_of(header + payload.take(j - from + 1)));
        }
        j = j + 1;
    }

    let ghost content = header + payload;
    proof {
        assert(payload.take(to - from) =~= payload);
        assert(sum == sum_bytes(content));
        assert(sum_bytes(content) >= 0);
    }
    let ck: u8 = ((256 - (sum % 256)) % 256) as u8;
    crate::util::push_hex_byte(out, ck);
    proof {
        assert(ck == checksum_of(content));
        lemma_hex_of_push(content, ck);
        assert(out@ =~= base + record_line(addr as int, rtype, payload));
        assert forall|i: int| base.len() <= i < out@.len() implies #[trigger] out@[i] < 128 by {
            let line = record_line(addr as int, rtype, payload);
            assert(out@[i] == line[i - base.len()]);
            lemma_hex_of_ascii(content.push(ck));
        }
    }
}

proof fn lemma_hex_of_ascii(s: Seq<u8>)
    ensures
        forall|i: int| 0 <= i < hex_of(s).len() ==> #[trigger] hex_of(s)[i] < 128,
        hex_of(s).len() == 2 * s.len(),
    decreases s.len(),
{
    if s.len() > 0 {
        lemma_hex_of_ascii(s.drop_first());
    }
}

/// Encodes a byte buffer as Intel-HEX text: one data record per 16-byte
/// chunk, in ascending address order, then the end-of-file record.
#[verifier::loop_isolation(false)]
pub fn to_ihex(byte_array: Vec<u8>) -> (r: Result<String, ConversionError>)
    requires
        byte_array@.len() <= 0x10000,
    ensures
        r matches Ok(s) ==> vstd::utf8::is_ascii_chars(s@) && vstd::utf8::encode_utf8(s@)
            == ihex_text_bytes(byte_array@),
        r is Ok,
{
    let n = byte_array.len();
    let mut out: Vec<u8> = Vec::new();
    let mut i: usize = 0;
    proof {
        assert(byte_array@.skip(0) =~= byte_array@);
        assert(out@ + data_lines_from(byte_array@, 0) =~= data_lines_from(byte_array@, 0));
    }
    while i < n
        invariant
            i <= n,
            n == byte_array@.len() <= 0x10000,
            out@ + data_lines_from(byte_array@.skip(i as int), i as int) == data_lines_from(
                byte_array@,
                0,
            ),
            forall|t: int| 0 <= t < out@.len() ==> #[trigger] out@[t] < 128,
        decreases n - i,
    {
        let end = if n - i < 16 {
            n
        } else {
            i + 16
        };
        push_record_line(&mut out, i as u16, 0, &byte_array, i, end);
        out.push(0x0a);
        proof {
            let rem = byte_array@.skip(i as int);
            if n - i <= 16 {
                assert(rem.len() <= 16);
                assert(byte_array@.subrange(i as int, end as int) =~= rem);
                assert(byte_array@.skip(end as int) =~= Seq::<u8>::empty());
                assert(data_lines_from(rem, i as int) == record_line(i as int, 0, rem) + seq![
                    0x0au8,
                ]);
            } else {
                assert(byte_array@.subrange(i as int, end as int) =~= rem.take(16));
                assert(rem.skip(16) =~= byte_array@.skip(end as int));
                assert(data_lines_from(rem, i as int) == record_line(i as int, 0, rem.take(16))
                    + seq![0x0au8] + data_lines_from(byte_array@.skip(end as int), end as int));
            }
            assert(out@ + data_lines_from(byte_array@.skip(end as int), end as int)
                =~= data_lines_from(byte_array@, 0));
        }
        i = end;
    }
    proof {
        assert(byte_array@.skip(n as int) =~= Seq::<u8>::empty());
        assert(out@ + Seq::<u8>::empty() =~= out@);
        assert(out@ == data_lines_from(byte_array@, 0));
    }
    let before_eof = out.len();
    push_record_line(&mut out, 0, 1, &byte_array, 0, 0);
    proof {
        assert(byte_array@.subrange(0, 0) =~= Seq::<u8>::empty());
        assert(out@ == ihex_text_bytes(byte_array@));
    }
    let s = crate::util::ascii_to_string(&out);
    proof {
        lemma_ascii_chars_bytes(out@, s@);
    }
    Ok(s)
}

proof fn lemma_ascii_chars_bytes(text: Seq<u8>, chars: Seq<char>)
    requires
        chars.len() == text.len(),
        forall|i: int| 0 <= i < text.len() ==> #[trigger] text[i] < 128,
        forall|i: int| 0 <= i < text.len() ==> chars[i] == #[trigger] (text[i] as char),
    ensures
        vstd::utf8::is_ascii_chars(chars),
        vstd::utf8::encode_utf8(chars) == text,
{
    assert forall|i: int| 0 <= i < chars.len() implies '\0' <= #[trigger] chars[i] <= '\u{7f}' by {
        assert(chars[i] == (text[i] as char));
        assert(text[i] < 128);
        assert((text[i] as char) as u32 == text[i] as u32);
        assert('\u{7f}' as u32 == 127);
        assert('\0' as u32 == 0);
    }
    vstd::utf8::is_ascii_chars_encode_utf8(chars);
    assert forall|i: int| 0 <= i < text.len() implies vstd::utf8::encode_utf8(chars)[i] == text[i]
        by {
        assert(vstd::utf8::encode_utf8(chars)[i] == chars[i] as u8);
        assert((text[i] as char) as u8 == text[i]);
    }
    assert(vstd::utf8::encode_utf8(chars) =~= text);
}

proof fn lemma_sum_bytes_nonneg(s: Seq<u8>)
    ensures
        sum_bytes(s) >= 0,
    decreases s.len(),
{
    if s.len() > 0 {
        lemma_sum_bytes_nonneg(s.drop_last());
    }
}

proof fn lemma_hex_of_props(s: Seq<u8>)
    ensures
        hex_of(s).len() == 2 * s.len(),
        all_hex(hex_of(s)),
        decode_hex(hex_of(s)) == s,
    decreases s.len(),
{
    if s.len() == 0 {
    } else {
        lemma_hex_of_props(s.drop_first());
        let h = hex_of(s);
        let b = s[0];
        assert(h == hex_pair(b) + hex_of(s.drop_first()));
        assert(h[0] == crate::util::hex_digit_byte(b / 16));
        assert(h[1] == crate::util::hex_digit_byte(b % 16));
        assert(is_hex_byte(h[0]) && is_hex_byte(h[1]));
        assert forall|i: int| 0 <= i < h.len() implies is_hex_byte(#[trigger] h[i]) by {
            if i >= 2 {
                assert(h[i] == hex_of(s.drop_first())[i - 2]);
            }
        }
        assert(hex_val(h[0]) == b / 16);
        assert(hex_val(h[1]) == b % 16);
        assert(h.skip(2) =~= hex_of(s.drop_first()));
        assert(decode_hex(h) == seq![(hex_val(h[0]) * 16 + hex_val(h[1])) as u8] + decode_hex(
            h.skip(2),
        ));
        assert((hex_val(h[0]) * 16 + hex_val(h[1])) as u8 == b);
        assert(decode_hex(h) =~= s);
    }
}

/// A record line holds only the start code and hexadecimal digits, so it
/// holds no line feed and no carriage return.
proof fn lemma_record_line_chars(addr: int, rtype: u8, payload: Seq<u8>)
    ensures
        record_line(addr, rtype, payload).len() == 11 + 2 * payload.len(),
        record_line(addr, rtype, payload)[0] == 0x3a,
        forall|i: int|
            0 <= i < record_line(addr, rtype, payload).len() ==> #[trigger] record_line(
                addr,
                rtype,
                payload,
            )[i] != 0x0a && record_line(addr, rtype, payload)[i] != 0x0d,
{
    let raw = record_raw(addr, rtype, payload).push(checksum_of(record_raw(addr, rtype, payload)));
    lemma_hex_of_props(raw);
    let line = record_line(addr, rtype, payload);
    assert(raw.len() == 5 + payload.len());
    assert forall|i: int| 0 <= i < line.len() implies #[trigger] line[i] != 0x0a && line[i]
        != 0x0d by {
        if i >= 1 {
            assert(line[i] == hex_of(raw)[i - 1]);
            assert(is_hex_byte(hex_of(raw)[i - 1]));
        }
    }
}

/// A well-formed record line parses back to the record it encodes.
proof fn lemma_record_line_parses(addr: int, rtype: u8, payload: Seq<u8>)
    requires
        0 <= addr <= 0xffff,
        payload.len() <= 255,
    ensures
        rtype == 0 ==> spec_parse_record(record_line(addr, rtype, payload)) == Ok::<
            RecordModel,
            ReaderError,
        >(RecordModel::Data { offset: addr, value: payload }),
        rtype == 1 ==> spec_parse_record(record_line(addr, rtype, payload)) == Ok::<
            RecordModel,
            ReaderError,
        >(RecordModel::EndOfFile),
{
    let raw = record_raw(addr, rtype, payload);
    let ck = checksum_of(raw);
    let d0 = raw.push(ck);
    lemma_hex_of_props(d0);
    let line = record_line(addr, rtype, payload);
    assert(line[0] == 0x3a);
    let body = line.drop_first();
    assert(body =~= hex_of(d0));
    assert(all_hex(body));
    assert(body.len() % 2 == 0);
    assert(decode_hex(body) == d0);
    assert(d0.len() == 5 + payload.len());
    assert(d0[0] == payload.len() as u8);
    assert(d0[0] == d0.len() - 5);
    assert(d0.drop_last() =~= raw);
    assert(d0.last() == ck);
    lemma_sum_bytes_nonneg(raw);
    assert((sum_bytes(raw) + ck) % 256 == 0) by {
        let m = sum_bytes(raw) % 256;
        assert(0 <= m < 256);
        assert(ck == ((256 - m) % 256) as u8);
    }
    assert(d0[3] == rtype);
    if rtype == 0 {
        assert(d0[1] * 256 + d0[2] == addr);
        assert(d0.subrange(4, d0.len() - 1) =~= payload);
    }
}

/// One line followed by a line feed parses as that line's record in front of
/// whatever the rest parses to.
proof fn lemma_parse_lines_cons(line: Seq<u8>, rest: Seq<u8>)
    requires
        line.len() > 0,
        forall|i: int| 0 <= i < line.len() ==> #[trigger] line[i] != 0x0a,
        line.last() != 0x0d,
    ensures
        spec_parse_lines(line + seq![0x0au8] + rest) == (match spec_parse_record(line) {
            Err(e) => Err::<Seq<RecordModel>, ReaderError>(e),
            Ok(RecordModel::EndOfFile) => Ok(seq![RecordModel::EndOfFile]),
            Ok(r) => spec_combine(seq![r], spec_parse_lines(rest)),
        }),
{
    let s = line + seq![0x0au8] + rest;
    lemma_find_lf(s);
    assert(s[line.len() as int] == 0x0a);
    assert forall|j: int| 0 <= j < line.len() implies s[j] != 0x0a by {
        assert(s[j] == line[j]);
    }
    let k = find_lf(s);
    assert(k == line.len());
    assert(s.take(k as int) =~= line);
    assert(strip_cr(line) == line);
    assert(k < s.len());
    assert(s.skip(k + 1int) =~= rest);
    match spec_parse_record(line) {
        Err(_) => {},
        Ok(r) => {
            if !(r is EndOfFile) {
                match spec_parse_lines(rest) {
                    Err(_) => {},
                    Ok(_) => {},
                }
            }
        },
    }
}

/// A lone line with no trailing line feed parses as just its record.
proof fn lemma_parse_lines_last(line: Seq<u8>)
    requires
        line.len() > 0,
        forall|i: int| 0 <= i < line.len() ==> #[trigger] line[i] != 0x0a,
        line.last() != 0x0d,
    ensures
        spec_parse_lines(line) == (match spec_parse_record(line) {
            Err(e) => Err::<Seq<RecordModel>, ReaderError>(e),
            Ok(RecordModel::EndOfFile) => Ok(seq![RecordModel::EndOfFile]),
            Ok(r) => Ok(seq![r]),
        }),
{
    lemma_find_lf(line);
    let k = find_lf(line);
    assert(k == line.len());
    assert(line.take(k as int) =~= line);
    assert(strip_cr(line) == line);
}

/// The data records that encoding a buffer produces.
pub open spec fn data_records(data: Seq<u8>, offset: int) -> Seq<RecordModel>
    decreases data.len(),
{
    if data.len() == 0 {
        seq![]
    } else if data.len() <= 16 {
        seq![RecordModel::Data { offset, value: data }]
    } else {
        seq![RecordModel::Data { offset, value: data.take(16) }] + data_records(
            data.skip(16),
            offset + 16,
        )
    }
}

/// The encoded text of a buffer parses back to its data records followed by
/// the end-of-file record.
proof fn lemma_parse_of_encoding(data: Seq<u8>, offset: int)
    requires
        0 <= offset,
        offset + data.len() <= 0x10000,
        offset <= 0xffff,
    ensures
        spec_parse_lines(data_lines_from(data, offset) + eof_line()) == Ok::<
            Seq<RecordModel>,
            ReaderError,
        >(data_records(data, offset).push(RecordModel::EndOfFile)),
    decreases data.len(),
{
    lemma_record_line_chars(0, 1, seq![]);
    lemma_record_line_parses(0, 1, seq![]);
    if data.len() == 0 {
        assert(data_lines_from(data, offset) + eof_line() =~= eof_line());
        lemma_parse_lines_last(eof_line());
        assert(data_records(data, offset).push(RecordModel::EndOfFile) =~= seq![
            RecordModel::EndOfFile,
        ]);
    } else if data.len() <= 16 {
        let line = record_line(offset, 0, data);
        lemma_record_line_chars(offset, 0, data);
        lemma_record_line_parses(offset, 0, data);
        assert(data_lines_from(data, offset) + eof_line() =~= line + seq![0x0au8] + eof_line());
        lemma_parse_lines_cons(line, eof_line());
        lemma_parse_lines_last(eof_line());
        let r = RecordModel::Data { offset, value: data };
        assert(spec_parse_lines(line + seq![0x0au8] + eof_line()) == spec_combine(
            seq![r],
            Ok::<Seq<RecordModel>, ReaderError>(seq![RecordModel::EndOfFile]),
        ));
        assert(seq![r] + seq![RecordModel::EndOfFile] =~= data_records(data, offset).push(
            RecordModel::EndOfFile,
        ));
    } else {
        let chunk = data.take(16);
        let line = record_line(offset, 0, chunk);
        lemma_record_line_chars(offset, 0, chunk);
        lemma_record_line_parses(offset, 0, chunk);
        lemma_parse_of_encoding(data.skip(16), offset + 16);
        let tail = data_lines_from(data.skip(16), offset + 16) + eof_line();
        assert(data_lines_from(data, offset) + eof_line() =~= line + seq![0x0au8] + tail);
        lemma_parse_lines_cons(line, tail);
        let r = RecordModel::Data { offset, value: chunk };
        assert(spec_parse_lines(line + seq![0x0au8] + tail) == spec_combine(
            seq![r],
            Ok::<Seq<RecordModel>, ReaderError>(
                data_records(data.skip(16), offset + 16).push(RecordModel::EndOfFile),
            ),
        ));
        assert(seq![r] + data_records(data.skip(16), offset + 16).push(RecordModel::EndOfFile)
            =~= data_records(data, offset).push(RecordModel::EndOfFile));
    }
}

/// Unpacking the data records of a buffer, written in ascending order right
/// at the end of the accumulator, appends exactly that buffer.
proof fn lemma_unpack_of_records(data: Seq<u8>, acc: Seq<u8>, max: int)
    requires
        acc.len() + data.len() <= max,
    ensures
        spec_unpack_records(
            data_records(data, acc.len() as int).push(RecordModel::EndOfFile),
            max,
            acc,
        ) == Ok::<Seq<u8>, UnpackingError>(acc + data),
    decreases data.len(),
{
    let recs = data_records(data, acc.len() as int).push(RecordModel::EndOfFile);
    if data.len() == 0 {
        assert(recs =~= seq![RecordModel::EndOfFile]);
        assert(acc + data =~= acc);
    } else if data.len() <= 16 {
        assert(recs[0] == (RecordModel::Data { offset: acc.len() as int, value: data }));
        assert(write_at(acc, acc.len() as int, data) =~= acc + data);
        assert(spec_unpack_records(recs, max, acc) == spec_unpack_records(
            recs.drop_first(),
            max,
            acc + data,
        ));
        assert(recs.drop_first() =~= seq![RecordModel::EndOfFile]);
        assert(spec_unpack_records(seq![RecordModel::EndOfFile], max, acc + data) == Ok::<
            Seq<u8>,
            UnpackingError,
        >(acc + data));
    } else {
        let chunk = data.take(16);
        assert(recs[0] == (RecordModel::Data { offset: acc.len() as int, value: chunk }));
        assert(write_at(acc, acc.len() as int, chunk) =~= acc + chunk);
        assert(spec_unpack_records(recs, max, acc) == spec_unpack_records(
            recs.drop_first(),
            max,
            acc + chunk,
        ));
        lemma_unpack_of_records(data.skip(16), acc + chunk, max);
        assert(recs.drop_first() =~= data_records(data.skip(16), (acc + chunk).len() as int).push(
            RecordModel::EndOfFile,
        ));
        assert((acc + chunk) + data.skip(16) =~= acc + data);
    }
}

/// Round trip: decoding the Intel-HEX encoding of a buffer, under any size
/// bound the buffer fits in, gives the buffer back.
pub proof fn lemma_ihex_round_trip(data: Seq<u8>, max: int)
    requires
        data.len() % 16 == 0,
        data.len() <= max,
        data.len() <= 0x10000,
    ensures
        spec_from_ihex(ihex_text_bytes(data), max) == Ok::<Seq<u8>, ConversionError>(data),
{
    lemma_parse_of_encoding(data, 0);
    lemma_unpack_of_records(data, Seq::<u8>::empty(), max);
    assert(Seq::<u8>::empty().len() == 0);
    assert(data_records(data, 0).push(RecordModel::EndOfFile) == data_records(
        data,
        Seq::<u8>::empty().len() as int,
    ).push(RecordModel::EndOfFile));
    assert(Seq::<u8>::empty() + data =~= data);
}

} // verus!
