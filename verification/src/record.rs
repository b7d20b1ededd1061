//! Schema records: the header that gives each column's serial type, and the
//! five columns of a row of the schema table.
//!
//! A row of the schema table has the columns `type`, `name`, `tbl_name`,
//! `rootpage` and `sql`. The four text columns are stored as one byte per
//! character; `rootpage` is stored as a big-endian integer.

use vstd::prelude::*;
use vstd::slice::slice_subrange;
use vstd::arithmetic::power2::{
    pow2, lemma2_to64, lemma2_to64_rest, lemma_pow2_adds, lemma_pow2_strictly_increases,
};
use crate::error::SchemaError;
use crate::varint::{decode_varint, lemma_span_bounds, read_varint};

verus! {

/// What is taken on trust of `String::push` of the standard library: after
/// the call the string is what it was before, followed by `ch`.
pub assume_specification[ String::push ](s: &mut String, ch: char)
    ensures
        final(s)@ == old(s)@.push(ch),
;

/// The integers that `s` holds one after another, or `None` where `s` ends
/// inside one of them.
pub open spec fn varints(s: Seq<u8>) -> Option<Seq<u64>>
    decreases s.len(),
{
    if s.len() == 0 {
        Some(Seq::empty())
    } else {
        match read_varint(s) {
            None => None,
            Some((value, n)) => {
                proof {
                    lemma_span_bounds(s, 0);
                }
                match varints(s.skip(n as int)) {
                    None => None,
                    Some(rest) => Some(seq![value] + rest),
                }
            },
        }
    }
}

/// Whether `serial` is accepted as the serial type of a text column: it is
/// even and at least 13.
pub open spec fn is_text_serial(serial: u64) -> bool {
    serial >= 13 && serial % 2 == 0
}

/// The number of bytes that a text column of serial type `serial` takes:
/// half of what `serial` is above 13, rounded down.
pub open spec fn text_size(serial: u64) -> u64 {
    if serial >= 13 {
        ((serial - 13) / 2) as u64
    } else {
        0
    }
}

/// What the header of a schema record says about the record.
#[derive(Clone, Copy, Debug, PartialEq, Eq, Structural)]
pub struct RecordHeader {
    /// The size of the whole record, header included, as the cell declares it.
    pub size: usize,
    /// The row's key.
    pub rowid: u64,
    /// The size of the header, its own length field included.
    pub header_size: usize,
    /// The number of bytes of the `type` column.
    pub type_size: u64,
    /// The number of bytes of the `name` column.
    pub name_size: u64,
    /// The number of bytes of the `tbl_name` column.
    pub tbl_name_size: u64,
    /// The serial type of the `rootpage` column, as the header holds it.
    pub root_page: u64,
    /// The number of bytes of the `sql` column.
    pub sql_size: u64,
}

/// The header that the serial types in `s` describe.
///
/// `s` is the header without its length field. It is malformed where it ends
/// inside a serial type or holds fewer than five of them. Of a header with
/// five or more, the serial types of the four text columns must each be
/// accepted by [`is_text_serial`].
pub open spec fn parse_header(s: Seq<u8>, payload_size: usize, rowid: u64, header_size: usize)
    -> Result<RecordHeader, SchemaError> {
    match varints(s) {
        None => Err(SchemaError::MalformedHeader),
        Some(serials) => {
            if serials.len() < 5 {
                Err(SchemaError::MalformedHeader)
            } else if !(is_text_serial(serials[0]) && is_text_serial(serials[1])
                && is_text_serial(serials[2]) && is_text_serial(serials[4])) {
                Err(SchemaError::UnsupportedSerialType)
            } else {
                Ok(
                    RecordHeader {
                        size: payload_size,
                        rowid,
                        header_size,
                        type_size: text_size(serials[0]),
                        name_size: text_size(serials[1]),
                        tbl_name_size: text_size(serials[2]),
                        root_page: serials[3],
                        sql_size: text_size(serials[4]),
                    },
                )
            }
        },
    }
}

/// A header of five or more serial types that gives one of the four text
/// columns a serial type below 13, or an odd one, is unsupported: no size is
/// made up for such a column.
pub proof fn lemma_bad_text_serial_is_unsupported(
    s: Seq<u8>,
    payload_size: usize,
    rowid: u64,
    header_size: usize,
    column: int,
)
    requires
        varints(s) matches Some(serials) && serials.len() >= 5 && (serials[column] < 13
            || serials[column] % 2 == 1),
        column == 0 || column == 1 || column == 2 || column == 4,
    ensures
        parse_header(s, payload_size, rowid, header_size) == Err::<RecordHeader, SchemaError>(
            SchemaError::UnsupportedSerialType,
        ),
{
}

/// Checks one text column's serial type and gives the column's size.
fn text_column_size(serial: u64) -> (r: Option<u64>)
    ensures
        r is Some <==> is_text_serial(serial),
        r matches Some(size) ==> size == text_size(serial),
{
    if serial >= 13 && serial % 2 == 0 {
        Some((serial - 13) / 2)
    } else {
        None
    }
}

impl RecordHeader {
    /// Parses the serial types in `buf`, which is the record's header without
    /// its length field, and keeps `payload_size`, `rowid` and `header_size`
    /// as given.
    ///
    /// Fails with [`SchemaError::MalformedHeader`] where `buf` ends inside a
    /// serial type or holds fewer than five, and otherwise with
    /// [`SchemaError::UnsupportedSerialType`] where the serial type of a text
    /// column is odd or below 13.
    pub fn new(buf: &[u8], payload_size: usize, rowid: u64, header_size: usize) -> (r: Result<
        RecordHeader,
        SchemaError,
    >)
        ensures
            r == parse_header(buf@, payload_size, rowid, header_size),
    {
        let mut cursor: usize = 0;
        let mut serials: Vec<u64> = Vec::new();
        proof {
            assert(buf@.skip(0) =~= buf@);
            match varints(buf@) {
                None => {},
                Some(rest) => {
                    assert(serials@ + rest =~= rest);
                },
            }
        }
        while cursor < buf.len()
            invariant
                cursor <= buf@.len(),
                varints(buf@) == match varints(buf@.skip(cursor as int)) {
                    None => None::<Seq<u64>>,
                    Some(rest) => Some(serials@ + rest),
                },
            decreases buf@.len() - cursor,
        {
            let ghost tail = buf@.skip(cursor as int);
            match decode_varint(slice_subrange(buf, cursor, buf.len())) {
                Err(_) => {
                    return Err(SchemaError::MalformedHeader);
                },
                Ok((serial, slen)) => {
                    proof {
                        lemma_span_bounds(tail, 0);
                        assert(tail.skip(slen as int) =~= buf@.skip(cursor + slen));
                        match varints(tail.skip(slen as int)) {
                            None => {},
                            Some(rest) => {
                                assert(serials@.push(serial) + rest =~= serials@ + (seq![serial]
                                    + rest));
                            },
                        }
                    }
                    serials.push(serial);
                    cursor += slen;
                },
            }
        }
        assert(serials@ + Seq::<u64>::empty() =~= serials@);
        if serials.len() < 5 {
            return Err(SchemaError::MalformedHeader);
        }
        let type_size = text_column_size(serials[0]);
        let name_size = text_column_size(serials[1]);
        let tbl_name_size = text_column_size(serials[2]);
        let sql_size = text_column_size(serials[4]);
        match (type_size, name_size, tbl_name_size, sql_size) {
            (Some(type_size), Some(name_size), Some(tbl_name_size), Some(sql_size)) => Ok(
                RecordHeader {
                    size: payload_size,
                    rowid,
                    header_size,
                    type_size,
                    name_size,
                    tbl_name_size,
                    root_page: serials[3],
                    sql_size,
                },
            ),
            _ => Err(SchemaError::UnsupportedSerialType),
        }
    }
}

/// The text that `bytes` stand for: each byte is the character with that
/// code point.
pub open spec fn text_of(bytes: Seq<u8>) -> Seq<char> {
    Seq::new(bytes.len(), |i: int| bytes[i] as char)
}

/// The number that `bytes` spell in base 256, most significant byte first.
pub open spec fn big_endian(bytes: Seq<u8>) -> nat
    decreases bytes.len(),
{
    if bytes.len() == 0 {
        0
    } else {
        big_endian(bytes.drop_last()) * 256 + bytes.last() as nat
    }
}

/// The number of bytes that an integer column of serial type `serial` takes:
/// the serial types 1 to 6 stand for integers of 1, 2, 3, 4, 6 and 8 bytes.
/// No other serial type is an integer with stored bytes.
pub open spec fn integer_width(serial: u64) -> Option<nat> {
    if serial == 1 {
        Some(1)
    } else if serial == 2 {
        Some(2)
    } else if serial == 3 {
        Some(3)
    } else if serial == 4 {
        Some(4)
    } else if serial == 5 {
        Some(6)
    } else if serial == 6 {
        Some(8)
    } else {
        None
    }
}

/// One row of the schema table.
#[derive(Debug, PartialEq, Eq)]
pub struct Record {
    /// What the row describes: `table`, `index`, `view` or `trigger`.
    pub s_type: String,
    /// The name of the object.
    pub name: String,
    /// The name of the table that the object belongs to.
    pub tbl_name: String,
    /// The page at which the object's tree starts, read as an unsigned integer.
    pub rootpage: u64,
    /// The statement that made the object.
    pub sql: String,
    /// The header that the row was read with.
    pub header: RecordHeader,
}

/// A [`Record`] as a mathematical value.
pub struct RecordView {
    pub s_type: Seq<char>,
    pub name: Seq<char>,
    pub tbl_name: Seq<char>,
    pub rootpage: nat,
    pub sql: Seq<char>,
    pub header: RecordHeader,
}

impl View for Record {
    type V = RecordView;

    open spec fn view(&self) -> RecordView {
        RecordView {
            s_type: self.s_type@,
            name: self.name@,
            tbl_name: self.tbl_name@,
            rootpage: self.rootpage as nat,
            sql: self.sql@,
            header: self.header,
        }
    }
}

/// The row that `payload` holds according to `header`.
///
/// `payload` is the record without its header. The columns lie in it one
/// after another from its first byte: `type`, `name`, `tbl_name`, `rootpage`
/// and `sql`, with the sizes that `header` gives them. Bytes behind `sql` are
/// not looked at.
pub open spec fn parse_record(payload: Seq<u8>, header: RecordHeader) -> Result<
    RecordView,
    SchemaError,
> {
    match integer_width(header.root_page) {
        None => Err(SchemaError::UnsupportedSerialType),
        Some(width) => {
            let name_at = header.type_size as int;
            let tbl_name_at = name_at + header.name_size;
            let rootpage_at = tbl_name_at + header.tbl_name_size;
            let sql_at = rootpage_at + width;
            let end = sql_at + header.sql_size;
            if end > payload.len() {
                Err(SchemaError::PayloadTooShort)
            } else {
                Ok(
                    RecordView {
                        s_type: text_of(payload.subrange(0, name_at)),
                        name: text_of(payload.subrange(name_at, tbl_name_at)),
                        tbl_name: text_of(payload.subrange(tbl_name_at, rootpage_at)),
                        rootpage: big_endian(payload.subrange(rootpage_at, sql_at)),
                        sql: text_of(payload.subrange(sql_at, end)),
                        header,
                    },
                )
            }
        },
    }
}

/// The columns of a row fill their part of the payload without a gap: each
/// text column has the size that the header gives it, and together with the
/// bytes of `rootpage` they end within the payload.
pub proof fn lemma_columns_fit_payload(payload: Seq<u8>, header: RecordHeader)
    requires
        parse_record(payload, header) is Ok,
    ensures
        ({
            let row = parse_record(payload, header)->Ok_0;
            &&& integer_width(header.root_page) is Some
            &&& row.header == header
            &&& row.s_type.len() == header.type_size
            &&& row.name.len() == header.name_size
            &&& row.tbl_name.len() == header.tbl_name_size
            &&& row.sql.len() == header.sql_size
            &&& row.s_type.len() + row.name.len() + row.tbl_name.len() + integer_width(
                header.root_page,
            )->Some_0 + row.sql.len() <= payload.len()
        }),
{
}

/// Turns bytes into text, each byte into the character with that code point.
pub fn convert_from_ascii(arr: &[u8]) -> (res: String)
    ensures
        res@ == text_of(arr@),
{
    let mut res = String::new();
    let mut i: usize = 0;
    while i < arr.len()
        invariant
            i <= arr@.len(),
            res@ == text_of(arr@.take(i as int)),
        decreases arr@.len() - i,
    {
        res.push(arr[i] as char);
        i += 1;
        assert(res@ =~= text_of(arr@.take(i as int)));
    }
    assert(arr@.take(i as int) =~= arr@);
    res
}

/// A number of `n` bytes stays below `2^(8n)`.
proof fn lemma_big_endian_bound(bytes: Seq<u8>)
    ensures
        big_endian(bytes) < pow2(8 * bytes.len()),
    decreases bytes.len(),
{
    lemma2_to64();
    if bytes.len() > 0 {
        lemma_big_endian_bound(bytes.drop_last());
        lemma_pow2_adds(8 * (bytes.len() - 1) as nat, 8);
        assert(big_endian(bytes) < pow2(8 * (bytes.len() - 1) as nat) * 256) by (nonlinear_arith)
            requires
                big_endian(bytes) == big_endian(bytes.drop_last()) * 256 + bytes.last() as nat,
                big_endian(bytes.drop_last()) < pow2(8 * (bytes.len() - 1) as nat),
                bytes.last() < 256,
        ;
    }
}

/// Reads up to eight bytes as a big-endian unsigned integer.
fn read_big_endian(bytes: &[u8]) -> (value: u64)
    requires
        bytes@.len() <= 8,
    ensures
        value == big_endian(bytes@),
{
    let mut value: u64 = 0;
    let mut i: usize = 0;
    while i < bytes.len()
        invariant
            i <= bytes@.len() <= 8,
            value == big_endian(bytes@.take(i as int)),
        decreases bytes@.len() - i,
    {
        let b: u8 = bytes[i];
        proof {
            lemma_big_endian_bound(bytes@.take(i as int));
            lemma2_to64_rest();
            if i < 7 {
                lemma_pow2_strictly_increases(8 * i as nat, 56);
            }
            assert(value < 0x100_0000_0000_0000u64 ==> ((value << 8) | (b as u64)) == value * 256
                + b as u64) by (bit_vector);
            assert(bytes@.take(i + 1).drop_last() =~= bytes@.take(i as int));
        }
        value = (value << 8) | (b as u64);
        i += 1;
    }
    assert(bytes@.take(i as int) =~= bytes@);
    value
}

impl Record {
    /// Reads the five columns of a row out of `record_payload`, which is the
    /// record without its header, as `record_header` lays them out.
    ///
    /// Fails with [`SchemaError::UnsupportedSerialType`] where the serial
    /// type of `rootpage` is not that of a stored integer, and otherwise with
    /// [`SchemaError::PayloadTooShort`] where the columns need more bytes
    /// than `record_payload` has.
    pub fn new(record_payload: &[u8], record_header: RecordHeader) -> (r: Result<
        Record,
        SchemaError,
    >)
        ensures
            match r {
                Ok(record) => parse_record(record_payload@, record_header) == Ok::<
                    RecordView,
                    SchemaError,
                >(record@),
                Err(e) => parse_record(record_payload@, record_header) == Err::<
                    RecordView,
                    SchemaError,
                >(e),
            },
    {
        let width: usize = match record_header.root_page {
            1 => 1,
            2 => 2,
            3 => 3,
            4 => 4,
            5 => 6,
            6 => 8,
            _ => {
                return Err(SchemaError::UnsupportedSerialType);
            },
        };
        let len: usize = record_payload.len();
        let name_at: usize = match column_end(len, 0, record_header.type_size) {
            Some(at) => at,
            None => {
                return Err(SchemaError::PayloadTooShort);
            },
        };
        let tbl_name_at: usize = match column_end(len, name_at, record_header.name_size) {
            Some(at) => at,
            None => {
                return Err(SchemaError::PayloadTooShort);
            },
        };
        let rootpage_at: usize = match column_end(
            len,
            tbl_name_at,
            record_header.tbl_name_size,
        ) {
            Some(at) => at,
            None => {
                return Err(SchemaError::PayloadTooShort);
            },
        };
        let sql_at: usize = match column_end(len, rootpage_at, width as u64) {
            Some(at) => at,
            None => {
                return Err(SchemaError::PayloadTooShort);
            },
        };
        let end: usize = match column_end(len, sql_at, record_header.sql_size) {
            Some(at) => at,
            None => {
                return Err(SchemaError::PayloadTooShort);
            },
        };
        let s_type = convert_from_ascii(slice_subrange(record_payload, 0, name_at));
        let name = convert_from_ascii(slice_subrange(record_payload, name_at, tbl_name_at));
        let tbl_name = convert_from_ascii(
            slice_subrange(record_payload, tbl_name_at, rootpage_at),
        );
        let rootpage = read_big_endian(slice_subrange(record_payload, rootpage_at, sql_at));
        let sql = convert_from_ascii(slice_subrange(record_payload, sql_at, end));
        Ok(Record { s_type, name, tbl_name, rootpage, sql, header: record_header })
    }
}

/// Where a column of `size` bytes that starts at `start` ends, or `None`
/// where that is behind `len`.
fn column_end(len: usize, start: usize, size: u64) -> (r: Option<usize>)
    requires
        start <= len,
    ensures
        match r {
            Some(end) => end == start + size && end <= len,
            None => start + size > len,
        },
{
    if size <= (len - start) as u64 {
        Some(start + size as usize)
    } else {
        None
    }
}

} // verus!
