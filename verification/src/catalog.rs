//! The schema catalogue: the rows of the schema table, one for each cell of
//! the first page, in the order of the cell offset array.

use vstd::prelude::*;
use vstd::slice::slice_subrange;
use crate::error::{DbError, DecodeError, SchemaError};
use crate::page::Cell;
use crate::record::{
    integer_width, lemma_columns_fit_payload, parse_header, parse_record, Record, RecordHeader,
    RecordView,
};
use crate::varint::{decode_varint, read_varint};

verus! {

/// The bytes of `page` from `at` on; none where `at` lies behind the page.
pub open spec fn bytes_from(page: Seq<u8>, at: int) -> Seq<u8> {
    if 0 <= at <= page.len() {
        page.skip(at)
    } else {
        Seq::empty()
    }
}

/// The row in the cell that starts at `offset` on `page`.
///
/// A cell is the size of its record, the row's key, and the record, the two
/// numbers as variable-length integers. The record starts with the size of
/// its header, again as a variable-length integer and counted with the
/// header; behind the header come the columns.
///
/// Reading fails
/// - with [`DecodeError::Truncated`] where the page ends inside one of the
///   three integers, or the cell starts behind the page;
/// - else with [`SchemaError::MalformedHeader`] where the header is smaller
///   than its own size field or larger than the record;
/// - else with [`SchemaError::PayloadTooShort`] where the record ends behind
///   the page;
/// - else as [`parse_header`] does on the header and then as
///   [`parse_record`] does on what follows the header in the record.
pub open spec fn parse_cell(page: Seq<u8>, offset: u16) -> Result<RecordView, DbError> {
    let cell = bytes_from(page, offset as int);
    match read_varint(cell) {
        None => Err(DbError::Decode(DecodeError::Truncated)),
        Some((payload_size, n1)) => match read_varint(cell.skip(n1 as int)) {
            None => Err(DbError::Decode(DecodeError::Truncated)),
            Some((rowid, n2)) => {
                let record = cell.skip(n1 as int).skip(n2 as int);
                match read_varint(record) {
                    None => Err(DbError::Decode(DecodeError::Truncated)),
                    Some((header_size, n3)) => {
                        if header_size < n3 || header_size > payload_size {
                            Err(DbError::Schema(SchemaError::MalformedHeader))
                        } else if payload_size > record.len() {
                            Err(DbError::Schema(SchemaError::PayloadTooShort))
                        } else {
                            match parse_header(
                                record.subrange(n3 as int, header_size as int),
                                payload_size as usize,
                                rowid,
                                header_size as usize,
                            ) {
                                Err(e) => Err(DbError::Schema(e)),
                                Ok(header) => match parse_record(
                                    record.subrange(header_size as int, payload_size as int),
                                    header,
                                ) {
                                    Err(e) => Err(DbError::Schema(e)),
                                    Ok(row) => Ok(row),
                                },
                            }
                        }
                    },
                }
            },
        },
    }
}

/// The rows in `cells`, in that order, or the failure of the first cell that
/// cannot be read.
pub open spec fn parse_cells(page: Seq<u8>, cells: Seq<Cell>) -> Result<Seq<RecordView>, DbError>
    decreases cells.len(),
{
    if cells.len() == 0 {
        Ok(Seq::empty())
    } else {
        match parse_cells(page, cells.drop_last()) {
            Err(e) => Err(e),
            Ok(rows) => match parse_cell(page, cells.last().offset) {
                Err(e) => Err(e),
                Ok(row) => Ok(rows.push(row)),
            },
        }
    }
}

/// A row that can be read lies within the record that its cell declares:
/// the header and the five columns take no more bytes than the record has.
pub proof fn lemma_row_fits_record(page: Seq<u8>, offset: u16)
    requires
        page.len() <= usize::MAX,
        parse_cell(page, offset) is Ok,
    ensures
        ({
            let row = parse_cell(page, offset)->Ok_0;
            &&& integer_width(row.header.root_page) is Some
            &&& row.header.header_size + row.header.type_size + row.header.name_size
                + row.header.tbl_name_size + integer_width(row.header.root_page)->Some_0
                + row.header.sql_size <= row.header.size
            &&& offset + row.header.size <= page.len()
        }),
{
    let cell = bytes_from(page, offset as int);
    let (payload_size, n1) = read_varint(cell)->Some_0;
    let (rowid, n2) = read_varint(cell.skip(n1 as int))->Some_0;
    let record = cell.skip(n1 as int).skip(n2 as int);
    let (header_size, n3) = read_varint(record)->Some_0;
    let header = parse_header(
        record.subrange(n3 as int, header_size as int),
        payload_size as usize,
        rowid,
        header_size as usize,
    )->Ok_0;
    lemma_columns_fit_payload(record.subrange(header_size as int, payload_size as int), header);
}

/// Whether one of `rows` belongs to the table `tbl_name`.
pub open spec fn has_table(rows: Seq<RecordView>, tbl_name: Seq<char>) -> bool {
    exists|i: int| 0 <= i < rows.len() && (#[trigger] rows[i]).tbl_name == tbl_name
}

/// The `tbl_name` of each of `rows`.
pub open spec fn table_names_of(rows: Seq<RecordView>) -> Seq<Seq<char>> {
    Seq::new(rows.len(), |i: int| rows[i].tbl_name)
}

/// Every cell is read or none: a catalogue has as many rows as there are
/// cells.
pub proof fn lemma_parse_cells_len(page: Seq<u8>, cells: Seq<Cell>)
    ensures
        parse_cells(page, cells) matches Ok(rows) ==> rows.len() == cells.len(),
    decreases cells.len(),
{
    if cells.len() > 0 {
        lemma_parse_cells_len(page, cells.drop_last());
    }
}

/// The rows of a catalogue are those of the cells, one by one and in the
/// same order.
pub proof fn lemma_rows_follow_cells(page: Seq<u8>, cells: Seq<Cell>, i: int)
    requires
        parse_cells(page, cells) is Ok,
        0 <= i < cells.len(),
    ensures
        parse_cells(page, cells)->Ok_0.len() == cells.len(),
        parse_cell(page, cells[i].offset) == Ok::<RecordView, DbError>(
            parse_cells(page, cells)->Ok_0[i],
        ),
    decreases cells.len(),
{
    lemma_parse_cells_len(page, cells);
    lemma_parse_cells_len(page, cells.drop_last());
    if i < cells.len() - 1 {
        lemma_rows_follow_cells(page, cells.drop_last(), i);
    }
}

/// A table exists exactly where its name is among the table names.
pub proof fn lemma_has_table_iff_named(rows: Seq<RecordView>, tbl_name: Seq<char>)
    ensures
        has_table(rows, tbl_name) <==> table_names_of(rows).contains(tbl_name),
{
    if has_table(rows, tbl_name) {
        let i = choose|i: int| 0 <= i < rows.len() && (#[trigger] rows[i]).tbl_name == tbl_name;
        assert(table_names_of(rows)[i] == tbl_name);
    }
    if table_names_of(rows).contains(tbl_name) {
        let i = choose|i: int|
            0 <= i < table_names_of(rows).len() && table_names_of(rows)[i] == tbl_name;
        assert(rows[i].tbl_name == tbl_name);
    }
}

/// A cell that cannot be read fails the whole page, whatever follows it.
proof fn lemma_parse_cells_failure(page: Seq<u8>, cells: Seq<Cell>, k: int)
    requires
        0 <= k <= cells.len(),
        parse_cells(page, cells.take(k)) is Err,
    ensures
        parse_cells(page, cells) == parse_cells(page, cells.take(k)),
    decreases cells.len() - k,
{
    if k < cells.len() {
        assert(cells.take(k + 1).drop_last() =~= cells.take(k));
        lemma_parse_cells_failure(page, cells, k + 1);
    } else {
        assert(cells.take(k) =~= cells);
    }
}

/// Reads the row in `cell`, which lies on `page`.
pub fn read_cell(page: &[u8], cell: Cell) -> (r: Result<Record, DbError>)
    ensures
        match r {
            Ok(row) => parse_cell(page@, cell.offset) == Ok::<RecordView, DbError>(row@),
            Err(e) => parse_cell(page@, cell.offset) == Err::<RecordView, DbError>(e),
        },
{
    let at: usize = if cell.offset as usize <= page.len() {
        cell.offset as usize
    } else {
        page.len()
    };
    let bytes = slice_subrange(page, at, page.len());
    assert(bytes@ =~= bytes_from(page@, cell.offset as int));
    let (payload_size, n1) = match decode_varint(bytes) {
        Ok(read) => read,
        Err(e) => {
            return Err(DbError::Decode(e));
        },
    };
    let after_size = slice_subrange(bytes, n1, bytes.len());
    let (rowid, n2) = match decode_varint(after_size) {
        Ok(read) => read,
        Err(e) => {
            return Err(DbError::Decode(e));
        },
    };
    let record = slice_subrange(after_size, n2, after_size.len());
    let (header_size, n3) = match decode_varint(record) {
        Ok(read) => read,
        Err(e) => {
            return Err(DbError::Decode(e));
        },
    };
    if header_size < n3 as u64 || header_size > payload_size {
        return Err(DbError::Schema(SchemaError::MalformedHeader));
    }
    if payload_size > record.len() as u64 {
        return Err(DbError::Schema(SchemaError::PayloadTooShort));
    }
    let header_end: usize = header_size as usize;
    let record_end: usize = payload_size as usize;
    let header = match RecordHeader::new(
        slice_subrange(record, n3, header_end),
        record_end,
        rowid,
        header_end,
    ) {
        Ok(header) => header,
        Err(e) => {
            return Err(DbError::Schema(e));
        },
    };
    match Record::new(slice_subrange(record, header_end, record_end), header) {
        Ok(row) => Ok(row),
        Err(e) => Err(DbError::Schema(e)),
    }
}

/// The rows of the schema table.
#[derive(Debug, PartialEq, Eq)]
pub struct Records {
    pub records: Vec<Record>,
}

impl View for Records {
    type V = Seq<RecordView>;

    open spec fn view(&self) -> Seq<RecordView> {
        Seq::new(self.records@.len(), |i: int| self.records@[i]@)
    }
}

impl Records {
    /// A catalogue without rows.
    pub fn new() -> (catalog: Records)
        ensures
            catalog@ == Seq::<RecordView>::empty(),
    {
        let catalog = Records { records: Vec::new() };
        assert(catalog@ =~= Seq::<RecordView>::empty());
        catalog
    }

    /// Appends `record` behind the rows that are there.
    pub fn add_record(&mut self, record: Record)
        ensures
            final(self)@ == old(self)@.push(record@),
    {
        self.records.push(record);
        assert(self@ =~= old(self)@.push(record@));
    }

    /// Whether a row belongs to the table named exactly `tbl_name`.
    pub fn contains(&self, tbl_name: String) -> (found: bool)
        ensures
            found == has_table(self@, tbl_name@),
    {
        let mut i: usize = 0;
        while i < self.records.len()
            invariant
                i <= self.records@.len(),
                forall|j: int| 0 <= j < i ==> (#[trigger] self@[j]).tbl_name != tbl_name@,
            decreases self.records@.len() - i,
        {
            if self.records[i].tbl_name == tbl_name {
                assert(self@[i as int].tbl_name == tbl_name@);
                return true;
            }
            i += 1;
        }
        false
    }

    /// The number of rows.
    pub fn table_count(&self) -> (count: usize)
        ensures
            count == self@.len(),
    {
        self.records.len()
    }

    /// The `tbl_name` of each row, in the order of the rows.
    pub fn table_names(&self) -> (names: Vec<String>)
        ensures
            names.deep_view() == table_names_of(self@),
    {
        let mut names: Vec<String> = Vec::new();
        let mut i: usize = 0;
        while i < self.records.len()
            invariant
                i <= self.records@.len(),
                names@.len() == i,
                forall|j: int| 0 <= j < i ==> (#[trigger] names@[j])@ == self@[j].tbl_name,
            decreases self.records@.len() - i,
        {
            names.push(self.records[i].tbl_name.clone());
            i += 1;
        }
        assert(names.deep_view() =~= table_names_of(self@));
        names
    }

    /// Reads the rows in `cells`, which lie on `page`, in the order of
    /// `cells`. The first cell that cannot be read fails the whole page.
    pub fn build_from_page(page: &[u8], cells: &Vec<Cell>) -> (r: Result<Records, DbError>)
        ensures
            match r {
                Ok(catalog) => parse_cells(page@, cells@) == Ok::<Seq<RecordView>, DbError>(
                    catalog@,
                ),
                Err(e) => parse_cells(page@, cells@) == Err::<Seq<RecordView>, DbError>(e),
            },
    {
        let mut catalog = Records::new();
        let mut i: usize = 0;
        assert(cells@.take(0) =~= Seq::<Cell>::empty());
        while i < cells.len()
            invariant
                i <= cells@.len(),
                parse_cells(page@, cells@.take(i as int)) == Ok::<Seq<RecordView>, DbError>(
                    catalog@,
                ),
            decreases cells@.len() - i,
        {
            assert(cells@.take(i + 1).drop_last() =~= cells@.take(i as int));
            match read_cell(page, cells[i]) {
                Ok(row) => {
                    catalog.add_record(row);
                },
                Err(e) => {
                    proof {
                        lemma_parse_cells_failure(page@, cells@, i + 1);
                    }
                    return Err(e);
                },
            }
            i += 1;
        }
        assert(cells@.take(i as int) =~= cells@);
        Ok(catalog)
    }
}

} // verus!
