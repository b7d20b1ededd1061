//! What a caller asks of a database file: its page size and table count, the
//! names of its tables, and whether a table exists.
//!
//! Each function takes the bytes of the file, of which it reads the first
//! page only, and leaves them as they are.

use vstd::prelude::*;
use vstd::slice::slice_subrange;
use crate::catalog::{has_table, lemma_parse_cells_len, parse_cells, table_names_of, Records};
use crate::error::{DbError, FormatError};
use crate::page::{
    parse_first_page, parse_page_header, read_first_page, read_page_header, u16_at, Cell,
    FILE_HEADER_SIZE,
};
use crate::record::RecordView;

verus! {

/// The page size of a database and the number of rows in its schema table.
#[derive(Clone, Copy, Debug, PartialEq, Eq, Structural)]
pub struct DbInfo {
    /// The size of a page in bytes.
    pub db_page_size: u16,
    /// The number of cells that the first page's header counts.
    pub no_tables: usize,
}

/// The page size and the table count that `file` declares.
pub open spec fn db_info_of(file: Seq<u8>) -> Result<DbInfo, DbError> {
    match parse_page_header(file) {
        Err(e) => Err(DbError::Format(e)),
        Ok(header) => Ok(
            DbInfo { db_page_size: header.page_size, no_tables: header.cell_count as usize },
        ),
    }
}

/// The rows of the schema table of `file`: those of the cells of its first
/// page, which is as many of its bytes as the page size says.
pub open spec fn schema_of(file: Seq<u8>) -> Result<Seq<RecordView>, DbError> {
    match parse_first_page(file) {
        Err(e) => Err(DbError::Format(e)),
        Ok((page_size, _, cells)) => parse_cells(file.take(page_size as int), cells),
    }
}

/// The names of the tables of `file`, in the order of its cells.
pub open spec fn tables_of(file: Seq<u8>) -> Result<Seq<Seq<char>>, DbError> {
    match schema_of(file) {
        Err(e) => Err(e),
        Ok(rows) => Ok(table_names_of(rows)),
    }
}

/// Whether `file` has a table named exactly `name`.
pub open spec fn table_exists_in(file: Seq<u8>, name: Seq<char>) -> Result<bool, DbError> {
    match schema_of(file) {
        Err(e) => Err(e),
        Ok(rows) => Ok(has_table(rows, name)),
    }
}

/// Reads the page size and the table count out of the headers of `buffer`.
/// No cell is read.
pub fn get_db_info(buffer: &[u8]) -> (r: Result<DbInfo, DbError>)
    ensures
        r == db_info_of(buffer@),
{
    match read_page_header(buffer) {
        Err(e) => Err(DbError::Format(e)),
        Ok(header) => Ok(
            DbInfo { db_page_size: header.page_size, no_tables: header.cell_count as usize },
        ),
    }
}

/// Reads the schema table out of the first page of `buffer`.
pub fn get_db_tables(buffer: &[u8]) -> (r: Result<Records, DbError>)
    ensures
        match r {
            Ok(catalog) => schema_of(buffer@) == Ok::<Seq<RecordView>, DbError>(catalog@),
            Err(e) => schema_of(buffer@) == Err::<Seq<RecordView>, DbError>(e),
        },
{
    let (page_size, _, cells) = match read_first_page(buffer) {
        Ok(page) => page,
        Err(e) => {
            return Err(DbError::Format(e));
        },
    };
    let page = slice_subrange(buffer, 0, page_size as usize);
    Records::build_from_page(page, &cells)
}

/// The names of the tables in `buffer`, in the order of its cells.
pub fn get_tables(buffer: &[u8]) -> (r: Result<Vec<String>, DbError>)
    ensures
        match r {
            Ok(names) => tables_of(buffer@) == Ok::<Seq<Seq<char>>, DbError>(names.deep_view()),
            Err(e) => tables_of(buffer@) == Err::<Seq<Seq<char>>, DbError>(e),
        },
{
    match get_db_tables(buffer) {
        Ok(catalog) => Ok(catalog.table_names()),
        Err(e) => Err(e),
    }
}

/// Whether `buffer` has a table named exactly `name`.
pub fn table_exists(buffer: &[u8], name: String) -> (r: Result<bool, DbError>)
    ensures
        r == table_exists_in(buffer@, name@),
{
    match get_db_tables(buffer) {
        Ok(catalog) => Ok(catalog.contains(name)),
        Err(e) => Err(e),
    }
}

/// Reading is repeatable: whatever two reads of the same bytes return, they
/// return the same.
pub proof fn lemma_db_info_repeatable(
    buffer: Seq<u8>,
    first: Result<DbInfo, DbError>,
    second: Result<DbInfo, DbError>,
)
    requires
        first == db_info_of(buffer),
        second == db_info_of(buffer),
    ensures
        first == second,
{
}

/// A file that is shorter than its header, or than the page size that its
/// header declares, is reported as truncated by every read.
pub proof fn lemma_short_file_is_truncated(file: Seq<u8>, name: Seq<char>)
    requires
        file.len() < FILE_HEADER_SIZE || file.len() < u16_at(file, 16),
    ensures
        db_info_of(file) == Err::<DbInfo, DbError>(DbError::Format(FormatError::Truncated)),
        schema_of(file) == Err::<Seq<RecordView>, DbError>(
            DbError::Format(FormatError::Truncated),
        ),
        tables_of(file) == Err::<Seq<Seq<char>>, DbError>(
            DbError::Format(FormatError::Truncated),
        ),
        table_exists_in(file, name) == Err::<bool, DbError>(
            DbError::Format(FormatError::Truncated),
        ),
{
}

/// Where the schema table can be read, it has as many rows as the page
/// header counts cells, which is the table count of [`db_info_of`].
pub proof fn lemma_table_count(file: Seq<u8>)
    requires
        schema_of(file) is Ok,
    ensures
        db_info_of(file) is Ok,
        db_info_of(file)->Ok_0.no_tables == schema_of(file)->Ok_0.len(),
        tables_of(file)->Ok_0.len() == schema_of(file)->Ok_0.len(),
{
    let cells: Seq<Cell> = parse_first_page(file)->Ok_0.2;
    lemma_parse_cells_len(file.take(parse_first_page(file)->Ok_0.0 as int), cells);
}

} // verus!
