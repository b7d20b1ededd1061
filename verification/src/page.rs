//! The first page of a database file: the 100-byte file header, the header
//! of the schema table's leaf page, and the array of cell offsets behind it.

use vstd::prelude::*;
use crate::error::FormatError;

verus! {

/// The size of the file header, which comes before the page header on the
/// first page.
pub const FILE_HEADER_SIZE: usize = 100;

/// The page type of a table leaf page.
pub const TABLE_LEAF: u8 = 13;

/// The two bytes of `s` at `at`, read as a big-endian integer.
pub open spec fn u16_at(s: Seq<u8>, at: int) -> u16 {
    (s[at] * 256 + s[at + 1]) as u16
}

/// The size of a page header: 8 bytes on a table leaf page, 12 on any
/// other.
pub open spec fn page_header_len(page_type: u8) -> usize {
    if page_type == TABLE_LEAF {
        8
    } else {
        12
    }
}

/// Where a cell starts, counted from the start of the page.
#[derive(Clone, Copy, Debug, PartialEq, Eq, Structural)]
pub struct Cell {
    pub offset: u16,
}

impl Cell {
    pub fn new(offset: u16) -> (cell: Cell)
        ensures
            cell.offset == offset,
    {
        Cell { offset }
    }
}

/// What the file header and the page header say about the first page.
#[derive(Clone, Copy, Debug, PartialEq, Eq, Structural)]
pub struct PageHeader {
    /// The size of every page of the file, from bytes 16 and 17 of the file.
    pub page_size: u16,
    /// The size of the page header.
    pub header_size: usize,
    /// The number of cells on the page, from bytes 3 and 4 of the page header.
    pub cell_count: u16,
}

/// The header of the first page of `file`.
///
/// The file is truncated where it is shorter than the file header or than
/// the page size it declares, and where the page is too small to hold its
/// own header. A first page that is whole but is no table leaf page has an
/// invalid page type.
pub open spec fn parse_page_header(file: Seq<u8>) -> Result<PageHeader, FormatError> {
    if file.len() < FILE_HEADER_SIZE {
        Err(FormatError::Truncated)
    } else if file.len() < u16_at(file, 16) {
        Err(FormatError::Truncated)
    } else if u16_at(file, 16) <= FILE_HEADER_SIZE {
        Err(FormatError::Truncated)
    } else if file[FILE_HEADER_SIZE as int] != TABLE_LEAF {
        Err(FormatError::InvalidPageType)
    } else if u16_at(file, 16) < FILE_HEADER_SIZE + page_header_len(TABLE_LEAF) {
        Err(FormatError::Truncated)
    } else {
        Ok(
            PageHeader {
                page_size: u16_at(file, 16),
                header_size: page_header_len(TABLE_LEAF),
                cell_count: u16_at(file, FILE_HEADER_SIZE + 3),
            },
        )
    }
}

/// The `i`-th entry of the cell offset array of the first page of `file`,
/// which starts behind a page header of `header_size` bytes.
pub open spec fn cell_offset(file: Seq<u8>, header_size: usize, i: int) -> u16 {
    u16_at(file, FILE_HEADER_SIZE + header_size + 2 * i)
}

/// The page size, the size of the page header and the cells of the first
/// page of `file`, in the order of the cell offset array.
///
/// Beyond what [`parse_page_header`] asks, the page must hold the whole
/// array, which has as many entries as the page header counts cells, and
/// every cell must start on the page.
pub open spec fn parse_first_page(file: Seq<u8>) -> Result<(u16, usize, Seq<Cell>), FormatError> {
    match parse_page_header(file) {
        Err(e) => Err(e),
        Ok(header) => {
            if FILE_HEADER_SIZE + header.header_size + 2 * header.cell_count > header.page_size {
                Err(FormatError::Truncated)
            } else if exists|i: int|
                0 <= i < header.cell_count && #[trigger] cell_offset(file, header.header_size, i)
                    >= header.page_size {
                Err(FormatError::Truncated)
            } else {
                Ok(
                    (
                        header.page_size,
                        header.header_size,
                        Seq::new(
                            header.cell_count as nat,
                            |i: int| Cell { offset: cell_offset(file, header.header_size, i) },
                        ),
                    ),
                )
            }
        },
    }
}

/// A first page that can be read lies within the file, has as many cells as
/// its header counts, and every one of its cells starts on the page.
pub proof fn lemma_cells_lie_on_page(file: Seq<u8>)
    requires
        parse_first_page(file) is Ok,
    ensures
        ({
            let (page_size, header_size, cells) = parse_first_page(file)->Ok_0;
            &&& parse_page_header(file) matches Ok(header) && header.page_size == page_size
                && header.header_size == header_size && header.cell_count == cells.len()
            &&& page_size <= file.len()
            &&& FILE_HEADER_SIZE + header_size + 2 * cells.len() <= page_size
            &&& forall|i: int| 0 <= i < cells.len() ==> (#[trigger] cells[i]).offset < page_size
        }),
{
    let header = parse_page_header(file)->Ok_0;
    let cells = parse_first_page(file)->Ok_0.2;
    assert forall|i: int| 0 <= i < cells.len() implies (#[trigger] cells[i]).offset
        < header.page_size by {
        assert(cells[i].offset == cell_offset(file, header.header_size, i));
    }
}

/// Reads two bytes of `bytes` at `at` as a big-endian integer.
fn read_u16(bytes: &[u8], at: usize) -> (value: u16)
    requires
        at + 1 < bytes@.len(),
    ensures
        value == u16_at(bytes@, at as int),
{
    let hi: u16 = bytes[at] as u16;
    let lo: u16 = bytes[at + 1] as u16;
    hi * 256 + lo
}

/// The size of the header of a page of type `page_type`.
pub fn page_header_size(page_type: u8) -> (size: usize)
    ensures
        size == page_header_len(page_type),
{
    if page_type == TABLE_LEAF {
        8
    } else {
        12
    }
}

/// Reads the file header and the page header of the first page of `file`.
pub fn read_page_header(file: &[u8]) -> (r: Result<PageHeader, FormatError>)
    ensures
        r == parse_page_header(file@),
{
    if file.len() < FILE_HEADER_SIZE {
        return Err(FormatError::Truncated);
    }
    let page_size: u16 = read_u16(file, 16);
    if file.len() < page_size as usize || page_size as usize <= FILE_HEADER_SIZE {
        return Err(FormatError::Truncated);
    }
    let page_type: u8 = file[FILE_HEADER_SIZE];
    if page_type != TABLE_LEAF {
        return Err(FormatError::InvalidPageType);
    }
    let header_size: usize = page_header_size(page_type);
    if (page_size as usize) < FILE_HEADER_SIZE + header_size {
        return Err(FormatError::Truncated);
    }
    let cell_count: u16 = read_u16(file, FILE_HEADER_SIZE + 3);
    Ok(PageHeader { page_size, header_size, cell_count })
}

/// Reads the first page of `file`: the page size, the size of the page
/// header, and the cells in the order of the cell offset array.
pub fn read_first_page(file: &[u8]) -> (r: Result<(u16, usize, Vec<Cell>), FormatError>)
    ensures
        match r {
            Ok((page_size, header_size, cells)) => parse_first_page(file@) == Ok::<
                (u16, usize, Seq<Cell>),
                FormatError,
            >((page_size, header_size, cells@)),
            Err(e) => parse_first_page(file@) == Err::<(u16, usize, Seq<Cell>), FormatError>(e),
        },
{
    let header = match read_page_header(file) {
        Ok(header) => header,
        Err(e) => {
            return Err(e);
        },
    };
    let array_at: usize = FILE_HEADER_SIZE + header.header_size;
    let count: usize = header.cell_count as usize;
    if array_at + 2 * count > header.page_size as usize {
        return Err(FormatError::Truncated);
    }
    let mut cells: Vec<Cell> = Vec::new();
    let mut i: usize = 0;
    while i < count
        invariant
            i <= count,
            parse_page_header(file@) == Ok::<PageHeader, FormatError>(header),
            count == header.cell_count,
            array_at == FILE_HEADER_SIZE + header.header_size,
            array_at + 2 * count <= header.page_size <= file@.len(),
            cells@.len() == i,
            forall|j: int|
                0 <= j < i ==> #[trigger] cell_offset(file@, header.header_size, j)
                    < header.page_size,
            forall|j: int|
                0 <= j < i ==> #[trigger] cells@[j] == (Cell {
                    offset: cell_offset(file@, header.header_size, j),
                }),
        decreases count - i,
    {
        let offset: u16 = read_u16(file, array_at + 2 * i);
        if offset >= header.page_size {
            assert(cell_offset(file@, header.header_size, i as int) >= header.page_size);
            return Err(FormatError::Truncated);
        }
        cells.push(Cell::new(offset));
        i += 1;
    }
    assert(cells@ =~= Seq::new(
        header.cell_count as nat,
        |i: int| Cell { offset: cell_offset(file@, header.header_size, i) },
    ));
    Ok((header.page_size, header.header_size, cells))
}

} // verus!
