use sqlite_schema::catalog::{read_cell, Records};
use sqlite_schema::page::Cell;
use sqlite_schema::record::{Record, RecordHeader};
use sqlite_schema::varint::encode_varint;
use sqlite_schema::{
    get_db_info, get_db_tables, get_tables, table_exists, DbError, DbInfo, DecodeError,
    FormatError, SchemaError,
};

/// The serial type under which a text column of `len` bytes is read.
fn text_serial(len: usize) -> u64 {
    2 * len as u64 + 14
}

/// A cell with a row of the schema table; `rootpage` takes one byte.
fn cell(rowid: u64, s_type: &str, name: &str, tbl_name: &str, rootpage: u8, sql: &str) -> Vec<u8> {
    let mut serials = Vec::new();
    serials.extend(encode_varint(text_serial(s_type.len())));
    serials.extend(encode_varint(text_serial(name.len())));
    serials.extend(encode_varint(text_serial(tbl_name.len())));
    serials.extend(encode_varint(1));
    serials.extend(encode_varint(text_serial(sql.len())));
    assert!(serials.len() < 127);
    let mut record = vec![serials.len() as u8 + 1];
    record.extend(serials);
    record.extend_from_slice(s_type.as_bytes());
    record.extend_from_slice(name.as_bytes());
    record.extend_from_slice(tbl_name.as_bytes());
    record.push(rootpage);
    record.extend_from_slice(sql.as_bytes());
    let mut bytes = encode_varint(record.len() as u64);
    bytes.extend(encode_varint(rowid));
    bytes.extend(record);
    bytes
}

/// A file of one page with `cells` placed from the end of the page towards
/// its start, in the order given.
fn file_with_cells(page_size: u16, cells: &[Vec<u8>]) -> Vec<u8> {
    let mut file = vec![0u8; page_size as usize];
    file[..16].copy_from_slice(b"SQLite format 3\0");
    file[16] = (page_size >> 8) as u8;
    file[17] = (page_size & 0xff) as u8;
    file[100] = 13;
    file[103] = (cells.len() >> 8) as u8;
    file[104] = (cells.len() & 0xff) as u8;
    let mut end = page_size as usize;
    for (i, cell) in cells.iter().enumerate() {
        let start = end - cell.len();
        file[start..end].copy_from_slice(cell);
        file[108 + 2 * i] = (start >> 8) as u8;
        file[109 + 2 * i] = (start & 0xff) as u8;
        end = start;
    }
    file
}

fn two_tables() -> Vec<u8> {
    file_with_cells(
        4096,
        &[
            cell(1, "table", "a", "a", 2, "CREATE TABLE a(x)"),
            cell(2, "table", "b", "b", 3, "CREATE TABLE b(y, z)"),
        ],
    )
}

/// A file of one page of 512 bytes whose only cell, at offset 200, is `cell`.
fn file_with_cell_bytes(cell: &[u8]) -> Vec<u8> {
    let mut file = vec![0u8; 512];
    file[16] = 0x02;
    file[100] = 13;
    file[104] = 1;
    file[109] = 200;
    file[200..200 + cell.len()].copy_from_slice(cell);
    file
}

#[test]
fn info_of_two_tables() {
    assert_eq!(get_db_info(&two_tables()), Ok(DbInfo { db_page_size: 4096, no_tables: 2 }));
}

#[test]
fn names_of_two_tables_in_cell_order() {
    assert_eq!(get_tables(&two_tables()), Ok(vec!["a".to_string(), "b".to_string()]));
}

#[test]
fn existence_of_tables() {
    assert_eq!(table_exists(&two_tables(), "a".to_string()), Ok(true));
    assert_eq!(table_exists(&two_tables(), "b".to_string()), Ok(true));
    assert_eq!(table_exists(&two_tables(), "z".to_string()), Ok(false));
}

#[test]
fn existence_asks_for_the_exact_name() {
    assert_eq!(table_exists(&two_tables(), "A".to_string()), Ok(false));
    assert_eq!(table_exists(&two_tables(), "".to_string()), Ok(false));
    assert_eq!(table_exists(&two_tables(), "ab".to_string()), Ok(false));
    assert_eq!(table_exists(&two_tables(), "a ".to_string()), Ok(false));
}

#[test]
fn rows_of_two_tables() {
    let catalog = get_db_tables(&two_tables()).unwrap();
    assert_eq!(catalog.table_count(), 2);
    assert_eq!(catalog.records.len(), 2);
    let first = &catalog.records[0];
    assert_eq!(first.s_type, "table");
    assert_eq!(first.name, "a");
    assert_eq!(first.tbl_name, "a");
    assert_eq!(first.rootpage, 2);
    assert_eq!(first.sql, "CREATE TABLE a(x)");
    assert_eq!(
        first.header,
        RecordHeader {
            size: 31,
            rowid: 1,
            header_size: 6,
            type_size: 5,
            name_size: 1,
            tbl_name_size: 1,
            root_page: 1,
            sql_size: 17,
        }
    );
    let second = &catalog.records[1];
    assert_eq!(second.name, "b");
    assert_eq!(second.rootpage, 3);
    assert_eq!(second.sql, "CREATE TABLE b(y, z)");
    assert_eq!(second.header.rowid, 2);
    assert_eq!(second.header.size, 34);
}

#[test]
fn page_written_out_byte_by_byte() {
    let mut file = vec![0u8; 512];
    file[16] = 0x02;
    file[17] = 0x00;
    file[100] = 13;
    file[103] = 0;
    file[104] = 1;
    file[108] = 0x01;
    file[109] = 0xf0;
    let cell: [u8; 16] = [
        14, // size of the record
        9, // rowid
        6, // size of the header
        16, 18, 16, 2, 18, // serial types
        b't', b'a', b'b', b'c', 0x01, 0x00, b'q', b'l',
    ];
    file[0x1f0..0x200].copy_from_slice(&cell);
    assert_eq!(get_db_info(&file), Ok(DbInfo { db_page_size: 512, no_tables: 1 }));
    assert_eq!(get_tables(&file), Ok(vec!["c".to_string()]));
    let catalog = get_db_tables(&file).unwrap();
    let row = &catalog.records[0];
    assert_eq!(row.s_type, "t");
    assert_eq!(row.name, "ab");
    assert_eq!(row.tbl_name, "c");
    assert_eq!(row.rootpage, 256);
    assert_eq!(row.sql, "ql");
    assert_eq!(row.header.rowid, 9);
}

#[test]
fn names_follow_the_offset_array_not_the_rowids() {
    let file = file_with_cells(
        1024,
        &[
            cell(3, "table", "c", "c", 4, "CREATE TABLE c(x)"),
            cell(1, "table", "a", "a", 2, "CREATE TABLE a(x)"),
            cell(2, "index", "b_x", "b", 3, "CREATE INDEX b_x ON b(x)"),
        ],
    );
    assert_eq!(
        get_tables(&file),
        Ok(vec!["c".to_string(), "a".to_string(), "b".to_string()])
    );
    assert_eq!(get_db_info(&file), Ok(DbInfo { db_page_size: 1024, no_tables: 3 }));
}

#[test]
fn existence_goes_by_tbl_name() {
    let file = file_with_cells(
        1024,
        &[cell(1, "index", "b_x", "b", 3, "CREATE INDEX b_x ON b(x)")],
    );
    assert_eq!(table_exists(&file, "b".to_string()), Ok(true));
    assert_eq!(table_exists(&file, "b_x".to_string()), Ok(false));
}

#[test]
fn database_without_tables() {
    let file = file_with_cells(512, &[]);
    assert_eq!(get_db_info(&file), Ok(DbInfo { db_page_size: 512, no_tables: 0 }));
    assert_eq!(get_tables(&file), Ok(vec![]));
    assert_eq!(table_exists(&file, "a".to_string()), Ok(false));
    assert_eq!(get_db_tables(&file).unwrap().table_count(), 0);
}

#[test]
fn reading_twice_gives_the_same() {
    let file = two_tables();
    let before = file.clone();
    let first = get_db_info(&file);
    let second = get_db_info(&file);
    assert_eq!(first, second);
    assert_eq!(file, before);
    assert_eq!(get_tables(&file), get_tables(&file));
    assert_eq!(get_db_tables(&file), get_db_tables(&file));
    let broken = vec![0u8; 50];
    assert_eq!(get_db_info(&broken), get_db_info(&broken));
}

#[test]
fn table_count_is_the_number_of_rows() {
    for count in 0..5 {
        let cells: Vec<Vec<u8>> =
            (0..count).map(|i| cell(i + 1, "table", "t", "t", 2, "CREATE TABLE t(x)")).collect();
        let file = file_with_cells(2048, &cells);
        let info = get_db_info(&file).unwrap();
        assert_eq!(info.no_tables, count as usize);
        assert_eq!(get_db_tables(&file).unwrap().table_count(), info.no_tables);
        assert_eq!(get_tables(&file).unwrap().len(), info.no_tables);
    }
}

#[test]
fn file_shorter_than_its_page_size_is_reported_as_truncated() {
    let mut file = two_tables();
    file.truncate(4095);
    let truncated = DbError::Format(FormatError::Truncated);
    assert_eq!(get_db_info(&file), Err(truncated));
    assert_eq!(get_tables(&file), Err(truncated));
    assert_eq!(table_exists(&file, "a".to_string()), Err(truncated));
    assert_eq!(get_db_tables(&file), Err(truncated));
    file.truncate(300);
    assert_eq!(get_db_info(&file), Err(truncated));
    assert_eq!(get_tables(&file), Err(truncated));
}

#[test]
fn file_shorter_than_its_header_is_reported_as_truncated() {
    let truncated = DbError::Format(FormatError::Truncated);
    for len in [0usize, 1, 16, 17, 18, 99] {
        let file = vec![0xffu8; len];
        assert_eq!(get_db_info(&file), Err(truncated));
        assert_eq!(get_tables(&file), Err(truncated));
        assert_eq!(table_exists(&file, "a".to_string()), Err(truncated));
    }
}

#[test]
fn interior_page_is_reported_as_invalid() {
    let mut file = two_tables();
    file[100] = 5;
    let invalid = DbError::Format(FormatError::InvalidPageType);
    assert_eq!(get_db_info(&file), Err(invalid));
    assert_eq!(get_tables(&file), Err(invalid));
    assert_eq!(table_exists(&file, "a".to_string()), Err(invalid));
}

#[test]
fn info_does_not_read_the_cells() {
    let mut file = two_tables();
    for byte in file[112..].iter_mut() {
        *byte = 0xff;
    }
    assert_eq!(get_db_info(&file), Ok(DbInfo { db_page_size: 4096, no_tables: 2 }));
    // every integer of the cell is now the largest there is
    assert_eq!(get_tables(&file), Err(DbError::Schema(SchemaError::PayloadTooShort)));
}

#[test]
fn cell_that_ends_inside_an_integer_is_reported() {
    let truncated = Err(DbError::Decode(DecodeError::Truncated));
    let mut file = vec![0u8; 512];
    file[16] = 0x02;
    file[100] = 13;
    file[104] = 1;
    file[108] = 0x01;
    file[109] = 0xff;
    // the size of the record ends with the page
    file[511] = 0x81;
    assert_eq!(get_tables(&file), truncated);
    // the rowid ends with the page
    file[509] = 0x10;
    file[510] = 0x81;
    file[511] = 0x81;
    file[109] = 0xfd;
    assert_eq!(get_tables(&file), truncated);
    // the size of the header is missing
    file[510] = 0x01;
    file[511] = 0x01;
    file[109] = 0xfe;
    assert_eq!(get_tables(&file), truncated);
}

#[test]
fn cell_is_not_read_beyond_the_page() {
    // the page ends inside the cell, the file does not
    let mut file = vec![0u8; 1024];
    file[16] = 0x02;
    file[100] = 13;
    file[104] = 1;
    file[108] = 0x01;
    file[109] = 0xff;
    file[511] = 0x81;
    file[512] = 0x00;
    assert_eq!(get_tables(&file), Err(DbError::Decode(DecodeError::Truncated)));
}

#[test]
fn header_smaller_than_its_size_field_is_malformed() {
    let file = file_with_cell_bytes(&[14, 9, 0, 16, 18, 16, 2, 18]);
    assert_eq!(get_tables(&file), Err(DbError::Schema(SchemaError::MalformedHeader)));
}

#[test]
fn header_larger_than_the_record_is_malformed() {
    let file = file_with_cell_bytes(&[5, 9, 6, 16, 18, 16, 2, 18]);
    assert_eq!(get_tables(&file), Err(DbError::Schema(SchemaError::MalformedHeader)));
}

#[test]
fn header_with_four_columns_is_malformed() {
    let file = file_with_cell_bytes(&[12, 9, 5, 16, 18, 16, 2, b't', b'a', b'b', b'c', 1, 0]);
    assert_eq!(get_tables(&file), Err(DbError::Schema(SchemaError::MalformedHeader)));
}

#[test]
fn record_that_leaves_the_page_is_too_short() {
    let mut file = vec![0u8; 512];
    file[16] = 0x02;
    file[100] = 13;
    file[104] = 1;
    file[108] = 0x01;
    file[109] = 0xf0;
    // a record of 14 bytes starts two bytes behind the cell's start, a
    // record of 15 bytes would end behind the page
    file[0x1f0..0x200].copy_from_slice(&[
        15, 9, 6, 16, 18, 16, 2, 18, b't', b'a', b'b', b'c', 0x01, 0x00, b'q', b'l',
    ]);
    assert_eq!(get_tables(&file), Err(DbError::Schema(SchemaError::PayloadTooShort)));
}

#[test]
fn columns_that_leave_the_record_are_too_short() {
    let file = file_with_cell_bytes(&[
        13, 9, 6, 16, 18, 16, 2, 18, b't', b'a', b'b', b'c', 0x01, 0x00, b'q', b'l',
    ]);
    assert_eq!(get_tables(&file), Err(DbError::Schema(SchemaError::PayloadTooShort)));
}

#[test]
fn odd_serial_type_in_a_cell_is_unsupported() {
    let file = file_with_cell_bytes(&[
        14, 9, 6, 16, 17, 16, 2, 18, b't', b'a', b'b', b'c', 0x01, 0x00, b'q', b'l',
    ]);
    assert_eq!(get_tables(&file), Err(DbError::Schema(SchemaError::UnsupportedSerialType)));
    assert_eq!(
        table_exists(&file, "c".to_string()),
        Err(DbError::Schema(SchemaError::UnsupportedSerialType))
    );
}

#[test]
fn rootpage_that_is_no_stored_integer_is_unsupported() {
    let file = file_with_cell_bytes(&[
        14, 9, 6, 16, 18, 16, 8, 18, b't', b'a', b'b', b'c', 0x01, 0x00, b'q', b'l',
    ]);
    assert_eq!(get_tables(&file), Err(DbError::Schema(SchemaError::UnsupportedSerialType)));
}

#[test]
fn first_cell_that_fails_decides() {
    let good = cell(1, "table", "a", "a", 2, "CREATE TABLE a(x)");
    let mut odd = cell(2, "table", "b", "b", 3, "CREATE TABLE b(x)");
    odd[3] = 23;
    let short = vec![0x81];
    let file = file_with_cells(1024, &[good.clone(), odd.clone(), short.clone()]);
    assert_eq!(get_tables(&file), Err(DbError::Schema(SchemaError::UnsupportedSerialType)));
    let file = file_with_cells(1024, &[short, good, odd]);
    assert_eq!(get_tables(&file), Err(DbError::Decode(DecodeError::Truncated)));
}

#[test]
fn reads_one_cell() {
    let file = two_tables();
    let (_, _, cells) = sqlite_schema::page::read_first_page(&file).unwrap();
    let row = read_cell(&file, cells[1]).unwrap();
    assert_eq!(row.tbl_name, "b");
    assert_eq!(row.header.rowid, 2);
}

#[test]
fn cell_behind_the_page_ends_inside_an_integer() {
    let file = two_tables();
    assert_eq!(
        read_cell(&file[..200], Cell::new(200)),
        Err(DbError::Decode(DecodeError::Truncated))
    );
    assert_eq!(
        read_cell(&file[..200], Cell::new(4000)),
        Err(DbError::Decode(DecodeError::Truncated))
    );
}

#[test]
fn builds_a_catalogue_from_cells() {
    let file = two_tables();
    let (_, _, mut cells) = sqlite_schema::page::read_first_page(&file).unwrap();
    cells.reverse();
    let catalog = Records::build_from_page(&file, &cells).unwrap();
    assert_eq!(catalog.table_names(), vec!["b".to_string(), "a".to_string()]);
    assert_eq!(Records::build_from_page(&file, &vec![]).unwrap().table_count(), 0);
}

#[test]
fn catalogue_grows_by_added_records() {
    let layout = RecordHeader {
        size: 0,
        rowid: 0,
        header_size: 0,
        type_size: 1,
        name_size: 1,
        tbl_name_size: 1,
        root_page: 1,
        sql_size: 1,
    };
    let mut catalog = Records::new();
    assert_eq!(catalog.table_count(), 0);
    assert!(!catalog.contains("m".to_string()));
    assert_eq!(catalog.table_names(), Vec::<String>::new());
    catalog.add_record(Record::new(b"tnm\x02s", layout).unwrap());
    catalog.add_record(Record::new(b"tok\x03s", layout).unwrap());
    assert_eq!(catalog.table_count(), 2);
    assert!(catalog.contains("m".to_string()));
    assert!(catalog.contains("k".to_string()));
    assert!(!catalog.contains("n".to_string()));
    assert!(!catalog.contains("o".to_string()));
    assert_eq!(catalog.table_names(), vec!["m".to_string(), "k".to_string()]);
    assert_eq!(catalog.records[1].name, "o");
}
