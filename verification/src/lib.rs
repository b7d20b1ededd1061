//! Reads the schema catalogue out of the first page of a SQLite database file.

pub mod error;
pub mod varint;
pub mod record;
pub mod page;
pub mod catalog;
pub mod db;

pub use db::{get_db_info, get_db_tables, get_tables, table_exists, DbInfo};
pub use error::{DbError, DecodeError, FormatError, SchemaError};
