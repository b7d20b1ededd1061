//! The ways in which reading a database page can fail.

use vstd::prelude::*;

verus! {

/// A variable-length integer could not be read.
#[derive(Clone, Copy, Debug, PartialEq, Eq, Structural)]
pub enum DecodeError {
    /// The bytes ended before the integer did.
    Truncated,
}

/// The file or its first page does not have the expected layout.
#[derive(Clone, Copy, Debug, PartialEq, Eq, Structural)]
pub enum FormatError {
    /// The file is shorter than the 100-byte file header or than the page
    /// size it declares, or the page is too small for what it declares.
    Truncated,
    /// The first page is not a table leaf page.
    InvalidPageType,
}

/// A schema record does not have the expected shape.
#[derive(Clone, Copy, Debug, PartialEq, Eq, Structural)]
pub enum SchemaError {
    /// The record header is cut off or describes fewer than five columns.
    MalformedHeader,
    /// A column's serial type is not one this reader supports.
    UnsupportedSerialType,
    /// The record's fields need more bytes than the payload holds.
    PayloadTooShort,
}

/// Any failure of reading the schema catalogue.
#[derive(Clone, Copy, Debug, PartialEq, Eq, Structural)]
pub enum DbError {
    Format(FormatError),
    Schema(SchemaError),
    Decode(DecodeError),
}

} // verus!
