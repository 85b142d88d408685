//! The failures that decoding and querying can report.

use vstd::prelude::*;
use crate::sql_type::SqlType;

verus! {

/// Why a record payload was rejected.
#[derive(Debug, Clone, Copy, PartialEq, Eq)]
pub enum RecordFault {
    /// The header length is smaller than its own encoding or larger than the payload.
    HeaderSize,
    /// A serial-type varint crosses the end of the header.
    HeaderOverrun,
    /// A serial type is one of the two reserved codes.
    ReservedSerialType,
    /// The columns do not fill the body exactly.
    BodySize,
    /// A column index is past the last column of the record.
    NoSuchColumn,
}

/// Why a schema row or a statement was rejected.
#[derive(Debug, Clone, Copy, PartialEq, Eq)]
pub enum SchemaFault {
    /// A row of the schema table has fewer than five columns.
    TooFewColumns,
    /// The first column of a row names no kind of schema entry.
    Kind,
    /// The root page number does not fit a page number.
    RootPage,
    /// A pattern of the statement grammar was refused by the matcher.
    Pattern,
}

/// What the engine does not handle.
#[derive(Debug, Clone, Copy, PartialEq, Eq)]
pub enum Feature {
    /// A payload that does not fit in its page.
    Overflow,
    /// A tree deeper than the walker descends.
    Depth,
    /// A projected column whose declared class has no rendering.
    ColumnClass,
    /// A statement that the planner does not understand.
    Statement,
}

/// A failure of decoding or of a query.
#[derive(Debug, Clone, PartialEq, Eq)]
pub enum DbError {
    /// A page lies, wholly or in part, past the end of the file.
    IoError,
    /// The first hundred bytes are not a database header.
    InvalidHeader,
    /// The page-type byte is not one that is accepted where it was read.
    UnknownPageKind(u8),
    /// A varint was asked of an empty run of bytes.
    TruncatedVarint,
    /// A record payload breaks the record layout.
    MalformedRecord(RecordFault),
    /// A column was read as a class that its serial type does not belong to.
    TypeMismatch { expected: SqlType, got: u64 },
    /// No table, index or column of this name.
    SchemaNotFound(String),
    /// A schema row or a statement could not be understood.
    InvalidSchema(SchemaFault),
    /// The key is not in the tree.
    NotFound,
    /// The input needs something the engine leaves out.
    Unsupported(Feature),
}

/// What a failure is: the failure itself, with a name as the text it holds.
pub enum ErrorView {
    IoError,
    InvalidHeader,
    UnknownPageKind(u8),
    TruncatedVarint,
    MalformedRecord(RecordFault),
    TypeMismatch { expected: SqlType, got: u64 },
    SchemaNotFound(Seq<char>),
    InvalidSchema(SchemaFault),
    NotFound,
    Unsupported(Feature),
}

impl View for DbError {
    type V = ErrorView;

    open spec fn view(&self) -> ErrorView {
        match self {
            DbError::IoError => ErrorView::IoError,
            DbError::InvalidHeader => ErrorView::InvalidHeader,
            DbError::UnknownPageKind(byte) => ErrorView::UnknownPageKind(*byte),
            DbError::TruncatedVarint => ErrorView::TruncatedVarint,
            DbError::MalformedRecord(fault) => ErrorView::MalformedRecord(*fault),
            DbError::TypeMismatch { expected, got } => ErrorView::TypeMismatch {
                expected: *expected,
                got: *got,
            },
            DbError::SchemaNotFound(name) => ErrorView::SchemaNotFound(name@),
            DbError::InvalidSchema(fault) => ErrorView::InvalidSchema(*fault),
            DbError::NotFound => ErrorView::NotFound,
            DbError::Unsupported(feature) => ErrorView::Unsupported(*feature),
        }
    }
}

} // verus!
