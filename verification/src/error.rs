//! The errors of the library.

use vstd::prelude::*;
use crate::text::push_decimal;

verus! {

#[derive(Debug, PartialEq, Eq)]
pub enum Error {
    /// No cells were given.
    EmptyCells,
    /// The cells given are not all of one resolution.
    MixedResolutions,
    /// A resolution outside of what the operation can work with.
    InvalidResolution(u8),
    /// A 64-bit value that is no cell index.
    InvalidCell(u64),
    /// A query template without the named placeholder.
    MissingQueryPlaceholder(String),
    /// The tableset has no table that the cells could be looked up in.
    NoQueryableTables,
    ColumnNotFound(String),
    /// A column (named first) whose length (last) differs from the expected one.
    DifferentColumnLength(String, usize, usize),
    IncompatibleDatatype,
    /// What is wrong (last) with which part of a schema (first).
    SchemaValidationError(String, String),
    UnknownDatatype(String),
    SerializationError(String),
    DatabaseError(String),
    IoError(String),
    InvalidUrl(String),
    ResultAlreadyConsumed,
    EmptyPolygon,
}

/// Mathematical value of an [`Error`].
pub enum ErrorView {
    EmptyCells,
    MixedResolutions,
    InvalidResolution(u8),
    InvalidCell(u64),
    MissingQueryPlaceholder(Seq<char>),
    NoQueryableTables,
    ColumnNotFound(Seq<char>),
    DifferentColumnLength(Seq<char>, usize, usize),
    IncompatibleDatatype,
    SchemaValidationError(Seq<char>, Seq<char>),
    UnknownDatatype(Seq<char>),
    SerializationError(Seq<char>),
    DatabaseError(Seq<char>),
    IoError(Seq<char>),
    InvalidUrl(Seq<char>),
    ResultAlreadyConsumed,
    EmptyPolygon,
}

impl View for Error {
    type V = ErrorView;

    open spec fn view(&self) -> ErrorView {
        match self {
            Error::EmptyCells => ErrorView::EmptyCells,
            Error::MixedResolutions => ErrorView::MixedResolutions,
            Error::InvalidResolution(r) => ErrorView::InvalidResolution(*r),
            Error::InvalidCell(h) => ErrorView::InvalidCell(*h),
            Error::MissingQueryPlaceholder(p) => ErrorView::MissingQueryPlaceholder(p@),
            Error::NoQueryableTables => ErrorView::NoQueryableTables,
            Error::ColumnNotFound(c) => ErrorView::ColumnNotFound(c@),
            Error::DifferentColumnLength(c, a, b) => ErrorView::DifferentColumnLength(c@, *a, *b),
            Error::IncompatibleDatatype => ErrorView::IncompatibleDatatype,
            Error::SchemaValidationError(o, m) => ErrorView::SchemaValidationError(o@, m@),
            Error::UnknownDatatype(t) => ErrorView::UnknownDatatype(t@),
            Error::SerializationError(m) => ErrorView::SerializationError(m@),
            Error::DatabaseError(m) => ErrorView::DatabaseError(m@),
            Error::IoError(m) => ErrorView::IoError(m@),
            Error::InvalidUrl(m) => ErrorView::InvalidUrl(m@),
            Error::ResultAlreadyConsumed => ErrorView::ResultAlreadyConsumed,
            Error::EmptyPolygon => ErrorView::EmptyPolygon,
        }
    }
}

/// The sentence that describes the error `e`.
pub open spec fn error_message(e: ErrorView) -> Seq<char> {
    match e {
        ErrorView::EmptyCells => "empty cells"@,
        ErrorView::MixedResolutions => "mixed h3 resolutions"@,
        ErrorView::InvalidResolution(r) => "invalid h3 resolution: "@ + crate::text::decimal(r as nat),
        ErrorView::InvalidCell(h) => "invalid h3 index: "@ + crate::text::decimal(h as nat),
        ErrorView::MissingQueryPlaceholder(p) => "missing query placeholder: "@ + p,
        ErrorView::NoQueryableTables => "no queryable tables found"@,
        ErrorView::ColumnNotFound(c) => "column not found: "@ + c,
        ErrorView::DifferentColumnLength(c, a, b) => "column "@ + c + " has a different length: expected "@
            + crate::text::decimal(a as nat) + ", found "@ + crate::text::decimal(b as nat),
        ErrorView::IncompatibleDatatype => "incompatible datatype"@,
        ErrorView::SchemaValidationError(o, m) => "schema error on validating "@ + o + ": "@ + m,
        ErrorView::UnknownDatatype(t) => "unknown datatype: "@ + t,
        ErrorView::SerializationError(m) => "serialization error: "@ + m,
        ErrorView::DatabaseError(m) => "database error: "@ + m,
        ErrorView::IoError(m) => "io error: "@ + m,
        ErrorView::InvalidUrl(m) => "invalid url: "@ + m,
        ErrorView::ResultAlreadyConsumed => "resultset can only be awaited once"@,
        ErrorView::EmptyPolygon => "empty polygon given"@,
    }
}

impl Error {
    /// The sentence that describes the error.
    pub fn to_string(&self) -> (s: String)
        ensures
            s@ == error_message(self@),
    {
        let mut s = String::new();
        match self {
            Error::EmptyCells => s.append("empty cells"),
            Error::MixedResolutions => s.append("mixed h3 resolutions"),
            Error::InvalidResolution(r) => {
                s.append("invalid h3 resolution: ");
                push_decimal(&mut s, *r as u64);
            },
            Error::InvalidCell(h) => {
                s.append("invalid h3 index: ");
                push_decimal(&mut s, *h);
            },
            Error::MissingQueryPlaceholder(p) => {
                s.append("missing query placeholder: ");
                s.append(p.as_str());
            },
            Error::NoQueryableTables => s.append("no queryable tables found"),
            Error::ColumnNotFound(c) => {
                s.append("column not found: ");
                s.append(c.as_str());
            },
            Error::DifferentColumnLength(c, a, b) => {
                s.append("column ");
                s.append(c.as_str());
                s.append(" has a different length: expected ");
                push_decimal(&mut s, *a as u64);
                s.append(", found ");
                push_decimal(&mut s, *b as u64);
            },
            Error::IncompatibleDatatype => s.append("incompatible datatype"),
            Error::SchemaValidationError(o, m) => {
                s.append("schema error on validating ");
                s.append(o.as_str());
                s.append(": ");
                s.append(m.as_str());
            },
            Error::UnknownDatatype(t) => {
                s.append("unknown datatype: ");
                s.append(t.as_str());
            },
            Error::SerializationError(m) => {
                s.append("serialization error: ");
                s.append(m.as_str());
            },
            Error::DatabaseError(m) => {
                s.append("database error: ");
                s.append(m.as_str());
            },
            Error::IoError(m) => {
                s.append("io error: ");
                s.append(m.as_str());
            },
            Error::InvalidUrl(m) => {
                s.append("invalid url: ");
                s.append(m.as_str());
            },
            Error::ResultAlreadyConsumed => s.append("resultset can only be awaited once"),
            Error::EmptyPolygon => s.append("empty polygon given"),
        }
        assert(s@ =~= error_message(self@));
        s
    }
}

} // verus!
