//! Why a document could not be read.

use crate::text;
use vstd::prelude::*;

verus! {

/// The kinds of records in the dumps.
#[derive(Clone, Copy, PartialEq, Eq, Structural, Debug)]
pub enum Record {
    Release,
    Artist,
    Label,
    Master,
}

/// Why a document could not be read.
#[derive(Debug)]
pub enum ParseError {
    /// The document holds no record.
    NotFound(Record),
    /// The document ends inside a record.
    UnexpectedEnd(Record),
    /// The document is not well-formed inside a record.
    Malformed(String),
    /// The document is not well-formed between records: what is wrong, and where.
    MalformedAt(String, u64),
    /// The attributes of a tag are not well-formed.
    Attribute(String),
    /// Character data or an attribute value is not UTF-8: what is wrong, and where.
    InvalidUtf8(String),
    /// A reference stands for nothing.
    Escape(String),
}

/// The model of a [`ParseError`].
pub enum ErrorView {
    NotFound(Record),
    UnexpectedEnd(Record),
    Malformed(Seq<char>),
    MalformedAt(Seq<char>, u64),
    Attribute(Seq<char>),
    InvalidUtf8(Seq<char>),
    Escape(Seq<char>),
}

impl DeepView for ParseError {
    type V = ErrorView;

    open spec fn deep_view(&self) -> ErrorView {
        match self {
            ParseError::NotFound(record) => ErrorView::NotFound(*record),
            ParseError::UnexpectedEnd(record) => ErrorView::UnexpectedEnd(*record),
            ParseError::Malformed(message) => ErrorView::Malformed(message@),
            ParseError::MalformedAt(message, position) => ErrorView::MalformedAt(
                message@,
                *position,
            ),
            ParseError::Attribute(message) => ErrorView::Attribute(message@),
            ParseError::InvalidUtf8(message) => ErrorView::InvalidUtf8(message@),
            ParseError::Escape(message) => ErrorView::Escape(message@),
        }
    }
}

/// The name of the element that holds a record.
pub open spec fn record_name(record: Record) -> Seq<char> {
    match record {
        Record::Release => "release"@,
        Record::Artist => "artist"@,
        Record::Label => "label"@,
        Record::Master => "master"@,
    }
}

/// The message of an error.
pub open spec fn error_message(error: ErrorView) -> Seq<char> {
    match error {
        ErrorView::NotFound(record) => "No <"@ + record_name(record) + "> found in bytes"@,
        ErrorView::UnexpectedEnd(record) => "Unexpected EOF inside <"@ + record_name(record) + ">"@,
        ErrorView::Malformed(message) => "XML parse error: "@ + message,
        ErrorView::MalformedAt(message, position) => "XML parse error at position "@
            + text::decimal(position as nat) + ": "@ + message,
        ErrorView::Attribute(message) => message,
        ErrorView::InvalidUtf8(message) => message,
        ErrorView::Escape(message) => message,
    }
}

impl Record {
    /// The name of the element that holds the record.
    pub fn name(&self) -> (r: &'static str)
        ensures
            r@ == record_name(*self),
    {
        match self {
            Record::Release => "release",
            Record::Artist => "artist",
            Record::Label => "label",
            Record::Master => "master",
        }
    }
}

impl ParseError {
    /// The message of the error.
    pub fn message(&self) -> (r: String)
        ensures
            r@ == error_message(self.deep_view()),
    {
        let mut r = String::new();
        match self {
            ParseError::NotFound(record) => {
                r.append("No <");
                r.append(record.name());
                r.append("> found in bytes");
            },
            ParseError::UnexpectedEnd(record) => {
                r.append("Unexpected EOF inside <");
                r.append(record.name());
                r.append(">");
            },
            ParseError::Malformed(message) => {
                r.append("XML parse error: ");
                r.append(message.as_str());
            },
            ParseError::MalformedAt(message, position) => {
                r.append("XML parse error at position ");
                let digits = text::decimal_string(*position);
                r.append(digits.as_str());
                r.append(": ");
                r.append(message.as_str());
            },
            ParseError::Attribute(message) => {
                r.append(message.as_str());
            },
            ParseError::InvalidUtf8(message) => {
                r.append(message.as_str());
            },
            ParseError::Escape(message) => {
                r.append(message.as_str());
            },
        }
        r
    }
}

/// The model of a result that may be an error.
pub open spec fn result_view<T: DeepView>(r: Result<T, ParseError>) -> Result<T::V, ErrorView> {
    match r {
        Ok(value) => Ok(value.deep_view()),
        Err(error) => Err(error.deep_view()),
    }
}

} // verus!
