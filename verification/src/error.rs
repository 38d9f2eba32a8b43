//! The kinds of failure that the library reports.

use vstd::prelude::*;

verus! {

/// Why an operation failed.
#[derive(Clone, Copy, Debug, PartialEq, Eq, Structural)]
pub enum ErrorKind {
    /// The system failed to read or write.
    Io,
    /// Bytes that do not follow the format: framing, an enumeration byte, UTF-8.
    InvalidData,
    /// The input ended inside a value.
    UnexpectedEof,
    /// A packet lacks a side-data entry that its stream requires.
    MissingSideData,
    /// A stream asks for a compression method that is not available.
    UnsupportedCompression,
    /// The header is not a valid encoding of the format description.
    HeaderDecode,
    /// A value does not fit the field or the table that should hold it.
    ParameterOutOfRange,
}

impl ErrorKind {
    /// A short description for messages.
    pub fn describe(&self) -> (text: &'static str)
        ensures
            text@ == self.description(),
    {
        match self {
            ErrorKind::Io => "input/output failure",
            ErrorKind::InvalidData => "invalid data",
            ErrorKind::UnexpectedEof => "unexpected end of input",
            ErrorKind::MissingSideData => "side data is missing",
            ErrorKind::UnsupportedCompression => "unsupported compression",
            ErrorKind::HeaderDecode => "header cannot be decoded",
            ErrorKind::ParameterOutOfRange => "parameter out of range",
        }
    }

    /// The text that [`ErrorKind::describe`] returns.
    pub open spec fn description(&self) -> Seq<char> {
        match self {
            ErrorKind::Io => "input/output failure"@,
            ErrorKind::InvalidData => "invalid data"@,
            ErrorKind::UnexpectedEof => "unexpected end of input"@,
            ErrorKind::MissingSideData => "side data is missing"@,
            ErrorKind::UnsupportedCompression => "unsupported compression"@,
            ErrorKind::HeaderDecode => "header cannot be decoded"@,
            ErrorKind::ParameterOutOfRange => "parameter out of range"@,
        }
    }
}

/// The error of a result, where it is one.
pub open spec fn failure_of(r: Result<(), ErrorKind>) -> Option<ErrorKind> {
    match r {
        Ok(_) => None,
        Err(e) => Some(e),
    }
}

} // verus!
