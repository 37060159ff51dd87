//! The closed set of parse failures. Each variant carries the offending
//! piece of the input for diagnostics.

use vstd::prelude::*;

verus! {

/// Why an A1 notation string failed to parse.
#[derive(Clone, Debug, PartialEq, Eq)]
pub enum Error {
    /// A column code that is empty, not letters, or beyond the machine's
    /// index range.
    InvalidColumn(String),
    /// A row number that is zero, not digits, or beyond the machine's
    /// index range.
    InvalidRow(String),
    /// A token that starts like a cell but does not finish as one.
    InvalidCell(String),
    /// An empty sheet name before `!`.
    InvalidSheetName(String),
    /// A token that matches no reference shape at all.
    InvalidA1(String),
}

/// The mathematical value of an [`Error`].
#[verifier::ext_equal]
pub enum ErrorV {
    InvalidColumn(Seq<char>),
    InvalidRow(Seq<char>),
    InvalidCell(Seq<char>),
    InvalidSheetName(Seq<char>),
    InvalidA1(Seq<char>),
}

impl View for Error {
    type V = ErrorV;

    open spec fn view(&self) -> ErrorV {
        match self {
            Error::InvalidColumn(s) => ErrorV::InvalidColumn(s@),
            Error::InvalidRow(s) => ErrorV::InvalidRow(s@),
            Error::InvalidCell(s) => ErrorV::InvalidCell(s@),
            Error::InvalidSheetName(s) => ErrorV::InvalidSheetName(s@),
            Error::InvalidA1(s) => ErrorV::InvalidA1(s@),
        }
    }
}

impl Error {
    /// The offending piece of input this error reports.
    pub fn offending(&self) -> (r: &String)
        ensures
            match self@ {
                ErrorV::InvalidColumn(s) => r@ == s,
                ErrorV::InvalidRow(s) => r@ == s,
                ErrorV::InvalidCell(s) => r@ == s,
                ErrorV::InvalidSheetName(s) => r@ == s,
                ErrorV::InvalidA1(s) => r@ == s,
            },
    {
        match self {
            Error::InvalidColumn(s) => s,
            Error::InvalidRow(s) => s,
            Error::InvalidCell(s) => s,
            Error::InvalidSheetName(s) => s,
            Error::InvalidA1(s) => s,
        }
    }
}

} // verus!
