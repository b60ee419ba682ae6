//! Errors reported by the parsers.
use vstd::prelude::*;

verus! {

/// What a primitive recognizer expected and did not find.
#[derive(Debug, Clone, Copy, PartialEq, Eq, Hash)]
pub enum NomErrorKind {
    /// A run of decimal digits
    Digit,
    /// A decimal number that fits in 16 bits
    MapRes,
    /// A fixed keyword
    Tag,
    /// A branch that always fails
    Fail,
    /// The end of the input
    Eof,
    /// At least one space or tab
    Space,
    /// At least one character that is not whitespace
    TakeTill1,
    /// One of a set of characters
    OneOf,
    /// A list element that consumes input
    SeparatedList,
    /// A given character
    Char,
    /// At least one space, tab, carriage return or line feed
    MultiSpace,
}

/// The reason a parser rejected its input.
#[derive(Debug, Clone, Copy, PartialEq, Eq)]
pub enum ErrorKind {
    /// Description is empty
    EmptyDescription,
    /// Invalid period, or empty period
    InvalidPeriod,
    /// Year, month and day do not name an existing day
    InvalidDate,
    /// Hour, minute and second do not name a time of day
    InvalidTime,
    /// Indicates which character was expected
    Char(char),
    /// Error kind given by a primitive recognizer
    Nom(NomErrorKind),
}

/// A parse error: the input that was left where it happened, its kind and
/// an optional note on what was being parsed.
#[derive(Debug, Clone, PartialEq, Eq)]
pub struct Error {
    pub input: String,
    pub kind: ErrorKind,
    pub context: Option<String>,
}

/// How much more input a parser needs to decide.
#[derive(Debug, Clone, Copy, PartialEq, Eq)]
pub enum Needed {
    Unknown,
    Size(usize),
}

/// The failure of a parser: a recoverable error, an unrecoverable failure,
/// or a request for more input.
#[derive(Debug, Clone, PartialEq, Eq)]
pub enum ParseErr {
    Incomplete(Needed),
    Error(Error),
    Failure(Error),
}

/// The result of a parser: the input left over and the value, or the failure.
pub type IResult<'a, O> = Result<(&'a str, O), ParseErr>;

} // verus!
