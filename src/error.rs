//! The located error model: a byte segment and a closed set of kinds.
use vstd::prelude::*;

verus! {

pub const EMPTY_CONTENT_LINE: &'static str = "EMPTY_CONTENT_LINE";
pub const NO_PROPERTY_NAME: &'static str = "NO_PROPERTY_NAME";
pub const NO_PARAM_NAME: &'static str = "NO_PARAM_NAME";
pub const NO_PROPERTY_VALUE: &'static str = "NO_PROPERTY_VALUE";
pub const NO_COMMA_ETC: &'static str = "NO_COMMA_ETC";
pub const UNEXPECTED_DOUBLE_QUOTE: &'static str = "UNEXPECTED_DOUBLE_QUOTE";
pub const UTF8_ERROR: &'static str = "UTF8_ERROR";

/// Why a content line was rejected.
#[derive(Clone, Copy, Debug, PartialEq, Eq, Structural)]
pub enum ErrorKind {
    EmptyContentLine,
    NoPropertyName,
    NoParamName,
    NoPropertyValue,
    NoCommaEtc,
    UnexpectedDoubleQuote,
    Utf8Error,
}

/// The half-open byte range `[start, end)` of the input that a rejection points at:
/// one byte where an offending byte is present, empty at the end of the input.
#[derive(Clone, Copy, Debug, PartialEq, Eq, Structural)]
pub struct Segment {
    pub start: usize,
    pub end: usize,
}

/// A rejection of a content line: where, and why.
#[derive(Clone, Copy, Debug, PartialEq, Eq, Structural)]
pub struct PreparseError {
    pub segment: Segment,
    pub kind: ErrorKind,
}

/// The stable reason code of each kind.
pub open spec fn reason_of(kind: ErrorKind) -> Seq<char> {
    match kind {
        ErrorKind::EmptyContentLine => EMPTY_CONTENT_LINE@,
        ErrorKind::NoPropertyName => NO_PROPERTY_NAME@,
        ErrorKind::NoParamName => NO_PARAM_NAME@,
        ErrorKind::NoPropertyValue => NO_PROPERTY_VALUE@,
        ErrorKind::NoCommaEtc => NO_COMMA_ETC@,
        ErrorKind::UnexpectedDoubleQuote => UNEXPECTED_DOUBLE_QUOTE@,
        ErrorKind::Utf8Error => UTF8_ERROR@,
    }
}

/// The segment that marks position `at` of an input of `len` bytes.
pub open spec fn segment_at(at: int, len: int) -> (int, int) {
    if at < len {
        (at, at + 1)
    } else {
        (at, at)
    }
}

impl ErrorKind {
    /// The stable reason code of this kind.
    pub fn reason(&self) -> (r: &'static str)
        ensures
            r@ == reason_of(*self),
    {
        match self {
            ErrorKind::EmptyContentLine => EMPTY_CONTENT_LINE,
            ErrorKind::NoPropertyName => NO_PROPERTY_NAME,
            ErrorKind::NoParamName => NO_PARAM_NAME,
            ErrorKind::NoPropertyValue => NO_PROPERTY_VALUE,
            ErrorKind::NoCommaEtc => NO_COMMA_ETC,
            ErrorKind::UnexpectedDoubleQuote => UNEXPECTED_DOUBLE_QUOTE,
            ErrorKind::Utf8Error => UTF8_ERROR,
        }
    }
}

impl PreparseError {
    /// The error at position `at` of an input of `len` bytes.
    pub fn at(at: usize, len: usize, kind: ErrorKind) -> (r: PreparseError)
        requires
            at <= len,
        ensures
            (r.segment.start as int, r.segment.end as int) == segment_at(at as int, len as int),
            r.kind == kind,
    {
        let end = if at < len {
            at + 1
        } else {
            at
        };
        PreparseError { segment: Segment { start: at, end }, kind }
    }

    /// The stable reason code of this error.
    pub fn reason(&self) -> (r: &'static str)
        ensures
            r@ == reason_of(self.kind),
    {
        self.kind.reason()
    }
}

} // verus!
