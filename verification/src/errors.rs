use crate::cursor::Cursor;
use vstd::prelude::*;
use vstd::string::StringExecFns;

verus! {

/// Why bytes could not be read from a source.
#[derive(Debug)]
pub enum SourceError {
    /// The requested window does not fit in the data that is there.
    InsufficientData { cursor: Cursor, view: Cursor },
    /// Reading the underlying medium failed; the message says why.
    IoError(String),
}

impl SourceError {
    /// The text that describes the error.
    pub open spec fn text(self) -> Seq<char> {
        match self {
            SourceError::InsufficientData { cursor, view } => "insufficient data: requested "@
                + cursor.debug_text() + ", view: "@ + view.debug_text(),
            SourceError::IoError(msg) => "I/O error: "@ + msg@,
        }
    }

    /// The text that describes the error.
    pub fn to_string(&self) -> (s: String)
        ensures
            s@ == self.text(),
    {
        let mut s = String::new();
        match self {
            SourceError::InsufficientData { cursor, view } => {
                s.append("insufficient data: requested ");
                s.append(cursor.debug_string().as_str());
                s.append(", view: ");
                s.append(view.debug_string().as_str());
            },
            SourceError::IoError(msg) => {
                s.append("I/O error: ");
                s.append(msg.as_str());
            },
        }
        s
    }
}

pub type VResult<T> = Result<T, SourceError>;

/// `<String as From<&str>>::from`: a `String` that holds the characters of `s`. This is the
/// conversion by which `ValidationError::fail` and `fail_at` take a message given as `&str`.
pub assume_specification<'a>[ <String as From<&'a str>>::from ](s: &str) -> (r: String)
    ensures
        r@ == s@,
;

/// A check on the parsed data that did not hold.
#[derive(Debug)]
pub enum ValidationError {
    AssertionFailed { msg: String, offset: Option<usize> },
}

impl ValidationError {
    /// The text that describes the error.
    pub open spec fn text(self) -> Seq<char> {
        match self {
            ValidationError::AssertionFailed { msg, .. } => "assertion failed: "@ + msg@,
        }
    }

    /// The text that describes the error.
    pub fn to_string(&self) -> (s: String)
        ensures
            s@ == self.text(),
    {
        let mut s = String::new();
        match self {
            ValidationError::AssertionFailed { msg, .. } => {
                s.append("assertion failed: ");
                s.append(msg.as_str());
            },
        }
        s
    }

    pub fn fail(msg: impl Into<String>) -> (e: Self)
        ensures
            e matches ValidationError::AssertionFailed { msg: m, offset } && offset is None
                && (call_ensures(Into::into, (msg,), m)),
    {
        ValidationError::AssertionFailed { msg: msg.into(), offset: None }
    }

    pub fn fail_at(msg: impl Into<String>, offset: usize) -> (e: Self)
        ensures
            e matches ValidationError::AssertionFailed { msg: m, offset: o } && o == Some(offset)
                && (call_ensures(Into::into, (msg,), m)),
    {
        ValidationError::AssertionFailed { msg: msg.into(), offset: Some(offset) }
    }
}

/// Why reading a specification failed.
#[derive(Debug)]
pub enum SpecError {
    ReadFailed(SourceError),
    ValidationFailed(ValidationError),
}

impl SpecError {
    /// The text that describes the error.
    pub open spec fn text(self) -> Seq<char> {
        match self {
            SpecError::ReadFailed(e) => "read failure: "@ + e.text(),
            SpecError::ValidationFailed(e) => "validation failed: "@ + e.text(),
        }
    }

    /// The text that describes the error.
    pub fn to_string(&self) -> (s: String)
        ensures
            s@ == self.text(),
    {
        let mut s = String::new();
        match self {
            SpecError::ReadFailed(e) => {
                s.append("read failure: ");
                s.append(e.to_string().as_str());
            },
            SpecError::ValidationFailed(e) => {
                s.append("validation failed: ");
                s.append(e.to_string().as_str());
            },
        }
        s
    }
}

impl From<SourceError> for SpecError {
    fn from(e: SourceError) -> (r: Self) {
        SpecError::ReadFailed(e)
    }
}

impl vstd::std_specs::convert::FromSpecImpl<SourceError> for SpecError {
    open spec fn obeys_from_spec() -> bool {
        true
    }

    open spec fn from_spec(e: SourceError) -> SpecError {
        SpecError::ReadFailed(e)
    }
}

impl From<ValidationError> for SpecError {
    fn from(e: ValidationError) -> (r: Self) {
        SpecError::ValidationFailed(e)
    }
}

impl vstd::std_specs::convert::FromSpecImpl<ValidationError> for SpecError {
    open spec fn obeys_from_spec() -> bool {
        true
    }

    open spec fn from_spec(e: ValidationError) -> SpecError {
        SpecError::ValidationFailed(e)
    }
}

pub type SResult<T> = Result<T, SpecError>;

} // verus!
