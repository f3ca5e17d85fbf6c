use vstd::prelude::*;

verus! {

/// Errors of reading program text.
#[derive(Copy, Clone, Debug, PartialEq, Eq, Structural)]
pub enum ErrorKind {
    Unknown,
    UnexpectedEof,
    UnterminatedString,
    Read,
    Syntax,
}

/// A reading error, with the description of its cause where there is one.
#[derive(Debug)]
pub struct Error {
    kind: ErrorKind,
    cause: Option<String>,
}

impl Error {
    pub closed spec fn spec_kind(&self) -> ErrorKind {
        self.kind
    }

    pub closed spec fn spec_cause(&self) -> Option<Seq<char>> {
        match self.cause {
            Some(c) => Some(c@),
            None => None,
        }
    }

    pub fn new(kind: ErrorKind) -> (r: Self)
        ensures
            r.spec_kind() == kind,
            r.spec_cause().is_none(),
    {
        Self { cause: None, kind }
    }

    pub fn with_cause(kind: ErrorKind, cause: String) -> (r: Self)
        ensures
            r.spec_kind() == kind,
            r.spec_cause() == Some(cause@),
    {
        Self { cause: Some(cause), kind }
    }

    pub fn eof() -> (r: Self)
        ensures
            r.spec_kind() == ErrorKind::UnexpectedEof,
            r.spec_cause().is_none(),
    {
        Self { kind: ErrorKind::UnexpectedEof, cause: None }
    }

    pub fn kind(&self) -> (r: ErrorKind)
        ensures
            r == self.spec_kind(),
    {
        self.kind
    }
}

} // verus!
