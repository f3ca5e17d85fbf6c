use vstd::prelude::*;
use vstd::string::StringExecFns;

verus! {

/// The PostScript error that an operation raises.
#[derive(Copy, Clone, Debug, PartialEq, Eq, Structural)]
pub enum ErrorKind {
    DictStackUnderflow,
    InvalidAccess,
    IoError,
    LimitCheck,
    RangeCheck,
    StackUnderflow,
    SyntaxError,
    TypeCheck,
    Undefined,
    UndefinedResult,
    UnmatchedMark,
    Unregistered,
    VmError,
}

/// The PostScript name of an error kind.
pub open spec fn spec_kind_name(kind: ErrorKind) -> Seq<char> {
    match kind {
        ErrorKind::DictStackUnderflow => "dictstackunderflow"@,
        ErrorKind::InvalidAccess => "invalidaccess"@,
        ErrorKind::IoError => "ioerror"@,
        ErrorKind::LimitCheck => "limitcheck"@,
        ErrorKind::RangeCheck => "rangecheck"@,
        ErrorKind::StackUnderflow => "stackunderflow"@,
        ErrorKind::SyntaxError => "syntaxerror"@,
        ErrorKind::TypeCheck => "typecheck"@,
        ErrorKind::Undefined => "undefined"@,
        ErrorKind::UndefinedResult => "undefinedresult"@,
        ErrorKind::UnmatchedMark => "unmatchedmark"@,
        ErrorKind::Unregistered => "unregistered"@,
        ErrorKind::VmError => "vmerror"@,
    }
}

impl ErrorKind {
    /// The PostScript name of this error, as the error dictionary knows it.
    pub fn name(self) -> (r: &'static str)
        ensures
            r@ == spec_kind_name(self),
    {
        match self {
            ErrorKind::DictStackUnderflow => "dictstackunderflow",
            ErrorKind::InvalidAccess => "invalidaccess",
            ErrorKind::IoError => "ioerror",
            ErrorKind::LimitCheck => "limitcheck",
            ErrorKind::RangeCheck => "rangecheck",
            ErrorKind::StackUnderflow => "stackunderflow",
            ErrorKind::SyntaxError => "syntaxerror",
            ErrorKind::TypeCheck => "typecheck",
            ErrorKind::Undefined => "undefined",
            ErrorKind::UndefinedResult => "undefinedresult",
            ErrorKind::UnmatchedMark => "unmatchedmark",
            ErrorKind::Unregistered => "unregistered",
            ErrorKind::VmError => "vmerror",
        }
    }
}

pub type Result<T> = core::result::Result<T, Error>;

/// Whether `r` is an error of kind `kind`.
pub open spec fn fails_with<T>(r: Result<T>, kind: ErrorKind) -> bool {
    r is Err && r->Err_0.spec_kind() == kind
}

/// The text an error is shown by: the name of its kind, then `: ` and the message where
/// there is one.
pub open spec fn display_text(kind: ErrorKind, message: Seq<char>) -> Seq<char> {
    if message.len() == 0 {
        spec_kind_name(kind)
    } else {
        spec_kind_name(kind) + ": "@ + message
    }
}

/// An error: its kind and a message (empty when there is none).
#[derive(Debug)]
pub struct Error {
    kind: ErrorKind,
    message: String,
}

impl Error {
    pub closed spec fn spec_kind(&self) -> ErrorKind {
        self.kind
    }

    pub closed spec fn spec_message(&self) -> Seq<char> {
        self.message@
    }

    pub fn new(kind: ErrorKind, message: &str) -> (r: Self)
        ensures
            r.spec_kind() == kind,
            r.spec_message() == message@,
    {
        Self { kind, message: message.to_owned() }
    }

    pub fn from(kind: ErrorKind) -> (r: Self)
        ensures
            r.spec_kind() == kind,
            r.spec_message() == Seq::<char>::empty(),
    {
        Self { kind, message: String::new() }
    }

    pub fn kind(&self) -> (r: ErrorKind)
        ensures
            r == self.spec_kind(),
    {
        self.kind
    }

    /// The text the error is shown by: `rangecheck`, or `rangecheck: bad` with a message.
    pub fn to_string(&self) -> (r: String)
        ensures
            r@ == display_text(self.spec_kind(), self.spec_message()),
    {
        let mut text = self.kind.name().to_owned();
        let empty = String::new();
        if self.message == empty {
            return text;
        }
        assert(self.message@.len() != 0) by {
            if self.message@.len() == 0 {
                assert(self.message@ =~= empty@);
            }
        }
        text.append(": ");
        text.append(self.message.as_str());
        text
    }

    pub fn message(&self) -> (r: &str)
        ensures
            r@ == self.spec_message(),
    {
        self.message.as_str()
    }
}

} // verus!
