use vstd::prelude::*;

verus! {

/// The kind of a token's text.
#[derive(Copy, Clone, Debug, PartialEq, Eq, Structural)]
pub enum TokenKind {
    Integer,
    Real,
    StringLiteral,
    StringHex,
    StringBase85,
    Name,
}

/// A token: its kind and its text.
#[derive(Debug)]
pub struct Token {
    value: String,
    kind: TokenKind,
}

impl Token {
    pub closed spec fn spec_kind(&self) -> TokenKind {
        self.kind
    }

    pub closed spec fn spec_value(&self) -> Seq<char> {
        self.value@
    }

    pub fn new(kind: TokenKind, value: String) -> (r: Self)
        ensures
            r.spec_kind() == kind,
            r.spec_value() == value@,
    {
        Self { value, kind }
    }

    pub fn kind(&self) -> (r: TokenKind)
        ensures
            r == self.spec_kind(),
    {
        self.kind
    }

    pub fn value(&self) -> (r: &str)
        ensures
            r@ == self.spec_value(),
    {
        self.value.as_str()
    }
}

} // verus!
