use vstd::prelude::*;

use crate::access::Mode;

verus! {

/// A name held as a string, with its literal or executable attribute.
#[derive(Debug)]
pub struct NameObject {
    inner: String,
    pub mode: Mode,
}

impl Clone for NameObject {
    fn clone(&self) -> (r: Self)
        ensures
            r.spec_value() == self.spec_value(),
            r.spec_mode() == self.spec_mode(),
    {
        NameObject { inner: self.inner.clone(), mode: self.mode }
    }
}

impl NameObject {
    /// The name's attribute.
    pub closed spec fn spec_mode(&self) -> Mode {
        self.mode
    }

    /// The characters of the name.
    pub closed spec fn spec_value(&self) -> Seq<char> {
        self.inner@
    }

    pub fn new(value: String, mode: Mode) -> (r: Self)
        ensures
            r.spec_value() == value@,
            r.spec_mode() == mode,
    {
        NameObject { inner: value, mode }
    }

    /// The length of the name in UTF-8 bytes.
    pub fn len(&self) -> (r: usize)
        ensures
            r == vstd::utf8::encode_utf8(self.spec_value()).len(),
    {
        self.inner.as_str().as_bytes().len()
    }

    pub fn is_empty(&self) -> (r: bool)
        ensures
            r == (self.spec_value().len() == 0),
    {
        self.inner.as_str().is_empty()
    }

    pub fn as_str(&self) -> (r: &str)
        ensures
            r@ == self.spec_value(),
    {
        self.inner.as_str()
    }

    /// Whether the two names are equal (their modes are not compared).
    pub fn same_name(&self, other: &NameObject) -> (r: bool)
        ensures
            r == (self.spec_value() == other.spec_value()),
    {
        self.inner == other.inner
    }
}

} // verus!
