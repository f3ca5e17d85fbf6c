use vstd::prelude::*;
use vstd::string::StringSliceAdditionalSpecFns;

use crate::access::Mode;

verus! {

/// A name: its bytes and its literal or executable attribute.
#[derive(Debug)]
pub struct NameObject {
    inner: Vec<u8>,
    mode: Mode,
}

/// A copy of the bytes of `s`.
pub fn bytes_of(s: &[u8]) -> (r: Vec<u8>)
    ensures
        r@ == s@,
{
    let mut r: Vec<u8> = Vec::with_capacity(s.len());
    let mut n: usize = 0;
    while n < s.len()
        invariant
            n <= s@.len(),
            r@ == s@.subrange(0, n as int),
        decreases s@.len() - n,
    {
        r.push(s[n]);
        n = n + 1;
        assert(r@ =~= s@.subrange(0, n as int));
    }
    assert(s@.subrange(0, s@.len() as int) =~= s@);
    r
}

/// Whether two byte strings are equal.
pub fn bytes_equal(a: &[u8], b: &[u8]) -> (r: bool)
    ensures
        r == (a@ == b@),
{
    if a.len() != b.len() {
        return false;
    }
    let mut n: usize = 0;
    while n < a.len()
        invariant
            a@.len() == b@.len(),
            n <= a@.len(),
            a@.subrange(0, n as int) == b@.subrange(0, n as int),
        decreases a@.len() - n,
    {
        if a[n] != b[n] {
            assert(a@[n as int] != b@[n as int]);
            return false;
        }
        n = n + 1;
        assert(a@.subrange(0, n as int) =~= b@.subrange(0, n as int));
    }
    assert(a@ =~= a@.subrange(0, n as int));
    assert(b@ =~= b@.subrange(0, n as int));
    true
}

impl Clone for NameObject {
    fn clone(&self) -> (r: Self)
        ensures
            r.spec_value() == self.spec_value(),
            r.spec_mode() == self.spec_mode(),
    {
        NameObject { inner: bytes_of(self.inner.as_slice()), mode: self.mode }
    }
}

impl NameObject {
    pub closed spec fn spec_value(&self) -> Seq<u8> {
        self.inner@
    }

    pub closed spec fn spec_mode(&self) -> Mode {
        self.mode
    }

    /// A name of the UTF-8 bytes of `value`.
    pub fn new(value: &str, mode: Mode) -> (r: Self)
        ensures
            r.spec_value() == value.spec_bytes(),
            r.spec_mode() == mode,
    {
        NameObject { inner: bytes_of(value.as_bytes()), mode }
    }

    pub fn mode(&self) -> (r: Mode)
        ensures
            r == self.spec_mode(),
    {
        self.mode
    }

    pub fn value(&self) -> (r: &[u8])
        ensures
            r@ == self.spec_value(),
    {
        self.inner.as_slice()
    }

    /// Whether the two names have the same bytes (their modes are not compared).
    pub fn same_name(&self, other: &NameObject) -> (r: bool)
        ensures
            r == (self.spec_value() == other.spec_value()),
    {
        bytes_equal(self.inner.as_slice(), other.inner.as_slice())
    }

    /// Whether the name's bytes are those of `other`.
    pub fn is_str(&self, other: &str) -> (r: bool)
        ensures
            r == (self.spec_value() == other.spec_bytes()),
    {
        bytes_equal(self.inner.as_slice(), other.as_bytes())
    }
}

} // verus!
