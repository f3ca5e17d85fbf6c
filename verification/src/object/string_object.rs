use vstd::prelude::*;

use crate::error::{fails_with, Error, ErrorKind, Result};
use crate::name::bytes_of;

verus! {

/// A PostScript string: a sequence of bytes.
#[derive(Debug)]
pub struct StringObject {
    inner: Vec<u8>,
}

impl View for StringObject {
    type V = Seq<u8>;

    closed spec fn view(&self) -> Seq<u8> {
        self.inner@
    }
}

impl StringObject {
    /// The string of the UTF-8 bytes of `value`.
    pub fn from_string(value: String) -> (r: Self)
        ensures
            r@ == vstd::utf8::encode_utf8(value@),
    {
        StringObject { inner: bytes_of(value.as_str().as_bytes()) }
    }

    /// The string of the given bytes.
    pub fn from_bytes(value: Vec<u8>) -> (r: Self)
        ensures
            r@ == value@,
    {
        StringObject { inner: value }
    }

    /// The byte at `index`; `rangecheck` past the end.
    pub fn get(&self, index: usize) -> (r: Result<&u8>)
        ensures
            index < self@.len() ==> (r matches Ok(b) && *b == self@[index as int]),
            index >= self@.len() ==> fails_with(r, ErrorKind::RangeCheck),
    {
        if index < self.inner.len() {
            Ok(&self.inner[index])
        } else {
            Err(Error::from(ErrorKind::RangeCheck))
        }
    }

    /// A mutable reference to the byte at `index`; `rangecheck` past the end.
    pub fn get_mut(&mut self, index: usize) -> (r: Result<&mut u8>)
        ensures
            index < old(self)@.len() ==> (r matches Ok(b) && *b == old(self)@[index as int]
                && final(self)@ == old(self)@.update(index as int, *final(b))),
            index >= old(self)@.len() ==> fails_with(r, ErrorKind::RangeCheck) && *final(self)
                == *old(self),
    {
        if index < self.inner.len() {
            let r = &mut self.inner[index];
            Ok(r)
        } else {
            Err(Error::from(ErrorKind::RangeCheck))
        }
    }

    pub fn len(&self) -> (r: usize)
        ensures
            r == self@.len(),
    {
        self.inner.len()
    }

    pub fn is_empty(&self) -> (r: bool)
        ensures
            r == (self@.len() == 0),
    {
        self.inner.len() == 0
    }

    /// The bytes of the string.
    pub fn as_bytes(&self) -> (r: &[u8])
        ensures
            r@ == self@,
    {
        self.inner.as_slice()
    }
}

} // verus!
