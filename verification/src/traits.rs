use vstd::prelude::*;
use vstd::string::StringSliceAdditionalSpecFns;

verus! {

/// Reads the bytes of a string from a position, and can look at them without moving.
#[derive(Debug)]
pub struct StringReadPeeker<'a> {
    value: &'a str,
    position: usize,
}

impl<'a> StringReadPeeker<'a> {
    pub closed spec fn spec_bytes(&self) -> Seq<u8> {
        self.value.spec_bytes()
    }

    pub closed spec fn spec_position(&self) -> int {
        self.position as int
    }

    /// A reader at the start of `value`.
    pub fn from(value: &'a str) -> (r: Self)
        ensures
            r.spec_bytes() == value.spec_bytes(),
            r.spec_position() == 0,
    {
        StringReadPeeker { value, position: 0 }
    }

    /// Copies the bytes from the position on into `buf`, as many as fit, without moving.
    /// `None` when they do not fill `buf` (an unexpected end; the bytes that were there
    /// are copied all the same); else the number copied, that is the length of `buf`.
    pub fn peek(&self, buf: &mut [u8]) -> (r: Option<usize>)
        ensures
            ({
                let data = self.spec_bytes();
                let p = self.spec_position();
                let avail = if p < data.len() {
                    data.len() - p
                } else {
                    0
                };
                let n = if old(buf)@.len() < avail {
                    old(buf)@.len() as int
                } else {
                    avail
                };
                &&& data.len() <= usize::MAX
                &&& final(buf)@.len() == old(buf)@.len()
                &&& forall|k: int| 0 <= k < n ==> final(buf)@[k] == data[p + k]
                &&& forall|k: int| n <= k < old(buf)@.len() ==> final(buf)@[k] == old(buf)@[k]
                &&& r == if n < old(buf)@.len() {
                    None
                } else {
                    Some(n as usize)
                }
            }),
    {
        let bytes = self.value.as_bytes();
        let avail = if self.position < bytes.len() {
            bytes.len() - self.position
        } else {
            0
        };
        let n = if buf.len() < avail {
            buf.len()
        } else {
            avail
        };
        let ghost b0 = buf@;
        let mut cursor: usize = 0;
        while cursor < n
            invariant
                buf@.len() == b0.len(),
                b0 == old(buf)@,
                bytes@ == self.spec_bytes(),
                cursor <= n,
                n <= b0.len(),
                n == 0 || self.position + n <= bytes@.len(),
                bytes@.len() <= usize::MAX,
                forall|k: int| 0 <= k < cursor ==> buf@[k] == bytes@[self.position + k],
                forall|k: int| cursor <= k < b0.len() ==> buf@[k] == b0[k],
            decreases n - cursor,
        {
            buf[cursor] = bytes[self.position + cursor];
            cursor = cursor + 1;
        }
        if n < buf.len() {
            None
        } else {
            Some(n)
        }
    }

    /// `peek`, then moves past the bytes copied when they filled `buf`.
    pub fn read(&mut self, buf: &mut [u8]) -> (r: Option<usize>)
        ensures
            final(self).spec_bytes() == old(self).spec_bytes(),
            ({
                let data = old(self).spec_bytes();
                let p = old(self).spec_position();
                let avail = if p < data.len() {
                    data.len() - p
                } else {
                    0
                };
                let n = if old(buf)@.len() < avail {
                    old(buf)@.len() as int
                } else {
                    avail
                };
                &&& final(buf)@.len() == old(buf)@.len()
                &&& forall|k: int| 0 <= k < n ==> final(buf)@[k] == data[p + k]
                &&& forall|k: int| n <= k < old(buf)@.len() ==> final(buf)@[k] == old(buf)@[k]
                &&& r == if n < old(buf)@.len() {
                    None
                } else {
                    Some(n as usize)
                }
                &&& final(self).spec_position() == if r is Some {
                    p + n
                } else {
                    p
                }
            }),
    {
        let write_count = self.peek(buf);
        match write_count {
            Some(count) => {
                self.position = self.position + count;
                Some(count)
            },
            None => None,
        }
    }
}

} // verus!
