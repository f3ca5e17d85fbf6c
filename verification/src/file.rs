use vstd::prelude::*;

use crate::access::Mode;
use crate::name::bytes_of;

verus! {

/// Where a seek is measured from.
#[derive(Clone, Copy, Debug, PartialEq, Eq, Structural)]
pub enum SeekFrom {
    Start(u64),
    End(i64),
    Current(i64),
}

/// An in-memory file: its bytes, a read cursor, and its attribute.
#[derive(Debug)]
pub struct FileObject {
    cursor: usize,
    inner: Vec<u8>,
    pub(crate) mode: Mode,
}

impl Clone for FileObject {
    fn clone(&self) -> (r: Self)
        ensures
            r.spec_cursor() == self.spec_cursor(),
            r.spec_data() == self.spec_data(),
            r.spec_mode() == self.spec_mode(),
    {
        proof {
            use_type_invariant(self);
        }
        FileObject { cursor: self.cursor, inner: bytes_of(self.inner.as_slice()), mode: self.mode }
    }
}

/// `base + offset`, if it is a `usize`.
pub open spec fn offset_index(base: int, offset: int) -> Option<int> {
    if 0 <= base + offset <= usize::MAX {
        Some(base + offset)
    } else {
        None
    }
}

/// `base + offset` for a signed offset, `None` when it leaves the `usize` range.
fn add_signed(base: usize, offset: isize) -> (r: Option<usize>)
    ensures
        r == match offset_index(base as int, offset as int) {
            Some(i) => Some(i as usize),
            None => None::<usize>,
        },
{
    if offset >= 0 {
        base.checked_add(offset as usize)
    } else {
        let magnitude = ((0 - (offset + 1)) as usize) + 1;
        if magnitude > base {
            None
        } else {
            Some(base - magnitude)
        }
    }
}

impl FileObject {
    /// The cursor never passes the end of the data.
    #[verifier::type_invariant]
    spec fn cursor_in_data(&self) -> bool {
        self.cursor <= self.inner@.len()
    }

    /// The position of the cursor; it is never past the end of the data.
    pub fn position(&self) -> (r: usize)
        ensures
            r == self.spec_cursor(),
            r <= self.spec_data().len(),
            self.spec_data().len() <= usize::MAX,
    {
        proof {
            use_type_invariant(self);
        }
        let _ = self.inner.len();
        self.cursor
    }

    pub fn mode(&self) -> (r: Mode)
        ensures
            r == self.spec_mode(),
    {
        self.mode
    }

    pub closed spec fn spec_cursor(&self) -> int {
        self.cursor as int
    }

    pub closed spec fn spec_data(&self) -> Seq<u8> {
        self.inner@
    }

    pub closed spec fn spec_mode(&self) -> Mode {
        self.mode
    }

    /// A file holding the UTF-8 bytes of `value`, read from the start.
    pub fn from_string(value: String) -> (r: Self)
        ensures
            r.spec_data() == vstd::utf8::encode_utf8(value@),
            r.spec_cursor() == 0,
            r.spec_mode() == Mode::Executable,
    {
        FileObject { cursor: 0, inner: bytes_of(value.as_str().as_bytes()), mode: Mode::default() }
    }

    /// A file holding `value`, read from the start.
    pub fn from_bytes(value: Vec<u8>) -> (r: Self)
        ensures
            r.spec_data() == value@,
            r.spec_cursor() == 0,
            r.spec_mode() == Mode::Executable,
    {
        FileObject { cursor: 0, inner: value, mode: Mode::default() }
    }

    /// Copies the bytes from the cursor on into `buf`, as many as fit, and moves the
    /// cursor past them; returns their number.
    pub fn read(&mut self, buf: &mut [u8]) -> (r: usize)
        ensures
            ({
                let c = old(self).spec_cursor();
                let data = old(self).spec_data();
                let avail = if c < data.len() {
                    data.len() - c
                } else {
                    0
                };
                &&& r == if old(buf)@.len() < avail {
                    old(buf)@.len() as int
                } else {
                    avail
                }
                &&& final(buf)@.len() == old(buf)@.len()
                &&& forall|k: int| 0 <= k < r ==> final(buf)@[k] == data[c + k]
                &&& forall|k: int| r <= k < old(buf)@.len() ==> final(buf)@[k] == old(buf)@[k]
                &&& final(self).spec_cursor() == c + r
                &&& final(self).spec_cursor() <= data.len()
                &&& data.len() <= usize::MAX
                &&& final(self).spec_data() == data
                &&& final(self).spec_mode() == old(self).spec_mode()
            }),
    {
        proof {
            use_type_invariant(&*self);
        }
        let avail = if self.cursor < self.inner.len() {
            self.inner.len() - self.cursor
        } else {
            0
        };
        let n = if buf.len() < avail {
            buf.len()
        } else {
            avail
        };
        let ghost b0 = buf@;
        let mut count: usize = 0;
        while count < n
            invariant
                buf@.len() == b0.len(),
                b0 == old(buf)@,
                self.cursor == old(self).cursor,
                self.inner == old(self).inner,
                self.mode == old(self).mode,
                count <= n,
                n <= b0.len(),
                n == 0 || self.cursor + n <= self.inner@.len(),
                self.inner@.len() <= usize::MAX,
                forall|k: int| 0 <= k < count ==> buf@[k] == self.inner@[self.cursor + k],
                forall|k: int| count <= k < b0.len() ==> buf@[k] == b0[k],
            decreases n - count,
        {
            buf[count] = self.inner[self.cursor + count];
            count = count + 1;
        }
        self.cursor = self.cursor + n;
        n
    }

    /// Moves the cursor; `None` (the cursor unchanged) when the target is negative,
    /// overflows, or is not before the end of the data. Returns the new position.
    pub fn seek(&mut self, pos: SeekFrom) -> (r: Option<u64>)
        ensures
            final(self).spec_data() == old(self).spec_data(),
            final(self).spec_mode() == old(self).spec_mode(),
            final(self).spec_cursor() <= final(self).spec_data().len(),
            final(self).spec_data().len() <= usize::MAX,
            ({
                let len = old(self).spec_data().len();
                let target = match pos {
                    SeekFrom::Current(o) => offset_index(old(self).spec_cursor(), (o as isize) as int),
                    SeekFrom::End(o) => offset_index(len as int, (o as isize) as int),
                    SeekFrom::Start(o) => Some((o as usize) as int),
                };
                match target {
                    Some(t) if t < len => final(self).spec_cursor() == t && r == Some(
                        match pos {
                            SeekFrom::Start(o) => o,
                            _ => t as u64,
                        },
                    ),
                    _ => r is None && final(self).spec_cursor() == old(self).spec_cursor(),
                }
            }),
    {
        proof {
            use_type_invariant(&*self);
        }
        let _ = self.inner.len();
        let index = match pos {
            SeekFrom::Current(offset) => add_signed(self.cursor, offset as isize),
            SeekFrom::End(offset) => add_signed(self.inner.len(), offset as isize),
            SeekFrom::Start(offset) => Some(offset as usize),
        };
        let Some(index) = index else {
            return None;
        };
        if index >= self.inner.len() {
            return None;
        }
        self.cursor = index;
        match pos {
            SeekFrom::Start(offset) => Some(offset),
            _ => Some(self.cursor as u64),
        }
    }

    /// Appends `buf` to the data; returns its length.
    pub fn write(&mut self, buf: &[u8]) -> (r: usize)
        ensures
            r == buf@.len(),
            final(self).spec_data() == old(self).spec_data() + buf@,
            final(self).spec_cursor() == old(self).spec_cursor(),
            final(self).spec_mode() == old(self).spec_mode(),
    {
        proof {
            use_type_invariant(&*self);
        }
        let mut data = bytes_of(self.inner.as_slice());
        let ghost d0 = self.inner@;
        let mut n: usize = 0;
        while n < buf.len()
            invariant
                n <= buf@.len(),
                data@ == d0 + buf@.subrange(0, n as int),
            decreases buf@.len() - n,
        {
            data.push(buf[n]);
            n = n + 1;
            assert(data@ =~= d0 + buf@.subrange(0, n as int));
        }
        assert(buf@.subrange(0, n as int) =~= buf@);
        *self = FileObject { cursor: self.cursor, inner: data, mode: self.mode };
        buf.len()
    }
}

} // verus!
