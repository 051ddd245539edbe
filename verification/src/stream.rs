//! A forward-seekable reader over an in-memory byte buffer.
//!
//! Boxes arrive from files or sockets as plain bytes; the caller loads them
//! into a `ByteReader` and every read, skip and seek below is bounded by the
//! buffer, so any attempt to move past the available bytes is reported as
//! `Error::StreamFailure` instead of trusting the malformed input.
use vstd::prelude::*;

use crate::be::be_u16_at;
use crate::be::be_u32_at;
use crate::Error;

verus! {

/// An in-memory byte stream: the full buffer and the current position.
pub struct ByteReader {
    pub data: Vec<u8>,
    pub pos: usize,
}

impl ByteReader {
    /// The position never passes the end of the buffer.
    pub open spec fn wf(&self) -> bool {
        self.pos <= self.data@.len()
    }

    /// A reader positioned at the start of `data`.
    pub fn new(data: Vec<u8>) -> (r: ByteReader)
        ensures
            r.data@ == data@,
            r.pos == 0,
            r.wf(),
    {
        ByteReader { data, pos: 0 }
    }

    /// The current position, counted in bytes from the start of the buffer.
    pub fn stream_position(&self) -> (r: u64)
        ensures
            r == self.pos as u64,
    {
        self.pos as u64
    }

    /// How many bytes remain between the position and the end of the buffer.
    pub fn remaining(&self) -> (r: usize)
        requires
            self.wf(),
        ensures
            r == self.data@.len() - self.pos,
    {
        self.data.len() - self.pos
    }

    /// Reads one byte and advances past it.
    pub fn read_u8(&mut self) -> (r: Result<u8, Error>)
        requires
            old(self).wf(),
        ensures
            final(self).data@ == old(self).data@,
            final(self).wf(),
            old(self).pos + 1 <= old(self).data@.len() ==> {
                &&& r == Ok::<u8, Error>(old(self).data@[old(self).pos as int])
                &&& final(self).pos == old(self).pos + 1
            },
            old(self).pos + 1 > old(self).data@.len() ==> {
                &&& r == Err::<u8, Error>(Error::StreamFailure)
                &&& final(self).pos == old(self).pos
            },
    {
        if self.data.len() - self.pos >= 1 {
            let b = self.data[self.pos];
            self.pos = self.pos + 1;
            Ok(b)
        } else {
            Err(Error::StreamFailure)
        }
    }

    /// Reads a big-endian 16-bit value and advances past its two bytes.
    pub fn read_u16_be(&mut self) -> (r: Result<u16, Error>)
        requires
            old(self).wf(),
        ensures
            final(self).data@ == old(self).data@,
            final(self).wf(),
            old(self).pos + 2 <= old(self).data@.len() ==> {
                &&& r == Ok::<u16, Error>(be_u16_at(old(self).data@, old(self).pos as int))
                &&& final(self).pos == old(self).pos + 2
            },
            old(self).pos + 2 > old(self).data@.len() ==> {
                &&& r == Err::<u16, Error>(Error::StreamFailure)
                &&& final(self).pos == old(self).pos
            },
    {
        if self.data.len() - self.pos >= 2 {
            let b0 = self.data[self.pos];
            let b1 = self.data[self.pos + 1];
            self.pos = self.pos + 2;
            Ok((b0 as u16) << 8 | (b1 as u16))
        } else {
            Err(Error::StreamFailure)
        }
    }

    /// Reads a big-endian 32-bit value and advances past its four bytes.
    pub fn read_u32_be(&mut self) -> (r: Result<u32, Error>)
        requires
            old(self).wf(),
        ensures
            final(self).data@ == old(self).data@,
            final(self).wf(),
            old(self).pos + 4 <= old(self).data@.len() ==> {
                &&& r == Ok::<u32, Error>(be_u32_at(old(self).data@, old(self).pos as int))
                &&& final(self).pos == old(self).pos + 4
            },
            old(self).pos + 4 > old(self).data@.len() ==> {
                &&& r == Err::<u32, Error>(Error::StreamFailure)
                &&& final(self).pos == old(self).pos
            },
    {
        if self.data.len() - self.pos >= 4 {
            let b0 = self.data[self.pos];
            let b1 = self.data[self.pos + 1];
            let b2 = self.data[self.pos + 2];
            let b3 = self.data[self.pos + 3];
            self.pos = self.pos + 4;
            Ok((b0 as u32) << 24 | (b1 as u32) << 16 | (b2 as u32) << 8 | (b3 as u32))
        } else {
            Err(Error::StreamFailure)
        }
    }

    /// Reads exactly `n` bytes into a fresh buffer and advances past them.
    pub fn read_exact(&mut self, n: usize) -> (r: Result<Vec<u8>, Error>)
        requires
            old(self).wf(),
        ensures
            final(self).data@ == old(self).data@,
            final(self).wf(),
            old(self).pos + n <= old(self).data@.len() ==> {
                &&& r matches Ok(v) && v@ == old(self).data@.subrange(
                    old(self).pos as int,
                    old(self).pos + n,
                )
                &&& final(self).pos == old(self).pos + n
            },
            old(self).pos + n > old(self).data@.len() ==> {
                &&& r matches Err(e) && e == Error::StreamFailure
                &&& final(self).pos == old(self).pos
            },
    {
        if n > self.data.len() - self.pos {
            return Err(Error::StreamFailure);
        }
        let mut v: Vec<u8> = Vec::new();
        let mut i: usize = 0;
        while i < n
            invariant
                self.wf(),
                self.data == old(self).data,
                self.pos == old(self).pos,
                i <= n,
                old(self).pos + n <= old(self).data@.len(),
                old(self).data@.len() <= usize::MAX,
                v@ == old(self).data@.subrange(old(self).pos as int, old(self).pos + i),
            decreases n - i,
        {
            v.push(self.data[self.pos + i]);
            i = i + 1;
            assert(v@ =~= old(self).data@.subrange(old(self).pos as int, old(self).pos + i));
        }
        self.pos = self.pos + n;
        Ok(v)
    }

    /// Advances the position by `n` bytes without interpreting them.
    pub fn skip(&mut self, n: u64) -> (r: Result<(), Error>)
        requires
            old(self).wf(),
        ensures
            final(self).data@ == old(self).data@,
            final(self).wf(),
            old(self).pos + n <= old(self).data@.len() ==> {
                &&& r == Ok::<(), Error>(())
                &&& final(self).pos == old(self).pos + n
            },
            old(self).pos + n > old(self).data@.len() ==> {
                &&& r == Err::<(), Error>(Error::StreamFailure)
                &&& final(self).pos == old(self).pos
            },
    {
        if n <= (self.data.len() - self.pos) as u64 {
            self.pos = self.pos + n as usize;
            Ok(())
        } else {
            Err(Error::StreamFailure)
        }
    }

    /// Moves the position to the absolute offset `target`, forward or back.
    pub fn seek_to(&mut self, target: u64) -> (r: Result<(), Error>)
        requires
            old(self).wf(),
        ensures
            final(self).data@ == old(self).data@,
            final(self).wf(),
            target <= old(self).data@.len() ==> {
                &&& r == Ok::<(), Error>(())
                &&& final(self).pos == target
            },
            target > old(self).data@.len() ==> {
                &&& r == Err::<(), Error>(Error::StreamFailure)
                &&& final(self).pos == old(self).pos
            },
    {
        if target <= self.data.len() as u64 {
            self.pos = target as usize;
            Ok(())
        } else {
            Err(Error::StreamFailure)
        }
    }
}

} // verus!
