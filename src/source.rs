//! Byte sources: the capability a decoder needs from its stream, and an
//! in-memory source that provides it.

use vstd::prelude::*;

use crate::error::IoKind;

verus! {

/// Where a seek moves to: an absolute offset, or an offset from the end of
/// the stream or from the current position.
#[derive(Debug, Clone, Copy, PartialEq, Eq, Structural)]
pub enum SeekFrom {
    Start(u64),
    End(i64),
    Current(i64),
}

/// The position that a seek asks for, in a stream of `len` bytes whose
/// current position is `position`.
pub open spec fn seek_target(to: SeekFrom, position: int, len: int) -> int {
    match to {
        SeekFrom::Start(n) => n as int,
        SeekFrom::End(o) => len + o,
        SeekFrom::Current(o) => position + o,
    }
}

/// Whether a position can be reached by a seek and reported as a `u64`.
pub open spec fn reachable(target: int) -> bool {
    0 <= target <= u64::MAX
}

/// A readable, seekable stream of bytes.
///
/// A read may deliver fewer bytes than asked for.  A source that is
/// `modelled` is described by its whole contents and a current position,
/// which may lie past the end: a read hands out bytes from the position
/// onwards.  A `dependable` source never fails; when it is also modelled it
/// reads at least one byte while any remain and reaches every position a
/// seek asks for.  A source that overrides none of the model promises only
/// what holds of every read: no more bytes than asked for.
pub trait Reader {
    /// Every byte of the stream.
    open spec fn contents(&self) -> Seq<u8> {
        Seq::empty()
    }

    /// The current position.
    open spec fn position(&self) -> nat {
        0
    }

    /// Whether `contents` and `position` describe what reads and seeks do.
    open spec fn modelled(&self) -> bool {
        false
    }

    /// Whether reads and seeks on this source always succeed.
    open spec fn dependable(&self) -> bool {
        false
    }

    /// Appends to `buf` at most `max` bytes from the current position and
    /// moves past them; returns how many were appended.  `0` means that no
    /// byte was delivered.
    fn read(&mut self, buf: &mut Vec<u8>, max: usize) -> (r: Result<usize, IoKind>)
        ensures
            final(self).contents() == old(self).contents(),
            final(self).modelled() == old(self).modelled(),
            final(self).dependable() == old(self).dependable(),
            r is Ok ==> {
                let n = r->Ok_0 as int;
                &&& n <= max
                &&& final(buf)@.len() == old(buf)@.len() + n
                &&& final(buf)@.subrange(0, old(buf)@.len() as int) == old(buf)@
            },
            old(self).modelled() && r is Ok && r->Ok_0 == 0 ==> final(self).position() == old(
                self,
            ).position(),
            old(self).modelled() && r is Ok && r->Ok_0 > 0 ==> {
                let p = old(self).position() as int;
                let n = r->Ok_0 as int;
                &&& p + n <= old(self).contents().len()
                &&& final(buf)@ == old(buf)@ + old(self).contents().subrange(p, p + n)
                &&& final(self).position() == p + n
            },
            old(self).dependable() ==> r is Ok,
            old(self).dependable() && old(self).modelled() && max > 0 && old(self).position() < old(
                self,
            ).contents().len() ==> r->Ok_0 > 0,
    ;

    /// Moves the position; returns the new absolute position.
    fn seek(&mut self, to: SeekFrom) -> (r: Result<u64, IoKind>)
        ensures
            final(self).contents() == old(self).contents(),
            final(self).modelled() == old(self).modelled(),
            final(self).dependable() == old(self).dependable(),
            old(self).modelled() && r is Ok ==> r->Ok_0 == seek_target(
                to,
                old(self).position() as int,
                old(self).contents().len() as int,
            ) && final(self).position() == r->Ok_0,
            old(self).dependable() && old(self).modelled() && reachable(
                seek_target(to, old(self).position() as int, old(self).contents().len() as int),
            ) ==> r is Ok,
    ;
}

impl<R: Reader + ?Sized> Reader for Box<R> {
    open spec fn contents(&self) -> Seq<u8> {
        (**self).contents()
    }

    open spec fn position(&self) -> nat {
        (**self).position()
    }

    open spec fn modelled(&self) -> bool {
        (**self).modelled()
    }

    open spec fn dependable(&self) -> bool {
        (**self).dependable()
    }

    fn read(&mut self, buf: &mut Vec<u8>, max: usize) -> (r: Result<usize, IoKind>) {
        (**self).read(buf, max)
    }

    fn seek(&mut self, to: SeekFrom) -> (r: Result<u64, IoKind>) {
        (**self).seek(to)
    }
}

/// A stream over bytes held in memory.
#[derive(Debug)]
pub struct ByteCursor {
    bytes: Vec<u8>,
    pos: u64,
}

impl ByteCursor {
    /// A cursor at the start of `bytes`.
    pub fn new(bytes: Vec<u8>) -> (r: ByteCursor)
        ensures
            r.contents() == bytes@,
            r.position() == 0,
            r.modelled(),
            r.dependable(),
    {
        ByteCursor { bytes, pos: 0 }
    }

    /// Gives back the bytes.
    pub fn into_inner(self) -> (r: Vec<u8>)
        ensures
            r@ == self.contents(),
    {
        self.bytes
    }
}

impl Reader for ByteCursor {
    closed spec fn contents(&self) -> Seq<u8> {
        self.bytes@
    }

    closed spec fn position(&self) -> nat {
        self.pos as nat
    }

    closed spec fn modelled(&self) -> bool {
        true
    }

    closed spec fn dependable(&self) -> bool {
        true
    }

    fn read(&mut self, buf: &mut Vec<u8>, max: usize) -> (r: Result<usize, IoKind>) {
        let len = self.bytes.len();
        if self.pos >= len as u64 {
            return Ok(0);
        }
        let start = self.pos as usize;
        let n: usize = if len - start < max {
            len - start
        } else {
            max
        };
        let ghost before = buf@;
        let mut i: usize = 0;
        while i < n
            invariant
                start + n <= len,
                len == self.bytes.len(),
                i <= n,
                buf@ == before + self.bytes@.subrange(start as int, start + i),
            decreases n - i,
        {
            buf.push(self.bytes[start + i]);
            proof {
                assert(self.bytes@.subrange(start as int, start + i + 1) =~= self.bytes@.subrange(
                    start as int,
                    start + i,
                ).push(self.bytes@[start + i]));
            }
            i = i + 1;
        }
        proof {
            if n == 0 {
                assert(buf@ =~= before);
            }
        }
        self.pos = (start + n) as u64;
        Ok(n)
    }

    fn seek(&mut self, to: SeekFrom) -> (r: Result<u64, IoKind>) {
        let target: i128 = match to {
            SeekFrom::Start(n) => n as i128,
            SeekFrom::End(o) => self.bytes.len() as i128 + o as i128,
            SeekFrom::Current(o) => self.pos as i128 + o as i128,
        };
        if target < 0 || target > u64::MAX as i128 {
            Err(IoKind::InvalidInput)
        } else {
            self.pos = target as u64;
            Ok(self.pos)
        }
    }
}

} // verus!
