//! A cursor over borrowed bytes, bounded by an end position; a bounded
//! sub-stream (a take-scope) is the same cursor with a nearer end.
use crate::decl::Error;
use crate::wire::{be16, be32, be64, read_be_u16, read_be_u32, read_be_u64};
use vstd::prelude::*;
use vstd::slice::slice_subrange;

verus! {

/// What a decoder yields: a value and the position after it, or an error.
pub type Parsed<T> = Result<(T, int), Error>;

/// The outcome of an executable read, with the position that it left.
pub open spec fn outcome<T>(r: Result<T, Error>, pos: int) -> Parsed<T> {
    match r {
        Ok(v) => Ok((v, pos)),
        Err(e) => Err(e),
    }
}

/// The outcome of an executable read, its value seen through its view.
pub open spec fn outcome_view<T: View>(r: Result<T, Error>, pos: int) -> Parsed<T::V> {
    match r {
        Ok(v) => Ok((v@, pos)),
        Err(e) => Err(e),
    }
}

/// A successful outcome's value passed through `f`.
pub open spec fn map_parsed<A, B>(p: Parsed<A>, f: spec_fn(A) -> B) -> Parsed<B> {
    match p {
        Ok((v, j)) => Ok((f(v), j)),
        Err(x) => Err(x),
    }
}

/// A field of `k` bytes at `i` holding `v`, which must end by the bound `e`.
pub open spec fn fixed<T>(e: int, i: int, k: int, v: T) -> Parsed<T> {
    if i + k <= e {
        Ok((v, i + k))
    } else {
        Err(Error::PrematureEOF)
    }
}

pub open spec fn p_u8(s: Seq<u8>, e: int, i: int) -> Parsed<u8> {
    fixed(e, i, 1, if 0 <= i < s.len() { s[i] } else { 0 })
}

pub open spec fn p_u16(s: Seq<u8>, e: int, i: int) -> Parsed<u16> {
    fixed(e, i, 2, be16(s, i))
}

pub open spec fn p_u32(s: Seq<u8>, e: int, i: int) -> Parsed<u32> {
    fixed(e, i, 4, be32(s, i))
}

pub open spec fn p_u64(s: Seq<u8>, e: int, i: int) -> Parsed<u64> {
    fixed(e, i, 8, be64(s, i))
}

/// Bytes `data[pos..end]` still to be read.
pub struct Memory<'a> {
    pub data: &'a [u8],
    pub pos: usize,
    pub end: usize,
}

impl<'a> Memory<'a> {
    pub open spec fn wf(&self) -> bool {
        self.pos <= self.end <= self.data@.len()
    }

    /// The cursor has moved on within the same bytes and the same bound.
    pub open spec fn same_source(&self, other: &Memory<'a>) -> bool {
        &&& self.data@ == other.data@
        &&& self.end == other.end
        &&& self.wf()
    }

    /// A cursor over `data[pos..end]`.
    pub fn new(data: &'a [u8], pos: usize, end: usize) -> (r: Memory<'a>)
        requires
            pos <= end <= data@.len(),
        ensures
            r.wf(),
            r.data@ == data@,
            r.pos == pos,
            r.end == end,
    {
        Memory { data, pos, end }
    }

    pub fn remaining(&self) -> (r: usize)
        requires
            self.wf(),
        ensures
            r == self.end - self.pos,
    {
        self.end - self.pos
    }

    /// One byte, or `None` at the bound: the end of the stream or of the
    /// segment, which is no error.
    pub fn try_read_u8(&mut self) -> (r: Option<u8>)
        requires
            old(self).wf(),
        ensures
            final(self).same_source(old(self)),
            old(self).pos == old(self).end ==> r is None && final(self).pos == old(self).pos,
            old(self).pos < old(self).end ==> r == Some(old(self).data@[old(self).pos as int])
                && final(self).pos == old(self).pos + 1,
    {
        if self.pos == self.end {
            None
        } else {
            let b = self.data[self.pos];
            self.pos = self.pos + 1;
            Some(b)
        }
    }

    pub fn read_u8(&mut self) -> (r: Result<u8, Error>)
        requires
            old(self).wf(),
        ensures
            final(self).same_source(old(self)),
            outcome(r, final(self).pos as int) == p_u8(old(self).data@, old(self).end as int, old(self).pos as int),
    {
        if self.pos == self.end {
            Err(Error::PrematureEOF)
        } else {
            let b = self.data[self.pos];
            self.pos = self.pos + 1;
            Ok(b)
        }
    }

    pub fn read_u16(&mut self) -> (r: Result<u16, Error>)
        requires
            old(self).wf(),
        ensures
            final(self).same_source(old(self)),
            outcome(r, final(self).pos as int) == p_u16(old(self).data@, old(self).end as int, old(self).pos as int),
    {
        if self.end - self.pos < 2 {
            Err(Error::PrematureEOF)
        } else {
            let b = slice_subrange(self.data, self.pos, self.pos + 2);
            let v = read_be_u16(b);
            proof {
                assert(b@[0] == self.data@[self.pos as int]);
                assert(b@[1] == self.data@[self.pos + 1]);
            }
            self.pos = self.pos + 2;
            Ok(v)
        }
    }

    pub fn read_u32(&mut self) -> (r: Result<u32, Error>)
        requires
            old(self).wf(),
        ensures
            final(self).same_source(old(self)),
            outcome(r, final(self).pos as int) == p_u32(old(self).data@, old(self).end as int, old(self).pos as int),
    {
        if self.end - self.pos < 4 {
            Err(Error::PrematureEOF)
        } else {
            let b = slice_subrange(self.data, self.pos, self.pos + 4);
            let v = read_be_u32(b);
            proof {
                assert(b@[0] == self.data@[self.pos as int]);
                assert(b@[1] == self.data@[self.pos + 1]);
                assert(b@[2] == self.data@[self.pos + 2]);
                assert(b@[3] == self.data@[self.pos + 3]);
            }
            self.pos = self.pos + 4;
            Ok(v)
        }
    }

    pub fn read_u64(&mut self) -> (r: Result<u64, Error>)
        requires
            old(self).wf(),
        ensures
            final(self).same_source(old(self)),
            outcome(r, final(self).pos as int) == p_u64(old(self).data@, old(self).end as int, old(self).pos as int),
    {
        if self.end - self.pos < 8 {
            Err(Error::PrematureEOF)
        } else {
            let b = slice_subrange(self.data, self.pos, self.pos + 8);
            let v = read_be_u64(b);
            proof {
                assert forall|k: int| 0 <= k < 8 implies b@[k] == self.data@[self.pos + k] by {}
                assert(be32(b@, 0) == be32(self.data@, self.pos as int));
                assert(be32(b@, 4) == be32(self.data@, self.pos + 4));
            }
            self.pos = self.pos + 8;
            Ok(v)
        }
    }

    /// `len` raw bytes, borrowed from the input.
    pub fn read_string(&mut self, len: u32) -> (r: Result<&'a [u8], Error>)
        requires
            old(self).wf(),
        ensures
            final(self).same_source(old(self)),
            old(self).pos + len <= old(self).end ==> final(self).pos == old(self).pos + len && (
            r matches Ok(b) && b@ == old(self).data@.subrange(
                old(self).pos as int,
                old(self).pos + len,
            )),
            old(self).pos + len > old(self).end ==> r == Err::<&'a [u8], Error>(Error::PrematureEOF),
    {
        let len = len as usize;
        if len <= self.end - self.pos {
            let b = slice_subrange(self.data, self.pos, self.pos + len);
            self.pos = self.pos + len;
            Ok(b)
        } else {
            Err(Error::PrematureEOF)
        }
    }

    /// Discards `n` bytes.
    pub fn skip(&mut self, n: u64) -> (r: Result<(), Error>)
        requires
            old(self).wf(),
        ensures
            final(self).same_source(old(self)),
            old(self).pos + n <= old(self).end ==> r is Ok && final(self).pos == old(self).pos + n,
            old(self).pos + n > old(self).end ==> r == Err::<(), Error>(Error::PrematureEOF),
    {
        if n <= (self.end - self.pos) as u64 {
            self.pos = self.pos + n as usize;
            Ok(())
        } else {
            Err(Error::PrematureEOF)
        }
    }

    /// Enters a take-scope: the cursor bounded to the next `len` bytes.
    pub fn take(&self, len: u32) -> (r: Result<Memory<'a>, Error>)
        requires
            self.wf(),
        ensures
            self.pos + len <= self.end ==> (r matches Ok(t) && t.wf() && t.data@ == self.data@
                && t.pos == self.pos && t.end == self.pos + len),
            self.pos + len > self.end ==> r == Err::<Memory<'a>, Error>(Error::PrematureEOF),
    {
        let len = len as usize;
        if len > self.end - self.pos {
            Err(Error::PrematureEOF)
        } else {
            Ok(Memory { data: self.data, pos: self.pos, end: self.pos + len })
        }
    }
}

} // verus!
