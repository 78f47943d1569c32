//! A cursor over the bytes of a resource.

use vstd::prelude::*;
use vstd::slice::slice_subrange;

use crate::error::Error;

verus! {

/// A readable, seekable byte source: the bytes of a resource and the position
/// of the next read. The position may lie beyond the end of the bytes; every
/// read of one byte or more fails there.
pub struct Reader<'a> {
    pub data: &'a [u8],
    pub pos: u64,
}

/// The `n` bytes of `data` that start at `pos`, and the position after them,
/// or [`Error::Io`] where `data` ends before that. A read of no bytes
/// succeeds at every position.
pub open spec fn spec_take(data: Seq<u8>, pos: int, n: int) -> Result<(Seq<u8>, int), Error> {
    if n == 0 {
        Ok((Seq::empty(), pos))
    } else if pos + n <= data.len() {
        Ok((data.subrange(pos, pos + n), pos + n))
    } else {
        Err(Error::Io)
    }
}

/// A read that returned `res` and left the cursor at `end` did what
/// `expected` says: it gave the value that `expected` holds, seen through its
/// view, and stopped at the position that `expected` holds; or it failed with
/// the error of `expected`.
pub open spec fn reads<T: View>(
    res: Result<T, Error>,
    end: u64,
    expected: Result<(T::V, int), Error>,
) -> bool {
    match res {
        Ok(value) => expected == Ok::<(T::V, int), Error>((value@, end as int)),
        Err(e) => expected == Err::<(T::V, int), Error>(e),
    }
}

/// [`reads`] for a collection: the value is seen through the views of what
/// it holds.
pub open spec fn reads_all<T: DeepView>(
    res: Result<T, Error>,
    end: u64,
    expected: Result<(T::V, int), Error>,
) -> bool {
    match res {
        Ok(value) => expected == Ok::<(T::V, int), Error>((value.deep_view(), end as int)),
        Err(e) => expected == Err::<(T::V, int), Error>(e),
    }
}

impl<'a> Reader<'a> {
    /// A reader at the start of `data`.
    pub fn new(data: &'a [u8]) -> (reader: Self)
        ensures
            reader.data@ == data@,
            reader.pos == 0,
    {
        Reader { data, pos: 0 }
    }

    /// The position of the next read.
    pub fn position(&self) -> (pos: u64)
        ensures
            pos == self.pos,
    {
        self.pos
    }

    /// Moves to the absolute position `pos`, which may lie beyond the end.
    pub fn seek(&mut self, pos: u64)
        ensures
            final(self).data@ == old(self).data@,
            final(self).pos == pos,
    {
        self.pos = pos;
    }

    /// Moves back to the start of the bytes.
    pub fn rewind(&mut self)
        ensures
            final(self).data@ == old(self).data@,
            final(self).pos == 0,
    {
        self.pos = 0;
    }

    /// Reads the next `n` bytes and moves past them. Where fewer than `n`
    /// bytes are left, the read fails and the position stays.
    pub fn take(&mut self, n: u64) -> (res: Result<&'a [u8], Error>)
        ensures
            final(self).data@ == old(self).data@,
            reads(res, final(self).pos, spec_take(old(self).data@, old(self).pos as int, n as int)),
            res is Err ==> final(self).pos == old(self).pos,
    {
        if n == 0 {
            let none = slice_subrange(self.data, 0, 0);
            assert(none@ =~= Seq::<u8>::empty());
            return Ok(none);
        }
        let len: u64 = self.data.len() as u64;
        if self.pos > len || n > len - self.pos {
            return Err(Error::Io);
        }
        let start: usize = self.pos as usize;
        let end: usize = start + n as usize;
        let bytes = slice_subrange(self.data, start, end);
        self.pos = self.pos + n;
        Ok(bytes)
    }
}

} // verus!
