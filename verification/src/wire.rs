//! Byte-level primitives: appending integers and byte runs to a growing
//! buffer, and a positioned reader whose contracts tie every value read to
//! the exact bytes it consumed.

use vstd::prelude::*;
use vstd::bytes::*;
use vstd::slice::{slice_subrange, slice_to_vec};

use crate::errors::DecodeError;

verus! {

// ---------------------------------------------------------------------------
// Writers: each appends a precisely described run of bytes.
// ---------------------------------------------------------------------------

/// Append a single byte.
pub fn write_u8(out: &mut Vec<u8>, v: u8)
    ensures
        final(out)@ == old(out)@.push(v),
{
    out.push(v);
}

/// Append a `u32` as four little-endian bytes.
pub fn write_u32(out: &mut Vec<u8>, v: u32)
    ensures
        final(out)@ == old(out)@ + spec_u32_to_le_bytes(v),
{
    let mut bytes = u32_to_le_bytes(v);
    out.append(&mut bytes);
}

/// Append a `u64` as eight little-endian bytes.
pub fn write_u64(out: &mut Vec<u8>, v: u64)
    ensures
        final(out)@ == old(out)@ + spec_u64_to_le_bytes(v),
{
    let mut bytes = u64_to_le_bytes(v);
    out.append(&mut bytes);
}

/// Append a run of bytes unchanged.
pub fn write_bytes(out: &mut Vec<u8>, src: &[u8])
    ensures
        final(out)@ == old(out)@ + src@,
{
    let n = src.len();
    let mut i: usize = 0;
    while i < n
        invariant
            i <= n,
            n == src@.len(),
            out@ == old(out)@ + src@.subrange(0, i as int),
        decreases n - i,
    {
        let b = *vstd::slice::slice_index_get(src, i);
        out.push(b);
        proof {
            assert(out@ =~= old(out)@ + src@.subrange(0, i + 1 as int));
        }
        i = i + 1;
    }
    proof {
        assert(src@.subrange(0, n as int) =~= src@);
    }
}

// ---------------------------------------------------------------------------
// Reader
// ---------------------------------------------------------------------------

/// A positioned reader over a borrowed byte slice.
pub struct ByteReader<'a> {
    pub data: &'a [u8],
    pub pos: usize,
}

/// The reader's position has not run past its data.
pub open spec fn rd_wf(r: ByteReader) -> bool {
    r.pos <= r.data@.len()
}

/// The next bytes of `r` are exactly `s`.
pub open spec fn at(r: ByteReader, s: Seq<u8>) -> bool {
    &&& r.pos + s.len() <= r.data@.len()
    &&& r.data@.subrange(r.pos as int, r.pos + s.len()) == s
}

/// Splitting a known run: when the next bytes are `s + t`, the next bytes
/// are `s`, and after advancing past `s` the next bytes are `t`.
pub proof fn lemma_at_split(r1: ByteReader, r2: ByteReader, s: Seq<u8>, t: Seq<u8>)
    requires
        at(r1, s + t),
        r2.data@ == r1.data@,
        r2.pos == r1.pos + s.len(),
    ensures
        at(r1, s),
        at(r2, t),
{
    assert((s + t).subrange(0, s.len() as int) =~= s);
    assert((s + t).subrange(s.len() as int, (s + t).len() as int) =~= t);
    assert(r1.data@.subrange(r1.pos as int, r1.pos + s.len()) =~= (s + t).subrange(
        0,
        s.len() as int,
    ));
    assert(r2.data@.subrange(r2.pos as int, r2.pos + t.len()) =~= (s + t).subrange(
        s.len() as int,
        (s + t).len() as int,
    ));
}

/// When the next bytes are `s + t`, the next bytes are `s`.
pub proof fn lemma_at_prefix(r: ByteReader, s: Seq<u8>, t: Seq<u8>)
    requires
        at(r, s + t),
    ensures
        at(r, s),
{
    assert((s + t).subrange(0, s.len() as int) =~= s);
    assert(r.data@.subrange(r.pos as int, r.pos + s.len()) =~= (s + t).subrange(
        0,
        s.len() as int,
    ));
}

impl<'a> ByteReader<'a> {
    /// Start reading at the front of `data`.
    pub fn new(data: &'a [u8]) -> (r: ByteReader<'a>)
        ensures
            r.data@ == data@,
            r.pos == 0,
            rd_wf(r),
    {
        ByteReader { data, pos: 0 }
    }

    /// True when every byte has been consumed.
    pub fn is_exhausted(&self) -> (b: bool)
        requires
            rd_wf(*self),
        ensures
            b == (self.pos == self.data@.len()),
    {
        self.pos == self.data.len()
    }

    /// Read one byte.
    pub fn read_u8(&mut self) -> (r: Result<u8, DecodeError>)
        requires
            rd_wf(*old(self)),
        ensures
            final(self).data@ == old(self).data@,
            rd_wf(*final(self)),
            match r {
                Ok(v) => {
                    &&& old(self).pos + 1 <= old(self).data@.len()
                    &&& v == old(self).data@[old(self).pos as int]
                    &&& final(self).pos == old(self).pos + 1
                },
                Err(e) => {
                    &&& old(self).pos + 1 > old(self).data@.len()
                    &&& final(self).pos == old(self).pos
                    &&& e == DecodeError::Malformed
                },
            },
    {
        if self.pos < self.data.len() {
            let v = *vstd::slice::slice_index_get(self.data, self.pos);
            self.pos = self.pos + 1;
            Ok(v)
        } else {
            Err(DecodeError::Malformed)
        }
    }

    /// Read a little-endian `u32`.
    pub fn read_u32(&mut self) -> (r: Result<u32, DecodeError>)
        requires
            rd_wf(*old(self)),
        ensures
            final(self).data@ == old(self).data@,
            rd_wf(*final(self)),
            match r {
                Ok(v) => {
                    &&& old(self).pos + 4 <= old(self).data@.len()
                    &&& v == spec_u32_from_le_bytes(old(self).data@.subrange(old(self).pos as int, old(self).pos + 4))
                    &&& final(self).pos == old(self).pos + 4
                },
                Err(e) => {
                    &&& old(self).pos + 4 > old(self).data@.len()
                    &&& final(self).pos == old(self).pos
                    &&& e == DecodeError::Malformed
                },
            },
    {
        if self.data.len() - self.pos >= 4 {
            let piece = slice_subrange(self.data, self.pos, self.pos + 4);
            let v = u32_from_le_bytes(piece);
            self.pos = self.pos + 4;
            Ok(v)
        } else {
            Err(DecodeError::Malformed)
        }
    }

    /// Read a little-endian `u64`.
    pub fn read_u64(&mut self) -> (r: Result<u64, DecodeError>)
        requires
            rd_wf(*old(self)),
        ensures
            final(self).data@ == old(self).data@,
            rd_wf(*final(self)),
            match r {
                Ok(v) => {
                    &&& old(self).pos + 8 <= old(self).data@.len()
                    &&& v == spec_u64_from_le_bytes(old(self).data@.subrange(old(self).pos as int, old(self).pos + 8))
                    &&& final(self).pos == old(self).pos + 8
                },
                Err(e) => {
                    &&& old(self).pos + 8 > old(self).data@.len()
                    &&& final(self).pos == old(self).pos
                    &&& e == DecodeError::Malformed
                },
            },
    {
        if self.data.len() - self.pos >= 8 {
            let piece = slice_subrange(self.data, self.pos, self.pos + 8);
            let v = u64_from_le_bytes(piece);
            self.pos = self.pos + 8;
            Ok(v)
        } else {
            Err(DecodeError::Malformed)
        }
    }

    /// Read `n` bytes into an owned vector.
    pub fn read_bytes(&mut self, n: usize) -> (r: Result<Vec<u8>, DecodeError>)
        requires
            rd_wf(*old(self)),
        ensures
            final(self).data@ == old(self).data@,
            rd_wf(*final(self)),
            match r {
                Ok(v) => {
                    &&& old(self).pos + n <= old(self).data@.len()
                    &&& v@ == old(self).data@.subrange(old(self).pos as int, old(self).pos + n)
                    &&& final(self).pos == old(self).pos + n
                },
                Err(e) => {
                    &&& old(self).pos + n > old(self).data@.len()
                    &&& final(self).pos == old(self).pos
                    &&& e == DecodeError::Malformed
                },
            },
    {
        if self.data.len() - self.pos >= n {
            let piece = slice_subrange(self.data, self.pos, self.pos + n);
            let v = slice_to_vec(piece);
            self.pos = self.pos + n;
            Ok(v)
        } else {
            Err(DecodeError::Malformed)
        }
    }

    /// Consume the next `expected.len()` bytes when they equal `expected`;
    /// report whether they did, leaving the position unchanged on mismatch.
    pub fn read_expect(&mut self, expected: &Vec<u8>) -> (b: bool)
        requires
            rd_wf(*old(self)),
        ensures
            final(self).data@ == old(self).data@,
            rd_wf(*final(self)),
            b == at(*old(self), expected@),
            b ==> final(self).pos == old(self).pos + expected@.len(),
            !b ==> final(self).pos == old(self).pos,
    {
        let n = expected.len();
        if self.data.len() - self.pos < n {
            return false;
        }
        let end: usize = self.pos + n;
        let mut i: usize = 0;
        while i < n
            invariant
                i <= n,
                n == expected@.len(),
                rd_wf(*self),
                self.pos + n <= self.data@.len(),
                self.pos + n <= usize::MAX,
                self.pos == old(self).pos,
                self.data@ == old(self).data@,
                forall|k: int|
                    0 <= k < i ==> self.data@[self.pos + k] == expected@[k],
            decreases n - i,
        {
            let a = *vstd::slice::slice_index_get(self.data, self.pos + i);
            let b = expected[i];
            if a != b {
                proof {
                    assert(!at(*old(self), expected@)) by {
                        if at(*old(self), expected@) {
                            assert(self.data@.subrange(
                                self.pos as int,
                                self.pos + expected@.len(),
                            )[i as int] == expected@[i as int]);
                        }
                    }
                }
                return false;
            }
            i = i + 1;
        }
        proof {
            assert(self.data@.subrange(self.pos as int, self.pos + n) =~= expected@);
        }
        self.pos = end;
        true
    }
}

} // verus!
