//! A byte-counting wrapper around a sink, so a caller can learn how much a
//! writer behind it has produced.

use vstd::prelude::*;

use crate::wire::write_bytes;

verus! {

/// Wraps a sink and counts every byte written through it.
#[derive(Debug)]
pub struct TrackingWriter<T> {
    pub writer: T,
    pub written_bytes: u64,
}

impl<T> TrackingWriter<T> {
    /// Wrap `writer` with the count at zero.
    pub fn new(writer: T) -> (w: TrackingWriter<T>)
        ensures
            w.writer == writer,
            w.written_bytes == 0,
    {
        TrackingWriter { writer, written_bytes: 0 }
    }

    /// How many bytes have been written so far.
    pub fn written_bytes(&self) -> (n: u64)
        ensures
            n == self.written_bytes,
    {
        self.written_bytes
    }

    /// Hand the wrapped sink back.
    pub fn into_inner(self) -> (w: T)
        ensures
            w == self.writer,
    {
        self.writer
    }
}

impl TrackingWriter<Vec<u8>> {
    /// Append a buffer to the wrapped sink, counting its bytes; reports how
    /// many were taken.
    pub fn write(&mut self, buf: &[u8]) -> (n: usize)
        requires
            old(self).written_bytes + buf@.len() <= u64::MAX,
        ensures
            n == buf@.len(),
            final(self).writer@ == old(self).writer@ + buf@,
            final(self).written_bytes == old(self).written_bytes + n,
    {
        let len = buf.len();
        write_bytes(&mut self.writer, buf);
        self.written_bytes = self.written_bytes + len as u64;
        len
    }
}

} // verus!
