//! Stream compression for the container body, through the `flate2` crate.
//!
//! The compressed form is named, not described: `deflate_bytes` stands for
//! whatever the zlib compressor produces for given input and level. The one
//! fact the codec relies on is that decompression inverts it.

use vstd::prelude::*;

verus! {

/// What flate2's zlib compressor produces for the given bytes at the given
/// level. The result depends on the bytes and the level alone: the rust
/// backend's compressor is deterministic.
pub uninterp spec fn deflate_bytes(data: Seq<u8>, level: u32) -> Seq<u8>;

/// Relies on flate2's `write::ZlibEncoder`: compressing `data` at `level`
/// (1 through 9) yields the zlib stream `deflate_bytes(data@, level)`.
/// Writing into an in-memory buffer cannot fail.
#[verifier::external_body]
pub fn deflate(data: &Vec<u8>, level: u32) -> (r: Vec<u8>)
    requires
        1 <= level <= 9,
    ensures
        r@ == deflate_bytes(data@, level),
{
    let mut enc = flate2::write::ZlibEncoder::new(Vec::new(), flate2::Compression::new(level));
    std::io::Write::write_all(&mut enc, data.as_slice()).expect("an in-memory sink cannot fail");
    enc.finish().expect("an in-memory sink cannot fail")
}

/// Relies on flate2's `read::ZlibDecoder`: decompressing a complete zlib
/// stream returns exactly the bytes that were compressed, and a corrupt
/// stream reports an error rather than data.
#[verifier::external_body]
pub fn inflate(data: &Vec<u8>) -> (r: Option<Vec<u8>>)
    ensures
        forall|d: Seq<u8>, level: u32|
            (1 <= level <= 9 && data@ == deflate_bytes(d, level)) ==> r is Some && r->Some_0@ == d,
{
    let mut out = Vec::new();
    let mut dec = flate2::read::ZlibDecoder::new(data.as_slice());
    match std::io::Read::read_to_end(&mut dec, &mut out) {
        Ok(_) => Some(out),
        Err(_) => None,
    }
}

} // verus!
