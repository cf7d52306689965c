//! The one outside computation the dispatcher leans on: gzip compression.
use vstd::prelude::*;

verus! {

/// What gzip decompression yields on a byte string: the original bytes for
/// well-formed gzip data, `None` otherwise. Decompression is a pure
/// function of the bytes alone; nothing here states what compressed bytes
/// look like, only that decompressing them gives back what was compressed.
pub uninterp spec fn gunzip_of(b: Seq<u8>) -> Option<Seq<u8>>;

/// Relies on flate2's `write::GzEncoder` with the default level, and on the
/// documented gzip guarantee that decompressing the compressed stream
/// yields exactly the bytes that were written into the encoder. Writing
/// into an in-memory buffer, the encoder fails only if compression itself
/// fails, and then no result is produced.
#[verifier::external_body]
pub(crate) fn gzip_encode(data: &[u8]) -> (r: Option<Vec<u8>>)
    ensures
        r matches Some(c) ==> gunzip_of(c@) == Some(data@),
{
    let mut enc = flate2::write::GzEncoder::new(Vec::new(), flate2::Compression::default());
    match std::io::Write::write_all(&mut enc, data) {
        Ok(()) => enc.finish().ok(),
        Err(_) => None,
    }
}

} // verus!
