//! Decompression of the xz-packed kernel module image that exposes the EC
//! register file.  The bytes come from and go back to the surrounding
//! process; only the decode itself happens here, behind a trusted call.

use vstd::prelude::*;

verus! {

/// What the xz decoder yields for a given compressed stream: a function
/// of the input bytes alone, `None` when the stream is not valid xz.
pub uninterp spec fn xz_plain_of(data: Seq<u8>) -> Option<Seq<u8>>;

/// Relies on lzma_rs::xz_decompress: decoding an in-memory buffer into an
/// in-memory buffer is deterministic in the input bytes, and fails
/// exactly on streams that are not valid xz.
#[verifier::external_body]
fn xz_decode(data: &Vec<u8>) -> (r: Option<Vec<u8>>)
    ensures
        match r {
            Some(plain) => xz_plain_of(data@) == Some(plain@),
            None => xz_plain_of(data@) is None,
        },
{
    let mut input: &[u8] = data.as_slice();
    let mut plain: Vec<u8> = Vec::new();
    match lzma_rs::xz_decompress(&mut input, &mut plain) {
        Ok(()) => Some(plain),
        Err(_) => None,
    }
}

/// The decompressed kernel module image, or `None` when the buffer read
/// from disk is not a valid xz stream.
pub fn decode_module_image(data: &Vec<u8>) -> (r: Option<Vec<u8>>)
    ensures
        match r {
            Some(plain) => xz_plain_of(data@) == Some(plain@),
            None => xz_plain_of(data@) is None,
        },
{
    xz_decode(data)
}

} // verus!
