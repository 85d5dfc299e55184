//! The bytes of a file as they come from the remote store, and their
//! decompression.

use crate::manifest::FileCompression;
use bytes::Bytes;
use std::io::Read;
use vstd::prelude::*;

verus! {

/// The buffer of the `bytes` crate, of which nothing is known but what
/// `bytes_contents` names.
#[verifier::external_type_specification]
#[verifier::external_body]
pub struct ExBytes(Bytes);

/// The bytes that a buffer holds.
pub uninterp spec fn bytes_contents(buffer: Bytes) -> Seq<u8>;

/// The bytes that reading a streaming zstd decoder over `input` to its end
/// leaves behind, whether the stream ends or the decoder fails.
pub uninterp spec fn zstd_decoded(input: Seq<u8>) -> Seq<u8>;

/// The body of a file once its compression is undone.
pub open spec fn decompressed(compression: FileCompression, body: Seq<u8>) -> Seq<u8> {
    match compression {
        FileCompression::Uncompressed => body,
        FileCompression::Zstd => zstd_decoded(body),
    }
}

/// Copies the bytes of a `bytes::Bytes` into a vector with `to_vec`.
#[verifier::external_body]
pub(crate) fn bytes_to_vec(buffer: &Bytes) -> (copy: Vec<u8>)
    ensures
        copy@ == bytes_contents(*buffer),
{
    buffer.to_vec()
}

/// Makes a `zstd::stream::read::Decoder` over `input` and reads it with
/// `read_to_end`. Hands back what that leaves in the vector, and nothing
/// where no decoder can be made. An error of either call is dropped: the
/// frames that follow in the bytes decide what becomes of such a file.
#[verifier::external_body]
pub(crate) fn zstd_decode(input: &[u8]) -> (output: Vec<u8>)
    ensures
        output@ == zstd_decoded(input@),
{
    let mut output: Vec<u8> = Vec::new();
    if let Ok(mut decoder) = zstd::stream::read::Decoder::new(input) {
        let _ = decoder.read_to_end(&mut output);
    }
    output
}

impl FileCompression {
    /// The body of a file with its compression undone.
    pub fn bytes_decompress(&self, bytes: Bytes) -> (stream: Vec<u8>)
        ensures
            stream@ == decompressed(*self, bytes_contents(bytes)),
    {
        let body = bytes_to_vec(&bytes);
        match self {
            FileCompression::Uncompressed => body,
            FileCompression::Zstd => zstd_decode(body.as_slice()),
        }
    }
}

} // verus!
