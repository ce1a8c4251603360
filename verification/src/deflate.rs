//! The DEFLATE compressor and decompressor of `miniz_oxide`, as the codec
//! uses them.

use vstd::prelude::*;
use miniz_oxide::inflate::DecompressError;
use crate::encoder::zeros;

verus! {

/// The error that `miniz_oxide::inflate::decompress_to_vec` reports; the
/// library carries it through to its callers without looking inside.
#[verifier::external_type_specification]
#[verifier::external_body]
pub struct ExDecompressError(DecompressError);

/// The raw DEFLATE stream that `miniz_oxide::deflate::compress_to_vec`
/// produces for `data` at compression `level`.
pub uninterp spec fn deflated(data: Seq<u8>, level: u8) -> Seq<u8>;

/// What `miniz_oxide::inflate::decompress_to_vec` makes of `data`: the
/// decompressed bytes, or `None` where it reports an error.
pub uninterp spec fn inflated(data: Seq<u8>) -> Option<Seq<u8>>;

/// Calls `miniz_oxide::deflate::compress_to_vec(data, level)`. Trusted: the
/// result is the compressor's output for these arguments, a function of them
/// alone. It is a complete raw DEFLATE stream, so it is not empty (it holds
/// at least its final block), and `decompress_to_vec` gives `data` back from
/// it; bytes after the stream's final block are not read, since
/// `decompress_to_vec_inner` returns as soon as the stream reports that it
/// is done, so up to 30 zero bytes appended to it change nothing.
#[verifier::external_body]
pub(crate) fn compress(data: &[u8], level: u8) -> (compressed: Vec<u8>)
    ensures
        compressed@ == deflated(data@, level),
        compressed@.len() > 0,
        forall|k: nat| k <= 30 ==> #[trigger] inflated(compressed@ + zeros(k)) == Some(data@),
{
    miniz_oxide::deflate::compress_to_vec(data, level)
}

/// Calls `miniz_oxide::inflate::decompress_to_vec(data)`. Trusted: it succeeds
/// exactly when [`inflated`] of the input is `Some`, and then returns those
/// bytes; which inputs those are is not stated.
#[verifier::external_body]
pub(crate) fn decompress(data: &[u8]) -> (res: Result<Vec<u8>, DecompressError>)
    ensures
        match res {
            Ok(v) => inflated(data@) == Some(v@),
            Err(_) => inflated(data@) is None,
        },
{
    miniz_oxide::inflate::decompress_to_vec(data)
}

} // verus!
