//! Framing of a compressed message into blob field elements.

use vstd::prelude::*;
use crate::RAW_CHUNK_SIZE;
use crate::decoder::{marker, payload_concat};
use crate::deflate::{compress, deflated, inflated};
use crate::laws::law_file_encoding;

verus! {

/// `n` zero bytes.
pub open spec fn zeros(n: nat) -> Seq<u8> {
    Seq::new(n, |i: int| 0u8)
}

/// The framing of `data`: it is cut into chunks of 31 bytes; each chunk is
/// preceded by a marker byte, 1 for the last chunk and 0 for the others, and
/// the last chunk is padded with zeros up to 31 bytes.
pub open spec fn spec_frame(data: Seq<u8>) -> Seq<u8>
    decreases data.len(),
{
    if data.len() == 0 {
        seq![]
    } else if data.len() <= 31 {
        seq![1u8] + data + zeros((31 - data.len()) as nat)
    } else {
        seq![0u8] + data.take(31) + spec_frame(data.skip(31))
    }
}

/// Frames `data` as described by [`spec_frame`].
pub fn frame_compressed(data: &[u8]) -> (encoded: Vec<u8>)
    ensures
        encoded@ == spec_frame(data@),
{
    let mut encoded: Vec<u8> = Vec::new();
    let len = data.len();
    let mut cursor: usize = 0;
    assert(data@.skip(0) == data@);
    while cursor < len
        invariant
            len == data@.len(),
            cursor <= len,
            encoded@ + spec_frame(data@.skip(cursor as int)) == spec_frame(data@),
        decreases len - cursor,
    {
        let ghost rest = data@.skip(cursor as int);
        if len - cursor <= RAW_CHUNK_SIZE {
            let ghost old_encoded = encoded@;
            encoded.push(1u8);
            encoded.extend_from_slice(&data[cursor..len]);
            let padding = RAW_CHUNK_SIZE - (len - cursor);
            let mut k: usize = 0;
            while k < padding
                invariant
                    k <= padding,
                    encoded@ == old_encoded + seq![1u8] + rest + zeros(k as nat),
                decreases padding - k,
            {
                encoded.push(0u8);
                k = k + 1;
                assert(zeros(k as nat) == zeros((k - 1) as nat).push(0u8));
            }
            assert(data@.subrange(cursor as int, len as int) == rest);
            cursor = len;
            assert(spec_frame(data@.skip(cursor as int)) == Seq::<u8>::empty());
        } else {
            let next = cursor + RAW_CHUNK_SIZE;
            encoded.push(0u8);
            encoded.extend_from_slice(&data[cursor..next]);
            assert(data@.subrange(cursor as int, next as int) == rest.take(31));
            assert(rest.skip(31) == data@.skip(next as int));
            cursor = next;
        }
    }
    assert(data@.skip(len as int) == Seq::<u8>::empty());
    encoded
}

/// The compression level at which messages are deflated.
pub const COMPRESSION_LEVEL: u8 = 10;

/// The bytes that a message occupies in a blob: its DEFLATE stream at
/// [`COMPRESSION_LEVEL`], framed by [`spec_frame`].
pub open spec fn encoded_file(contents: Seq<u8>) -> Seq<u8> {
    spec_frame(deflated(contents, COMPRESSION_LEVEL))
}

/// The DEFLATE stream of `contents` is not empty, and inflating it, followed
/// by fewer than 31 zero bytes, gives `contents` back.
pub open spec fn inflates_back(contents: Seq<u8>) -> bool {
    &&& deflated(contents, COMPRESSION_LEVEL).len() > 0
    &&& forall|k: nat| k <= 30
        ==> #[trigger] inflated(deflated(contents, COMPRESSION_LEVEL) + zeros(k)) == Some(contents)
}

/// Compresses the contents of a file and frames the result into blob field
/// elements. The stream inside the frames inflates back to the contents:
/// the payloads of the field elements, one after the other, inflate to the
/// contents, and only the last field element's marker is 1, the others' 0.
pub fn file_to_vec(contents: &[u8]) -> (encoded: Vec<u8>)
    ensures
        encoded@ == encoded_file(contents@),
        inflates_back(contents@),
        encoded@.len() > 0,
        encoded@.len() % 32 == 0,
        inflated(payload_concat(encoded@, encoded@.len() / 32)) == Some(contents@),
        forall|k: int| 0 <= k < encoded@.len() / 32 ==> {
            &&& (#[trigger] marker(encoded@, k) == 0u8 || marker(encoded@, k) == 1u8)
            &&& (marker(encoded@, k) == 1u8 <==> k == encoded@.len() / 32 - 1)
        },
{
    let compressed = compress(contents, COMPRESSION_LEVEL);
    let encoded = frame_compressed(compressed.as_slice());
    proof {
        law_file_encoding(contents@);
    }
    encoded
}

} // verus!
