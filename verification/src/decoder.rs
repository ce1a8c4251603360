//! Recovering the messages that a blob carries.

use vstd::prelude::*;
use miniz_oxide::inflate::DecompressError;
use crate::{BYTES_PER_BLOB, BYTES_PER_FIELD_ELEMENT};
use crate::deflate::{decompress, inflated};

verus! {

/// Number of field elements in a blob.
pub open spec fn field_elements() -> nat {
    (BYTES_PER_BLOB / BYTES_PER_FIELD_ELEMENT) as nat
}

/// The marker byte of field element `i`.
pub open spec fn marker(blob: Seq<u8>, i: int) -> u8 {
    blob[32 * i]
}

/// The 31 payload bytes of field element `i`.
pub open spec fn payload(blob: Seq<u8>, i: int) -> Seq<u8> {
    blob.subrange(32 * i + 1, 32 * i + 32)
}

/// The payloads of the first `n` field elements of `blob`, one after the
/// other.
pub open spec fn payload_concat(blob: Seq<u8>, n: nat) -> Seq<u8>
    decreases n,
{
    if n == 0 {
        seq![]
    } else {
        payload(blob, 0) + payload_concat(blob.skip(32), (n - 1) as nat)
    }
}

/// Reading the first `n` field elements of `blob`: the compressed streams
/// completed so far (each ends at a field element whose marker is 1), and the
/// payload gathered since the last such element.
pub open spec fn split_streams(blob: Seq<u8>, n: nat) -> (Seq<Seq<u8>>, Seq<u8>)
    decreases n,
{
    if n == 0 {
        (seq![], seq![])
    } else {
        let (done, pending) = split_streams(blob, (n - 1) as nat);
        let gathered = pending + payload(blob, n - 1);
        if marker(blob, n - 1) == 1 {
            (done.push(gathered), seq![])
        } else {
            (done, gathered)
        }
    }
}

/// The compressed streams that a blob carries, in order. Payload after the
/// last field element marked 1 belongs to no stream.
pub open spec fn blob_streams(blob: Seq<u8>) -> Seq<Seq<u8>> {
    split_streams(blob, field_elements()).0
}

/// Every one of the first `n` streams decompresses.
pub open spec fn all_inflate(streams: Seq<Seq<u8>>, n: int) -> bool {
    forall|j: int| 0 <= j < n ==> (#[trigger] inflated(streams[j])) is Some
}

/// Why a blob could not be decoded: the stream at `message_index` did not
/// decompress, for the reason in `cause`.
#[derive(Debug)]
pub struct BlobDecodeError {
    pub message_index: usize,
    pub cause: DecompressError,
}

/// Splits a blob into the compressed messages it carries and decompresses
/// each. Succeeds exactly when every stream decompresses; otherwise reports
/// the first stream that does not.
pub fn blob_to_vecs(blob: [u8; BYTES_PER_BLOB]) -> (res: Result<Vec<Vec<u8>>, BlobDecodeError>)
    ensures
        ({
            let streams = blob_streams(blob@);
            match res {
                Ok(messages) => {
                    &&& all_inflate(streams, streams.len() as int)
                    &&& messages.len() == streams.len()
                    &&& forall|j: int| 0 <= j < streams.len()
                        ==> inflated(streams[j]) == Some(#[trigger] messages@[j]@)
                },
                Err(e) => {
                    &&& e.message_index < streams.len()
                    &&& all_inflate(streams, e.message_index as int)
                    &&& inflated(streams[e.message_index as int]) is None
                },
            }
        }),
{
    let bytes: &[u8] = blob.as_slice();
    let mut decoded_chunks: Vec<Vec<u8>> = Vec::new();
    let mut encoded_chunk: Vec<u8> = Vec::new();
    let n: usize = BYTES_PER_BLOB / BYTES_PER_FIELD_ELEMENT;
    let mut i: usize = 0;
    while i < n
        invariant
            n == field_elements(),
            bytes@ == blob@,
            bytes@.len() == BYTES_PER_BLOB,
            i <= n,
            ({
                let (done, pending) = split_streams(blob@, i as nat);
                &&& encoded_chunk@ == pending
                &&& decoded_chunks.len() == done.len()
                &&& all_inflate(done, done.len() as int)
                &&& forall|j: int| 0 <= j < done.len()
                    ==> inflated(done[j]) == Some(#[trigger] decoded_chunks@[j]@)
            }),
        decreases n - i,
    {
        let start = i * BYTES_PER_FIELD_ELEMENT;
        encoded_chunk.extend_from_slice(&bytes[start + 1..start + BYTES_PER_FIELD_ELEMENT]);
        let ghost prev = split_streams(blob@, i as nat);
        assert(encoded_chunk@ == prev.1 + payload(blob@, i as int));
        if bytes[start] == 1u8 {
            match decompress(encoded_chunk.as_slice()) {
                Ok(decoded_chunk) => {
                    decoded_chunks.push(decoded_chunk);
                    encoded_chunk.clear();
                },
                Err(cause) => {
                    proof {
                        lemma_split_streams_grow(blob@, (i + 1) as nat, n as nat);
                        assert(split_streams(blob@, (i + 1) as nat).0[prev.0.len() as int]
                            == encoded_chunk@);
                    }
                    return Err(BlobDecodeError { message_index: decoded_chunks.len(), cause });
                },
            }
        }
        i = i + 1;
    }
    Ok(decoded_chunks)
}

/// Reading more field elements only adds streams at the end.
pub proof fn lemma_split_streams_grow(blob: Seq<u8>, m: nat, n: nat)
    requires
        m <= n,
    ensures
        split_streams(blob, m).0.len() <= split_streams(blob, n).0.len(),
        forall|j: int| 0 <= j < split_streams(blob, m).0.len()
            ==> #[trigger] split_streams(blob, n).0[j] == split_streams(blob, m).0[j],
    decreases n - m,
{
    if m < n {
        lemma_split_streams_grow(blob, m, (n - 1) as nat);
    }
}

} // verus!
