//! The KZG commitment and proof that accompany a blob, through `c_kzg`.

use vstd::prelude::*;
use crate::BYTES_PER_BLOB;
use crate::decoder::{field_elements, marker};
use crate::errors::{OwDataProviderCliError, ProviderErrorView};

verus! {

/// The error that `c_kzg` reports; carried through without looking inside.
#[verifier::external_type_specification]
#[verifier::external_body]
pub struct ExKzgError(c_kzg::Error);

/// The commitment to `blob` that `c_kzg::KzgCommitment::blob_to_kzg_commitment`
/// computes with the Ethereum trusted setup, or `None` where it reports an error.
pub uninterp spec fn kzg_commitment(blob: Seq<u8>) -> Option<Seq<u8>>;

/// The proof that `c_kzg::KzgProof::compute_blob_kzg_proof` computes for
/// `blob` and `commitment` with the Ethereum trusted setup, or `None` where
/// it reports an error.
pub uninterp spec fn kzg_blob_proof(blob: Seq<u8>, commitment: Seq<u8>) -> Option<Seq<u8>>;

/// What `c_kzg::KzgProof::verify_blob_kzg_proof` answers for `blob`,
/// `commitment` and `proof` with the Ethereum trusted setup, or `None` where
/// it reports an error.
pub uninterp spec fn kzg_blob_proof_valid(blob: Seq<u8>, commitment: Seq<u8>, proof: Seq<u8>) -> Option<bool>;

/// Whether the first byte of every 32-byte field element of `blob` is below
/// 0x73, the first byte of the BLS12-381 scalar field's modulus; then each
/// element, read big-endian as `c_kzg` reads it, is below the modulus.
pub open spec fn leading_bytes_small(blob: Seq<u8>) -> bool {
    forall|k: int| 0 <= k < field_elements() ==> #[trigger] marker(blob, k) < 0x73u8
}

/// Calls `c_kzg::KzgCommitment::blob_to_kzg_commitment` on the blob with the
/// settings of `c_kzg::ethereum_kzg_settings`. Trusted: the result is
/// [`kzg_commitment`] of the blob, and it is a commitment wherever every
/// field element is below the modulus (`blob_to_polynomial` rejects only
/// elements that are not). A failure to allocate memory inside `c_kzg` is
/// left out, as vstd's specifications of `Vec` and `String` leave it out.
#[verifier::external_body]
fn blob_to_commitment(blob: &[u8; BYTES_PER_BLOB]) -> (res: Result<[u8; 48], c_kzg::Error>)
    ensures
        match res {
            Ok(c) => kzg_commitment(blob@) == Some(c@),
            Err(_) => kzg_commitment(blob@) is None,
        },
        leading_bytes_small(blob@) ==> res is Ok,
{
    let kzg_blob = c_kzg::Blob::new(*blob);
    match c_kzg::KzgCommitment::blob_to_kzg_commitment(&kzg_blob, c_kzg::ethereum_kzg_settings()) {
        Ok(c) => Ok(c.to_bytes().into_inner()),
        Err(e) => Err(e),
    }
}

/// Calls `c_kzg::KzgProof::compute_blob_kzg_proof` with the settings of
/// `c_kzg::ethereum_kzg_settings`. Trusted: the result is [`kzg_blob_proof`]
/// of the arguments, and it is a proof where every field element of the
/// blob is below the modulus and the commitment is the one `c_kzg` computed
/// for the blob (a point that `validate_kzg_g1` accepts). Allocation failure
/// is left out, as for [`blob_to_commitment`].
#[verifier::external_body]
fn compute_proof(blob: &[u8; BYTES_PER_BLOB], commitment: &[u8; 48]) -> (res: Result<[u8; 48], c_kzg::Error>)
    ensures
        match res {
            Ok(p) => kzg_blob_proof(blob@, commitment@) == Some(p@),
            Err(_) => kzg_blob_proof(blob@, commitment@) is None,
        },
        leading_bytes_small(blob@) && kzg_commitment(blob@) == Some(commitment@) ==> res is Ok,
{
    let kzg_blob = c_kzg::Blob::new(*blob);
    let bytes = c_kzg::Bytes48::from(*commitment);
    match c_kzg::KzgProof::compute_blob_kzg_proof(&kzg_blob, &bytes, c_kzg::ethereum_kzg_settings()) {
        Ok(p) => Ok(p.to_bytes().into_inner()),
        Err(e) => Err(e),
    }
}

/// Calls `c_kzg::KzgProof::verify_blob_kzg_proof` with the settings of
/// `c_kzg::ethereum_kzg_settings`. Trusted: the result is
/// [`kzg_blob_proof_valid`] of the arguments, and it accepts (`Ok(true)`)
/// the commitment and proof that `c_kzg` itself computed for a blob whose
/// field elements are all below the modulus: it recomputes the same
/// challenge and checks the opening that `compute_blob_kzg_proof` made.
/// Allocation failure is left out, as for [`blob_to_commitment`].
#[verifier::external_body]
fn verify_proof(blob: &[u8; BYTES_PER_BLOB], commitment: &[u8; 48], proof: &[u8; 48])
    -> (res: Result<bool, c_kzg::Error>)
    ensures
        match res {
            Ok(v) => kzg_blob_proof_valid(blob@, commitment@, proof@) == Some(v),
            Err(_) => kzg_blob_proof_valid(blob@, commitment@, proof@) is None,
        },
        leading_bytes_small(blob@) && kzg_commitment(blob@) == Some(commitment@)
            && kzg_blob_proof(blob@, commitment@) == Some(proof@) ==> res matches Ok(true),
{
    let kzg_blob = c_kzg::Blob::new(*blob);
    let c = c_kzg::Bytes48::from(*commitment);
    let p = c_kzg::Bytes48::from(*proof);
    c_kzg::KzgProof::verify_blob_kzg_proof(&kzg_blob, &c, &p, c_kzg::ethereum_kzg_settings())
}

/// The commitment to a blob and the proof that goes with it.
pub struct BlobCommitmentProof {
    pub commitment: [u8; 48],
    pub proof: [u8; 48],
}

/// Why no commitment and proof were produced: `c_kzg` reported an error, or
/// the proof it computed did not verify (`InvalidBlobProof`).
#[derive(Debug)]
pub enum BlobProofError {
    Kzg(c_kzg::Error),
    InvalidProof(OwDataProviderCliError),
}

/// What [`prove_blob`] gives for a blob: the commitment and proof, or which
/// failure (`None` for an error of `c_kzg`, `Some` of the provider's error
/// when the proof does not verify).
pub open spec fn spec_prove_blob(blob: Seq<u8>) -> Result<(Seq<u8>, Seq<u8>), Option<ProviderErrorView>> {
    match kzg_commitment(blob) {
        None => Err(None),
        Some(c) => match kzg_blob_proof(blob, c) {
            None => Err(None),
            Some(p) => match kzg_blob_proof_valid(blob, c, p) {
                None => Err(None),
                Some(false) => Err(Some(ProviderErrorView::InvalidBlobProof)),
                Some(true) => Ok((c, p)),
            },
        },
    }
}

/// Computes the commitment to a blob and its proof, and checks the proof
/// before handing them out; a proof that does not verify is refused with
/// `InvalidBlobProof`. A blob whose field elements are all below the
/// modulus (as every packed blob's are) gets its commitment and proof.
pub fn prove_blob(blob: &[u8; BYTES_PER_BLOB]) -> (res: Result<BlobCommitmentProof, BlobProofError>)
    ensures
        leading_bytes_small(blob@) ==> res is Ok,
        match res {
            Ok(cp) => spec_prove_blob(blob@) == Ok::<(Seq<u8>, Seq<u8>), Option<ProviderErrorView>>(
                (cp.commitment@, cp.proof@),
            ),
            Err(BlobProofError::Kzg(_)) => spec_prove_blob(blob@) == Err::<
                (Seq<u8>, Seq<u8>),
                Option<ProviderErrorView>,
            >(None),
            Err(BlobProofError::InvalidProof(e)) => spec_prove_blob(blob@) == Err::<
                (Seq<u8>, Seq<u8>),
                Option<ProviderErrorView>,
            >(Some(e@)),
        },
{
    let commitment = match blob_to_commitment(blob) {
        Ok(c) => c,
        Err(e) => return Err(BlobProofError::Kzg(e)),
    };
    let proof = match compute_proof(blob, &commitment) {
        Ok(p) => p,
        Err(e) => return Err(BlobProofError::Kzg(e)),
    };
    match verify_proof(blob, &commitment, &proof) {
        Ok(true) => Ok(BlobCommitmentProof { commitment, proof }),
        Ok(false) => Err(BlobProofError::InvalidProof(OwDataProviderCliError::InvalidBlobProof())),
        Err(e) => Err(BlobProofError::Kzg(e)),
    }
}

} // verus!
