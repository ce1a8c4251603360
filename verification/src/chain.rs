//! The validator node's decisions about sequencer logs and beacon-chain
//! sidecars.

use vstd::prelude::*;
use sha2::Digest;
use crate::errors::{OwValidatorNodeError, ValidatorErrorView};

verus! {

/// The SHA-256 digest of `data`, as `sha2::Sha256` computes it.
pub uninterp spec fn sha256(data: Seq<u8>) -> Seq<u8>;

/// Calls `sha2::Sha256::digest`. Trusted: the result is [`sha256`] of the
/// input; nothing more is claimed.
#[verifier::external_body]
fn sha256_digest(data: &[u8]) -> (digest: [u8; 32])
    ensures
        digest@ == sha256(data@),
{
    sha2::Sha256::digest(data).into()
}

/// The versioned hash of a KZG commitment: its SHA-256 digest with the first
/// byte replaced by the version, 1.
pub open spec fn spec_blobhash(commitment: Seq<u8>) -> Seq<u8> {
    sha256(commitment).update(0, 1u8)
}

/// Computes the versioned hash under which the sequencer queues a blob with
/// this KZG commitment.
pub fn commitment_to_blobhash(commitment: &[u8]) -> (hash: [u8; 32])
    ensures
        sha256(commitment@).len() == 32,
        hash@ == spec_blobhash(commitment@),
{
    let mut hashed_commitment = sha256_digest(commitment);
    hashed_commitment[0] = 1u8;
    hashed_commitment
}

/// Whether two byte strings are equal.
fn same_bytes(a: &[u8], b: &[u8]) -> (r: bool)
    ensures
        r == (a@ == b@),
{
    crate::messages::bytes_equal(a, b)
}

/// A log of the sequencer's `NewBlobSubmitted` event, as the node reads it:
/// the commitment it carries and the number of its block, when known.
pub struct NewBlobLog {
    pub commitment: Vec<u8>,
    pub block_number: Option<u64>,
}

/// What one `NewBlobSubmitted` log says about the queue head `blobhead`:
/// it is not the head's log (`Ok(None)`), it is and names its block
/// (`Ok(Some(block))`), or it is but its block is unknown
/// (`BlockNotFoundInLog`).
pub open spec fn spec_queue_head_log(log_commitment: Seq<u8>, block_number: Option<u64>, blobhead: Seq<u8>)
    -> Result<Option<u64>, ValidatorErrorView>
{
    if spec_blobhash(log_commitment) != blobhead {
        Ok(None)
    } else {
        match block_number {
            None => Err(ValidatorErrorView::BlockNotFoundInLog),
            Some(b) => Ok(Some(b)),
        }
    }
}

/// Checks one `NewBlobSubmitted` log against the queue head, as
/// [`spec_queue_head_log`] describes.
pub fn queue_head_log_block(log: &NewBlobLog, blobhead: &[u8; 32])
    -> (res: Result<Option<u64>, OwValidatorNodeError>)
    ensures
        match res {
            Ok(r) => spec_queue_head_log(log.commitment@, log.block_number, blobhead@)
                == Ok::<Option<u64>, ValidatorErrorView>(r),
            Err(e) => spec_queue_head_log(log.commitment@, log.block_number, blobhead@)
                == Err::<Option<u64>, ValidatorErrorView>(e@),
        },
{
    let current_blobhash = commitment_to_blobhash(log.commitment.as_slice());
    if !same_bytes(current_blobhash.as_slice(), blobhead.as_slice()) {
        return Ok(None);
    }
    match log.block_number {
        None => Err(OwValidatorNodeError::BlockNotFoundInLog()),
        Some(b) => Ok(Some(b)),
    }
}

/// What [`spec_queue_head_log`] says of one log.
pub open spec fn log_check(log: NewBlobLog, blobhead: Seq<u8>) -> Result<Option<u64>, ValidatorErrorView> {
    spec_queue_head_log(log.commitment@, log.block_number, blobhead)
}

/// Finds the queue head's log among the `NewBlobSubmitted` logs, in the
/// order they were read: the first log that is the head's log and names its
/// block gives its index and block (`Ok(Some(..))`); a head's log without a
/// block met first gives `BlockNotFoundInLog`; no head's log gives
/// `Ok(None)`.
pub fn queue_head_log(logs: &Vec<NewBlobLog>, blobhead: &[u8; 32])
    -> (res: Result<Option<(usize, u64)>, OwValidatorNodeError>)
    ensures
        match res {
            Ok(None) => forall|j: int| 0 <= j < logs@.len()
                ==> #[trigger] log_check(logs@[j], blobhead@) == Ok::<Option<u64>, ValidatorErrorView>(None),
            Ok(Some((i, b))) => i < logs@.len()
                && log_check(logs@[i as int], blobhead@) == Ok::<Option<u64>, ValidatorErrorView>(Some(b))
                && forall|j: int| 0 <= j < i
                    ==> #[trigger] log_check(logs@[j], blobhead@) == Ok::<Option<u64>, ValidatorErrorView>(None),
            Err(e) => exists|i: int| 0 <= i < logs@.len()
                && #[trigger] log_check(logs@[i], blobhead@) == Err::<Option<u64>, ValidatorErrorView>(e@)
                && forall|j: int| 0 <= j < i
                    ==> #[trigger] log_check(logs@[j], blobhead@) == Ok::<Option<u64>, ValidatorErrorView>(None),
        },
{
    let mut i: usize = 0;
    while i < logs.len()
        invariant
            i <= logs@.len(),
            forall|j: int| 0 <= j < i
                ==> #[trigger] log_check(logs@[j], blobhead@) == Ok::<Option<u64>, ValidatorErrorView>(None),
        decreases logs@.len() - i,
    {
        match queue_head_log_block(&logs[i], blobhead) {
            Ok(None) => {},
            Ok(Some(b)) => {
                return Ok(Some((i, b)));
            },
            Err(e) => {
                assert(log_check(logs@[i as int], blobhead@) == Err::<Option<u64>, ValidatorErrorView>(e@));
                return Err(e);
            },
        }
        i = i + 1;
    }
    Ok(None)
}

/// The commitment at the head of the sequencer's queue and the root of the
/// parent beacon block of the block that submitted it.
pub struct QueueHeadData {
    pub commitment: Vec<u8>,
    pub parent_beacon_block_root: [u8; 32],
}

/// `QueueHeadNotFound` unless both a parent beacon block root (not all
/// zeros) and a commitment (not empty) were found.
pub fn queue_head_data(commitment: Vec<u8>, parent_beacon_block_root: [u8; 32])
    -> (res: Result<QueueHeadData, OwValidatorNodeError>)
    ensures
        ({
            let missing = parent_beacon_block_root@ == Seq::new(32, |i: int| 0u8)
                || commitment@.len() == 0;
            match res {
                Ok(d) => !missing && d.commitment@ == commitment@
                    && d.parent_beacon_block_root@ == parent_beacon_block_root@,
                Err(e) => missing && e@ == ValidatorErrorView::QueueHeadNotFound,
            }
        }),
{
    let zero = [0u8; 32];
    assert(zero@ =~= Seq::new(32, |i: int| 0u8));
    if same_bytes(parent_beacon_block_root.as_slice(), zero.as_slice()) || commitment.len() == 0 {
        return Err(OwValidatorNodeError::QueueHeadNotFound());
    }
    Ok(QueueHeadData { commitment, parent_beacon_block_root })
}

/// A blob sidecar served by the beacon chain: the blob as a prefixed hex
/// string and its KZG commitment.
pub struct BlobSidecarData {
    pub blob: String,
    pub kzg_commitment: Vec<u8>,
}

/// The number of sidecars among the first `n` whose commitment is `c`.
pub open spec fn count_matching(sidecars: Seq<BlobSidecarData>, c: Seq<u8>, n: nat) -> nat
    decreases n,
{
    if n == 0 {
        0
    } else {
        count_matching(sidecars, c, (n - 1) as nat)
            + if sidecars[n - 1].kzg_commitment@ == c { 1nat } else { 0nat }
    }
}

/// Keeps the sidecar whose commitment is `commitment` when exactly one
/// sidecar has it, and gives `None` otherwise.
pub fn select_sidecar(sidecars: Vec<BlobSidecarData>, commitment: &[u8]) -> (res: Option<BlobSidecarData>)
    ensures
        match res {
            Some(s) => count_matching(sidecars@, commitment@, sidecars@.len()) == 1
                && exists|i: int| 0 <= i < sidecars@.len() && sidecars@[i] == s
                && s.kzg_commitment@ == commitment@,
            None => count_matching(sidecars@, commitment@, sidecars@.len()) != 1,
        },
{
    let ghost all = sidecars@;
    let mut found: Option<BlobSidecarData> = None;
    let mut count: usize = 0;
    let mut rest = sidecars;
    let mut i: usize = 0;
    let n = rest.len();
    while rest.len() > 0
        invariant
            n == all.len(),
            rest@.len() + i == n,
            rest@ == all.skip(i as int),
            count == count_matching(all, commitment@, i as nat),
            count <= i,
            count == 0 ==> found is None,
            count >= 1 ==> (found matches Some(s) && exists|j: int| 0 <= j < i && all[j] == s
                && s.kzg_commitment@ == commitment@),
        decreases rest.len(),
    {
        let sidecar = rest.remove(0);
        assert(sidecar == all[i as int]);
        assert(rest@ =~= all.skip(i + 1));
        if same_bytes(sidecar.kzg_commitment.as_slice(), commitment) {
            if count == 0 {
                found = Some(sidecar);
            }
            count = count + 1;
        }
        i = i + 1;
    }
    if count == 1 {
        found
    } else {
        None
    }
}

/// Whether a sidecar carries the commitment `c`.
pub open spec fn carries(c: Seq<u8>) -> spec_fn(BlobSidecarData) -> bool {
    |s: BlobSidecarData| s.kzg_commitment@ == c
}

proof fn lemma_count_matching_filter(sidecars: Seq<BlobSidecarData>, c: Seq<u8>, n: nat)
    requires
        n <= sidecars.len(),
    ensures
        count_matching(sidecars, c, n) == sidecars.take(n as int).filter(carries(c)).len(),
    decreases n,
{
    if n == 0 {
        assert(sidecars.take(0) =~= Seq::<BlobSidecarData>::empty());
    } else {
        lemma_count_matching_filter(sidecars, c, (n - 1) as nat);
        let t = sidecars.take(n as int);
        let p = carries(c);
        assert(t.drop_last() =~= sidecars.take(n - 1));
        assert(t.last() == sidecars[n - 1]);
        reveal(Seq::filter);
        assert(t.filter(p) == (if p(t.last()) { t.drop_last().filter(p).push(t.last()) } else { t.drop_last().filter(p) }));
        assert(p(t.last()) == (sidecars[n - 1].kzg_commitment@ == c));
    }
}

/// Law: the count that decides [`select_sidecar`] is the number of sidecars
/// in the whole list that carry the commitment, wherever they stand.
pub proof fn law_count_matching_counts_all(sidecars: Seq<BlobSidecarData>, c: Seq<u8>)
    ensures
        count_matching(sidecars, c, sidecars.len()) == sidecars.filter(carries(c)).len(),
{
    lemma_count_matching_filter(sidecars, c, sidecars.len());
    assert(sidecars.take(sidecars.len() as int) =~= sidecars);
}

proof fn lemma_count_matching_single(sidecars: Seq<BlobSidecarData>, c: Seq<u8>, i: int, n: nat)
    requires
        n <= sidecars.len(),
        0 <= i < sidecars.len(),
        sidecars[i].kzg_commitment@ == c,
        forall|j: int| 0 <= j < sidecars.len() && j != i ==> #[trigger] sidecars[j].kzg_commitment@ != c,
    ensures
        count_matching(sidecars, c, n) == if i < n { 1nat } else { 0nat },
    decreases n,
{
    if n > 0 {
        lemma_count_matching_single(sidecars, c, i, (n - 1) as nat);
    }
}

/// Law: when exactly one sidecar of the list, at any index, carries the
/// commitment, [`select_sidecar`] picks that sidecar; when none does, or
/// more than one, it picks none.
pub proof fn law_select_sidecar_unique(sidecars: Seq<BlobSidecarData>, c: Seq<u8>, i: int)
    requires
        0 <= i < sidecars.len(),
        sidecars[i].kzg_commitment@ == c,
        forall|j: int| 0 <= j < sidecars.len() && j != i ==> #[trigger] sidecars[j].kzg_commitment@ != c,
    ensures
        count_matching(sidecars, c, sidecars.len()) == 1,
        forall|k: int| 0 <= k < sidecars.len() && #[trigger] sidecars[k].kzg_commitment@ == c ==> k == i,
{
    lemma_count_matching_single(sidecars, c, i, sidecars.len());
}

/// Law: no sidecar carrying the commitment, or two at different indices,
/// leaves the count away from one, so [`select_sidecar`] picks none.
pub proof fn law_select_sidecar_not_unique(sidecars: Seq<BlobSidecarData>, c: Seq<u8>, i: int, j: int)
    requires
        0 <= i < j < sidecars.len(),
        sidecars[i].kzg_commitment@ == c,
        sidecars[j].kzg_commitment@ == c,
    ensures
        count_matching(sidecars, c, sidecars.len()) >= 2,
{
    lemma_count_matching_at_least(sidecars, c, i, j, sidecars.len());
}

proof fn lemma_count_matching_at_least(sidecars: Seq<BlobSidecarData>, c: Seq<u8>, i: int, j: int, n: nat)
    requires
        n <= sidecars.len(),
        0 <= i < j < sidecars.len(),
        sidecars[i].kzg_commitment@ == c,
        sidecars[j].kzg_commitment@ == c,
    ensures
        count_matching(sidecars, c, n) >= (if i < n { 1nat } else { 0nat }) + (if j < n { 1nat } else { 0nat }),
    decreases n,
{
    if n > 0 {
        lemma_count_matching_at_least(sidecars, c, i, j, (n - 1) as nat);
    }
}

/// Law: no sidecar carries the commitment exactly when the count is zero.
pub proof fn law_count_matching_none(sidecars: Seq<BlobSidecarData>, c: Seq<u8>)
    ensures
        count_matching(sidecars, c, sidecars.len()) == 0
            <==> forall|j: int| 0 <= j < sidecars.len() ==> #[trigger] sidecars[j].kzg_commitment@ != c,
{
    law_count_matching_counts_all(sidecars, c);
    if exists|j: int| 0 <= j < sidecars.len() && #[trigger] sidecars[j].kzg_commitment@ == c {
        let j = choose|j: int| 0 <= j < sidecars.len() && #[trigger] sidecars[j].kzg_commitment@ == c;
        lemma_count_matching_positive(sidecars, c, j, sidecars.len());
    } else {
        lemma_count_matching_zero(sidecars, c, sidecars.len());
    }
}

proof fn lemma_count_matching_positive(sidecars: Seq<BlobSidecarData>, c: Seq<u8>, j: int, n: nat)
    requires
        n <= sidecars.len(),
        0 <= j < n,
        sidecars[j].kzg_commitment@ == c,
    ensures
        count_matching(sidecars, c, n) >= 1,
    decreases n,
{
    if j < n - 1 {
        lemma_count_matching_positive(sidecars, c, j, (n - 1) as nat);
    }
}

proof fn lemma_count_matching_zero(sidecars: Seq<BlobSidecarData>, c: Seq<u8>, n: nat)
    requires
        n <= sidecars.len(),
        forall|j: int| 0 <= j < sidecars.len() ==> #[trigger] sidecars[j].kzg_commitment@ != c,
    ensures
        count_matching(sidecars, c, n) == 0,
    decreases n,
{
    if n > 0 {
        lemma_count_matching_zero(sidecars, c, (n - 1) as nat);
    }
}

} // verus!
