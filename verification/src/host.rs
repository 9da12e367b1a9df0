//! Host-side cross-checks on an engine-produced commitment.
//!
//! Before a proving run's artifact is trusted or persisted, the host checks
//! the commitment the engine declared against its own expectation: the full
//! digest must equal the digest the host computed independently over the
//! exact text it sent, and the echoed indices must designate the same index
//! set the host requested. A commitment that fails either check is
//! discarded; the checks decide, the surrounding I/O performs.

use vstd::prelude::*;
use crate::digest::{Digest, sha256_of, text_digest};
use crate::redact::{Commitment, index_requested};

verus! {

/// Why a commitment was rejected by the host's cross-checks.
#[derive(Clone, Copy, Debug, PartialEq, Eq)]
pub enum ConsistencyError {
    /// The engine's full-document digest differs from the digest the host
    /// computed over the text it sent.
    FullDigestMismatch,
    /// The engine's echoed indices designate a different index set than the
    /// host requested.
    IndicesMismatch,
}

/// Whether two index lists designate the same set of indices.
pub open spec fn same_index_set(a: Seq<usize>, b: Seq<usize>) -> bool {
    forall|v: int| index_requested(a, v) <==> index_requested(b, v)
}

/// Whether every entry of `a` occurs in `b`.
fn all_contained(a: &Vec<usize>, b: &Vec<usize>) -> (r: bool)
    ensures
        r == forall|k: int| 0 <= k < a@.len() ==> index_requested(b@, a@[k] as int),
{
    let mut i: usize = 0;
    while i < a.len()
        invariant
            i <= a@.len(),
            forall|k: int| 0 <= k < i ==> index_requested(b@, a@[k] as int),
        decreases a@.len() - i,
    {
        if !crate::redact::contains_index(b, a[i]) {
            return false;
        }
        i += 1;
    }
    true
}

/// Whether `a` and `b` designate the same index set.
pub fn same_indices(a: &Vec<usize>, b: &Vec<usize>) -> (r: bool)
    ensures
        r == same_index_set(a@, b@),
{
    let fwd = all_contained(a, b);
    let bwd = all_contained(b, a);
    proof {
        if fwd && bwd {
            assert forall|v: int| index_requested(a@, v) implies index_requested(b@, v) by {
                let j = choose|j: int| 0 <= j < a@.len() && a@[j] as int == v;
                assert(index_requested(b@, a@[j] as int));
            }
            assert forall|v: int| index_requested(b@, v) implies index_requested(a@, v) by {
                let j = choose|j: int| 0 <= j < b@.len() && b@[j] as int == v;
                assert(index_requested(a@, b@[j] as int));
            }
        }
        if !fwd {
            let k = choose|k: int|
                0 <= k < a@.len() && !index_requested(b@, a@[k] as int);
            assert(index_requested(a@, a@[k] as int));
        }
        if !bwd {
            let k = choose|k: int|
                0 <= k < b@.len() && !index_requested(a@, b@[k] as int);
            assert(index_requested(b@, b@[k] as int));
        }
    }
    fwd && bwd
}

/// The host's cross-check of an engine commitment against the digest it
/// computed itself and the indices it requested. The full digest is checked
/// first; a commitment passes exactly when both agree.
pub fn check_commitment(local_full: &Digest, requested: &Vec<usize>, c: &Commitment) -> (r: Result<
    (),
    ConsistencyError,
>)
    ensures
        r is Ok <==> (c.full@ == local_full@ && same_index_set(c.indices@, requested@)),
        r == Err::<(), ConsistencyError>(ConsistencyError::FullDigestMismatch) <==> c.full@
            != local_full@,
        r == Err::<(), ConsistencyError>(ConsistencyError::IndicesMismatch) <==> (c.full@
            == local_full@ && !same_index_set(c.indices@, requested@)),
{
    if !c.full.equals(local_full) {
        return Err(ConsistencyError::FullDigestMismatch);
    }
    if !same_indices(&c.indices, requested) {
        return Err(ConsistencyError::IndicesMismatch);
    }
    Ok(())
}

/// The whole host-side acceptance decision for one proving run: compute the
/// local digest of the exact text that was sent, then cross-check the
/// engine's commitment against it and against the requested indices.
pub fn host_cross_check(content: &str, requested: &Vec<usize>, c: &Commitment) -> (r: Result<
    (),
    ConsistencyError,
>)
    ensures
        r is Ok <==> (c.full@ == sha256_of(content@) && same_index_set(c.indices@, requested@)),
        r == Err::<(), ConsistencyError>(ConsistencyError::FullDigestMismatch) <==> c.full@
            != sha256_of(content@),
        r == Err::<(), ConsistencyError>(ConsistencyError::IndicesMismatch) <==> (c.full@
            == sha256_of(content@) && !same_index_set(c.indices@, requested@)),
{
    let local_full = text_digest(content);
    check_commitment(&local_full, requested, c)
}

} // verus!
