//! Checking a completed piece against the catalog.

use vstd::prelude::*;
use crate::claims::{complete, Claim};

verus! {

/// What became of a completed piece.
#[derive(Debug, Clone, Copy, PartialEq, Eq, Structural)]
pub enum PieceOutcome {
    /// The hash matched and the piece was not complete before.
    Verified,
    /// The hash matched, but the piece had been completed already.
    AlreadyComplete,
    /// The hash did not match the catalog's.
    Mismatch,
    /// The catalog has no piece of that index.
    UnknownPiece,
}

/// The SHA-1 digest of `data`, as `sha1::Sha1` computes it.
pub uninterp spec fn sha1_digest(data: Seq<u8>) -> Seq<u8>;

/// Feeds `data` to `sha1::Sha1::from` and returns the bytes of its
/// `digest()`. The result is the named value `sha1_digest` of the data;
/// nothing else is claimed of it.
#[verifier::external_body]
pub(crate) fn sha1_of(data: &Vec<u8>) -> (r: Vec<u8>)
    ensures
        r@ == sha1_digest(data@),
{
    sha1::Sha1::from(data).digest().bytes().to_vec()
}

/// The outcome for a piece `index` whose content hashes to `digest`.
pub open spec fn judge(hashes: Seq<Seq<u8>>, table: Seq<Claim>, index: int, digest: Seq<u8>) -> PieceOutcome {
    if !(0 <= index < table.len() && index < hashes.len()) {
        PieceOutcome::UnknownPiece
    } else if digest != hashes[index] {
        PieceOutcome::Mismatch
    } else if table[index] is Complete {
        PieceOutcome::AlreadyComplete
    } else {
        PieceOutcome::Verified
    }
}

/// The table after an outcome: only a verified piece changes it.
pub open spec fn after_piece(table: Seq<Claim>, index: int, outcome: PieceOutcome) -> Seq<Claim> {
    if outcome is Verified {
        complete(table, index)
    } else {
        table
    }
}

/// A piece is verified at most once: the outcome is `Verified` only where
/// the digest is the catalog's hash for a piece not yet complete; the piece
/// is complete afterwards, and the same content judged again is no longer
/// `Verified`. A digest that differs from the catalog's is never verified,
/// and leaves the table as it was.
pub proof fn lemma_verified_once(hashes: Seq<Seq<u8>>, table: Seq<Claim>, index: int, digest: Seq<u8>)
    ensures
        ({
            let outcome = judge(hashes, table, index, digest);
            let after = after_piece(table, index, outcome);
            &&& after.len() == table.len()
            &&& outcome is Verified <==> 0 <= index < table.len() && index < hashes.len() && digest
                == hashes[index] && !(table[index] is Complete)
            &&& outcome is Verified ==> after[index] is Complete
            &&& !(judge(hashes, after, index, digest) is Verified)
            &&& !(outcome is Verified) ==> after == table
            &&& forall|j: int| 0 <= j < table.len() && j != index ==> after[j] == table[j]
        }),
{
}

/// Whether two byte strings are equal.
pub fn bytes_equal(a: &Vec<u8>, b: &Vec<u8>) -> (r: bool)
    ensures
        r == (a@ == b@),
{
    if a.len() != b.len() {
        return false;
    }
    let mut i: usize = 0;
    while i < a.len()
        invariant
            i <= a@.len(),
            a@.len() == b@.len(),
            forall|j: int| 0 <= j < i ==> a@[j] == b@[j],
        decreases a@.len() - i,
    {
        if a[i] != b[i] {
            return false;
        }
        i += 1;
    }
    proof {
        assert(a@ =~= b@);
    }
    true
}

} // verus!
