//! SHA-1 digests, computed by the `sha1` crate.

use sha1::{Digest, Sha1};
use vstd::prelude::*;

verus! {

/// The SHA-1 digest of a byte string: 20 bytes that depend on the bytes
/// alone.
pub uninterp spec fn sha1_digest(data: Seq<u8>) -> Seq<u8>;

/// Calls `Sha1::digest` of the `sha1` crate, the one-shot form of its
/// `Digest` trait: a fresh hasher, the whole of `data` fed to it, finalized.
/// Nothing is proved of it; the contract only names its result.
#[verifier::external_body]
pub(crate) fn sha1_of(data: &[u8]) -> (r: [u8; 20])
    ensures
        r@ == sha1_digest(data@),
{
    Sha1::digest(data).into()
}

/// Twenty bytes of `data` from `start` on.
pub fn copy_20(data: &[u8], start: usize) -> (r: [u8; 20])
    requires
        start + 20 <= data.len(),
    ensures
        r@ == data@.subrange(start as int, start + 20),
{
    let mut out = [0u8; 20];
    let mut i: usize = 0;
    while i < 20
        invariant
            i <= 20,
            start + 20 <= data.len(),
            forall|j: int| 0 <= j < i ==> out[j] == data[start + j],
        decreases 20 - i,
    {
        out[i] = data[start + i];
        i = i + 1;
    }
    proof {
        assert(out@ =~= data@.subrange(start as int, start + 20));
    }
    out
}

/// Whether a digest is the one expected.
pub fn digest_matches(digest: &[u8; 20], expected: &[u8; 20]) -> (r: bool)
    ensures
        r == (digest@ == expected@),
{
    let mut i: usize = 0;
    while i < 20
        invariant
            i <= 20,
            forall|j: int| 0 <= j < i ==> digest[j] == expected[j],
        decreases 20 - i,
    {
        if digest[i] != expected[i] {
            return false;
        }
        i = i + 1;
    }
    proof {
        assert(digest@ =~= expected@);
    }
    true
}

} // verus!
