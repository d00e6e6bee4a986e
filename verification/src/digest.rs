//! SHA-1 addressing.

use vstd::prelude::*;

verus! {

/// The SHA-1 digest of `data`, as the `sha1` crate computes it.
pub uninterp spec fn sha1_digest(data: Seq<u8>) -> Seq<u8>;

/// Calls `sha1::Sha1::digest` (the `Digest` trait's one-shot entry point).
///
/// Trusted: the 20 bytes returned are `sha1_digest` of the input; nothing
/// else is claimed about them.
#[verifier::external_body]
pub(crate) fn sha1(data: &[u8]) -> (out: [u8; 20])
    ensures
        out@ == sha1_digest(data@),
{
    <sha1::Sha1 as sha1::Digest>::digest(data).into()
}

} // verus!
