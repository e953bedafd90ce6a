//! The ledger host's hash primitive. Identifier derivation and the
//! location-based scores hash byte strings with SHA-256; the digest is
//! named here and everything computed from it is verified downstream.
use vstd::prelude::*;

verus! {

/// The SHA-256 digest of a byte string: a pure function of the input,
/// 32 bytes long. Nothing else is assumed of its value.
pub uninterp spec fn sha256_of(input: Seq<u8>) -> Seq<u8>;

/// Relies on sha2::Sha256, the SHA-256 of FIPS 180-4: the digest
/// depends on the input bytes alone and is exactly 32 bytes long.
#[verifier::external_body]
pub(crate) fn sha256(input: &Vec<u8>) -> (r: Vec<u8>)
    ensures
        r@ == sha256_of(input@),
        r@.len() == 32,
{
    <sha2::Sha256 as sha2::Digest>::digest(input.as_slice()).to_vec()
}

/// The first eight digest bytes, the short identifier form used for
/// applications, proposals and distributions.
pub(crate) fn first_eight(d: &Vec<u8>) -> (r: Vec<u8>)
    requires
        d@.len() >= 8,
    ensures
        r@ == d@.subrange(0, 8),
{
    let mut r: Vec<u8> = Vec::new();
    let mut i: usize = 0;
    while i < 8
        invariant
            0 <= i <= 8,
            d@.len() >= 8,
            r@ == d@.subrange(0, i as int),
        decreases 8 - i,
    {
        r.push(d[i]);
        proof {
            assert(r@ =~= d@.subrange(0, i + 1));
        }
        i = i + 1;
    }
    r
}

} // verus!
