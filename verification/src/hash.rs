//! Piece integrity: the SHA-1 digest a downloaded piece is checked against.
//!
//! The digest itself is computed by the `sha1` crate; this module gives its
//! result a name that contracts can speak about.

use vstd::prelude::*;

verus! {

/// The 20-byte SHA-1 digest of a byte sequence.  The algorithm is not
/// restated here; the name stands for whatever `sha1` computes, which
/// depends on the input bytes alone.
pub uninterp spec fn spec_sha1(bytes: Seq<u8>) -> Seq<u8>;

/// Relies on `sha1::Sha1::digest` (through the `digest::Digest` trait): it
/// returns the 20-byte SHA-1 digest of the input, a function of the input
/// bytes alone.
#[verifier::external_body]
pub(crate) fn sha1_digest(bytes: &Vec<u8>) -> (r: Vec<u8>)
    ensures
        r@ == spec_sha1(bytes@),
        r@.len() == 20,
{
    <sha1::Sha1 as sha1::Digest>::digest(bytes.as_slice()).to_vec()
}

} // verus!
