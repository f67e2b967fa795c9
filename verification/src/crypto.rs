//! Cryptographic primitives and byte utilities.
//!
//! The two digest functions of the scheme live behind trusted wrappers here:
//! their outputs are named by uninterpreted spec functions, since no short
//! statement can pin down a cryptographic hash. Constant-time comparison is
//! delegated to a dedicated constant-time library so that comparing
//! attacker-influenced byte strings does not leak where they first differ.

use sha2::Digest;
use vstd::prelude::*;

verus! {

/// The SHA-256 digest of a byte string, named so contracts can speak of it.
/// The digest depends on the input bytes alone.
pub uninterp spec fn sha256_of(data: Seq<u8>) -> Seq<u8>;

/// The BLAKE3 digest of a byte string, named so contracts can speak of it.
/// The digest depends on the input bytes alone.
pub uninterp spec fn blake3_of(data: Seq<u8>) -> Seq<u8>;

/// Relies on sha2::Sha256: a pure function of the input bytes with a 32-byte
/// digest (the crate computes the FIPS 180-4 SHA-256 function).
#[verifier::external_body]
pub(crate) fn sha256(data: &[u8]) -> (r: Vec<u8>)
    ensures
        r@ == sha256_of(data@),
        r@.len() == 32,
{
    sha2::Sha256::digest(data).to_vec()
}

/// Relies on blake3::hash: a pure function of the input bytes with a 32-byte
/// digest (the default BLAKE3 hash mode).
#[verifier::external_body]
pub(crate) fn blake3_hash32(data: &[u8]) -> (r: [u8; 32])
    ensures
        r@ == blake3_of(data@),
        r@.len() == 32,
{
    *blake3::hash(data).as_bytes()
}

/// Relies on subtle::ConstantTimeEq for byte slices: slices of different
/// lengths compare unequal; equal-length slices compare bytewise, in time
/// independent of their contents.
#[verifier::external_body]
fn ct_eq_slices(a: &[u8], b: &[u8]) -> (r: bool)
    ensures
        r == (a@ == b@),
{
    bool::from(subtle::ConstantTimeEq::ct_eq(a, b))
}

/// Constant-time comparison of two byte slices.
///
/// Returns true if slices are equal, false otherwise. Execution time does not
/// depend on slice contents, preventing timing attacks.
pub fn constant_time_eq(a: &[u8], b: &[u8]) -> (r: bool)
    ensures
        r == (a@ == b@),
{
    if a.len() != b.len() {
        return false;
    }
    ct_eq_slices(a, b)
}

/// Constant-time comparison for fixed-size arrays.
pub fn constant_time_eq_array<const N: usize>(a: &[u8; N], b: &[u8; N]) -> (r: bool)
    ensures
        r == (a@ == b@),
{
    ct_eq_slices(a.as_slice(), b.as_slice())
}

/// Ordinary (non-constant-time) byte-slice equality, for internal data that
/// is not attacker-influenced.
pub(crate) fn bytes_eq(a: &[u8], b: &[u8]) -> (r: bool)
    ensures
        r == (a@ == b@),
{
    if a.len() != b.len() {
        return false;
    }
    let n = a.len();
    let mut i: usize = 0;
    while i < n
        invariant
            n == a@.len() == b@.len(),
            i <= n,
            forall|j: int| 0 <= j < i ==> a@[j] == b@[j],
        decreases n - i,
    {
        if a[i] != b[i] {
            return false;
        }
        i = i + 1;
    }
    proof {
        assert(a@ =~= b@);
    }
    true
}

/// Copy a byte slice into a fresh vector.
pub(crate) fn clone_bytes(src: &[u8]) -> (r: Vec<u8>)
    ensures
        r@ == src@,
{
    let mut out: Vec<u8> = Vec::new();
    let n = src.len();
    let mut i: usize = 0;
    while i < n
        invariant
            n == src@.len(),
            i <= n,
            out@ == src@.take(i as int),
        decreases n - i,
    {
        out.push(src[i]);
        proof {
            assert(src@.take(i + 1 as int) =~= src@.take(i as int).push(src@[i as int]));
        }
        i = i + 1;
    }
    proof {
        assert(src@.take(n as int) =~= src@);
    }
    out
}

/// Append a byte slice to the end of a vector.
pub(crate) fn append_bytes(dst: &mut Vec<u8>, src: &[u8])
    ensures
        final(dst)@ == old(dst)@ + src@,
{
    let n = src.len();
    let mut i: usize = 0;
    while i < n
        invariant
            n == src@.len(),
            i <= n,
            dst@ == old(dst)@ + src@.take(i as int),
        decreases n - i,
    {
        dst.push(src[i]);
        proof {
            assert(old(dst)@ + src@.take(i + 1 as int) =~= (old(dst)@ + src@.take(i as int)).push(
                src@[i as int],
            ));
        }
        i = i + 1;
    }
    proof {
        assert(old(dst)@ + src@.take(n as int) =~= old(dst)@ + src@);
    }
}

} // verus!
