//! Note structure and commitment derivation.
//!
//! A note binds a nonzero value to a secret through a domain-separated,
//! length-prefixed SHA-256 commitment. The commitment is fixed at
//! construction and immutable thereafter; the secret is private to the note.

use vstd::prelude::*;

use crate::crypto;
use crate::crypto::sha256_of;
use crate::error::{is_invalid_secret, is_invalid_value, SecretErrorCode, SparkError, SparkResult, ValueErrorCode};
use crate::secret::Secret;
use crate::validation::{
    secret_valid, validate_secret, validate_value, value_valid, MAX_SECRET_LENGTH,
    MIN_SECRET_LENGTH,
};

verus! {

/// The fixed ASCII domain-separation tag fed to the commitment hash, unique
/// to this scheme and version: the bytes of `SPARK_COMMITMENT_V1`.
pub open spec fn domain_tag() -> Seq<u8> {
    seq![
        0x53u8, 0x50u8, 0x41u8, 0x52u8, 0x4bu8, 0x5fu8, 0x43u8, 0x4fu8, 0x4du8, 0x4du8, 0x49u8,
        0x54u8, 0x4du8, 0x45u8, 0x4eu8, 0x54u8, 0x5fu8, 0x56u8, 0x31u8,
    ]
}

/// A 64-bit integer encoded as 8 bytes, big-endian.
pub open spec fn u64_be_bytes(v: u64) -> Seq<u8> {
    seq![
        (v >> 56) as u8, (v >> 48) as u8, (v >> 40) as u8, (v >> 32) as u8, (v >> 24) as u8, (v
            >> 16) as u8, (v >> 8) as u8, v as u8,
    ]
}

/// The exact byte string fed to the commitment hash: domain tag, then the
/// value (8 bytes big-endian), then the secret's length (8 bytes big-endian),
/// then the raw secret bytes. The length prefix before the variable-length
/// secret prevents ambiguity between fields of different sizes.
pub open spec fn commit_preimage(value: u64, secret: Seq<u8>) -> Seq<u8> {
    domain_tag() + u64_be_bytes(value) + u64_be_bytes(secret.len() as u64) + secret
}

/// The commitment to a (value, secret) pair: a function of its two inputs
/// alone, so equal inputs always give equal commitments.
pub open spec fn commitment_of(value: u64, secret: Seq<u8>) -> Seq<u8> {
    sha256_of(commit_preimage(value, secret))
}

/// A note representing a value commitment.
///
/// The public projection of a note is (value, commitment); the secret never
/// leaves the note except through the explicit `secret_bytes`/`secret`
/// accessors.
pub struct SparkNote {
    /// The value contained in this note
    pub value: u64,
    /// The commitment hash (domain-separated SHA-256)
    pub commitment: Vec<u8>,
    /// The secret used to generate the commitment. The field is readable so
    /// that contracts can speak of it; `Secret` itself keeps its bytes out of
    /// every serialized or formatted representation.
    pub secret: Secret,
}

impl SparkNote {
    /// A well-formed note has a valid nonzero value, a valid secret, and the
    /// commitment derived from them.
    pub open spec fn wf(self) -> bool {
        &&& value_valid(self.value)
        &&& secret_valid(self.secret@)
        &&& self.commitment@ == commitment_of(self.value, self.secret@)
        &&& self.commitment@.len() == 32
    }

    /// Creates a new note with the given value and secret.
    ///
    /// Succeeds exactly when the value is nonzero and the secret length is
    /// within bounds; on success the commitment is the domain-separated
    /// SHA-256 of the encoded inputs.
    pub fn new(value: u64, secret: Secret) -> (r: SparkResult<Self>)
        ensures
            r is Ok <==> value_valid(value) && secret_valid(secret@),
            r matches Ok(n) ==> n.wf() && n.value == value && n.secret@ == secret@,
            !value_valid(value) ==> (r matches Err(e) && is_invalid_value(e, ValueErrorCode::Zero)),
            value_valid(value) && secret@.len() == 0 ==> (r matches Err(e) && is_invalid_secret(
                e,
                SecretErrorCode::Empty,
            )),
            value_valid(value) && 0 < secret@.len() < MIN_SECRET_LENGTH ==> (r matches Err(e)
                && is_invalid_secret(e, SecretErrorCode::TooShort)),
            value_valid(value) && secret@.len() > MAX_SECRET_LENGTH ==> (r matches Err(e)
                && is_invalid_secret(e, SecretErrorCode::TooLong)),
    {
        match validate_value(value) {
            Err(e) => return Err(e),
            Ok(()) => {},
        }
        match validate_secret(secret.as_bytes()) {
            Err(e) => return Err(e),
            Ok(()) => {},
        }
        let commitment = compute_commitment(value, secret.as_bytes());
        Ok(SparkNote { value, commitment, secret })
    }

    /// Get a reference to the secret bytes.
    ///
    /// This exposes the secret. Use only when necessary.
    pub fn secret_bytes(&self) -> (r: &[u8])
        ensures
            r@ == self.secret@,
    {
        self.secret.as_bytes()
    }

    /// Get a reference to the secret.
    pub fn secret(&self) -> (r: &Secret)
        ensures
            r@ == self.secret@,
    {
        &self.secret
    }
}

impl Clone for SparkNote {
    /// Clones preserve the note's value, commitment, and secret.
    fn clone(&self) -> (r: Self)
        ensures
            r.value == self.value,
            r.commitment@ == self.commitment@,
            r.secret@ == self.secret@,
    {
        SparkNote {
            value: self.value,
            commitment: crypto::clone_bytes(self.commitment.as_slice()),
            secret: self.secret.clone(),
        }
    }
}

impl PartialEq for SparkNote {
    /// Note equality is structural: value, commitment, and secret bytes all
    /// equal.
    fn eq(&self, other: &Self) -> (r: bool) {
        self.value == other.value && crypto::bytes_eq(
            self.commitment.as_slice(),
            other.commitment.as_slice(),
        ) && self.secret == other.secret
    }
}

impl Eq for SparkNote {

}

impl vstd::std_specs::cmp::PartialEqSpecImpl for SparkNote {
    open spec fn obeys_eq_spec() -> bool {
        true
    }

    open spec fn eq_spec(&self, other: &SparkNote) -> bool {
        self.value == other.value && self.commitment@ == other.commitment@ && self.secret@ == other.secret@
    }
}

/// Creates a new note (convenience function); see `SparkNote::new`.
pub fn create_note(value: u64, secret: Secret) -> (r: SparkResult<SparkNote>)
    ensures
        r is Ok <==> value_valid(value) && secret_valid(secret@),
        r matches Ok(n) ==> n.wf() && n.value == value && n.secret@ == secret@,
        !value_valid(value) ==> (r matches Err(e) && is_invalid_value(e, ValueErrorCode::Zero)),
        value_valid(value) && secret@.len() == 0 ==> (r matches Err(e) && is_invalid_secret(
            e,
            SecretErrorCode::Empty,
        )),
        value_valid(value) && 0 < secret@.len() < MIN_SECRET_LENGTH ==> (r matches Err(e)
            && is_invalid_secret(e, SecretErrorCode::TooShort)),
        value_valid(value) && secret@.len() > MAX_SECRET_LENGTH ==> (r matches Err(e)
            && is_invalid_secret(e, SecretErrorCode::TooLong)),
{
    SparkNote::new(value, secret)
}

/// Returns a copy of the note's commitment hash.
pub fn note_commitment(note: &SparkNote) -> (r: Vec<u8>)
    ensures
        r@ == note.commitment@,
{
    crypto::clone_bytes(note.commitment.as_slice())
}

/// Compute a commitment to a value and secret: the domain-separated SHA-256
/// of the tag, the big-endian value, the big-endian secret length, and the
/// secret itself.
fn compute_commitment(value: u64, secret: &[u8]) -> (r: Vec<u8>)
    ensures
        r@ == commitment_of(value, secret@),
        r@.len() == 32,
{
    let mut preimage: Vec<u8> = Vec::new();
    push_domain_tag(&mut preimage);
    push_u64_be(&mut preimage, value);
    push_u64_be(&mut preimage, secret.len() as u64);
    crypto::append_bytes(&mut preimage, secret);
    assert(preimage@ == commit_preimage(value, secret@));
    crypto::sha256(preimage.as_slice())
}

/// Append the domain-separation tag.
fn push_domain_tag(out: &mut Vec<u8>)
    ensures
        final(out)@ == old(out)@ + domain_tag(),
{
    out.push(0x53u8);
    out.push(0x50u8);
    out.push(0x41u8);
    out.push(0x52u8);
    out.push(0x4bu8);
    out.push(0x5fu8);
    out.push(0x43u8);
    out.push(0x4fu8);
    out.push(0x4du8);
    out.push(0x4du8);
    out.push(0x49u8);
    out.push(0x54u8);
    out.push(0x4du8);
    out.push(0x45u8);
    out.push(0x4eu8);
    out.push(0x54u8);
    out.push(0x5fu8);
    out.push(0x56u8);
    out.push(0x31u8);
    proof {
        assert(out@ =~= old(out)@ + domain_tag());
    }
}

/// Big-endian encoding is injective: equal encodings mean equal values.
proof fn lemma_u64_be_injective(v1: u64, v2: u64)
    requires
        u64_be_bytes(v1) == u64_be_bytes(v2),
    ensures
        v1 == v2,
{
    assert(u64_be_bytes(v1)[0] == u64_be_bytes(v2)[0]);
    assert(u64_be_bytes(v1)[1] == u64_be_bytes(v2)[1]);
    assert(u64_be_bytes(v1)[2] == u64_be_bytes(v2)[2]);
    assert(u64_be_bytes(v1)[3] == u64_be_bytes(v2)[3]);
    assert(u64_be_bytes(v1)[4] == u64_be_bytes(v2)[4]);
    assert(u64_be_bytes(v1)[5] == u64_be_bytes(v2)[5]);
    assert(u64_be_bytes(v1)[6] == u64_be_bytes(v2)[6]);
    assert(u64_be_bytes(v1)[7] == u64_be_bytes(v2)[7]);
    assert(v1 == v2) by (bit_vector)
        requires
            (v1 >> 56) as u8 == (v2 >> 56) as u8,
            (v1 >> 48) as u8 == (v2 >> 48) as u8,
            (v1 >> 40) as u8 == (v2 >> 40) as u8,
            (v1 >> 32) as u8 == (v2 >> 32) as u8,
            (v1 >> 24) as u8 == (v2 >> 24) as u8,
            (v1 >> 16) as u8 == (v2 >> 16) as u8,
            (v1 >> 8) as u8 == (v2 >> 8) as u8,
            v1 as u8 == v2 as u8,
    ;
}

/// Determinism: the commitment is a function of the value and secret alone;
/// two derivations from equal inputs are equal.
pub proof fn lemma_commitment_deterministic(v1: u64, s1: Seq<u8>, v2: u64, s2: Seq<u8>)
    requires
        v1 == v2,
        s1 == s2,
    ensures
        commitment_of(v1, s1) == commitment_of(v2, s2),
{
}

/// Value-binding at the hash input: distinct values feed distinct byte
/// strings to the commitment hash, whatever the secrets are. That the
/// digests themselves then differ rests on SHA-256's collision resistance,
/// which is beyond what can be proved here.
pub proof fn lemma_commit_preimage_value_binding(v1: u64, v2: u64, s1: Seq<u8>, s2: Seq<u8>)
    requires
        v1 != v2,
    ensures
        commit_preimage(v1, s1) != commit_preimage(v2, s2),
{
    let p1 = commit_preimage(v1, s1);
    let p2 = commit_preimage(v2, s2);
    if p1 == p2 {
        assert forall|i: int| 0 <= i < 8 implies u64_be_bytes(v1)[i] == u64_be_bytes(v2)[i] by {
            assert(p1[19 + i] == u64_be_bytes(v1)[i]);
            assert(p2[19 + i] == u64_be_bytes(v2)[i]);
        }
        assert(u64_be_bytes(v1) =~= u64_be_bytes(v2));
        lemma_u64_be_injective(v1, v2);
    }
}

/// Secret-hiding at the hash input: with the same value, distinct secrets
/// feed distinct byte strings to the commitment hash (the length prefix
/// keeps secrets of different lengths apart). That the digests themselves
/// then differ rests on SHA-256's collision resistance, which is beyond what
/// can be proved here.
pub proof fn lemma_commit_preimage_secret_binding(v: u64, s1: Seq<u8>, s2: Seq<u8>)
    requires
        s1 != s2,
    ensures
        commit_preimage(v, s1) != commit_preimage(v, s2),
{
    let p1 = commit_preimage(v, s1);
    let p2 = commit_preimage(v, s2);
    if s1.len() != s2.len() {
        assert(p1.len() != p2.len());
    } else {
        if forall|i: int| 0 <= i < s1.len() ==> s1[i] == s2[i] {
            assert(s1 =~= s2);
        }
        let i = choose|i: int| 0 <= i < s1.len() && s1[i] != s2[i];
        assert(p1[35 + i] == s1[i]);
        assert(p2[35 + i] == s2[i]);
    }
}

/// Append a 64-bit integer as 8 bytes, big-endian.
fn push_u64_be(out: &mut Vec<u8>, v: u64)
    ensures
        final(out)@ == old(out)@ + u64_be_bytes(v),
{
    out.push(#[verifier::truncate] ((v >> 56) as u8));
    out.push(#[verifier::truncate] ((v >> 48) as u8));
    out.push(#[verifier::truncate] ((v >> 40) as u8));
    out.push(#[verifier::truncate] ((v >> 32) as u8));
    out.push(#[verifier::truncate] ((v >> 24) as u8));
    out.push(#[verifier::truncate] ((v >> 16) as u8));
    out.push(#[verifier::truncate] ((v >> 8) as u8));
    out.push(#[verifier::truncate] (v as u8));
    proof {
        assert(out@ =~= old(out)@ + u64_be_bytes(v));
    }
}

} // verus!
