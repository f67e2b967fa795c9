//! Secret value type with explicit zeroization.
//!
//! A `Secret` owns sensitive bytes exclusively and erases them when it is
//! dropped; [`Secret::zeroize`] erases them earlier on demand. The type
//! deliberately has no serialization support and no `Debug` output, so the
//! raw bytes cannot leak through generic formatting or encoding paths.

use vstd::prelude::*;

use crate::crypto;

verus! {

/// A secret byte string, owned exclusively by its holder.
pub struct Secret {
    bytes: Vec<u8>,
}

impl View for Secret {
    type V = Seq<u8>;

    closed spec fn view(&self) -> Seq<u8> {
        self.bytes@
    }
}

/// Relies on zeroize::Zeroize for Vec<u8>: overwrites the vector's contents
/// and spare capacity with zeros, then clears it to length zero, without
/// panicking.
#[verifier::external_body]
fn zeroize_bytes(bytes: &mut Vec<u8>)
    ensures
        final(bytes)@.len() == 0,
    opens_invariants none
    no_unwind
{
    zeroize::Zeroize::zeroize(bytes);
}

impl Secret {
    /// Create a new secret from bytes.
    pub fn new(data: Vec<u8>) -> (s: Self)
        ensures
            s@ == data@,
    {
        Secret { bytes: data }
    }

    /// Get a reference to the secret bytes.
    pub fn as_bytes(&self) -> (r: &[u8])
        ensures
            r@ == self@,
    {
        self.bytes.as_slice()
    }

    /// Get the length of the secret.
    pub fn len(&self) -> (r: usize)
        ensures
            r == self@.len(),
    {
        self.bytes.len()
    }

    /// Check if the secret is empty.
    pub fn is_empty(&self) -> (r: bool)
        ensures
            r == (self@.len() == 0),
    {
        self.bytes.len() == 0
    }

    /// Consume the secret and return a copy of the inner bytes.
    ///
    /// This exposes the secret; the caller takes over responsibility for
    /// erasing the returned buffer. The copy is needed because the secret
    /// zeroizes itself on drop.
    pub fn into_inner(self) -> (r: Vec<u8>)
        ensures
            r@ == self@,
    {
        crypto::clone_bytes(self.bytes.as_slice())
    }

    /// Overwrite the secret's bytes with zeros and release them.
    ///
    /// After this call the secret is empty. Call this on every exit path
    /// once the secret is no longer needed.
    pub fn zeroize(&mut self)
        ensures
            final(self)@.len() == 0,
    {
        zeroize_bytes(&mut self.bytes);
    }
}

impl Drop for Secret {
    /// Secrets erase their bytes when their last owner lets go of them.
    fn drop(&mut self)
        opens_invariants none
        no_unwind
    {
        zeroize_bytes(&mut self.bytes);
    }
}

impl Clone for Secret {
    /// Clones preserve the secret's bytes; each copy must be zeroized
    /// independently.
    fn clone(&self) -> (r: Self)
        ensures
            r@ == self@,
    {
        Secret { bytes: crypto::clone_bytes(self.bytes.as_slice()) }
    }
}

impl From<Vec<u8>> for Secret {
    fn from(data: Vec<u8>) -> (r: Self)
        ensures
            r@ == data@,
    {
        Secret { bytes: data }
    }
}

impl vstd::std_specs::convert::FromSpecImpl<Vec<u8>> for Secret {
    closed spec fn obeys_from_spec() -> bool {
        true
    }

    closed spec fn from_spec(data: Vec<u8>) -> Secret {
        Secret { bytes: data }
    }
}

impl PartialEq for Secret {
    /// Secrets compare in constant time: equality of attacker-influenced
    /// sensitive bytes must not leak where they first differ.
    fn eq(&self, other: &Self) -> (r: bool) {
        crypto::constant_time_eq(self.bytes.as_slice(), other.bytes.as_slice())
    }
}

impl Eq for Secret {

}

impl vstd::std_specs::cmp::PartialEqSpecImpl for Secret {
    open spec fn obeys_eq_spec() -> bool {
        true
    }

    open spec fn eq_spec(&self, other: &Secret) -> bool {
        self@ == other@
    }
}

} // verus!
