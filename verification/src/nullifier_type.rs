//! Fixed-size nullifier value.
//!
//! A nullifier is a 32-byte identifier derived from a note's commitment and
//! secret. It is pure data: freely copyable, hashable, and compared over all
//! 32 bytes in constant time, since claimed nullifiers may come from
//! untrusted parties.

use vstd::prelude::*;

use crate::crypto;
use crate::error::{SparkError, SparkResult};
use crate::validation::{validate_nullifier, NULLIFIER_LENGTH};

verus! {

/// A 32-byte nullifier value.
///
/// The fixed-size representation makes it cheap to store and compare, and it
/// rules out wrong-sized data by construction.
#[derive(Debug, Clone, Copy, Hash)]
pub struct Nullifier {
    bytes: [u8; 32],
}

impl View for Nullifier {
    type V = Seq<u8>;

    closed spec fn view(&self) -> Seq<u8> {
        self.bytes@
    }
}

/// Every nullifier's view is exactly 32 bytes.
pub broadcast proof fn lemma_nullifier_len(n: Nullifier)
    ensures
        (#[trigger] n@).len() == 32,
{
}

impl Nullifier {
    /// Create a new nullifier from a 32-byte array.
    pub fn new(bytes: [u8; 32]) -> (r: Self)
        ensures
            r@ == bytes@,
    {
        Nullifier { bytes }
    }

    /// Get the nullifier as a byte slice.
    pub fn as_bytes(&self) -> (r: &[u8])
        ensures
            r@ == self@,
    {
        self.bytes.as_slice()
    }

    /// Create a nullifier from a byte slice.
    ///
    /// Succeeds exactly when the slice is 32 bytes long; other lengths are
    /// rejected with the same errors as `validate_nullifier`.
    pub fn from_slice(slice: &[u8]) -> (r: SparkResult<Self>)
        ensures
            r is Ok <==> slice@.len() == NULLIFIER_LENGTH,
            r matches Ok(n) ==> n@ == slice@,
            r matches Err(e) ==> call_ensures(validate_nullifier, (slice,), Err(e)),
    {
        match validate_nullifier(slice) {
            Err(e) => Err(e),
            Ok(()) => {
                let mut arr: [u8; 32] = [0u8; 32];
                let mut i: usize = 0;
                while i < 32
                    invariant
                        slice@.len() == 32,
                        i <= 32,
                        forall|j: int| 0 <= j < i ==> arr@[j] == slice@[j],
                    decreases 32 - i,
                {
                    arr[i] = slice[i];
                    i = i + 1;
                }
                proof {
                    assert(arr@ =~= slice@);
                }
                Ok(Nullifier { bytes: arr })
            },
        }
    }

    /// Convert to a `Vec<u8>`.
    pub fn to_vec(self) -> (r: Vec<u8>)
        ensures
            r@ == self@,
    {
        crypto::clone_bytes(self.bytes.as_slice())
    }
}

impl From<[u8; 32]> for Nullifier {
    fn from(bytes: [u8; 32]) -> (r: Self)
        ensures
            r@ == bytes@,
    {
        Nullifier { bytes }
    }
}

impl vstd::std_specs::convert::FromSpecImpl<[u8; 32]> for Nullifier {
    closed spec fn obeys_from_spec() -> bool {
        true
    }

    closed spec fn from_spec(bytes: [u8; 32]) -> Nullifier {
        Nullifier { bytes }
    }
}

impl PartialEq for Nullifier {
    /// Nullifiers compare over the full 32 bytes, in constant time.
    fn eq(&self, other: &Self) -> (r: bool) {
        crypto::constant_time_eq_array(&self.bytes, &other.bytes)
    }
}

impl Eq for Nullifier {

}

impl vstd::std_specs::cmp::PartialEqSpecImpl for Nullifier {
    open spec fn obeys_eq_spec() -> bool {
        true
    }

    open spec fn eq_spec(&self, other: &Nullifier) -> bool {
        self@ == other@
    }
}

} // verus!
