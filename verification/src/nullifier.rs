//! Nullifier generation and spent tracking.
//!
//! A nullifier is the BLAKE3 digest of a note's commitment followed by the
//! spending secret: a second, algorithmically independent one-way hash, so
//! that observing commitments alone never lets anyone precompute spend
//! tokens. The [`NullifierSet`] records spent nullifiers and enforces
//! at-most-once spending; batch marking is all-or-nothing.

use vstd::prelude::*;

use crate::crypto;
use crate::crypto::blake3_of;
use crate::error::{is_nullifier_error, NullifierErrorCode, SparkError, SparkResult};
use crate::note::SparkNote;
use crate::secret::Secret;
pub use crate::nullifier_type::Nullifier;

verus! {

/// The nullifier derived from a commitment and a secret: the BLAKE3 digest
/// of the commitment bytes followed by the raw secret bytes. A function of
/// its two inputs alone.
pub open spec fn nullifier_of(commitment: Seq<u8>, secret: Seq<u8>) -> Seq<u8> {
    blake3_of(commitment + secret)
}

/// The views of a sequence of byte vectors.
pub open spec fn byte_views(s: Seq<Vec<u8>>) -> Seq<Seq<u8>> {
    s.map(|i: int, v: Vec<u8>| v@)
}

/// Generates a nullifier for a given note.
///
/// The nullifier is BLAKE3(commitment || secret): a unique spend token that
/// can be recorded to prevent double-spending without revealing the note's
/// contents.
pub fn generate_nullifier(note: &SparkNote, secret: &Secret) -> (r: Nullifier)
    ensures
        r@ == nullifier_of(note.commitment@, secret@),
        r@.len() == 32,
{
    let mut data = crypto::clone_bytes(note.commitment.as_slice());
    crypto::append_bytes(&mut data, secret.as_bytes());
    Nullifier::new(crypto::blake3_hash32(data.as_slice()))
}

/// Generates a nullifier and returns it as `Vec<u8>`.
pub fn generate_nullifier_vec(note: &SparkNote, secret: &Secret) -> (r: Vec<u8>)
    ensures
        r@ == nullifier_of(note.commitment@, secret@),
        r@.len() == 32,
{
    generate_nullifier(note, secret).to_vec()
}

/// A set of spent nullifiers with uniqueness enforced.
///
/// Its view is the sequence of member byte strings in insertion order;
/// well-formedness says no member repeats. Members are only ever added,
/// never removed: the set is an append-only ledger.
#[derive(Debug)]
pub struct NullifierSet {
    entries: Vec<Nullifier>,
}

impl View for NullifierSet {
    type V = Seq<Seq<u8>>;

    closed spec fn view(&self) -> Seq<Seq<u8>> {
        self.entries@.map(|i: int, n: Nullifier| n@)
    }
}

impl NullifierSet {
    /// No member repeats, and every member is exactly 32 bytes.
    pub open spec fn wf(self) -> bool {
        &&& forall|i: int, j: int| 0 <= i < j < self@.len() ==> self@[i] != self@[j]
        &&& forall|i: int| 0 <= i < self@.len() ==> (#[trigger] self@[i]).len() == 32
    }

    /// Create a new empty nullifier set.
    pub fn new() -> (r: Self)
        ensures
            r@ == Seq::<Seq<u8>>::empty(),
            r.wf(),
    {
        NullifierSet { entries: Vec::new() }
    }

    /// Add a nullifier to the set.
    ///
    /// Returns whether it was newly inserted; when it was already present the
    /// set is unchanged and `false` comes back.
    pub fn add(&mut self, nullifier: Nullifier) -> (r: bool)
        requires
            old(self).wf(),
        ensures
            final(self).wf(),
            r == !old(self)@.contains(nullifier@),
            r ==> final(self)@ == old(self)@.push(nullifier@),
            !r ==> *final(self) == *old(self),
    {
        if self.contains(&nullifier) {
            false
        } else {
            self.entries.push(nullifier);
            proof {
                broadcast use crate::nullifier_type::lemma_nullifier_len;

                assert(self@ =~= old(self)@.push(nullifier@));
            }
            true
        }
    }

    /// Check if a nullifier is in the set.
    pub fn contains(&self, nullifier: &Nullifier) -> (r: bool)
        ensures
            r == self@.contains(nullifier@),
    {
        let n = self.entries.len();
        let mut i: usize = 0;
        while i < n
            invariant
                n == self.entries@.len(),
                n == self@.len(),
                i <= n,
                forall|j: int| 0 <= j < i ==> self@[j] != nullifier@,
            decreases n - i,
        {
            if self.entries[i] == *nullifier {
                proof {
                    assert(self@[i as int] == nullifier@);
                }
                return true;
            }
            i = i + 1;
        }
        false
    }

    /// Check if a nullifier byte slice is in the set.
    ///
    /// A slice that is not exactly 32 bytes cannot be a member.
    pub fn contains_slice(&self, nullifier: &[u8]) -> (r: bool)
        ensures
            r == (nullifier@.len() == 32 && self@.contains(nullifier@)),
    {
        match Nullifier::from_slice(nullifier) {
            Ok(n) => self.contains(&n),
            Err(_) => false,
        }
    }

    /// Get the number of nullifiers in the set.
    pub fn len(&self) -> (r: usize)
        ensures
            r == self@.len(),
    {
        self.entries.len()
    }

    /// Export all members as byte vectors, in insertion order.
    pub fn export(&self) -> (r: Vec<Vec<u8>>)
        ensures
            r@.len() == self@.len(),
            forall|i: int| 0 <= i < r@.len() ==> (#[trigger] r@[i])@ == self@[i],
    {
        let n = self.entries.len();
        let mut out: Vec<Vec<u8>> = Vec::new();
        let mut i: usize = 0;
        while i < n
            invariant
                n == self.entries@.len(),
                n == self@.len(),
                i <= n,
                out@.len() == i,
                forall|j: int| 0 <= j < i ==> (#[trigger] out@[j])@ == self@[j],
            decreases n - i,
        {
            out.push(self.entries[i].to_vec());
            i = i + 1;
        }
        out
    }
}

impl Clone for NullifierSet {
    /// Clones preserve the members and their order.
    fn clone(&self) -> (r: Self)
        ensures
            r@ == self@,
    {
        let n = self.entries.len();
        let mut entries: Vec<Nullifier> = Vec::new();
        let mut i: usize = 0;
        while i < n
            invariant
                n == self.entries@.len(),
                i <= n,
                entries@ == self.entries@.take(i as int),
            decreases n - i,
        {
            entries.push(self.entries[i]);
            proof {
                assert(self.entries@.take(i + 1 as int) =~= self.entries@.take(i as int).push(
                    self.entries@[i as int],
                ));
            }
            i = i + 1;
        }
        proof {
            assert(self.entries@.take(n as int) =~= self.entries@);
        }
        let r = NullifierSet { entries };
        proof {
            assert(r@ =~= self@);
        }
        r
    }
}

impl Default for NullifierSet {
    /// The default set is empty.
    fn default() -> (r: Self)
        ensures
            r@ == Seq::<Seq<u8>>::empty(),
            r.wf(),
    {
        NullifierSet::new()
    }
}

/// Checks if a nullifier has been spent.
///
/// True exactly when the slice is a valid 32-byte nullifier that is a member
/// of the spent set.
pub fn is_nullifier_spent(nullifier: &[u8], spent_set: &NullifierSet) -> (r: bool)
    ensures
        r == (nullifier@.len() == 32 && spent_set@.contains(nullifier@)),
{
    spent_set.contains_slice(nullifier)
}

/// Checks multiple nullifiers at once, returning one spent-flag per input in
/// order.
pub fn check_multiple_nullifiers(nullifiers: &[Vec<u8>], spent_set: &NullifierSet) -> (r: Vec<
    bool,
>)
    ensures
        r@.len() == nullifiers@.len(),
        forall|i: int|
            0 <= i < r@.len() ==> r@[i] == (byte_views(nullifiers@)[i].len() == 32
                && spent_set@.contains(byte_views(nullifiers@)[i])),
{
    let n = nullifiers.len();
    let mut out: Vec<bool> = Vec::new();
    let mut i: usize = 0;
    while i < n
        invariant
            n == nullifiers@.len(),
            i <= n,
            out@.len() == i,
            forall|j: int|
                0 <= j < i ==> out@[j] == (byte_views(nullifiers@)[j].len() == 32
                    && spent_set@.contains(byte_views(nullifiers@)[j])),
        decreases n - i,
    {
        out.push(is_nullifier_spent(nullifiers[i].as_slice(), spent_set));
        i = i + 1;
    }
    out
}

/// The outcome of atomically marking a batch against a set with the given
/// members: `None` when every entry is a fresh valid nullifier (also with
/// respect to the earlier entries of the batch), otherwise the code of the
/// first conflict.
pub open spec fn batch_outcome(members: Seq<Seq<u8>>, batch: Seq<Seq<u8>>) -> Option<
    NullifierErrorCode,
>
    decreases batch.len(),
{
    if batch.len() == 0 {
        None
    } else {
        let n = batch.first();
        if n.len() == 0 {
            Some(NullifierErrorCode::Empty)
        } else if n.len() != 32 {
            Some(NullifierErrorCode::WrongLength)
        } else if members.contains(n) {
            Some(NullifierErrorCode::AlreadySpent)
        } else {
            batch_outcome(members.push(n), batch.drop_first())
        }
    }
}

/// Membership distributes over concatenation.
pub(crate) proof fn lemma_concat_contains(a: Seq<Seq<u8>>, b: Seq<Seq<u8>>, x: Seq<u8>)
    ensures
        (a + b).contains(x) <==> a.contains(x) || b.contains(x),
{
    if (a + b).contains(x) {
        let i = choose|i: int| 0 <= i < (a + b).len() && (a + b)[i] == x;
        if i < a.len() {
            assert(a[i] == x);
        } else {
            assert(b[i - a.len()] == x);
        }
    }
    if a.contains(x) {
        let i = choose|i: int| 0 <= i < a.len() && a[i] == x;
        assert((a + b)[i] == x);
    }
    if b.contains(x) {
        let i = choose|i: int| 0 <= i < b.len() && b[i] == x;
        assert((a + b)[a.len() + i] == x);
    }
}

/// Marks multiple nullifiers as spent, atomically.
///
/// Either every nullifier in the batch is fresh and valid and all of them are
/// recorded, or none is recorded and the first conflict's error comes back:
/// partial application of a batch never happens.
pub fn mark_multiple_as_spent(nullifiers: &[Vec<u8>], spent_set: &mut NullifierSet) -> (r:
    SparkResult<()>)
    requires
        old(spent_set).wf(),
    ensures
        final(spent_set).wf(),
        r is Ok <==> batch_outcome(old(spent_set)@, byte_views(nullifiers@)) is None,
        r is Ok ==> final(spent_set)@ == old(spent_set)@ + byte_views(nullifiers@),
        r matches Err(e) ==> final(spent_set)@ == old(spent_set)@ && (batch_outcome(
            old(spent_set)@,
            byte_views(nullifiers@),
        ) matches Some(code) && is_nullifier_error(e, code)),
{
    let ghost bv = byte_views(nullifiers@);
    let ghost sv = spent_set@;
    let n = nullifiers.len();
    proof {
        assert(sv + bv.take(0) =~= sv);
        assert(bv.skip(0) =~= bv);
    }
    // Phase one: check every entry; mutate nothing.
    let mut k: usize = 0;
    while k < n
        invariant
            n == nullifiers@.len(),
            n == bv.len(),
            k <= n,
            bv == byte_views(nullifiers@),
            sv == spent_set@,
            old(spent_set) == spent_set,
            spent_set.wf(),
            batch_outcome(sv, bv) == batch_outcome(sv + bv.take(k as int), bv.skip(k as int)),
            forall|j: int| 0 <= j < k ==> (#[trigger] bv[j]).len() == 32,
        decreases n - k,
    {
        let ghost acc = sv + bv.take(k as int);
        proof {
            assert(bv.skip(k as int).first() == bv[k as int]);
            assert(bv[k as int] == nullifiers@[k as int]@);
        }
        let item = &nullifiers[k];
        if item.len() == 0 {
            return Err(
                SparkError::nullifier_error(NullifierErrorCode::Empty, "Nullifier cannot be empty"),
            );
        }
        if item.len() != 32 {
            return Err(
                SparkError::nullifier_error(
                    NullifierErrorCode::WrongLength,
                    "Nullifier does not have the exact expected length",
                ),
            );
        }
        // Is this entry already in the set, or a duplicate of an earlier
        // batch entry?
        let mut conflict = spent_set.contains_slice(item.as_slice());
        proof {
            lemma_concat_contains(sv, bv.take(k as int), bv[k as int]);
        }
        let mut j: usize = 0;
        while j < k
            invariant
                k < n,
                n == nullifiers@.len(),
                n == bv.len(),
                j <= k,
                bv == byte_views(nullifiers@),
                sv == spent_set@,
                old(spent_set) == spent_set,
                conflict ==> acc.contains(bv[k as int]),
                !conflict ==> !sv.contains(bv[k as int]),
                !conflict ==> forall|t: int| 0 <= t < j ==> bv.take(k as int)[t] != bv[k as int],
                *item == nullifiers@[k as int],
                acc == sv + bv.take(k as int),
            decreases k - j,
        {
            let nj = &nullifiers[j];
            let same = crypto::bytes_eq(nj.as_slice(), item.as_slice());
            proof {
                assert(*nj == nullifiers@[j as int]);
                assert(*item == nullifiers@[k as int]);
            }
            if !conflict && same {
                proof {
                    assert(nullifiers@[j as int]@ == nullifiers@[k as int]@);
                    assert(bv[j as int] == nullifiers@[j as int]@);
                    assert(bv[k as int] == nullifiers@[k as int]@);
                    assert(bv.take(k as int)[j as int] == bv[j as int]);
                    assert(bv.take(k as int).contains(bv[k as int]));
                    lemma_concat_contains(sv, bv.take(k as int), bv[k as int]);
                }
                conflict = true;
            }
            j = j + 1;
        }
        proof {
            if !conflict {
                assert(forall|t: int|
                    0 <= t < bv.take(k as int).len() ==> bv.take(k as int)[t] != bv[k as int]);
                assert(!bv.take(k as int).contains(bv[k as int]));
                lemma_concat_contains(sv, bv.take(k as int), bv[k as int]);
            }
        }
        if conflict {
            return Err(
                SparkError::nullifier_error(
                    NullifierErrorCode::AlreadySpent,
                    "One or more nullifiers are already spent",
                ),
            );
        }
        proof {
            assert(bv.skip(k as int).drop_first() =~= bv.skip(k + 1 as int));
            assert(acc.push(bv[k as int]) =~= sv + bv.take(k + 1 as int));
        }
        k = k + 1;
    }
    proof {
        assert(bv.skip(n as int) =~= Seq::<Seq<u8>>::empty());
        assert(batch_outcome(sv, bv) is None);
    }
    // Phase two: every entry is fresh and valid; record them all.
    proof {
        assert(sv + bv.take(0) =~= sv);
        assert(bv.skip(0) =~= bv);
    }
    let mut k: usize = 0;
    while k < n
        invariant
            n == nullifiers@.len(),
            n == bv.len(),
            k <= n,
            bv == byte_views(nullifiers@),
            spent_set.wf(),
            spent_set@ == sv + bv.take(k as int),
            batch_outcome(sv + bv.take(k as int), bv.skip(k as int)) is None,
        decreases n - k,
    {
        proof {
            assert(bv.skip(k as int).first() == bv[k as int]);
            assert(bv[k as int] == nullifiers@[k as int]@);
        }
        match Nullifier::from_slice(nullifiers[k].as_slice()) {
            Ok(nf) => {
                let added = spent_set.add(nf);
                proof {
                    assert(added);
                    assert((sv + bv.take(k as int)).push(bv[k as int]) =~= sv + bv.take(
                        k + 1 as int,
                    ));
                    assert(bv.skip(k as int).drop_first() =~= bv.skip(k + 1 as int));
                }
            },
            Err(e) => {
                // Unreachable: phase one established the length is 32.
                proof {
                    assert(false);
                }
                return Err(e);
            },
        }
        k = k + 1;
    }
    proof {
        assert(bv.take(n as int) =~= bv);
    }
    Ok(())
}

/// Marks a nullifier as spent, with validation.
///
/// This is the safe spend entry point: check-then-insert as one atomic step.
/// It succeeds exactly when the nullifier is a valid 32-byte string that is
/// not yet a member; a repeated mark of the same nullifier reports the
/// already-spent conflict and leaves the set unchanged.
pub fn mark_as_spent(nullifier: &[u8], spent_set: &mut NullifierSet) -> (r: SparkResult<()>)
    requires
        old(spent_set).wf(),
    ensures
        final(spent_set).wf(),
        r is Ok <==> nullifier@.len() == 32 && !old(spent_set)@.contains(nullifier@),
        r is Ok ==> final(spent_set)@ == old(spent_set)@.push(nullifier@),
        r is Err ==> final(spent_set)@ == old(spent_set)@,
        nullifier@.len() == 0 ==> (r matches Err(e) && is_nullifier_error(
            e,
            NullifierErrorCode::Empty,
        )),
        0 < nullifier@.len() && nullifier@.len() != 32 ==> (r matches Err(e) && is_nullifier_error(
            e,
            NullifierErrorCode::WrongLength,
        )),
        nullifier@.len() == 32 && old(spent_set)@.contains(nullifier@) ==> (r matches Err(e)
            && is_nullifier_error(e, NullifierErrorCode::AlreadySpent)),
{
    let nf = match Nullifier::from_slice(nullifier) {
        Ok(nf) => nf,
        Err(e) => {
            return Err(e);
        },
    };
    if !spent_set.add(nf) {
        return Err(
            SparkError::nullifier_error(NullifierErrorCode::AlreadySpent, "Nullifier is already spent"),
        );
    }
    Ok(())
}

/// Gets the number of nullifiers in the set.
pub fn get_nullifier_set_size(spent_set: &NullifierSet) -> (r: usize)
    ensures
        r == spent_set@.len(),
{
    spent_set.len()
}

/// Statistics about a nullifier set.
#[derive(Debug, Clone, Copy, PartialEq, Eq, Structural)]
pub struct NullifierSetStats {
    /// Number of nullifiers in the set
    pub count: u64,
    /// Estimated memory usage in bytes
    pub memory_usage_bytes: u64,
}

/// The per-entry memory estimate: 32 bytes of nullifier plus per-entry
/// overhead.
pub open spec fn spec_memory_estimate(count: u64) -> u64 {
    if count <= u64::MAX / 40 {
        (count * 40) as u64
    } else {
        u64::MAX
    }
}

/// Gets statistics about a nullifier set: its member count and an estimated
/// memory footprint of count times a constant per-entry overhead.
pub fn get_nullifier_set_stats(spent_set: &NullifierSet) -> (r: NullifierSetStats)
    ensures
        r.count == spent_set@.len(),
        r.memory_usage_bytes == spec_memory_estimate(r.count),
{
    let count = spent_set.len() as u64;
    let memory_usage_bytes = if count <= u64::MAX / 40 {
        count * 40
    } else {
        u64::MAX
    };
    NullifierSetStats { count, memory_usage_bytes }
}

/// Spend-once: a nullifier that is a member of the spent set stays a member
/// however many further nullifiers are recorded, so by the contract of
/// `mark_as_spent` every later mark of the same nullifier reports the
/// already-spent conflict — it never silently succeeds again.
pub proof fn lemma_spend_once(members: Seq<Seq<u8>>, n: Seq<u8>, later: Seq<Seq<u8>>)
    requires
        !members.contains(n),
    ensures
        members.push(n).contains(n),
        (members.push(n) + later).contains(n),
{
    assert(members.push(n)[members.len() as int] == n);
    assert((members.push(n) + later)[members.len() as int] == n);
}

/// Nullifier determinism: the nullifier is a function of the commitment and
/// secret alone; two derivations from equal inputs are equal.
pub proof fn lemma_nullifier_deterministic(c1: Seq<u8>, s1: Seq<u8>, c2: Seq<u8>, s2: Seq<u8>)
    requires
        c1 == c2,
        s1 == s2,
    ensures
        nullifier_of(c1, s1) == nullifier_of(c2, s2),
{
}

/// Secret-sensitivity at the hash input: with the same commitment, distinct
/// secrets give distinct nullifier hash inputs. That the digests themselves
/// then differ rests on BLAKE3's collision resistance, which is beyond what
/// can be proved here.
pub proof fn lemma_nullifier_preimage_secret_binding(c: Seq<u8>, s1: Seq<u8>, s2: Seq<u8>)
    requires
        s1 != s2,
    ensures
        c + s1 != c + s2,
{
    if s1.len() != s2.len() {
        assert((c + s1).len() != (c + s2).len());
    } else {
        if forall|i: int| 0 <= i < s1.len() ==> s1[i] == s2[i] {
            assert(s1 =~= s2);
        }
        let i = choose|i: int| 0 <= i < s1.len() && s1[i] != s2[i];
        assert((c + s1)[c.len() + i] != (c + s2)[c.len() + i]);
    }
}

/// Commitment-sensitivity at the hash input: with the same secret, distinct
/// commitments of equal length give distinct nullifier hash inputs.
pub proof fn lemma_nullifier_preimage_commitment_binding(c1: Seq<u8>, c2: Seq<u8>, s: Seq<u8>)
    requires
        c1 != c2,
        c1.len() == c2.len(),
    ensures
        c1 + s != c2 + s,
{
    if forall|i: int| 0 <= i < c1.len() ==> c1[i] == c2[i] {
        assert(c1 =~= c2);
    }
    let i = choose|i: int| 0 <= i < c1.len() && c1[i] != c2[i];
    assert((c1 + s)[i] != (c2 + s)[i]);
}

} // verus!
