//! Note manager: a keyed registry of notes with a global spent-nullifier set.
//!
//! Each entry is keyed by a caller-chosen identifier, unique within the
//! registry, and carries a note, its spend state, and the nullifier once one
//! has been generated. Marking a note spent requires a generated nullifier
//! and records it in the global spent set, translating a conflict into an
//! already-spent error.

use vstd::prelude::*;

use crate::crypto;
use crate::error::{is_nullifier_error, NullifierErrorCode, SparkError, SparkResult};
use crate::note::SparkNote;
use crate::nullifier::{
    generate_nullifier, get_nullifier_set_stats, nullifier_of, spec_memory_estimate, NullifierSet,
    NullifierSetStats,
};
use crate::nullifier_type::Nullifier;
use crate::secret::Secret;

verus! {

/// Note state tracking.
#[derive(Debug, Clone, Copy, PartialEq, Eq, Structural)]
pub enum NoteState {
    /// Note has not been spent
    Unspent,
    /// Note has been spent
    Spent,
}

/// Public note projection: value and commitment, never the secret.
#[derive(Debug)]
pub struct PublicNote {
    pub value: u64,
    pub commitment: Vec<u8>,
}

impl PublicNote {
    /// The public projection of a note.
    pub fn from_note(note: &SparkNote) -> (r: Self)
        ensures
            r.value == note.value,
            r.commitment@ == note.commitment@,
    {
        PublicNote { value: note.value, commitment: crypto::clone_bytes(note.commitment.as_slice()) }
    }
}

impl Clone for PublicNote {
    /// Clones preserve the value and commitment.
    fn clone(&self) -> (r: Self)
        ensures
            r.value == self.value,
            r.commitment@ == self.commitment@,
    {
        PublicNote { value: self.value, commitment: crypto::clone_bytes(self.commitment.as_slice()) }
    }
}

impl From<&SparkNote> for PublicNote {
    fn from(note: &SparkNote) -> (r: Self) {
        PublicNote::from_note(note)
    }
}

impl vstd::std_specs::convert::FromSpecImpl<&SparkNote> for PublicNote {
    // The projection allocates a fresh commitment vector, so the result is
    // not a spec-level function of the input value; `from_note` carries the
    // usable contract.
    closed spec fn obeys_from_spec() -> bool {
        false
    }

    closed spec fn from_spec(note: &SparkNote) -> PublicNote {
        arbitrary()
    }
}

/// Entry in the note manager, as handed out to callers.
#[derive(Debug)]
pub struct NoteEntry {
    /// The note itself (public fields only)
    pub note: PublicNote,
    /// Current state of the note
    pub state: NoteState,
    /// Nullifier for this note (if generated)
    pub nullifier: Option<Vec<u8>>,
}

impl Clone for NoteEntry {
    /// Clones preserve all three components.
    fn clone(&self) -> (r: Self)
        ensures
            r.note.value == self.note.value,
            r.note.commitment@ == self.note.commitment@,
            r.state == self.state,
            opt_bytes_view(r.nullifier) == opt_bytes_view(self.nullifier),
    {
        let nullifier = match &self.nullifier {
            Some(v) => Some(crypto::clone_bytes(v.as_slice())),
            None => None,
        };
        NoteEntry { note: self.note.clone(), state: self.state, nullifier }
    }
}

/// The view of an optional byte vector.
pub open spec fn opt_bytes_view(o: Option<Vec<u8>>) -> Option<Seq<u8>> {
    match o {
        Some(v) => Some(v@),
        None => None,
    }
}

/// The spec-level picture of one registry entry.
pub ghost struct NoteModel {
    pub value: u64,
    pub commitment: Seq<u8>,
    pub secret: Seq<u8>,
    pub state: NoteState,
    pub nullifier: Option<Seq<u8>>,
}

/// A handed-out entry agrees with a model entry.
pub open spec fn entry_matches(entry: NoteEntry, m: NoteModel) -> bool {
    &&& entry.note.value == m.value
    &&& entry.note.commitment@ == m.commitment
    &&& entry.state == m.state
    &&& opt_bytes_view(entry.nullifier) == m.nullifier
}

/// Internal note storage with secret.
struct NoteRecord {
    id: String,
    note: SparkNote,
    state: NoteState,
    nullifier: Option<Vec<u8>>,
}

spec fn rec_model(r: NoteRecord) -> NoteModel {
    NoteModel {
        value: r.note.value,
        commitment: r.note.commitment@,
        secret: r.note.secret@,
        state: r.state,
        nullifier: opt_bytes_view(r.nullifier),
    }
}

spec fn rec_ids(s: Seq<NoteRecord>) -> Seq<Seq<char>> {
    s.map(|i: int, r: NoteRecord| r.id@)
}

/// First-match lookup over the record sequence.
spec fn lookup_recs(s: Seq<NoteRecord>, id: Seq<char>) -> Option<NoteModel>
    decreases s.len(),
{
    if s.len() == 0 {
        None
    } else if s.first().id@ == id {
        Some(rec_model(s.first()))
    } else {
        lookup_recs(s.drop_first(), id)
    }
}

/// Identifiers are unique, and stored nullifiers have the right length.
spec fn wf_recs(s: Seq<NoteRecord>) -> bool {
    &&& forall|i: int, j: int| 0 <= i < j < s.len() ==> rec_ids(s)[i] != rec_ids(s)[j]
    &&& forall|i: int|
        0 <= i < s.len() ==> ((#[trigger] s[i]).nullifier matches Some(v) ==> v@.len() == 32)
}

proof fn lemma_contains_first(q: Seq<Seq<char>>, x: Seq<char>)
    requires
        q.len() > 0,
    ensures
        q.contains(x) <==> (q[0] == x || q.drop_first().contains(x)),
{
    if q.contains(x) {
        let i = choose|i: int| 0 <= i < q.len() && q[i] == x;
        if i > 0 {
            assert(q.drop_first()[i - 1] == x);
        }
    }
    if q.drop_first().contains(x) {
        let i = choose|i: int| 0 <= i < q.drop_first().len() && q.drop_first()[i] == x;
        assert(q[i + 1] == x);
    }
}

/// A lookup finds an entry exactly when the identifier is present.
proof fn lemma_lookup_has(s: Seq<NoteRecord>, id: Seq<char>)
    ensures
        lookup_recs(s, id) is Some <==> rec_ids(s).contains(id),
    decreases s.len(),
{
    if s.len() == 0 {
    } else {
        lemma_lookup_has(s.drop_first(), id);
        assert(rec_ids(s.drop_first()) =~= rec_ids(s).drop_first());
        lemma_contains_first(rec_ids(s), id);
        assert(rec_ids(s)[0] == s.first().id@);
    }
}

/// Appending a record only adds a binding for its own fresh identifier.
proof fn lemma_lookup_push(s: Seq<NoteRecord>, rec: NoteRecord, id: Seq<char>)
    ensures
        lookup_recs(s.push(rec), id) == (if lookup_recs(s, id) is Some {
            lookup_recs(s, id)
        } else if rec.id@ == id {
            Some(rec_model(rec))
        } else {
            Option::<NoteModel>::None
        }),
    decreases s.len(),
{
    if s.len() == 0 {
        assert(s.push(rec).first() == rec);
        assert(s.push(rec).drop_first() =~= Seq::<NoteRecord>::empty());
        if rec.id@ == id {
            assert(lookup_recs(s.push(rec), id) == Some(rec_model(rec)));
        } else {
            assert(lookup_recs(s.push(rec), id) == lookup_recs(Seq::<NoteRecord>::empty(), id));
            assert(lookup_recs(s.push(rec), id) is None);
        }
        assert(lookup_recs(s, id) is None);
    } else {
        assert(s.push(rec).first() == s.first());
        assert(s.push(rec).drop_first() =~= s.drop_first().push(rec));
        lemma_lookup_push(s.drop_first(), rec, id);
    }
}

/// Replacing the record at one index, keeping its identifier, rebinds that
/// identifier and leaves every other binding alone.
proof fn lemma_lookup_update(s: Seq<NoteRecord>, i: int, rec2: NoteRecord, id: Seq<char>)
    requires
        0 <= i < s.len(),
        rec2.id@ == s[i].id@,
        wf_recs(s),
    ensures
        lookup_recs(s.update(i, rec2), id) == (if id == s[i].id@ {
            Some(rec_model(rec2))
        } else {
            lookup_recs(s, id)
        }),
    decreases s.len(),
{
    let s2 = s.update(i, rec2);
    if i == 0 {
        assert(s2.first() == rec2);
        assert(s2.drop_first() =~= s.drop_first());
    } else {
        assert(s2.first() == s.first());
        assert(s2.drop_first() =~= s.drop_first().update(i - 1, rec2));
        assert(forall|a: int, b: int|
            0 <= a < b < s.drop_first().len() ==> rec_ids(s.drop_first())[a] != rec_ids(
                s.drop_first(),
            )[b]) by {
            assert(forall|a: int|
                0 <= a < s.drop_first().len() ==> rec_ids(s.drop_first())[a] == rec_ids(s)[a + 1]);
        }
        assert(wf_recs(s.drop_first()));
        lemma_lookup_update(s.drop_first(), i - 1, rec2, id);
        // The head's identifier differs from the updated record's.
        assert(rec_ids(s)[0] != rec_ids(s)[i]);
    }
}

/// Removing the record at one index unbinds its identifier and leaves every
/// other binding alone.
proof fn lemma_lookup_remove(s: Seq<NoteRecord>, i: int, id: Seq<char>)
    requires
        0 <= i < s.len(),
        wf_recs(s),
    ensures
        lookup_recs(s.remove(i), id) == (if id == s[i].id@ {
            Option::<NoteModel>::None
        } else {
            lookup_recs(s, id)
        }),
    decreases s.len(),
{
    let s2 = s.remove(i);
    if i == 0 {
        assert(s2 =~= s.drop_first());
        if id == s[0].id@ {
            lemma_lookup_has(s.drop_first(), id);
            if rec_ids(s.drop_first()).contains(id) {
                let j = choose|j: int|
                    0 <= j < rec_ids(s.drop_first()).len() && rec_ids(s.drop_first())[j] == id;
                assert(rec_ids(s)[j + 1] == id);
                assert(rec_ids(s)[0] == id);
            }
        }
    } else {
        assert(s2.first() == s.first());
        assert(s2.drop_first() =~= s.drop_first().remove(i - 1));
        assert(forall|a: int|
            0 <= a < s.drop_first().len() ==> rec_ids(s.drop_first())[a] == rec_ids(s)[a + 1]);
        assert(wf_recs(s.drop_first()));
        lemma_lookup_remove(s.drop_first(), i - 1, id);
        assert(rec_ids(s)[0] != rec_ids(s)[i]);
    }
}

/// With unique identifiers, looking up the identifier stored at an index
/// yields exactly that record's model.
proof fn lemma_lookup_at(s: Seq<NoteRecord>, i: int)
    requires
        0 <= i < s.len(),
        wf_recs(s),
    ensures
        lookup_recs(s, s[i].id@) == Some(rec_model(s[i])),
    decreases i,
{
    if i == 0 {
    } else {
        assert(rec_ids(s)[0] != rec_ids(s)[i]);
        assert(forall|a: int|
            0 <= a < s.drop_first().len() ==> rec_ids(s.drop_first())[a] == rec_ids(s)[a + 1]);
        assert(wf_recs(s.drop_first()));
        lemma_lookup_at(s.drop_first(), i - 1);
        assert(s.drop_first()[i - 1] == s[i]);
    }
}

/// Manager for notes and their nullifiers.
///
/// Keeps a keyed registry of notes and the global set of spent nullifiers.
pub struct NoteManager {
    /// Registry records (with secrets), keyed by unique identifiers
    notes: Vec<NoteRecord>,
    /// Global set of spent nullifiers
    spent_nullifiers: NullifierSet,
}

impl NoteManager {
    /// The identifiers of the registry's entries, in insertion order.
    pub closed spec fn spec_ids(self) -> Seq<Seq<char>> {
        rec_ids(self.notes@)
    }

    /// The entry stored under an identifier, if any.
    pub closed spec fn spec_lookup(self, id: Seq<char>) -> Option<NoteModel> {
        lookup_recs(self.notes@, id)
    }

    /// Whether an identifier is present.
    pub open spec fn spec_has_id(self, id: Seq<char>) -> bool {
        self.spec_ids().contains(id)
    }

    /// The members of the global spent-nullifier set, in insertion order.
    pub closed spec fn spec_spent(self) -> Seq<Seq<u8>> {
        self.spent_nullifiers@
    }

    /// Identifiers are unique; the spent set is well-formed; stored
    /// nullifiers are 32 bytes.
    pub closed spec fn wf(self) -> bool {
        &&& wf_recs(self.notes@)
        &&& self.spent_nullifiers.wf()
    }

    /// An identifier is present exactly when lookup finds an entry.
    pub proof fn lemma_has_lookup(self, id: Seq<char>)
        ensures
            self.spec_has_id(id) <==> self.spec_lookup(id) is Some,
    {
        lemma_lookup_has(self.notes@, id);
    }

    /// Creates a new, empty manager.
    pub fn new() -> (r: Self)
        ensures
            r.wf(),
            r.spec_ids() == Seq::<Seq<char>>::empty(),
            r.spec_spent() == Seq::<Seq<u8>>::empty(),
            forall|id: Seq<char>| r.spec_lookup(id) is None,
    {
        let r = NoteManager { notes: Vec::new(), spent_nullifiers: NullifierSet::new() };
        proof {
            assert(rec_ids(r.notes@) =~= Seq::<Seq<char>>::empty());
        }
        r
    }

    /// Find the index of the record with the given identifier.
    fn find_index(&self, id: &String) -> (r: Option<usize>)
        ensures
            r matches Some(i) ==> 0 <= i < self.notes@.len() && self.notes@[i as int].id@ == id@
                && self.spec_lookup(id@) == Some(rec_model(self.notes@[i as int])),
            r is None ==> self.spec_lookup(id@) is None,
    {
        let n = self.notes.len();
        proof {
            assert(self.notes@.skip(0) =~= self.notes@);
        }
        let mut k: usize = 0;
        while k < n
            invariant
                n == self.notes@.len(),
                k <= n,
                lookup_recs(self.notes@, id@) == lookup_recs(self.notes@.skip(k as int), id@),
            decreases n - k,
        {
            proof {
                assert(self.notes@.skip(k as int).first() == self.notes@[k as int]);
                assert(self.notes@.skip(k as int).drop_first() =~= self.notes@.skip(k + 1 as int));
            }
            if self.notes[k].id == *id {
                proof {
                    assert(lookup_recs(self.notes@.skip(k as int), id@) == Some(rec_model(
                        self.notes@[k as int],
                    )));
                }
                return Some(k);
            }
            k = k + 1;
        }
        proof {
            assert(self.notes@.skip(n as int) =~= Seq::<NoteRecord>::empty());
        }
        None
    }

    /// Gets the number of notes.
    pub fn note_count(&self) -> (r: usize)
        ensures
            r == self.spec_ids().len(),
    {
        self.notes.len()
    }

    /// Gets the number of spent nullifiers.
    pub fn spent_nullifier_count(&self) -> (r: usize)
        ensures
            r == self.spec_spent().len(),
    {
        self.spent_nullifiers.len()
    }

    /// Gets statistics about the global nullifier set.
    pub fn get_nullifier_stats(&self) -> (r: NullifierSetStats)
        ensures
            r.count == self.spec_spent().len(),
            r.memory_usage_bytes == spec_memory_estimate(r.count),
    {
        get_nullifier_set_stats(&self.spent_nullifiers)
    }

    /// Export spent nullifiers as byte vectors, in insertion order.
    pub fn get_spent_nullifiers(&self) -> (r: Vec<Vec<u8>>)
        ensures
            r@.len() == self.spec_spent().len(),
            forall|i: int| 0 <= i < r@.len() ==> (#[trigger] r@[i])@ == self.spec_spent()[i],
    {
        self.spent_nullifiers.export()
    }

    /// Check if a nullifier has been spent: true exactly when it is a valid
    /// 32-byte string that is a member of the global set.
    pub fn is_nullifier_spent(&self, nullifier: &[u8]) -> (r: bool)
        ensures
            r == (nullifier@.len() == 32 && self.spec_spent().contains(nullifier@)),
    {
        self.spent_nullifiers.contains_slice(nullifier)
    }

    /// Adds a note to the manager under a unique identifier.
    ///
    /// Fails exactly when the identifier is already taken; on success the new
    /// entry starts unspent with no nullifier, and every other binding is
    /// untouched.
    pub fn add_note(&mut self, id: String, note: SparkNote) -> (r: SparkResult<()>)
        requires
            old(self).wf(),
        ensures
            final(self).wf(),
            r is Ok <==> !old(self).spec_has_id(id@),
            r matches Err(e) ==> e is OperationError && *final(self) == *old(self),
            r is Ok ==> final(self).spec_ids() == old(self).spec_ids().push(id@),
            r is Ok ==> final(self).spec_lookup(id@) == Some(
                NoteModel {
                    value: note.value,
                    commitment: note.commitment@,
                    secret: note.secret@,
                    state: NoteState::Unspent,
                    nullifier: None,
                },
            ),
            r is Ok ==> forall|k: Seq<char>|
                k != id@ ==> final(self).spec_lookup(k) == old(self).spec_lookup(k),
            final(self).spec_spent() == old(self).spec_spent(),
    {
        proof {
            lemma_lookup_has(self.notes@, id@);
        }
        match self.find_index(&id) {
            Some(_) => Err(
                SparkError::OperationError {
                    message: "A note with this identifier already exists".to_owned(),
                },
            ),
            None => {
                let rec = NoteRecord { id, note, state: NoteState::Unspent, nullifier: None };
                proof {
                    assert forall|k: Seq<char>| true implies lookup_recs(
                        old(self).notes@.push(rec),
                        k,
                    ) == (if lookup_recs(old(self).notes@, k) is Some {
                        lookup_recs(old(self).notes@, k)
                    } else if rec.id@ == k {
                        Some(rec_model(rec))
                    } else {
                        Option::<NoteModel>::None
                    }) by {
                        lemma_lookup_push(old(self).notes@, rec, k);
                    }
                    assert(rec_ids(self.notes@.push(rec)) =~= rec_ids(self.notes@).push(rec.id@));
                    lemma_lookup_has(self.notes@, rec.id@);
                }
                self.notes.push(rec);
                proof {
                    assert forall|i: int, j: int|
                        0 <= i < j < self.notes@.len() implies rec_ids(self.notes@)[i] != rec_ids(
                        self.notes@,
                    )[j] by {
                        if j < self.notes@.len() - 1 {
                            assert(rec_ids(old(self).notes@)[i] != rec_ids(old(self).notes@)[j]);
                        } else {
                            lemma_lookup_has(old(self).notes@, rec_ids(self.notes@)[j]);
                            assert(rec_ids(old(self).notes@)[i] == rec_ids(self.notes@)[i]);
                            if rec_ids(self.notes@)[i] == rec_ids(self.notes@)[j] {
                                assert(rec_ids(old(self).notes@).contains(rec_ids(self.notes@)[j]));
                            }
                        }
                    }
                }
                Ok(())
            },
        }
    }

    /// Gets a note by identifier (public fields only).
    pub fn get_note(&self, id: &str) -> (r: Option<NoteEntry>)
        ensures
            r is Some <==> self.spec_has_id(id@),
            r matches Some(entry) ==> (self.spec_lookup(id@) matches Some(m) && entry_matches(
                entry,
                m,
            )),
    {
        proof {
            lemma_lookup_has(self.notes@, id@);
        }
        let owned = id.to_owned();
        match self.find_index(&owned) {
            None => None,
            Some(i) => {
                let rec = &self.notes[i];
                let nullifier = match &rec.nullifier {
                    Some(v) => Some(crypto::clone_bytes(v.as_slice())),
                    None => None,
                };
                Some(NoteEntry { note: PublicNote::from_note(&rec.note), state: rec.state, nullifier })
            },
        }
    }

    /// Lists all note identifiers, in insertion order.
    pub fn list_note_ids(&self) -> (r: Vec<String>)
        ensures
            r@.len() == self.spec_ids().len(),
            forall|i: int| 0 <= i < r@.len() ==> (#[trigger] r@[i])@ == self.spec_ids()[i],
    {
        let n = self.notes.len();
        let mut out: Vec<String> = Vec::new();
        let mut k: usize = 0;
        while k < n
            invariant
                n == self.notes@.len(),
                k <= n,
                out@.len() == k,
                forall|i: int| 0 <= i < k ==> (#[trigger] out@[i])@ == rec_ids(self.notes@)[i],
            decreases n - k,
        {
            out.push(self.notes[k].id.clone());
            k = k + 1;
        }
        out
    }

    /// Lists all notes (public fields only), in insertion order.
    pub fn list_notes(&self) -> (r: Vec<(String, NoteEntry)>)
        requires
            self.wf(),
        ensures
            r@.len() == self.spec_ids().len(),
            forall|i: int|
                0 <= i < r@.len() ==> (#[trigger] r@[i]).0@ == self.spec_ids()[i] && (
                self.spec_lookup(self.spec_ids()[i]) matches Some(m) && entry_matches(r@[i].1, m)),
    {
        let n = self.notes.len();
        let mut out: Vec<(String, NoteEntry)> = Vec::new();
        let mut k: usize = 0;
        while k < n
            invariant
                n == self.notes@.len(),
                k <= n,
                out@.len() == k,
                self.wf(),
                forall|i: int|
                    0 <= i < k ==> (#[trigger] out@[i]).0@ == self.spec_ids()[i] && (
                    self.spec_lookup(self.spec_ids()[i]) matches Some(m) && entry_matches(
                        out@[i].1,
                        m,
                    )),
            decreases n - k,
        {
            proof {
                lemma_lookup_at(self.notes@, k as int);
            }
            let rec = &self.notes[k];
            let nullifier = match &rec.nullifier {
                Some(v) => Some(crypto::clone_bytes(v.as_slice())),
                None => None,
            };
            let entry = NoteEntry {
                note: PublicNote::from_note(&rec.note),
                state: rec.state,
                nullifier,
            };
            out.push((rec.id.clone(), entry));
            k = k + 1;
        }
        out
    }

    /// Removes a note by identifier, returning its public entry if it
    /// existed. The global spent set is untouched: removal never unspends.
    pub fn remove_note(&mut self, id: &str) -> (r: Option<NoteEntry>)
        requires
            old(self).wf(),
        ensures
            final(self).wf(),
            r is Some <==> old(self).spec_has_id(id@),
            r is None ==> *final(self) == *old(self),
            r matches Some(entry) ==> (old(self).spec_lookup(id@) matches Some(m) && entry_matches(
                entry,
                m,
            )),
            r is Some ==> final(self).spec_lookup(id@) is None,
            forall|k: Seq<char>| k != id@ ==> final(self).spec_lookup(k) == old(self).spec_lookup(k),
            final(self).spec_spent() == old(self).spec_spent(),
    {
        proof {
            lemma_lookup_has(self.notes@, id@);
        }
        let owned = id.to_owned();
        match self.find_index(&owned) {
            None => None,
            Some(i) => {
                proof {
                    assert forall|k: Seq<char>| true implies lookup_recs(
                        old(self).notes@.remove(i as int),
                        k,
                    ) == (if k == old(self).notes@[i as int].id@ {
                        Option::<NoteModel>::None
                    } else {
                        lookup_recs(old(self).notes@, k)
                    }) by {
                        lemma_lookup_remove(old(self).notes@, i as int, k);
                    }
                    assert forall|a: int, b: int|
                        0 <= a < b < self.notes@.remove(i as int).len() implies rec_ids(
                        self.notes@.remove(i as int),
                    )[a] != rec_ids(self.notes@.remove(i as int))[b] by {
                        let s2 = self.notes@.remove(i as int);
                        let a0: int = if a < i { a } else { a + 1 };
                        let b0: int = if b < i { b } else { b + 1 };
                        assert(s2[a] == self.notes@[a0]);
                        assert(s2[b] == self.notes@[b0]);
                        assert(rec_ids(self.notes@)[a0] != rec_ids(self.notes@)[b0]);
                    }
                    assert forall|a: int|
                        0 <= a < self.notes@.remove(i as int).len() implies ((
                    #[trigger] self.notes@.remove(i as int)[a]).nullifier matches Some(v)
                        ==> v@.len() == 32) by {
                        let a0: int = if a < i { a } else { a + 1 };
                        assert(self.notes@.remove(i as int)[a] == self.notes@[a0]);
                    }
                }
                let rec = self.notes.remove(i);
                let entry = NoteEntry {
                    note: PublicNote::from_note(&rec.note),
                    state: rec.state,
                    nullifier: rec.nullifier,
                };
                Some(entry)
            },
        }
    }

    /// Generates a nullifier for a note and remembers it on the entry.
    ///
    /// Fails exactly when the identifier is unknown; on success the returned
    /// nullifier is BLAKE3(commitment || secret) for that note's commitment,
    /// the entry's nullifier is replaced with it, and everything else is
    /// untouched.
    pub fn generate_nullifier_for_note(&mut self, id: &str, secret: Vec<u8>) -> (r: SparkResult<
        Vec<u8>,
    >)
        requires
            old(self).wf(),
        ensures
            final(self).wf(),
            r is Ok <==> old(self).spec_has_id(id@),
            r matches Err(e) ==> e is OperationError && *final(self) == *old(self),
            r matches Ok(nf) ==> (old(self).spec_lookup(id@) matches Some(m) && nf@ == nullifier_of(
                m.commitment,
                secret@,
            ) && nf@.len() == 32 && final(self).spec_lookup(id@) == Some(
                NoteModel { nullifier: Some(nf@), ..m },
            )),
            forall|k: Seq<char>| k != id@ ==> final(self).spec_lookup(k) == old(self).spec_lookup(k),
            final(self).spec_ids() == old(self).spec_ids(),
            final(self).spec_spent() == old(self).spec_spent(),
    {
        proof {
            lemma_lookup_has(self.notes@, id@);
        }
        let owned = id.to_owned();
        match self.find_index(&owned) {
            None => Err(
                SparkError::OperationError {
                    message: "No note with this identifier exists".to_owned(),
                },
            ),
            Some(i) => {
                let secret = Secret::new(secret);
                let rec = &self.notes[i];
                let nf = generate_nullifier(&rec.note, &secret);
                let nf_vec = nf.to_vec();
                let new_rec = NoteRecord {
                    id: rec.id.clone(),
                    note: rec.note.clone(),
                    state: rec.state,
                    nullifier: Some(nf.to_vec()),
                };
                proof {
                    assert(rec_model(new_rec) == NoteModel {
                        nullifier: Some(nf@),
                        ..rec_model(old(self).notes@[i as int])
                    });
                    assert forall|k: Seq<char>| true implies lookup_recs(
                        old(self).notes@.update(i as int, new_rec),
                        k,
                    ) == (if k == old(self).notes@[i as int].id@ {
                        Some(rec_model(new_rec))
                    } else {
                        lookup_recs(old(self).notes@, k)
                    }) by {
                        lemma_lookup_update(old(self).notes@, i as int, new_rec, k);
                    }
                    assert(rec_ids(old(self).notes@.update(i as int, new_rec)) =~= rec_ids(
                        old(self).notes@,
                    ));
                }
                self.notes[i] = new_rec;
                Ok(nf_vec)
            },
        }
    }

    /// Marks a note as spent by its generated nullifier.
    ///
    /// Fails when the identifier is unknown or no nullifier has been
    /// generated yet (an operation error), or when the nullifier is already
    /// in the global spent set (an already-spent conflict). On success the
    /// nullifier joins the global set and the entry's state becomes `Spent`;
    /// on every failure nothing changes.
    pub fn mark_note_as_spent(&mut self, id: &str) -> (r: SparkResult<()>)
        requires
            old(self).wf(),
        ensures
            final(self).wf(),
            r is Ok <==> (old(self).spec_lookup(id@) matches Some(m) && m.nullifier matches Some(nv)
                && !old(self).spec_spent().contains(nv)),
            !old(self).spec_has_id(id@) ==> (r matches Err(e) && e is OperationError),
            (old(self).spec_lookup(id@) matches Some(m) && m.nullifier is None) ==> (r matches Err(
                e,
            ) && e is OperationError),
            (old(self).spec_lookup(id@) matches Some(m) && m.nullifier matches Some(nv)
                && old(self).spec_spent().contains(nv)) ==> (r matches Err(e)
                && is_nullifier_error(e, NullifierErrorCode::AlreadySpent)),
            r is Err ==> *final(self) == *old(self),
            r is Ok ==> (old(self).spec_lookup(id@) matches Some(m) && m.nullifier matches Some(nv)
                && final(self).spec_spent() == old(self).spec_spent().push(nv)
                && final(self).spec_lookup(id@) == Some(
                NoteModel { state: NoteState::Spent, ..m },
            )),
            forall|k: Seq<char>| k != id@ ==> final(self).spec_lookup(k) == old(self).spec_lookup(k),
            final(self).spec_ids() == old(self).spec_ids(),
    {
        proof {
            lemma_lookup_has(self.notes@, id@);
        }
        let owned = id.to_owned();
        let i = match self.find_index(&owned) {
            None => {
                return Err(
                    SparkError::OperationError {
                        message: "No note with this identifier exists".to_owned(),
                    },
                );
            },
            Some(i) => i,
        };
        let nf_vec: Vec<u8> = match &self.notes[i].nullifier {
            Some(v) => crypto::clone_bytes(v.as_slice()),
            None => {
                return Err(
                    SparkError::OperationError {
                        message: "No nullifier has been generated for this note".to_owned(),
                    },
                );
            },
        };
        let nf = match Nullifier::from_slice(nf_vec.as_slice()) {
            Ok(nf) => nf,
            Err(e) => {
                // Unreachable: well-formedness bounds stored nullifiers to 32
                // bytes.
                proof {
                    assert(false);
                }
                return Err(e);
            },
        };
        if self.spent_nullifiers.contains(&nf) {
            return Err(
                SparkError::nullifier_error(
                    NullifierErrorCode::AlreadySpent,
                    "The note's nullifier is already spent",
                ),
            );
        }
        let rec = &self.notes[i];
        let new_rec = NoteRecord {
            id: rec.id.clone(),
            note: rec.note.clone(),
            state: NoteState::Spent,
            nullifier: Some(nf_vec),
        };
        proof {
            assert(rec_model(new_rec) == NoteModel {
                state: NoteState::Spent,
                ..rec_model(old(self).notes@[i as int])
            });
            assert forall|k: Seq<char>| true implies lookup_recs(
                old(self).notes@.update(i as int, new_rec),
                k,
            ) == (if k == old(self).notes@[i as int].id@ {
                Some(rec_model(new_rec))
            } else {
                lookup_recs(old(self).notes@, k)
            }) by {
                lemma_lookup_update(old(self).notes@, i as int, new_rec, k);
            }
            assert(rec_ids(old(self).notes@.update(i as int, new_rec)) =~= rec_ids(
                old(self).notes@,
            ));
        }
        let added = self.spent_nullifiers.add(nf);
        proof {
            assert(added);
        }
        self.notes[i] = new_rec;
        Ok(())
    }

    /// Add a spent nullifier directly to the global set.
    ///
    /// Succeeds exactly when it is a valid 32-byte string not yet present;
    /// notes are untouched either way.
    pub fn add_spent_nullifier(&mut self, nullifier: &[u8]) -> (r: SparkResult<()>)
        requires
            old(self).wf(),
        ensures
            final(self).wf(),
            r is Ok <==> nullifier@.len() == 32 && !old(self).spec_spent().contains(nullifier@),
            r is Ok ==> final(self).spec_spent() == old(self).spec_spent().push(nullifier@),
            r is Err ==> *final(self) == *old(self),
            nullifier@.len() == 32 && old(self).spec_spent().contains(nullifier@) ==> (r
                matches Err(e) && is_nullifier_error(e, NullifierErrorCode::AlreadySpent)),
            nullifier@.len() == 0 ==> (r matches Err(e) && is_nullifier_error(
                e,
                NullifierErrorCode::Empty,
            )),
            0 < nullifier@.len() && nullifier@.len() != 32 ==> (r matches Err(e)
                && is_nullifier_error(e, NullifierErrorCode::WrongLength)),
            final(self).spec_ids() == old(self).spec_ids(),
            forall|k: Seq<char>| final(self).spec_lookup(k) == old(self).spec_lookup(k),
    {
        let nf = match Nullifier::from_slice(nullifier) {
            Ok(nf) => nf,
            Err(e) => {
                return Err(e);
            },
        };
        if !self.spent_nullifiers.add(nf) {
            return Err(
                SparkError::nullifier_error(NullifierErrorCode::AlreadySpent, "Nullifier is already spent"),
            );
        }
        Ok(())
    }
}

impl Default for NoteManager {
    /// The default manager is empty.
    fn default() -> (r: Self)
        ensures
            r.wf(),
            r.spec_ids() == Seq::<Seq<char>>::empty(),
            r.spec_spent() == Seq::<Seq<u8>>::empty(),
    {
        NoteManager::new()
    }
}

} // verus!
