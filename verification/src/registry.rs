use crate::entry::Entry;
use crate::entry::EntryView;
use crate::entry::RegistryError;
use crate::entry::Submitter;
use crate::entry::entry_view_of;
use crate::entry::strip_content;
use crate::entry::MAX_CONTENT_BYTES;
use vstd::prelude::*;

verus! {

/// The registry store: a mapping from digest to entry, keys unique.
/// Pairs are kept in insertion order; enumeration reports them in that
/// order.
pub struct Registry {
    entries: Vec<(String, Entry)>,
}

/// The map that a sequence of digest/entry pairs denotes: a later pair
/// would win, but the registry keeps its keys unique, so every key is
/// bound by its only pair.
pub closed spec fn pairs_as_map(s: Seq<(String, Entry)>) -> Map<Seq<char>, EntryView>
    decreases s.len(),
{
    if s.len() == 0 {
        Map::empty()
    } else {
        pairs_as_map(s.drop_last()).insert(s.last().0@, s.last().1@)
    }
}

/// A digest is a key of the denoted map exactly when some pair carries it.
proof fn lemma_pairs_as_map_dom(s: Seq<(String, Entry)>)
    ensures
        forall|k: Seq<char>|
            #[trigger] pairs_as_map(s).dom().contains(k) <==> (exists|i: int|
                0 <= i < s.len() && s[i].0@ == k),
    decreases s.len(),
{
    if s.len() > 0 {
        let t = s.drop_last();
        lemma_pairs_as_map_dom(t);
        assert forall|k: Seq<char>| #[trigger] pairs_as_map(s).dom().contains(k) implies (
        exists|i: int| 0 <= i < s.len() && s[i].0@ == k) by {
            if k == s.last().0@ {
                assert(s[s.len() - 1].0@ == k);
            } else {
                assert(pairs_as_map(t).dom().contains(k));
                let i = choose|i: int| 0 <= i < t.len() && t[i].0@ == k;
                assert(s[i].0@ == k);
            }
        }
        assert forall|k: Seq<char>| (exists|i: int| 0 <= i < s.len() && s[i].0@ == k) implies
            #[trigger] pairs_as_map(s).dom().contains(k) by {
            let i = choose|i: int| 0 <= i < s.len() && s[i].0@ == k;
            if i < s.len() - 1 {
                assert(t[i].0@ == k);
                assert(pairs_as_map(t).dom().contains(k));
            }
        }
    }
}

/// With unique keys, the denoted map binds each pair's digest to that
/// pair's entry.
proof fn lemma_pairs_as_map_at(s: Seq<(String, Entry)>, i: int)
    requires
        0 <= i < s.len(),
        forall|a: int, b: int| 0 <= a < b < s.len() ==> s[a].0@ != s[b].0@,
    ensures
        pairs_as_map(s).dom().contains(s[i].0@),
        pairs_as_map(s)[s[i].0@] == s[i].1@,
    decreases s.len(),
{
    let t = s.drop_last();
    if i < s.len() - 1 {
        assert forall|a: int, b: int| 0 <= a < b < t.len() implies t[a].0@ != t[b].0@ by {
            assert(s[a].0@ != s[b].0@);
        }
        lemma_pairs_as_map_at(t, i);
        assert(s[i].0@ != s[s.len() - 1].0@);
    }
}

impl View for Registry {
    type V = Map<Seq<char>, EntryView>;

    closed spec fn view(&self) -> Map<Seq<char>, EntryView> {
        pairs_as_map(self.entries@)
    }
}

impl Registry {
    /// Well-formedness: digests never repeat among the stored pairs.
    pub closed spec fn wf(&self) -> bool {
        forall|i: int, j: int|
            0 <= i < j < self.entries@.len() ==> self.entries@[i].0@ != self.entries@[j].0@
    }

    /// The stored pairs in enumeration order, as plain values.
    pub closed spec fn listing(&self) -> Seq<(Seq<char>, EntryView)> {
        Seq::new(self.entries@.len(), |i: int| (self.entries@[i].0@, self.entries@[i].1@))
    }

    /// An empty registry; the store starts empty and only registration
    /// ever adds to it.
    pub fn new() -> (r: Registry)
        ensures
            r.wf(),
            r@ == Map::<Seq<char>, EntryView>::empty(),
            r.listing() == Seq::<(Seq<char>, EntryView)>::empty(),
    {
        let r = Registry { entries: Vec::new() };
        proof {
            assert(r.listing() =~= Seq::<(Seq<char>, EntryView)>::empty());
        }
        r
    }

    /// The position of the pair carrying `digest`, if one does.
    fn position_of(&self, digest: &String) -> (r: Option<usize>)
        ensures
            match r {
                Some(i) => i < self.entries@.len() && self.entries@[i as int].0@ == digest@,
                None => forall|i: int| 0 <= i < self.entries@.len() ==> self.entries@[i].0@ != digest@,
            },
    {
        let mut i: usize = 0;
        while i < self.entries.len()
            invariant
                i <= self.entries.len(),
                forall|j: int| 0 <= j < i ==> self.entries@[j].0@ != digest@,
            decreases self.entries.len() - i,
        {
            if self.entries[i].0 == *digest {
                return Some(i);
            }
            i = i + 1;
        }
        None
    }

    /// Whether `digest` is already registered.
    pub fn contains(&self, digest: &String) -> (r: bool)
        ensures
            r == self@.dom().contains(digest@),
    {
        proof {
            lemma_pairs_as_map_dom(self.entries@);
        }
        match self.position_of(digest) {
            Some(_) => true,
            None => false,
        }
    }

    /// The sole write operation. Checks the size ceiling, then uniqueness,
    /// and only then inserts; on any failure the store is untouched. The
    /// submitter and the timestamp are the host boundary's values for the
    /// current call, handed in as arguments; the registry stores them
    /// verbatim and the caller cannot be told apart from them afterwards.
    pub fn register_hash(
        &mut self,
        hash: String,
        content: Vec<u8>,
        content_type: String,
        name: String,
        description: String,
        owner_name: String,
        owner_dob: String,
        royalty_fee: String,
        has_royalty: bool,
        contact_details: String,
        submitter: Submitter,
        created_at: u64,
    ) -> (r: Result<(), RegistryError>)
        requires
            old(self).wf(),
        ensures
            final(self).wf(),
            r is Err ==> *final(self) == *old(self),
            r == Err::<(), RegistryError>(RegistryError::ContentTooLarge) <==> content@.len()
                > MAX_CONTENT_BYTES,
            r == Err::<(), RegistryError>(RegistryError::DuplicateDigest) <==> (content@.len()
                <= MAX_CONTENT_BYTES && old(self)@.dom().contains(hash@)),
            r is Ok <==> (content@.len() <= MAX_CONTENT_BYTES && !old(self)@.dom().contains(
                hash@,
            )),
            r is Ok ==> final(self)@ == old(self)@.insert(
                hash@,
                entry_view_of(
                    submitter@,
                    created_at,
                    Some(content@),
                    content_type@,
                    name@,
                    description@,
                    owner_name@,
                    owner_dob@,
                    royalty_fee@,
                    has_royalty,
                    contact_details@,
                ),
            ),
            r is Ok ==> final(self).listing() == old(self).listing().push(
                (
                    hash@,
                    entry_view_of(
                        submitter@,
                        created_at,
                        Some(content@),
                        content_type@,
                        name@,
                        description@,
                        owner_name@,
                        owner_dob@,
                        royalty_fee@,
                        has_royalty,
                        contact_details@,
                    ),
                ),
            ),
    {
        if content.len() > MAX_CONTENT_BYTES {
            return Err(RegistryError::ContentTooLarge);
        }
        proof {
            lemma_pairs_as_map_dom(self.entries@);
        }
        match self.position_of(&hash) {
            Some(_) => Err(RegistryError::DuplicateDigest),
            None => {
                let entry = Entry {
                    submitter,
                    created_at,
                    content: Some(content),
                    content_type,
                    name,
                    description,
                    owner_name,
                    owner_dob,
                    royalty_fee,
                    has_royalty,
                    contact_details,
                };
                let ghost prior = self.entries@;
                self.entries.push((hash, entry));
                proof {
                    assert(self.entries@.drop_last() =~= prior);
                    assert(self.listing() =~= old(self).listing().push(
                        (hash@, entry@),
                    ));
                }
                Ok(())
            },
        }
    }

    /// Full lookup: the stored entry verbatim, content included; absent
    /// digests give `None`, never an error.
    pub fn get_hash_info(&self, hash: String) -> (r: Option<Entry>)
        requires
            self.wf(),
        ensures
            r is Some <==> self@.dom().contains(hash@),
            r matches Some(e) ==> e@ == self@[hash@],
    {
        proof {
            lemma_pairs_as_map_dom(self.entries@);
        }
        match self.position_of(&hash) {
            Some(i) => {
                proof {
                    lemma_pairs_as_map_at(self.entries@, i as int);
                }
                Some(self.entries[i].1.clone())
            },
            None => None,
        }
    }

    /// Metadata lookup: the stored entry with `content` forced absent and
    /// every other field identical; absent digests give `None`, never an
    /// error.
    pub fn get_hash_metadata(&self, hash: String) -> (r: Option<Entry>)
        requires
            self.wf(),
        ensures
            r is Some <==> self@.dom().contains(hash@),
            r matches Some(e) ==> e@ == strip_content(self@[hash@]),
    {
        proof {
            lemma_pairs_as_map_dom(self.entries@);
        }
        match self.position_of(&hash) {
            Some(i) => {
                proof {
                    lemma_pairs_as_map_at(self.entries@, i as int);
                }
                Some(self.entries[i].1.without_content())
            },
            None => None,
        }
    }

    /// Bulk enumeration: one pair per registered digest, in insertion
    /// order, each entry with `content` forced absent. The snapshot is
    /// complete: every registered digest appears, exactly once, and
    /// nothing else does.
    pub fn get_all_files(&self) -> (r: Vec<(String, Entry)>)
        requires
            self.wf(),
        ensures
            r@.len() == self.listing().len(),
            forall|i: int|
                0 <= i < r@.len() ==> r@[i].0@ == self.listing()[i].0 && r@[i].1@ == strip_content(
                    self.listing()[i].1,
                ),
            forall|i: int, j: int| 0 <= i < j < r@.len() ==> r@[i].0@ != r@[j].0@,
            forall|k: Seq<char>|
                #[trigger] self@.dom().contains(k) ==> exists|i: int|
                    0 <= i < r@.len() && r@[i].0@ == k,
            forall|i: int|
                0 <= i < r@.len() ==> self@.dom().contains(#[trigger] r@[i].0@) && r@[i].1@
                    == strip_content(self@[r@[i].0@]),
    {
        let mut r: Vec<(String, Entry)> = Vec::new();
        let mut i: usize = 0;
        while i < self.entries.len()
            invariant
                i <= self.entries.len(),
                r@.len() == i,
                forall|j: int|
                    0 <= j < i ==> r@[j].0@ == self.entries@[j].0@ && r@[j].1@ == strip_content(
                        self.entries@[j].1@,
                    ),
            decreases self.entries.len() - i,
        {
            let digest = self.entries[i].0.clone();
            let stripped = self.entries[i].1.without_content();
            r.push((digest, stripped));
            i = i + 1;
        }
        proof {
            lemma_pairs_as_map_dom(self.entries@);
            assert forall|k: Seq<char>| #[trigger] self@.dom().contains(k) implies exists|i: int|
                0 <= i < r@.len() && r@[i].0@ == k by {
                let i = choose|i: int| 0 <= i < self.entries@.len() && self.entries@[i].0@ == k;
                assert(r@[i].0@ == k);
            }
            assert forall|i: int| 0 <= i < r@.len() implies self@.dom().contains(
                #[trigger] r@[i].0@,
            ) && r@[i].1@ == strip_content(self@[r@[i].0@]) by {
                lemma_pairs_as_map_at(self.entries@, i);
            }
        }
        r
    }
}

/// Uniqueness and read consistency, at the level of the registry's model:
/// a successful registration binds the digest to exactly the recorded
/// entry. A later `register_hash` of the same digest therefore finds it
/// bound and, by that function's contract, fails with `DuplicateDigest`
/// and leaves the store unchanged, while `get_hash_info` returns this very
/// entry.
pub proof fn lemma_registration_binds_digest(
    m: Map<Seq<char>, EntryView>,
    d: Seq<char>,
    e: EntryView,
)
    ensures
        m.insert(d, e).dom().contains(d),
        m.insert(d, e)[d] == e,
{
}

/// No mutation path: the one state change the registry admits, inserting a
/// fresh digest, neither removes nor remaps a digest that was already
/// bound; and every failed registration leaves the store untouched by the
/// contract of `register_hash`.
pub proof fn lemma_existing_entries_unchanged(
    m: Map<Seq<char>, EntryView>,
    d: Seq<char>,
    e: EntryView,
    d0: Seq<char>,
)
    requires
        m.dom().contains(d0),
        !m.dom().contains(d),
    ensures
        d0 != d,
        m.insert(d, e).dom().contains(d0),
        m.insert(d, e)[d0] == m[d0],
{
}

} // verus!
