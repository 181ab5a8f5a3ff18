use vstd::prelude::*;

verus! {

/// Largest number of content bytes a single entry may carry: 2 MiB, inclusive.
pub const MAX_CONTENT_BYTES: usize = 2 * 1024 * 1024;

/// Why a registration was refused. Both kinds are caller-input errors,
/// detected before any state change.
#[derive(Clone, Copy, Debug, PartialEq, Eq, Structural)]
pub enum RegistryError {
    /// The digest is already a key of the registry.
    DuplicateDigest,
    /// The supplied content exceeds [`MAX_CONTENT_BYTES`].
    ContentTooLarge,
}

/// Opaque identity of the party that registers an entry, as the host
/// boundary supplies it. The registry never inspects or validates it;
/// it only stores it alongside the entry.
pub struct Submitter {
    pub id: Vec<u8>,
}

impl View for Submitter {
    type V = Seq<u8>;

    open spec fn view(&self) -> Seq<u8> {
        self.id@
    }
}

impl Clone for Submitter {
    fn clone(&self) -> (r: Self)
        ensures
            r@ == self@,
    {
        let id = clone_bytes(&self.id);
        Submitter { id }
    }
}

/// One registered record: the platform-assigned submitter and timestamp,
/// the optional content bytes, and the caller-supplied descriptive fields.
/// An entry is created exactly once and never mutated afterwards.
pub struct Entry {
    pub submitter: Submitter,
    pub created_at: u64,
    pub content: Option<Vec<u8>>,
    pub content_type: String,
    pub name: String,
    pub description: String,
    pub owner_name: String,
    pub owner_dob: String,
    pub royalty_fee: String,
    pub has_royalty: bool,
    pub contact_details: String,
}

/// Mathematical model of an [`Entry`]: every field as a plain value.
pub ghost struct EntryView {
    pub submitter: Seq<u8>,
    pub created_at: u64,
    pub content: Option<Seq<u8>>,
    pub content_type: Seq<char>,
    pub name: Seq<char>,
    pub description: Seq<char>,
    pub owner_name: Seq<char>,
    pub owner_dob: Seq<char>,
    pub royalty_fee: Seq<char>,
    pub has_royalty: bool,
    pub contact_details: Seq<char>,
}

impl View for Entry {
    type V = EntryView;

    open spec fn view(&self) -> EntryView {
        EntryView {
            submitter: self.submitter@,
            created_at: self.created_at,
            content: match self.content {
                Some(c) => Some(c@),
                None => None,
            },
            content_type: self.content_type@,
            name: self.name@,
            description: self.description@,
            owner_name: self.owner_name@,
            owner_dob: self.owner_dob@,
            royalty_fee: self.royalty_fee@,
            has_royalty: self.has_royalty,
            contact_details: self.contact_details@,
        }
    }
}

/// The entry that a successful registration records, assembled from the
/// caller's inputs and the two platform-supplied values.
pub open spec fn entry_view_of(
    submitter: Seq<u8>,
    created_at: u64,
    content: Option<Seq<u8>>,
    content_type: Seq<char>,
    name: Seq<char>,
    description: Seq<char>,
    owner_name: Seq<char>,
    owner_dob: Seq<char>,
    royalty_fee: Seq<char>,
    has_royalty: bool,
    contact_details: Seq<char>,
) -> EntryView {
    EntryView {
        submitter,
        created_at,
        content,
        content_type,
        name,
        description,
        owner_name,
        owner_dob,
        royalty_fee,
        has_royalty,
        contact_details,
    }
}

/// The same entry with its content forced absent: what the metadata reads
/// and the bulk enumeration hand out.
pub open spec fn strip_content(e: EntryView) -> EntryView {
    EntryView { content: None, ..e }
}

/// Read consistency of the metadata shape: stripping forces the content
/// absent and touches nothing else — submitter, timestamp and every
/// descriptive field come back identical.
pub proof fn lemma_strip_content_keeps_other_fields(e: EntryView)
    ensures
        strip_content(e).content is None,
        strip_content(e).submitter == e.submitter,
        strip_content(e).created_at == e.created_at,
        strip_content(e).content_type == e.content_type,
        strip_content(e).name == e.name,
        strip_content(e).description == e.description,
        strip_content(e).owner_name == e.owner_name,
        strip_content(e).owner_dob == e.owner_dob,
        strip_content(e).royalty_fee == e.royalty_fee,
        strip_content(e).has_royalty == e.has_royalty,
        strip_content(e).contact_details == e.contact_details,
{
}

impl Clone for Entry {
    fn clone(&self) -> (r: Self)
        ensures
            r@ == self@,
    {
        let content = match &self.content {
            Some(c) => Some(clone_bytes(c)),
            None => None,
        };
        Entry {
            submitter: self.submitter.clone(),
            created_at: self.created_at,
            content,
            content_type: self.content_type.clone(),
            name: self.name.clone(),
            description: self.description.clone(),
            owner_name: self.owner_name.clone(),
            owner_dob: self.owner_dob.clone(),
            royalty_fee: self.royalty_fee.clone(),
            has_royalty: self.has_royalty,
            contact_details: self.contact_details.clone(),
        }
    }
}

impl Entry {
    /// A copy of this entry with `content` absent and every other field equal.
    pub fn without_content(&self) -> (r: Entry)
        ensures
            r@ == strip_content(self@),
    {
        Entry {
            submitter: self.submitter.clone(),
            created_at: self.created_at,
            content: None,
            content_type: self.content_type.clone(),
            name: self.name.clone(),
            description: self.description.clone(),
            owner_name: self.owner_name.clone(),
            owner_dob: self.owner_dob.clone(),
            royalty_fee: self.royalty_fee.clone(),
            has_royalty: self.has_royalty,
            contact_details: self.contact_details.clone(),
        }
    }
}

fn clone_bytes(v: &Vec<u8>) -> (r: Vec<u8>)
    ensures
        r@ == v@,
{
    let r = v.clone();
    proof {
        assert(r@ =~= v@);
    }
    r
}

} // verus!
