use proofnest::entry::Entry;
use proofnest::entry::RegistryError;
use proofnest::entry::Submitter;
use proofnest::entry::MAX_CONTENT_BYTES;
use proofnest::registry::Registry;

fn register(
    r: &mut Registry,
    hash: &str,
    content: Vec<u8>,
    submitter: Vec<u8>,
    created_at: u64,
) -> Result<(), RegistryError> {
    r.register_hash(
        hash.to_string(),
        content,
        "application/octet-stream".to_string(),
        "a file".to_string(),
        "a description".to_string(),
        "an owner".to_string(),
        "1990-05-06".to_string(),
        "0%".to_string(),
        false,
        "owner@example.com".to_string(),
        Submitter { id: submitter },
        created_at,
    )
}

fn field_by_field(e: &Entry, other: &Entry) -> bool {
    e.submitter.id == other.submitter.id
        && e.created_at == other.created_at
        && e.content == other.content
        && e.content_type == other.content_type
        && e.name == other.name
        && e.description == other.description
        && e.owner_name == other.owner_name
        && e.owner_dob == other.owner_dob
        && e.royalty_fee == other.royalty_fee
        && e.has_royalty == other.has_royalty
        && e.contact_details == other.contact_details
}

#[test]
fn scenario_register_then_read_then_duplicate() {
    let mut r = Registry::new();
    let first = r.register_hash(
        "h1".to_string(),
        b"abc".to_vec(),
        "text/plain".to_string(),
        "doc1".to_string(),
        "desc".to_string(),
        "Alice".to_string(),
        "2000-01-01".to_string(),
        "5%".to_string(),
        true,
        "a@x.com".to_string(),
        Submitter { id: vec![9, 9, 9] },
        1_000_000,
    );
    assert_eq!(first, Ok(()));

    let meta = r.get_hash_metadata("h1".to_string()).expect("registered digest");
    assert_eq!(meta.content, None);
    assert_eq!(meta.content_type, "text/plain");
    assert_eq!(meta.name, "doc1");
    assert_eq!(meta.description, "desc");
    assert_eq!(meta.owner_name, "Alice");
    assert_eq!(meta.owner_dob, "2000-01-01");
    assert_eq!(meta.royalty_fee, "5%");
    assert!(meta.has_royalty);
    assert_eq!(meta.contact_details, "a@x.com");
    assert_eq!(meta.submitter.id, vec![9, 9, 9]);
    assert_eq!(meta.created_at, 1_000_000);

    let again = r.register_hash(
        "h1".to_string(),
        b"entirely different".to_vec(),
        "image/png".to_string(),
        "other".to_string(),
        "other".to_string(),
        "Bob".to_string(),
        "1999-12-31".to_string(),
        "9%".to_string(),
        false,
        "b@y.org".to_string(),
        Submitter { id: vec![1] },
        2_000_000,
    );
    assert_eq!(again, Err(RegistryError::DuplicateDigest));
}

#[test]
fn uniqueness_keeps_first_entry_unchanged() {
    let mut r = Registry::new();
    assert_eq!(register(&mut r, "d", b"payload".to_vec(), vec![1, 2], 10), Ok(()));
    let before = r.get_hash_info("d".to_string()).expect("registered digest");

    assert_eq!(
        register(&mut r, "d", b"other payload".to_vec(), vec![3, 4], 20),
        Err(RegistryError::DuplicateDigest)
    );
    let after = r.get_hash_info("d".to_string()).expect("still registered");
    assert!(field_by_field(&before, &after));
    assert_eq!(after.content, Some(b"payload".to_vec()));
    assert_eq!(after.submitter.id, vec![1, 2]);
    assert_eq!(after.created_at, 10);
}

#[test]
fn size_ceiling_at_limit_succeeds() {
    let mut r = Registry::new();
    let content = vec![7u8; 2 * 1024 * 1024];
    assert_eq!(register(&mut r, "big", content.clone(), vec![5], 3), Ok(()));
    let full = r.get_hash_info("big".to_string()).expect("registered digest");
    assert_eq!(full.content, Some(content));
}

#[test]
fn size_ceiling_above_limit_fails_and_inserts_nothing() {
    let mut r = Registry::new();
    let content = vec![7u8; 2 * 1024 * 1024 + 1];
    assert_eq!(
        register(&mut r, "big", content, vec![5], 3),
        Err(RegistryError::ContentTooLarge)
    );
    assert!(r.get_hash_info("big".to_string()).is_none());
    assert!(r.get_hash_metadata("big".to_string()).is_none());
    assert!(!r.contains(&"big".to_string()));
    assert!(r.get_all_files().is_empty());
}

#[test]
fn max_content_bytes_is_two_mebibytes() {
    assert_eq!(MAX_CONTENT_BYTES, 2 * 1024 * 1024);
}

#[test]
fn read_consistency_full_and_metadata() {
    let mut r = Registry::new();
    let res = r.register_hash(
        "digest-1".to_string(),
        vec![0, 1, 2, 3],
        "application/pdf".to_string(),
        "thesis".to_string(),
        "final draft".to_string(),
        "Carol".to_string(),
        "1985-03-14".to_string(),
        "2.5%".to_string(),
        true,
        "carol@example.net".to_string(),
        Submitter { id: vec![42] },
        999,
    );
    assert_eq!(res, Ok(()));

    let full = r.get_hash_info("digest-1".to_string()).expect("registered digest");
    assert_eq!(full.submitter.id, vec![42]);
    assert_eq!(full.created_at, 999);
    assert_eq!(full.content, Some(vec![0, 1, 2, 3]));
    assert_eq!(full.content_type, "application/pdf");
    assert_eq!(full.name, "thesis");
    assert_eq!(full.description, "final draft");
    assert_eq!(full.owner_name, "Carol");
    assert_eq!(full.owner_dob, "1985-03-14");
    assert_eq!(full.royalty_fee, "2.5%");
    assert!(full.has_royalty);
    assert_eq!(full.contact_details, "carol@example.net");

    let meta = r.get_hash_metadata("digest-1".to_string()).expect("registered digest");
    assert_eq!(meta.content, None);
    let mut full_stripped = full;
    full_stripped.content = None;
    assert!(field_by_field(&meta, &full_stripped));
}

#[test]
fn absence_reads_return_none_not_error() {
    let mut r = Registry::new();
    assert!(r.get_hash_info("never".to_string()).is_none());
    assert!(r.get_hash_metadata("never".to_string()).is_none());
    assert!(!r.contains(&"never".to_string()));

    assert_eq!(register(&mut r, "present", vec![], vec![], 1), Ok(()));
    assert!(r.get_hash_info("still-absent".to_string()).is_none());
    assert!(r.get_hash_metadata("still-absent".to_string()).is_none());
}

#[test]
fn enumeration_is_complete_and_strips_content() {
    let mut r = Registry::new();
    assert_eq!(register(&mut r, "a", b"one".to_vec(), vec![1], 1), Ok(()));
    assert_eq!(register(&mut r, "b", b"two".to_vec(), vec![2], 2), Ok(()));
    assert_eq!(register(&mut r, "c", b"three".to_vec(), vec![3], 3), Ok(()));

    let all = r.get_all_files();
    assert_eq!(all.len(), 3);
    let mut keys: Vec<&str> = all.iter().map(|(k, _)| k.as_str()).collect();
    keys.sort();
    assert_eq!(keys, vec!["a", "b", "c"]);
    for (_, entry) in &all {
        assert_eq!(entry.content, None);
    }
    let timestamps: Vec<u64> = {
        let mut ts: Vec<u64> = all.iter().map(|(_, e)| e.created_at).collect();
        ts.sort();
        ts
    };
    assert_eq!(timestamps, vec![1, 2, 3]);
}

#[test]
fn enumeration_of_empty_registry_is_empty() {
    let r = Registry::new();
    assert!(r.get_all_files().is_empty());
}

#[test]
fn empty_content_registers_fine() {
    let mut r = Registry::new();
    assert_eq!(register(&mut r, "empty", vec![], vec![0], 5), Ok(()));
    let full = r.get_hash_info("empty".to_string()).expect("registered digest");
    assert_eq!(full.content, Some(vec![]));
}

#[test]
fn oversize_rejection_precedes_duplicate_check() {
    let mut r = Registry::new();
    assert_eq!(register(&mut r, "k", vec![1], vec![1], 1), Ok(()));
    let huge = vec![0u8; 2 * 1024 * 1024 + 1];
    assert_eq!(
        register(&mut r, "k", huge, vec![1], 2),
        Err(RegistryError::ContentTooLarge)
    );
}

#[test]
fn entry_without_content_strips_only_content() {
    let entry = Entry {
        submitter: Submitter { id: vec![8] },
        created_at: 77,
        content: Some(vec![1, 2, 3]),
        content_type: "text/plain".to_string(),
        name: "n".to_string(),
        description: "d".to_string(),
        owner_name: "o".to_string(),
        owner_dob: "2001-02-03".to_string(),
        royalty_fee: "1%".to_string(),
        has_royalty: false,
        contact_details: "c".to_string(),
    };
    let stripped = entry.without_content();
    assert_eq!(stripped.content, None);
    let mut expected = entry.clone();
    expected.content = None;
    assert!(field_by_field(&stripped, &expected));
}
