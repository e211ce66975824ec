use sha2::{Digest, Sha256};
use vault_sync::digest::sha256_hex;
use vault_sync::read_receipt::{verify_receipt, ReadReceiptStore, Receipt};

fn sha_of(s: &str) -> String {
    hex::encode(Sha256::digest(s.as_bytes()))
}

#[test]
fn digests_are_the_published_ones() {
    assert_eq!(
        sha256_hex(b""),
        "e3b0c44298fc1c149afbf4c8996fb92427ae41e4649b934ca495991b7852b855"
    );
    assert_eq!(
        sha256_hex(b"abc"),
        "ba7816bf8f01cfea414140de5dae2223b00361a396177a9cb410ff61f20015ad"
    );
}

#[test]
fn verify_receipt_accepts_matching_body_and_head() {
    let body = b"server head bytes";
    let sha = sha_of("server head bytes");
    let r = verify_receipt(body, &sha, Some(&sha), Some(42)).expect("should verify");
    assert_eq!(r.revision_seq, 42);
    assert_eq!(r.body_sha, sha);
}

#[test]
fn verify_receipt_rejects_hash_mismatch_forgery_hazard() {
    let body = b"tampered or wrong body";
    let declared = sha_of("the real server body");
    assert_eq!(verify_receipt(body, &declared, None, Some(42)), None);
}

#[test]
fn verify_receipt_rejects_head_mismatch() {
    let body = b"a body";
    let sha = sha_of("a body");
    let other = sha_of("some other head");
    assert_eq!(verify_receipt(body, &sha, Some(&other), Some(7)), None);
}

#[test]
fn verify_receipt_rejects_missing_revision_seq() {
    let body = b"a body";
    let sha = sha_of("a body");
    assert_eq!(verify_receipt(body, &sha, None, None), None);
}

#[test]
fn record_verified_roundtrips_and_persists() {
    let sha = sha_of("body");
    let mut s = ReadReceiptStore::load(None);
    let r = verify_receipt(b"body", &sha, None, Some(99)).unwrap();
    s.record_verified("01_Notes/x.md", r);
    assert_eq!(s.get("01_Notes/x.md").unwrap().revision_seq, 99);
    let disk = s.flush().unwrap().clone();
    s.mark_flushed();
    assert!(s.flush().is_none());
    let s2 = ReadReceiptStore::load(Some(disk));
    let got = s2.get("01_Notes/x.md").expect("survives restart");
    assert_eq!(got.revision_seq, 99);
    assert_eq!(got.body_sha, sha);
}

#[test]
fn keys_are_vault_prefix_invariant() {
    let mut s = ReadReceiptStore::load_with_vault_folders(None, vec!["Mainframe".into()]);
    let sha = sha_of("b");
    s.record_verified(
        "Mainframe/01_Notes/x.md",
        verify_receipt(b"b", &sha, None, Some(3)).unwrap(),
    );
    assert_eq!(s.get("01_Notes/x.md").unwrap().revision_seq, 3);
    s.remove("01_Notes/x.md");
    assert_eq!(s.get("Mainframe/01_Notes/x.md"), None);
    assert!(s.is_empty());
}

#[test]
fn corrupt_file_loads_empty_not_panic() {
    let s = ReadReceiptStore::load(None);
    assert!(s.is_empty());
    assert_eq!(s.get("anything.md"), None);
}

#[test]
fn files_from_before_the_key_form_are_rekeyed() {
    let old = vec![
        ("Mainframe\\x.md".to_string(), Receipt { revision_seq: 1, body_sha: "a".to_string() }),
        ("y.md".to_string(), Receipt { revision_seq: 2, body_sha: "b".to_string() }),
    ];
    let s = ReadReceiptStore::load_with_vault_folders(Some(old), vec!["Mainframe".to_string()]);
    assert_eq!(s.len(), 2);
    assert_eq!(s.get("x.md").unwrap().revision_seq, 1);
    assert_eq!(s.get("Mainframe/y.md").unwrap().revision_seq, 2);
}

#[test]
fn a_flushed_store_answers_as_before_in_any_order() {
    let folders = || vec!["Mainframe".to_string()];
    let mut s = ReadReceiptStore::load_with_vault_folders(None, folders());
    for (n, path) in ["Mainframe/a.md", "b/c.md", "Caf\u{e9}.md"].iter().enumerate() {
        let sha = sha_of(path);
        let r = verify_receipt(path.as_bytes(), &sha, None, Some(n as i64)).unwrap();
        s.record_verified(path, r);
        assert_eq!(s.len(), n + 1);
    }
    let mut pairs: Vec<(String, Receipt)> = s.flush().unwrap().clone();
    pairs.reverse();
    let s2 = ReadReceiptStore::load_with_vault_folders(Some(pairs), folders());
    assert!(s2.flush().is_none(), "nothing was re-keyed");
    for path in ["a.md", "Mainframe/a.md", "b\\c.md", "Cafe\u{0301}.md", "none.md"] {
        assert_eq!(s2.get(path), s.get(path), "{path}");
    }
}
