use std::collections::HashMap;
use unicode_normalization::UnicodeNormalization;
use vault_sync::sync_shadow::{
    canonical_key, canonical_sync_path, canonicalize_folders, decomposed_path,
    detect_vault_scope_suspect, ShadowStore, FLUSH_INTERVAL_SECS,
};

/// Writes the store through; returns what the disk holds afterwards.
fn flush(store: &mut ShadowStore, disk: Option<Vec<u8>>) -> Option<Vec<u8>> {
    match store.flush() {
        Some(bytes) => {
            store.mark_flushed();
            Some(bytes)
        }
        None => disk,
    }
}

fn file_of(pairs: &[(&str, &str)]) -> Option<Vec<u8>> {
    let mut m = HashMap::new();
    for (k, v) in pairs {
        m.insert(k.to_string(), v.to_string());
    }
    Some(serde_json::to_vec(&m).unwrap())
}

#[test]
fn load_empty_when_file_missing() {
    let store = ShadowStore::load(None);
    assert_eq!(store.get("anything.md"), None);
}

#[test]
fn record_then_get() {
    let mut store = ShadowStore::load(None);
    store.record("notes/a.md", "hash-aaa");
    assert_eq!(store.get("notes/a.md"), Some("hash-aaa".to_string()));
    store.record("notes/a.md", "hash-bbb");
    assert_eq!(store.get("notes/a.md"), Some("hash-bbb".to_string()));
    assert_eq!(store.get("notes/missing.md"), None);
}

#[test]
fn persist_then_reload_round_trip() {
    let mut store = ShadowStore::load(None);
    store.record("notes/a.md", "h-a");
    store.record("notes/b.md", "h-b");
    let disk = flush(&mut store, None);
    let reloaded = ShadowStore::load(disk);
    assert_eq!(reloaded.get("notes/a.md"), Some("h-a".to_string()));
    assert_eq!(reloaded.get("notes/b.md"), Some("h-b".to_string()));
    assert_eq!(reloaded.len(), 2);
}

#[test]
fn corrupt_file_loads_empty_no_panic() {
    let mut store = ShadowStore::load(Some(b"{{not json".to_vec()));
    assert_eq!(store.get("notes/a.md"), None);
    store.record("notes/a.md", "recovered");
    assert_eq!(store.get("notes/a.md"), Some("recovered".to_string()));
}

#[test]
fn files_that_are_no_map_of_texts_are_empty() {
    for doc in ["[]", "{\"a\":1}", "null", "{\"a\":\"b\"} x"] {
        let store = ShadowStore::load(Some(doc.as_bytes().to_vec()));
        assert!(store.is_empty(), "{doc}");
    }
    let twice = ShadowStore::load(Some(b"{\"a\":\"1\",\"a\":\"2\"}".to_vec()));
    assert_eq!(twice.get("a"), Some("2".to_string()));
}

#[test]
fn flush_is_noop_when_not_dirty() {
    let mut store = ShadowStore::load(None);
    let disk = flush(&mut store, None);
    assert!(disk.is_none(), "non-dirty flush must NOT create the file");
}

#[test]
fn flush_clears_dirty_then_second_flush_is_noop() {
    let mut store = ShadowStore::load(None);
    store.record("a.md", "h");
    let disk = flush(&mut store, None);
    assert!(disk.is_some());
    let disk = flush(&mut store, None);
    assert!(disk.is_none(), "second flush after a clean flush must be a no-op");
}

#[test]
fn canonical_sync_path_nfc_round_trip() {
    let nfc = "Notes/Cafe\u{0301}.md".nfc().collect::<String>();
    let nfd = "Notes/Cafe\u{0301}.md".nfd().collect::<String>();
    assert_ne!(nfc, nfd, "NFD and NFC byte forms must differ for the test to matter");
    assert_eq!(
        canonical_sync_path(&nfc),
        canonical_sync_path(&nfd),
        "NFD input must canonicalize to the same key as NFC input"
    );
    assert_eq!(canonical_sync_path(&nfd), "Notes/Caf\u{e9}.md");
}

#[test]
fn canonical_sync_path_folds_backslashes() {
    assert_eq!(canonical_sync_path("Notes\\sub\\x.md"), "Notes/sub/x.md");
}

#[test]
fn canonical_paths_are_canonical_already() {
    for p in ["a/b.md", "Caf\u{e9}\\x", "Cafe\u{301}/\u{ac00}", "\u{1e0b}\u{323}", ""] {
        let once = canonical_sync_path(p);
        assert_eq!(canonical_sync_path(&once), once);
    }
}

#[test]
fn vault_folders_are_stripped_from_keys() {
    let folders = canonicalize_folders(&["Mainframe".to_string(), "A\\B".to_string(), "".to_string()]);
    assert_eq!(folders, vec!["Mainframe", "A/B"]);
    assert_eq!(canonical_key(&folders, "Mainframe/x.md"), "x.md");
    assert_eq!(canonical_key(&folders, "Mainframe\\x.md"), "x.md");
    assert_eq!(canonical_key(&folders, "Mainframes/x.md"), "Mainframes/x.md");
    assert_eq!(canonical_key(&folders, "Mainframe"), "Mainframe");
    assert_eq!(canonical_key(&folders, "Mainframe/Mainframe/x.md"), "Mainframe/x.md");
    assert_eq!(FLUSH_INTERVAL_SECS, 30);
}

#[test]
fn shadow_record_get_normalization_invariant() {
    let mut store = ShadowStore::load(None);
    let nfd = "Notes/Cafe\u{0301}.md".nfd().collect::<String>();
    let nfc = "Notes/Cafe\u{0301}.md".nfc().collect::<String>();
    store.record(&nfd, "hash-nfd");
    assert_eq!(store.get(&nfc), Some("hash-nfd".to_string()));
    store.record(&nfc, "hash-nfc");
    assert_eq!(store.get(&nfd), Some("hash-nfc".to_string()));
}

#[test]
fn load_migrates_vault_prefixed_keys_to_sync_root_relative() {
    let disk = file_of(&[
        ("Mainframe/01_Notes/legacy.md", "h-legacy"),
        ("01_Notes/current.md", "h-current"),
    ]);
    let store = ShadowStore::load_with_vault_folders(disk, vec!["Mainframe".into()]);
    assert_eq!(
        store.get("01_Notes/legacy.md"),
        Some("h-legacy".to_string()),
        "prefixed key must be readable via the sync-root-relative shape"
    );
    assert_eq!(store.get("01_Notes/current.md"), Some("h-current".to_string()));
    assert!(store.flush().is_some(), "the re-keyed map is to be written");
}

#[test]
fn vault_prefix_migration_current_value_wins_on_collision() {
    let disk = file_of(&[("Mainframe/x.md", "h-legacy"), ("x.md", "h-current")]);
    let store = ShadowStore::load_with_vault_folders(disk, vec!["Mainframe".into()]);
    assert_eq!(store.get("x.md"), Some("h-current".to_string()));
    assert_eq!(
        store.get("Mainframe/x.md"),
        Some("h-current".to_string()),
        "prefixed lookup must alias to the same canonical entry"
    );
}

#[test]
fn record_get_invariant_across_vault_prefix_shapes() {
    let mut store = ShadowStore::load_with_vault_folders(None, vec!["Mainframe".into()]);
    store.record("Mainframe/01_Notes/y.md", "h1");
    assert_eq!(store.get("01_Notes/y.md"), Some("h1".to_string()));
    store.record("01_Notes/y.md", "h2");
    assert_eq!(store.get("Mainframe/01_Notes/y.md"), Some("h2".to_string()));
}

#[test]
fn plain_load_leaves_prefixed_keys_untouched() {
    let store = ShadowStore::load(file_of(&[("Mainframe/x.md", "h")]));
    assert_eq!(store.get("Mainframe/x.md"), Some("h".to_string()));
    assert_eq!(store.get("x.md"), None);
}

#[test]
fn load_migrates_nfd_keys_to_nfc() {
    let nfd = "Notes/Cafe\u{0301}.md".nfd().collect::<String>();
    let nfc = "Notes/Cafe\u{0301}.md".nfc().collect::<String>();
    let store = ShadowStore::load(file_of(&[(nfd.as_str(), "h")]));
    assert_eq!(store.get(&nfc), Some("h".to_string()));
}

#[test]
fn detect_vault_scope_suspect_matrix() {
    let prefixed = ["Mainframe/01_Notes/x.md", "Mainframe/y.md"];
    let flat = ["x.md", "y.md"];
    assert_eq!(detect_vault_scope_suspect(&[], &prefixed), Some(2));
    assert_eq!(detect_vault_scope_suspect(&[], &flat), None);
    assert_eq!(
        detect_vault_scope_suspect(&["Mainframe".to_string()], &prefixed),
        None
    );
    assert_eq!(detect_vault_scope_suspect(&[], &[]), None);
}

#[test]
fn shadow_store_flags_and_clears_suspect_scope() {
    let disk = file_of(&[("Mainframe/01_Notes/x.md", "h")]);
    let suspect = ShadowStore::load_with_vault_folders(disk.clone(), vec![]);
    assert!(suspect.vault_scope_suspect());
    let ok = ShadowStore::load_with_vault_folders(disk, vec!["Mainframe".into()]);
    assert!(!ok.vault_scope_suspect());
}

#[test]
fn canonical_paths_are_fixed_points_in_every_form() {
    for n in 1..0x30000u32 {
        let c = match char::from_u32(n) {
            Some(c) => c,
            None => continue,
        };
        let alone = c.to_string();
        assert!(!canonical_sync_path(&alone).is_empty(), "{n:x}");
        let s = format!("a\\{c}\u{0301}/{c}");
        let r = canonical_sync_path(&s);
        assert!(!r.contains('\\'), "{n:x}");
        assert_eq!(canonical_sync_path(&r), r, "{n:x}");
        assert_eq!(canonical_sync_path(&s.nfd().collect::<String>()), r, "{n:x}");
        assert_eq!(canonical_sync_path(&s.nfc().collect::<String>()), r, "{n:x}");
        for part in r.split('/') {
            assert_eq!(canonical_sync_path(part), part, "{n:x}");
        }
    }
    assert_eq!(canonical_sync_path(""), "");
}

#[test]
fn a_new_path_makes_the_store_one_larger() {
    let mut store = ShadowStore::load_with_vault_folders(None, vec!["Mainframe".into()]);
    assert_eq!(store.len(), 0);
    store.record("Mainframe/x.md", "h1");
    assert_eq!(store.len(), 1);
    store.record("x.md", "h2");
    assert_eq!(store.len(), 1);
    store.record("y.md", "h3");
    assert_eq!(store.len(), 2);
}

#[test]
fn folders_without_a_name_do_not_clear_suspicion() {
    let disk = file_of(&[("Mainframe\\x.md", "h")]);
    let mut s = ShadowStore::load_with_vault_folders(disk.clone(), vec!["".into(), "".into()]);
    assert!(s.vault_scope_suspect());
    s.record("flat.md", "h2");
    assert!(s.vault_scope_suspect(), "the flag is fixed at load");
    let named = ShadowStore::load_with_vault_folders(disk, vec!["".into(), "Other".into()]);
    assert!(!named.vault_scope_suspect());
    let mut none = ShadowStore::load_with_vault_folders(None, vec![]);
    assert!(!none.vault_scope_suspect());
    none.record("a/b.md", "h");
    assert!(!none.vault_scope_suspect());
}

#[test]
fn a_doubled_vault_folder_is_stripped_again_at_load() {
    let mut s = ShadowStore::load_with_vault_folders(None, vec!["V".into()]);
    s.record("V/V/x.md", "h");
    assert_eq!(s.get("V/V/x.md"), Some("h".to_string()));
    assert_eq!(s.get("x.md"), None);
    let again = ShadowStore::load_with_vault_folders(s.flush(), vec!["V".into()]);
    assert_eq!(again.get("x.md"), Some("h".to_string()));
}

#[test]
fn a_decomposed_path_has_the_same_canonical_form() {
    let composed = "notes/Caf\u{e9}.md";
    let split = decomposed_path(composed);
    assert_eq!(split, "notes/Cafe\u{301}.md");
    assert_eq!(canonical_sync_path(&split), canonical_sync_path(composed));
    assert_eq!(decomposed_path("a/b.md"), "a/b.md");
    assert_eq!(decomposed_path(&split), split);
}
