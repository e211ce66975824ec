use sha2::{Digest, Sha256};
use std::collections::BTreeMap;
use vault_sync::base_seq_store::BaseSeqStore;
use vault_sync::materializer::{
    body_after_frontmatter_normalized, classify_guard_arm, classify_write, decide, deleted_name,
    deleted_stamp, guard_no_frontmatter_strip, serialize_with_frontmatter,
    server_lines_contained_in_local, starts_with_frontmatter, with_front_block, AlignOutcome,
    ConflictPolicy, Decision, Frontmatter, GuardArm, IntegrityVerdict, MaterializeOutcome,
    Materializer, MaterializerConfig, MaterializerError, MaterializerMode, NotePayload,
    SkipReason, StashRequest, WritePlan, WriteStart, WriteVerdict,
};
use vault_sync::paths::PathStyle;
use vault_sync::push_journal::{JournalFile, PushAction, PushEvent, PushJournal};
use vault_sync::sync_shadow::ShadowStore;
use vault_sync::tray_state::TrayState;

const VAULT: &str = "Mainframe";
const SLUG: &str = "subscriber-test";
const SEC: u128 = 1_000_000_000;

/// A disk, a clock and a journal file.
struct World {
    files: BTreeMap<String, Vec<u8>>,
    now: u128,
    secs: i64,
    nanos: u32,
    journal: JournalFile,
}

impl World {
    fn new() -> World {
        World {
            files: BTreeMap::new(),
            now: 1_000 * SEC,
            secs: 1_780_000_000,
            nanos: 123,
            journal: JournalFile { lines: Vec::new(), bytes: 0, terminated: true },
        }
    }

    fn put(&mut self, path: &str, text: &str) {
        self.files.insert(path.to_string(), text.as_bytes().to_vec());
    }

    fn text(&self, path: &str) -> String {
        String::from_utf8(self.files[path].clone()).unwrap()
    }

    fn names_in(&self, dir: &str) -> Vec<String> {
        let prefix = format!("{dir}/");
        self.files
            .keys()
            .filter_map(|p| p.strip_prefix(&prefix))
            .filter(|n| !n.contains('/'))
            .map(|n| n.to_string())
            .collect()
    }

    fn conflict_copies(&self, dir: &str) -> Vec<String> {
        self.names_in(dir).into_iter().filter(|n| n.contains(".conflict-from-")).collect()
    }

    fn count_by_prefix(&self, dir: &str, prefix: &str) -> usize {
        self.names_in(dir).iter().filter(|n| n.starts_with(prefix)).count()
    }

    /// Sets bytes aside beside their note; a copy with the same bytes is reused.
    fn stash(&mut self, root: &str, req: &StashRequest, bytes: &[u8]) -> String {
        assert_eq!(req.local_sha, sha256_hex_bytes(bytes), "the request names the bytes");
        let stem = req.path.strip_suffix(".md").unwrap();
        let family = format!("{root}/{stem}.conflict-from-{}-", req.device_id);
        for (p, b) in &self.files {
            if p.starts_with(&family) && b == bytes {
                return p.clone();
            }
        }
        let mut path = format!("{family}{}.md", req.seq);
        let mut n = 2;
        while self.files.contains_key(&path) {
            path = format!("{family}{}-{n}.md", req.seq);
            n += 1;
        }
        self.files.insert(path.clone(), bytes.to_vec());
        path
    }
}

fn sha256_hex_bytes(b: &[u8]) -> String {
    hex::encode(Sha256::digest(b))
}

fn sha256_hex(s: &str) -> String {
    sha256_hex_bytes(s.as_bytes())
}

fn default_cfg() -> MaterializerConfig {
    MaterializerConfig { device_id: "morpheus".into(), ..Default::default() }
}

fn mk(mode: MaterializerMode, cfg: MaterializerConfig) -> (World, Materializer) {
    let m = Materializer::new(
        "/vaults".to_string(),
        Some("shadow/".to_string()),
        mode,
        "/ws".to_string(),
        SLUG.to_string(),
        cfg,
    );
    (World::new(), m)
}

fn object(json: &str) -> Frontmatter {
    let v: serde_json::Value = serde_json::from_str(json).unwrap();
    Frontmatter::Object {
        fields: v.as_object().unwrap().len(),
        json: serde_json::to_string(&v).unwrap(),
    }
}

fn yaml(json: &str) -> String {
    let v: serde_json::Value = serde_json::from_str(json).unwrap();
    serde_yaml::to_string(&v).unwrap()
}

fn payload(path: &str, body: &str) -> NotePayload {
    let prefixed = if path.starts_with("../") || path.starts_with(&format!("{VAULT}/")) {
        path.to_string()
    } else {
        format!("{VAULT}/{path}")
    };
    let fm = "{\"title\": \"Test\", \"tags\": [\"a\", \"b\"]}";
    let serialized = format!("---\n{}---\n\n{body}", yaml(fm));
    NotePayload {
        path: prefixed,
        frontmatter: object(fm),
        body: body.into(),
        sha256: sha256_hex(&serialized),
        change_seq: None,
        enriched_body: Some(serialized),
    }
}

fn payload_with_bad_sha(path: &str, body: &str) -> NotePayload {
    let mut p = payload(path, body);
    p.sha256 = "0".repeat(64);
    p
}

fn plain_payload(path: &str, body: &str) -> NotePayload {
    NotePayload {
        path: path.to_string(),
        frontmatter: object("{}"),
        body: body.into(),
        sha256: sha256_hex(body),
        change_seq: None,
        enriched_body: Some(body.to_string()),
    }
}

/// Carries a pull through all its steps.
fn write_seq(
    m: &mut Materializer,
    w: &mut World,
    p: &NotePayload,
    seq: u64,
) -> Result<MaterializeOutcome, MaterializerError> {
    let pending = match m.begin_write(p)? {
        WriteStart::Skip(reason) => return Ok(MaterializeOutcome::Skipped(reason)),
        WriteStart::Ready(pending) => pending,
    };
    let local = w.files.get(&pending.target).cloned();
    let plan = m.write_with_change_seq(p, seq, &pending.content, local.as_deref(), w.now);
    match plan {
        WritePlan::Skip(reason) => Ok(MaterializeOutcome::Skipped(reason)),
        WritePlan::PushUp { local_sha } => {
            let e: PushEvent =
                m.compensating_push(p, &local_sha, "1-1".to_string(), "now".to_string());
            let mut j = PushJournal::open(&w.journal);
            let ok = j.append(&mut w.journal, e, "{}".to_string()).is_ok();
            Ok(Materializer::finish_push_up(ok))
        }
        WritePlan::Pull { stash, aligned } => {
            let stash_path =
                stash.map(|req| w.stash(&m.active_root(), &req, &local.unwrap()));
            w.files.insert(pending.target.clone(), pending.content.clone());
            let on_disk = sha256_hex_bytes(&w.files[&pending.target]);
            let check = if on_disk == p.sha256 {
                IntegrityVerdict::Matches
            } else {
                IntegrityVerdict::ShaMismatch { actual_prefix: on_disk[..12].to_string() }
            };
            Ok(m.finish_write(p, pending.target, pending.content_sha, stash_path, aligned, check))
        }
    }
}

fn write(
    m: &mut Materializer,
    w: &mut World,
    p: &NotePayload,
) -> Result<MaterializeOutcome, MaterializerError> {
    write_seq(m, w, p, 0)
}

fn soft_delete(m: &mut Materializer, w: &mut World, path: &str) -> Result<(), MaterializerError> {
    let target = match m.soft_delete(path)? {
        Some(target) => target,
        None => return Ok(()),
    };
    let bytes = match w.files.get(&target) {
        Some(bytes) => bytes.clone(),
        None => return Ok(()),
    };
    if let Some(req) = m.stash_local_before_delete(path, Some(&bytes)) {
        w.stash(&m.active_root(), &req, &bytes);
    }
    let (dir, name) = target.rsplit_once('/').unwrap();
    let stamp = deleted_stamp(w.secs).unwrap();
    let kept = deleted_name(name, &stamp, w.nanos, &w.names_in(dir));
    w.files.remove(&target);
    w.files.insert(format!("{dir}/{kept}"), bytes);
    Ok(())
}

fn write_aligned(
    m: &mut Materializer,
    w: &mut World,
    rel: &str,
    canonical: &[u8],
    canonical_sha: &str,
    expected_local_sha: &str,
) -> Result<AlignOutcome, MaterializerError> {
    let target = match m.begin_aligned_write(rel)? {
        Some(target) => target,
        None => return Ok(AlignOutcome::SkippedDisabled),
    };
    let current = w.files.get(&target).cloned();
    match Materializer::write_aligned_bytes(canonical, expected_local_sha, current.as_deref()) {
        Some(outcome) => Ok(outcome),
        None => {
            w.files.insert(target.clone(), canonical.to_vec());
            Ok(m.finish_aligned_write(rel, canonical_sha, target))
        }
    }
}

fn shadow_of(m: &Materializer, path: &str) -> Option<String> {
    m.stores.shadow_get(path)
}

fn seq_of(m: &Materializer, path: &str) -> Option<i64> {
    m.stores.seq_get(path)
}

fn tray() -> TrayState {
    TrayState::new("sub".into(), "https://x".into(), "/v".into())
}

fn mk_with_shadow(mode: MaterializerMode) -> (World, Materializer) {
    let (w, m) = mk(mode, default_cfg());
    (w, m.with_shadow_store(ShadowStore::load(None)))
}

fn mk_with_stores(mode: MaterializerMode) -> (World, Materializer) {
    let (w, m) = mk(mode, default_cfg());
    let folders = vec![VAULT.to_string()];
    let m = m
        .with_shadow_store(ShadowStore::load_with_vault_folders(None, folders.clone()))
        .with_base_seq_store(BaseSeqStore::new(folders));
    (w, m)
}

// ---- the bytes of a note -----------------------------------------------

#[test]
fn pull_path_materializes_server_enriched_body_verbatim_integrity_ok() {
    let mut cfg = default_cfg();
    cfg.enable_integrity_check = true;
    let (mut w, mut m) = mk(MaterializerMode::Live, cfg);
    let original = "---\ntitle: Real\n---\nSingle-newline body, server-faithful.\n";
    let p = NotePayload {
        path: format!("{VAULT}/01_Inbox/faithful.md"),
        frontmatter: object("{\"title\": \"Real\"}"),
        body: "Single-newline body, server-faithful.\n".into(),
        sha256: sha256_hex(original),
        change_seq: None,
        enriched_body: Some(original.to_string()),
    };
    assert_ne!(
        serialize_with_frontmatter(&p),
        original,
        "reconstruction must differ from server bytes for this to be meaningful"
    );
    let out = write(&mut m, &mut w, &p).unwrap();
    assert!(
        matches!(out, MaterializeOutcome::Wrote { .. }),
        "strict integrity must PASS by materializing enriched_body verbatim, got {out:?}"
    );
    assert_eq!(
        w.text("/vaults/Mainframe/01_Inbox/faithful.md"),
        original,
        "must write the server's exact hashed bytes (byte-faithful)"
    );
}

#[test]
fn pull_path_falls_back_to_reconstruction_when_enriched_body_absent() {
    let (mut w, mut m) = mk(MaterializerMode::Live, default_cfg());
    let fm = "{\"title\": \"Legacy\"}";
    let serialized = format!("---\n{}---\n\nlegacy body", yaml(fm));
    let p = NotePayload {
        path: format!("{VAULT}/01_Inbox/legacy.md"),
        frontmatter: object(fm),
        body: "legacy body".into(),
        sha256: sha256_hex(&serialized),
        change_seq: None,
        enriched_body: None,
    };
    let out = write(&mut m, &mut w, &p).unwrap();
    assert!(matches!(out, MaterializeOutcome::Wrote { .. }), "got {out:?}");
    assert_eq!(w.text("/vaults/Mainframe/01_Inbox/legacy.md"), serialized);
    assert_eq!(serialized, "---\ntitle: Legacy\n---\n\nlegacy body");
}

#[test]
fn notes_without_metadata_are_their_body() {
    let mut p = plain_payload("a.md", "body");
    assert_eq!(serialize_with_frontmatter(&p), "body");
    p.frontmatter = Frontmatter::Null;
    assert_eq!(serialize_with_frontmatter(&p), "body");
    p.frontmatter = Frontmatter::Other { json: "[1,2]".to_string() };
    assert_eq!(serialize_with_frontmatter(&p), "---\n- 1\n- 2\n---\n\nbody");
    p.frontmatter = Frontmatter::Other { json: "no json".to_string() };
    assert_eq!(serialize_with_frontmatter(&p), "---\n---\n\nbody");
    assert_eq!(with_front_block(&Some("x: 1\n".to_string()), "b"), "---\nx: 1\n---\n\nb");
}

// ---- where notes go ----------------------------------------------------

#[test]
fn live_mode_writes_to_vault_path_not_shadow() {
    let (mut w, mut m) = mk(MaterializerMode::Live, default_cfg());
    let out = write(&mut m, &mut w, &payload("01_Inbox/foo.md", "hello")).unwrap();
    let expected = "/vaults/Mainframe/01_Inbox/foo.md";
    match out {
        MaterializeOutcome::Wrote { path } => assert_eq!(path, expected),
        other => panic!("expected Wrote, got {other:?}"),
    }
    assert!(w.files.contains_key(expected));
    assert!(!w.files.keys().any(|p| p.starts_with("/ws/.lattice-runtime")));
}

#[test]
fn shadow_mode_writes_to_workspace_runtime_not_vault() {
    let (mut w, mut m) = mk(MaterializerMode::Shadow, default_cfg());
    let out = write(&mut m, &mut w, &payload("01_Inbox/foo.md", "hello")).unwrap();
    let expected = "/ws/.lattice-runtime/subscriber-test/shadow/Mainframe/01_Inbox/foo.md";
    match out {
        MaterializeOutcome::Wrote { path } => assert_eq!(path, expected),
        other => panic!("expected Wrote, got {other:?}"),
    }
    assert!(w.files.contains_key(expected));
    assert!(!w.files.contains_key("/vaults/Mainframe/01_Inbox/foo.md"));
}

#[test]
fn shadow_mode_path_outside_vault() {
    let (mut w, mut m) = mk(MaterializerMode::Shadow, default_cfg());
    write(&mut m, &mut w, &payload("01_Inbox/foo.md", "x")).unwrap();
    assert!(
        !m.shadow_root().starts_with("/vaults/Mainframe"),
        "shadow={} should not be inside the vault",
        m.shadow_root()
    );
}

#[test]
fn disabled_mode_writes_nothing_returns_skipped() {
    let (mut w, mut m) = mk(MaterializerMode::Disabled, default_cfg());
    let out = write(&mut m, &mut w, &payload("01_Inbox/foo.md", "x")).unwrap();
    assert_eq!(out, MaterializeOutcome::Skipped(SkipReason::DisabledMode));
    assert!(w.files.is_empty());
}

#[test]
fn substrate_pointer_file_materializes_as_content() {
    let (mut w, mut m) = mk(MaterializerMode::Live, default_cfg());
    let out = write(&mut m, &mut w, &payload("00_VAULT.md", "x")).unwrap();
    assert!(
        matches!(out, MaterializeOutcome::Wrote { .. }),
        "00_VAULT.md must materialize as content, got {out:?}"
    );
    let written = w.text("/vaults/Mainframe/00_VAULT.md");
    assert!(written.contains("title: Test"), "frontmatter preserved");
    assert!(written.ends_with("x"), "body written byte-faithfully");
}

#[test]
fn substrate_protocols_materializes_as_content() {
    let (mut w, mut m) = mk(MaterializerMode::Live, default_cfg());
    let out = write(&mut m, &mut w, &payload("02_Projects/Protocols/foo.md", "x")).unwrap();
    assert!(
        matches!(out, MaterializeOutcome::Wrote { .. }),
        "Protocols/ note must materialize as content, got {out:?}"
    );
    let written = w.text("/vaults/Mainframe/02_Projects/Protocols/foo.md");
    assert!(written.contains("title: Test"), "frontmatter preserved");
    assert!(written.ends_with("x"), "body written byte-faithfully");
}

#[test]
fn parent_dirs_created() {
    let (mut w, mut m) = mk(MaterializerMode::Live, default_cfg());
    let out = write(&mut m, &mut w, &payload("a/b/c/d.md", "deep")).unwrap();
    let expected = "/vaults/Mainframe/a/b/c/d.md".to_string();
    assert_eq!(out, MaterializeOutcome::Wrote { path: expected.clone() });
    assert!(w.files.contains_key(&expected));
}

#[test]
fn atomic_write_no_partial_visible() {
    let (mut w, mut m) = mk(MaterializerMode::Live, default_cfg());
    for i in 0..100 {
        let body = format!("iteration-{i}");
        let _ = write(&mut m, &mut w, &payload("loop/x.md", &body)).unwrap();
        let read = w.text("/vaults/Mainframe/loop/x.md");
        assert!(read.starts_with("---\n"), "iter {i} non-atomic? got: {read:?}");
        assert!(read.contains("iteration-"), "iter {i} missing body: got: {read:?}");
    }
}

#[test]
fn write_creates_file_with_frontmatter() {
    let (mut w, mut m) = mk(MaterializerMode::Shadow, default_cfg());
    write(&mut m, &mut w, &payload("01_Inbox/foo.md", "hello")).unwrap();
    let written =
        w.text("/ws/.lattice-runtime/subscriber-test/shadow/Mainframe/01_Inbox/foo.md");
    assert!(written.contains("title: Test"));
    assert!(written.contains("hello"));
}

#[test]
fn write_rejects_path_traversal() {
    let (mut w, mut m) = mk(MaterializerMode::Shadow, default_cfg());
    let np = payload("../escape.md", "x");
    assert!(matches!(
        write(&mut m, &mut w, &np),
        Err(MaterializerError::PathTraversal(_))
    ));
}

#[test]
fn write_allows_trailing_dots_in_name() {
    let (mut w, mut m) = mk(MaterializerMode::Shadow, default_cfg());
    let out = write(&mut m, &mut w, &payload("01_Notes/Anysa says....md", "x"));
    assert!(out.is_ok(), "trailing-dots name should write, got {out:?}");
}

#[test]
fn per_root_materializer_writes_to_sync_root_path_join_wire_path() {
    let mut w = World::new();
    let mk_for_root = |root: &str| {
        Materializer::new(
            root.to_string(),
            Some("shadow/".to_string()),
            MaterializerMode::Live,
            "/ws".to_string(),
            "sub-test".to_string(),
            default_cfg(),
        )
    };
    let mut mat_a = mk_for_root("/RootA");
    let mut mat_b = mk_for_root("/RootB");
    let wire_path = "notes/x.md";
    let make_payload = |body: &str| {
        let fm = "{\"title\": \"T\"}";
        let serialized = format!("---\n{}---\n\n{body}", yaml(fm));
        NotePayload {
            path: wire_path.to_string(),
            frontmatter: object(fm),
            body: body.into(),
            sha256: sha256_hex(&serialized),
            change_seq: None,
            enriched_body: Some(serialized),
        }
    };
    let out_a = write(&mut mat_a, &mut w, &make_payload("body-a")).unwrap();
    let out_b = write(&mut mat_b, &mut w, &make_payload("body-b")).unwrap();
    assert_eq!(out_a, MaterializeOutcome::Wrote { path: "/RootA/notes/x.md".to_string() });
    assert_eq!(out_b, MaterializeOutcome::Wrote { path: "/RootB/notes/x.md".to_string() });
    assert!(w.text("/RootA/notes/x.md").contains("body-a"));
    assert!(!w.text("/RootA/notes/x.md").contains("body-b"));
    assert!(w.text("/RootB/notes/x.md").contains("body-b"));
    assert!(!w.text("/RootB/notes/x.md").contains("body-a"));
}

#[test]
fn live_path_for_returns_sync_root_join_wire_path() {
    let mat = Materializer::new(
        "/sync-root".to_string(),
        None,
        MaterializerMode::Live,
        "/ws".to_string(),
        "sub".to_string(),
        default_cfg(),
    );
    let wire = "01_Inbox/note.md";
    assert_eq!(mat.live_path_for(wire), "/sync-root/01_Inbox/note.md");
    assert_eq!(mat.target_path(wire), "/sync-root/01_Inbox/note.md");
    assert_eq!(mat.shadow_root(), "/ws/.lattice-runtime/sub/shadow/");
}

#[test]
fn materialize_preserves_unicode_filename_bytes_not_cp437() {
    let (mut w, mut m) = mk(MaterializerMode::Live, default_cfg());
    let name = "Probe \u{2026} 'q' \u{2013} \u{201C}d\u{201D} \u{1f6a8}.md";
    let rel = format!("01_Inbox/{name}");
    let out = write(&mut m, &mut w, &payload(&rel, "hello")).unwrap();
    assert!(matches!(out, MaterializeOutcome::Wrote { .. }), "expected Wrote, got {out:?}");
    let names = w.names_in("/vaults/Mainframe/01_Inbox");
    assert!(
        names.iter().any(|n| n == name),
        "on-disk filename must be byte-identical UTF-8; got {names:?}"
    );
    assert!(
        !names.iter().any(|n| n.contains("\u{393}\u{c7}") || n.contains("\u{2261}\u{192}")),
        "CP437 mojibake detected on disk: {names:?}"
    );
}

#[test]
fn modes_have_names() {
    assert_eq!(MaterializerMode::from_str("live"), MaterializerMode::Live);
    assert_eq!(MaterializerMode::from_str("disabled"), MaterializerMode::Disabled);
    assert_eq!(MaterializerMode::from_str("shadow"), MaterializerMode::Shadow);
    assert_eq!(MaterializerMode::from_str("LIVE"), MaterializerMode::Shadow);
    let c = MaterializerConfig::default();
    assert_eq!(c.conflict_policy, ConflictPolicy::ServerWins);
    assert_eq!(c.device_id, "unknown-device");
    assert_eq!((c.conflict_storm_threshold, c.conflict_storm_window_secs), (50, 600));
}

#[test]
fn folders_outside_the_tree_are_refused() {
    let (_w, m) = mk(MaterializerMode::Live, default_cfg());
    assert_eq!(m.confine(PathStyle::Unix, "a/b.md", "/vaults", "/vaults/a"), Ok(()));
    assert_eq!(m.confine(PathStyle::Unix, "b.md", "/vaults", "/vaults"), Ok(()));
    assert_eq!(
        m.confine(PathStyle::Unix, "a/b.md", "/vaults", "/vaults2/a"),
        Err(MaterializerError::PathTraversal("a/b.md".to_string()))
    );
    assert_eq!(m.rel_for_stash(PathStyle::Unix, "/vaults/a/b.md"), Some("a/b.md".to_string()));
    assert_eq!(m.rel_for_stash(PathStyle::Unix, "/elsewhere/b.md"), None);
    let (_w, m) = mk(MaterializerMode::Shadow, default_cfg());
    assert_eq!(m.rel_for_stash(PathStyle::Unix, "/vaults/a/b.md"), None);
}

#[test]
fn errors_have_their_messages() {
    let t = "x".to_string();
    assert_eq!(MaterializerError::PathTraversal(t.clone()).message(), "path traversal rejected: x");
    assert_eq!(
        MaterializerError::SubstrateRefuse(t.clone()).message(),
        "RASP substrate path refused (read-only by daemon): x"
    );
    assert_eq!(MaterializerError::Io(t.clone()).message(), "io error: x");
    assert_eq!(
        MaterializerError::ShaMismatch { expected: t.clone(), actual: "y".to_string() }.message(),
        "sha mismatch: expected x, got y"
    );
    assert_eq!(MaterializerError::Stash(t.clone()).message(), "conflict-stash error: x");
    assert_eq!(MaterializerError::Integrity(t).message(), "integrity-check error: x");
}

// ---- idempotency and alignment -----------------------------------------

#[test]
fn identical_local_skips_no_write() {
    let (mut w, mut m) = mk(MaterializerMode::Live, default_cfg());
    let p = payload("01_Inbox/foo.md", "hello");
    write(&mut m, &mut w, &p).unwrap();
    let before = w.files.clone();
    let out = write(&mut m, &mut w, &p).unwrap();
    assert_eq!(out, MaterializeOutcome::Skipped(SkipReason::IdenticalToLocal));
    assert_eq!(before, w.files);
}

#[test]
fn frontmatter_only_rewrite_treated_as_identical() {
    let (mut w, mut m) = mk(MaterializerMode::Live, default_cfg());
    let target = "/vaults/Mainframe/01_Inbox/n.md";
    let local_fm = "{\"title\": \"Test\", \"updated\": \"2026-05-01\", \"tags\": [\"a\", \"b\"]}";
    w.put(target, &format!("---\n{}---\n\nbody-text", yaml(local_fm)));
    let fm = "{\"title\": \"Test\", \"updated\": \"2026-05-27\", \"tags\": [\"a\", \"b\"]}";
    let serialized = format!("---\n{}---\n\nbody-text", yaml(fm));
    let p = NotePayload {
        path: format!("{VAULT}/01_Inbox/n.md"),
        frontmatter: object(fm),
        body: "body-text".into(),
        sha256: sha256_hex(&serialized),
        change_seq: None,
        enriched_body: Some(serialized.clone()),
    };
    let out = write(&mut m, &mut w, &p).unwrap();
    assert_eq!(out, MaterializeOutcome::AlignedToCanonical { path: target.to_string() });
    assert_eq!(w.text(target), serialized);
}

#[test]
fn d11_crlf_vs_lf_is_not_a_divergence() {
    let (mut w, mut m) = mk_with_shadow(MaterializerMode::Live);
    let target = "/vaults/Mainframe/01_Inbox/eol.md";
    let server = payload("01_Inbox/eol.md", "line one\nline two\n");
    let server_bytes = server.enriched_body.clone().unwrap();
    w.put(target, &format!("\u{feff}{}", server_bytes.replace('\n', "\r\n")));
    let out = write(&mut m, &mut w, &server).unwrap();
    assert_eq!(
        out,
        MaterializeOutcome::AlignedToCanonical { path: target.to_string() },
        "CRLF/BOM-only difference must normalize to identical (R1) and align, got {out:?}"
    );
    assert_eq!(w.text(target), server_bytes);
}

// ---- conflicts ---------------------------------------------------------

#[test]
fn stash_written_for_conflict_class_d() {
    let (mut w, mut m) = mk(MaterializerMode::Live, default_cfg());
    let target = "/vaults/Mainframe/02_Projects/Credentials.md";
    w.put(target, "local-secrets-version");
    let p = payload("02_Projects/Credentials.md", "server-canonical-secrets");
    let out = write(&mut m, &mut w, &p).unwrap();
    match out {
        MaterializeOutcome::Stashed { stash_path } => {
            assert_eq!(w.text(&stash_path), "local-secrets-version");
            assert!(w.text(target).contains("server-canonical-secrets"));
        }
        other => panic!("expected Stashed, got {other:?}"),
    }
}

#[test]
fn class_c_divergence_no_shadow_now_stashes_r5() {
    let (mut w, mut m) = mk(MaterializerMode::Live, default_cfg());
    let target = "/vaults/Mainframe/02_Projects/Foo/normal.md";
    w.put(target, "old-local-divergent");
    let p = payload("02_Projects/Foo/normal.md", "server-canonical");
    let out = write(&mut m, &mut w, &p).unwrap();
    match out {
        MaterializeOutcome::Stashed { stash_path } => {
            assert_eq!(w.text(&stash_path), "old-local-divergent");
            assert!(w.text(target).contains("server-canonical"));
        }
        other => panic!("expected Stashed (R5 always-stash), got {other:?}"),
    }
    let copies = w.conflict_copies("/vaults/Mainframe/02_Projects/Foo");
    assert_eq!(copies.len(), 1, "exactly one conflict copy expected, got {copies:?}");
}

#[test]
fn b2_prefix_migrated_shadow_prevents_r5_conflict_storm() {
    let mut w = World::new();
    let target = "/vaults/Mainframe/01_Notes/storm.md";
    let server_body = "server canonical body\n";
    let mut p = plain_payload("01_Notes/storm.md", server_body);
    p.frontmatter = Frontmatter::Null;
    w.put(target, "local edit\n");
    let mut legacy = std::collections::HashMap::new();
    legacy.insert("Mainframe/01_Notes/storm.md".to_string(), p.sha256.clone());
    let shadow = ShadowStore::load_with_vault_folders(
        Some(serde_json::to_vec(&legacy).unwrap()),
        vec!["Mainframe".into()],
    );
    let mut m = Materializer::new(
        "/vaults/Mainframe".to_string(),
        Some("shadow/".to_string()),
        MaterializerMode::Live,
        "/ws".to_string(),
        SLUG.to_string(),
        default_cfg(),
    )
    .with_shadow_store(shadow);
    let out = write(&mut m, &mut w, &p).unwrap();
    assert_eq!(
        out,
        MaterializeOutcome::Skipped(SkipReason::LocalEditPreserved),
        "R2 must preserve the local edit via the migrated shadow key"
    );
    assert_eq!(w.text(target), "local edit\n");
    assert!(
        w.conflict_copies("/vaults/Mainframe/01_Notes").is_empty(),
        "no conflict stash may be minted for a genuine local edit"
    );
}

#[test]
fn conflict_storm_breaker_caps_mints() {
    let cfg = MaterializerConfig {
        conflict_storm_threshold: 3,
        conflict_storm_window_secs: 600,
        ..default_cfg()
    };
    let (mut w, mut m) = mk(MaterializerMode::Live, cfg);
    let dir = "/vaults/Mainframe/01_Notes";
    let mut stashed = 0;
    let mut refused = 0;
    for i in 0..5 {
        let rel = format!("01_Notes/mass-{i}.md");
        w.put(&format!("{dir}/mass-{i}.md"), "local bytes");
        match write(&mut m, &mut w, &payload(&rel, "server bytes")).unwrap() {
            MaterializeOutcome::Stashed { .. } => stashed += 1,
            MaterializeOutcome::Skipped(SkipReason::ConflictStormBreakerOpen) => {
                refused += 1;
                assert_eq!(w.text(&format!("{dir}/mass-{i}.md")), "local bytes");
            }
            other => panic!("expected Stashed or breaker-open, got {other:?}"),
        }
    }
    assert_eq!((stashed, refused), (3, 2), "threshold must cap the mints");
    assert_eq!(w.conflict_copies(dir).len(), 3, "exactly threshold stash files on disk");
}

#[test]
fn conflict_storm_breaker_latches_and_never_rearms_after_the_window() {
    let cfg = MaterializerConfig {
        conflict_storm_threshold: 3,
        conflict_storm_window_secs: 2,
        ..default_cfg()
    };
    let (mut w, m) = mk(MaterializerMode::Live, cfg);
    let mut m = m.with_tray_state(tray());
    let dir = "/vaults/Mainframe/01_Notes";
    let write_one = |m: &mut Materializer, w: &mut World, i: usize| {
        w.put(&format!("{dir}/storm-{i}.md"), "local bytes");
        let rel = format!("01_Notes/storm-{i}.md");
        write(m, w, &payload(&rel, "server bytes")).unwrap()
    };
    for i in 0..3 {
        assert!(
            matches!(write_one(&mut m, &mut w, i), MaterializeOutcome::Stashed { .. }),
            "mint {i} is inside the threshold and must stash"
        );
    }
    assert!(!m.conflict_storm_latched(), "not latched until exceeded");
    assert_eq!(
        write_one(&mut m, &mut w, 3),
        MaterializeOutcome::Skipped(SkipReason::ConflictStormBreakerOpen),
        "the threshold+1-th mint must trip the breaker"
    );
    w.now += 5 * SEC / 2;
    for i in 4..8 {
        assert_eq!(
            write_one(&mut m, &mut w, i),
            MaterializeOutcome::Skipped(SkipReason::ConflictStormBreakerOpen),
            "write {i}: a LATCHED breaker must stay open across window expiry"
        );
        assert_eq!(
            w.text(&format!("{dir}/storm-{i}.md")),
            "local bytes",
            "write {i}: refused means local bytes untouched"
        );
    }
    assert_eq!(
        w.conflict_copies(dir).len(),
        3,
        "a whole storm must be bounded to `threshold` forks"
    );
    assert!(
        m.conflict_storm_latched(),
        "the breaker must report itself LATCHED so the state is observable"
    );
    assert!(m.stores.tray.as_ref().unwrap().conflict_storm_latched);
}

#[test]
fn mints_outside_the_window_do_not_count() {
    let cfg = MaterializerConfig {
        conflict_storm_threshold: 1,
        conflict_storm_window_secs: 2,
        ..default_cfg()
    };
    let (mut w, mut m) = mk(MaterializerMode::Live, cfg);
    for i in 0..4 {
        w.put(&format!("/vaults/Mainframe/slow-{i}.md"), "local bytes");
        let out = write(&mut m, &mut w, &payload(&format!("slow-{i}.md"), "server")).unwrap();
        assert!(matches!(out, MaterializeOutcome::Stashed { .. }), "got {out:?}");
        w.now += 3 * SEC;
    }
    assert!(!m.conflict_storm_latched());
}

#[test]
fn reset_conflict_storm_breaker_re_arms_the_mint_budget() {
    let cfg = MaterializerConfig {
        conflict_storm_threshold: 1,
        conflict_storm_window_secs: 600,
        ..default_cfg()
    };
    let (mut w, mut m) = mk(MaterializerMode::Live, cfg);
    let dir = "/vaults/Mainframe/01_Notes";
    for i in 0..2 {
        w.put(&format!("{dir}/reset-{i}.md"), "local bytes");
        let rel = format!("01_Notes/reset-{i}.md");
        let _ = write(&mut m, &mut w, &payload(&rel, "server bytes")).unwrap();
    }
    assert!(m.conflict_storm_latched(), "latched after exceeding");
    m.reset_conflict_storm_breaker();
    assert!(!m.conflict_storm_latched(), "reset clears the latch");
    w.put(&format!("{dir}/reset-after.md"), "local bytes");
    assert!(
        matches!(
            write(&mut m, &mut w, &payload("01_Notes/reset-after.md", "server bytes")).unwrap(),
            MaterializeOutcome::Stashed { .. }
        ),
        "after reset the always-stash floor for genuine divergence is back"
    );
}

#[test]
fn threshold_zero_disables_the_breaker_and_never_latches() {
    let cfg = MaterializerConfig {
        conflict_storm_threshold: 0,
        conflict_storm_window_secs: 600,
        ..default_cfg()
    };
    let (mut w, mut m) = mk(MaterializerMode::Live, cfg);
    for i in 0..6 {
        w.put(&format!("/vaults/Mainframe/01_Notes/nobreaker-{i}.md"), "local bytes");
        let rel = format!("01_Notes/nobreaker-{i}.md");
        assert!(
            matches!(
                write(&mut m, &mut w, &payload(&rel, "server bytes")).unwrap(),
                MaterializeOutcome::Stashed { .. }
            ),
            "mint {i}: threshold 0 means no breaker at all"
        );
    }
    assert!(!m.conflict_storm_latched(), "a disabled breaker must never latch");
}

// ---- integrity ---------------------------------------------------------

#[test]
fn integrity_check_failure_yields_outcome() {
    let (mut w, mut m) = mk(MaterializerMode::Live, default_cfg());
    let p = payload_with_bad_sha("01_Inbox/foo.md", "hello");
    let out = write(&mut m, &mut w, &p).unwrap();
    match out {
        MaterializeOutcome::IntegrityFailed { path, expected_sha, .. } => {
            assert_eq!(path, "/vaults/Mainframe/01_Inbox/foo.md");
            assert_eq!(expected_sha, p.sha256);
            assert!(w.files.contains_key(&path), "integrity-failed file must remain on disk");
        }
        other => panic!("expected IntegrityFailed, got {other:?}"),
    }
}

#[test]
fn integrity_check_disabled_writes_anyway() {
    let cfg = MaterializerConfig { enable_integrity_check: false, ..default_cfg() };
    let (mut w, mut m) = mk(MaterializerMode::Live, cfg);
    let p = payload_with_bad_sha("01_Inbox/foo.md", "hello");
    let out = write(&mut m, &mut w, &p).unwrap();
    match out {
        MaterializeOutcome::Wrote { path } => {
            assert_eq!(path, "/vaults/Mainframe/01_Inbox/foo.md");
            assert!(w.files.contains_key(&path));
        }
        other => panic!("expected Wrote (integrity disabled), got {other:?}"),
    }
}

#[test]
fn integrity_failure_increments_tray_counter() {
    let (mut w, m_base) = mk(MaterializerMode::Live, default_cfg());
    let mut m = m_base.with_tray_state(tray());
    let p = payload_with_bad_sha("01_Inbox/foo.md", "hello");
    let out = write(&mut m, &mut w, &p).unwrap();
    assert!(matches!(out, MaterializeOutcome::IntegrityFailed { .. }));
    assert_eq!(m.stores.tray.as_ref().unwrap().integrity_failures, 1);
}

#[test]
fn successful_write_does_not_increment_integrity_failures() {
    let (mut w, m_base) = mk(MaterializerMode::Live, default_cfg());
    let mut m = m_base.with_tray_state(tray());
    let out = write(&mut m, &mut w, &payload("01_Inbox/foo.md", "hello")).unwrap();
    assert!(matches!(out, MaterializeOutcome::Wrote { .. }));
    assert_eq!(m.stores.tray.as_ref().unwrap().integrity_failures, 0);
}

#[test]
fn with_tray_state_is_idempotent_back_compat() {
    let (mut w, mut m) = mk(MaterializerMode::Live, default_cfg());
    let p = payload_with_bad_sha("01_Inbox/foo.md", "hello");
    let out = write(&mut m, &mut w, &p).unwrap();
    assert!(matches!(out, MaterializeOutcome::IntegrityFailed { .. }));
    let ok = write(&mut m, &mut w, &payload("01_Inbox/bar.md", "world")).unwrap();
    assert!(matches!(ok, MaterializeOutcome::Wrote { .. }));
}

#[test]
fn failed_checks_report_the_hash_there_is() {
    let (_w, mut m) = mk(MaterializerMode::Live, default_cfg());
    let p = payload("a.md", "x");
    let out = m.finish_write(
        &p,
        "/t".to_string(),
        "written".to_string(),
        None,
        false,
        IntegrityVerdict::OtherMismatch,
    );
    assert_eq!(
        out,
        MaterializeOutcome::IntegrityFailed {
            path: "/t".to_string(),
            expected_sha: p.sha256.clone(),
            actual_sha: "written".to_string(),
        }
    );
}

#[test]
fn refresh_conflict_count_into_tray_scans_and_sets() {
    let (mut w, m_base) = mk(MaterializerMode::Live, default_cfg());
    let mut m = m_base.with_tray_state(tray());
    w.put("/vaults/Mainframe/01_Inbox/a.conflict-from-dev1-1.md", "stash-a");
    w.put("/vaults/Mainframe/01_Inbox/b.conflict-from-dev2-7.md", "stash-b");
    w.put("/vaults/Mainframe/c.conflict-from-dev3-12.md", "stash-c");
    let root = m.refresh_conflict_count_into_tray(1_000).expect("a scan is due");
    assert_eq!(root, "/vaults");
    let n = w.files.keys().filter(|p| p.contains(".conflict-from-")).count();
    m.publish_conflict_count(n);
    assert_eq!(m.stores.tray.as_ref().unwrap().conflict_unresolved, 3);
    assert_eq!(m.refresh_conflict_count_into_tray(30_999), None, "too soon");
    assert!(m.refresh_conflict_count_into_tray(31_000).is_some());
}

#[test]
fn refresh_with_no_tray_state_is_noop() {
    let (mut w, mut m) = mk(MaterializerMode::Live, default_cfg());
    w.put("/vaults/Mainframe/a.conflict-from-d-1.md", "x");
    assert_eq!(m.refresh_conflict_count_into_tray(1), None);
    assert_eq!(m.refresh_conflict_count_into_tray(2), None);
    m.publish_conflict_count(1);
    assert!(m.stores.tray.is_none());
}

// ---- what is recorded --------------------------------------------------

#[test]
fn successful_write_records_shadow_hash() {
    let (mut w, mut m) = mk_with_shadow(MaterializerMode::Live);
    let p = payload("01_Inbox/foo.md", "hello");
    let out = write(&mut m, &mut w, &p).unwrap();
    assert!(matches!(out, MaterializeOutcome::Wrote { .. }), "got {out:?}");
    assert_eq!(shadow_of(&m, &p.path), Some(p.sha256.clone()));
}

#[test]
fn integrity_failed_write_does_not_record_shadow() {
    let (mut w, mut m) = mk_with_shadow(MaterializerMode::Live);
    let p = payload_with_bad_sha("01_Inbox/foo.md", "hello");
    let out = write(&mut m, &mut w, &p).unwrap();
    assert!(matches!(out, MaterializeOutcome::IntegrityFailed { .. }));
    assert_eq!(shadow_of(&m, &p.path), None);
}

#[test]
fn b1_shadow_mode_write_does_not_record_baseline() {
    let (mut w, mut m) = mk_with_shadow(MaterializerMode::Shadow);
    let p = payload("01_Inbox/foo.md", "hello");
    let out = write(&mut m, &mut w, &p).unwrap();
    assert!(matches!(out, MaterializeOutcome::Wrote { .. }), "got {out:?}");
    assert_eq!(
        shadow_of(&m, &p.path),
        None,
        "shadow-mode write must NOT forge a vault baseline (post-write site)"
    );
    let out2 = write(&mut m, &mut w, &p).unwrap();
    assert_eq!(out2, MaterializeOutcome::Skipped(SkipReason::IdenticalToLocal));
    assert_eq!(
        shadow_of(&m, &p.path),
        None,
        "shadow-mode R1 Noop must NOT forge a vault baseline (Noop site)"
    );
}

#[test]
fn records_observed_base_seq_only_from_server_change_seq() {
    let (mut w, mut m) = mk_with_stores(MaterializerMode::Live);
    let mut p = payload("01_Inbox/seq.md", "hello base_seq");
    p.change_seq = Some(7788);
    let out = write(&mut m, &mut w, &p).unwrap();
    assert!(matches!(out, MaterializeOutcome::Wrote { .. }), "got {out:?}");
    assert_eq!(seq_of(&m, "01_Inbox/seq.md"), Some(7788));
    let p2 = payload("01_Inbox/noseq.md", "no server seq");
    assert_eq!(p2.change_seq, None);
    let out2 = write(&mut m, &mut w, &p2).unwrap();
    assert!(matches!(out2, MaterializeOutcome::Wrote { .. }), "got {out2:?}");
    assert_eq!(seq_of(&m, "01_Inbox/noseq.md"), None);
}

#[test]
fn noop_identical_records_base_seq_r4() {
    let (mut w, mut m) = mk_with_stores(MaterializerMode::Live);
    let mut p = payload("01_Inbox/noop.md", "identical body");
    p.change_seq = Some(4242);
    assert!(matches!(
        write(&mut m, &mut w, &p).unwrap(),
        MaterializeOutcome::Wrote { .. }
    ));
    m.stores.drop_lineage("01_Inbox/noop.md");
    assert_eq!(seq_of(&m, "01_Inbox/noop.md"), None);
    let out = write(&mut m, &mut w, &p).unwrap();
    assert!(
        matches!(out, MaterializeOutcome::Skipped(SkipReason::IdenticalToLocal)),
        "got {out:?}"
    );
    assert_eq!(
        seq_of(&m, "01_Inbox/noop.md"),
        Some(4242),
        "R4: an already-identical note must still earn its baseline"
    );
}

#[test]
fn preserve_local_edit_never_records_base_seq_r2() {
    let (mut w, mut m) = mk_with_stores(MaterializerMode::Live);
    let mut p = payload("01_Inbox/pres.md", "server body v1");
    p.change_seq = Some(500);
    assert!(matches!(
        write(&mut m, &mut w, &p).unwrap(),
        MaterializeOutcome::Wrote { .. }
    ));
    w.put("/vaults/Mainframe/01_Inbox/pres.md", "server body v1 + LOCAL EDIT");
    m.stores.drop_lineage("01_Inbox/pres.md");
    assert_eq!(seq_of(&m, "01_Inbox/pres.md"), None);
    let out = write(&mut m, &mut w, &p).unwrap();
    assert!(
        matches!(out, MaterializeOutcome::Skipped(SkipReason::LocalEditPreserved)),
        "got {out:?}"
    );
    assert_eq!(
        seq_of(&m, "01_Inbox/pres.md"),
        None,
        "R2: the preserve branch must NEVER record a baseline"
    );
}

// ---- deletes -----------------------------------------------------------

#[test]
fn delete_renames_to_deleted_ts() {
    let (mut w, mut m) = mk(MaterializerMode::Shadow, default_cfg());
    write(&mut m, &mut w, &payload("01_Inbox/foo.md", "x")).unwrap();
    soft_delete(&mut m, &mut w, &format!("{VAULT}/01_Inbox/foo.md")).unwrap();
    let dir = "/ws/.lattice-runtime/subscriber-test/shadow/Mainframe/01_Inbox";
    assert!(!w.files.contains_key(&format!("{dir}/foo.md")));
    assert_eq!(
        w.count_by_prefix(dir, "foo.md.deleted-"),
        1,
        "expected one .deleted-* file"
    );
    assert!(w.files.contains_key(&format!("{dir}/foo.md.deleted-20260528T202640Z-000000123")));
}

#[test]
fn delete_nothing_to_delete_is_not_error() {
    let (mut w, mut m) = mk(MaterializerMode::Shadow, default_cfg());
    assert!(soft_delete(&mut m, &mut w, "01_Inbox/never-existed.md").is_ok());
}

#[test]
fn delete_substrate_path_now_soft_deletes() {
    let (mut w, mut m) = mk(MaterializerMode::Shadow, default_cfg());
    assert!(soft_delete(&mut m, &mut w, "00_VAULT.md").is_ok());
}

#[test]
fn deletes_are_gated_like_writes() {
    let (mut w, mut m) = mk(MaterializerMode::Live, default_cfg());
    assert_eq!(
        soft_delete(&mut m, &mut w, "../x.md"),
        Err(MaterializerError::PathTraversal("../x.md".to_string()))
    );
    let (mut w, mut m) = mk(MaterializerMode::Disabled, default_cfg());
    w.put("/vaults/a.md", "x");
    soft_delete(&mut m, &mut w, "a.md").unwrap();
    assert!(w.files.contains_key("/vaults/a.md"));
}

fn mk_delete_leg() -> (World, Materializer, String, String) {
    let (w, m) = mk_with_shadow(MaterializerMode::Live);
    let wire = format!("{VAULT}/01_Inbox/foo.md");
    let target = format!("/vaults/{wire}");
    (w, m, wire, target)
}

const DELETE_DIR: &str = "/vaults/Mainframe/01_Inbox";

#[test]
fn delete_leg_divergent_local_edit_stashed_then_soft_deleted() {
    let (mut w, mut m, wire, target) = mk_delete_leg();
    m.stores.record_shadow(&wire, &sha256_hex("server v1"));
    w.put(&target, "local edit v2");
    soft_delete(&mut m, &mut w, &wire).unwrap();
    assert!(!w.files.contains_key(&target), "delete must still win");
    assert_eq!(w.count_by_prefix(DELETE_DIR, "foo.md.deleted-"), 1);
    assert_eq!(
        w.text(&format!("{DELETE_DIR}/foo.conflict-from-morpheus-0.md")),
        "local edit v2",
        "stash must hold the LOCAL bytes, not the server tombstone"
    );
}

#[test]
fn delete_leg_identical_local_content_no_stash() {
    let (mut w, mut m, wire, target) = mk_delete_leg();
    w.put(&target, "synced bytes");
    m.stores.record_shadow(&wire, &sha256_hex("synced bytes"));
    soft_delete(&mut m, &mut w, &wire).unwrap();
    assert!(!w.files.contains_key(&target));
    assert_eq!(w.count_by_prefix(DELETE_DIR, "foo.md.deleted-"), 1);
    assert_eq!(
        w.count_by_prefix(DELETE_DIR, "foo.conflict-from-"),
        0,
        "in-sync local must not fork"
    );
}

#[test]
fn delete_leg_no_shadow_entry_no_stash() {
    let (mut w, mut m, wire, target) = mk_delete_leg();
    w.put(&target, "whatever local holds");
    soft_delete(&mut m, &mut w, &wire).unwrap();
    assert!(!w.files.contains_key(&target));
    assert_eq!(w.count_by_prefix(DELETE_DIR, "foo.md.deleted-"), 1);
    assert_eq!(
        w.count_by_prefix(DELETE_DIR, "foo.conflict-from-"),
        0,
        "absent shadow must not fork"
    );
}

#[test]
fn delete_leg_repeated_divergent_delete_stash_is_idempotent() {
    let (mut w, mut m, wire, target) = mk_delete_leg();
    m.stores.record_shadow(&wire, &sha256_hex("server v1"));
    for _ in 0..2 {
        w.put(&target, "local edit v2");
        soft_delete(&mut m, &mut w, &wire).unwrap();
    }
    assert_eq!(
        w.count_by_prefix(DELETE_DIR, "foo.conflict-from-"),
        1,
        "identical divergent bytes must converge on ONE stash"
    );
    assert_eq!(w.count_by_prefix(DELETE_DIR, "foo.md.deleted-"), 2);
}

#[test]
fn delete_leg_stash_uses_base_seq_when_known() {
    let (mut w, m, wire, target) = mk_delete_leg();
    let mut bs = BaseSeqStore::new(vec![]);
    bs.record_adopted(&wire, 7);
    let mut m = m.with_base_seq_store(bs);
    m.stores.record_shadow(&wire, &sha256_hex("server v1"));
    w.put(&target, "local edit v2");
    soft_delete(&mut m, &mut w, &wire).unwrap();
    assert!(w.files.contains_key(&format!("{DELETE_DIR}/foo.conflict-from-morpheus-7.md")));
}

#[test]
fn files_that_cannot_be_read_or_are_empty_are_not_set_aside() {
    let (_w, mut m, wire, _target) = mk_delete_leg();
    m.stores.record_shadow(&wire, &sha256_hex("server v1"));
    assert_eq!(m.stash_local_before_delete(&wire, None), None);
    assert_eq!(m.stash_local_before_delete(&wire, Some(b"")), None);
}

#[test]
fn d13_soft_delete_suffix_is_nanosecond_unique() {
    let (mut w, mut m) = mk(MaterializerMode::Shadow, default_cfg());
    let dir = "/ws/.lattice-runtime/subscriber-test/shadow/Mainframe/01_Inbox";
    write(&mut m, &mut w, &payload("01_Inbox/d.md", "v1")).unwrap();
    soft_delete(&mut m, &mut w, &format!("{VAULT}/01_Inbox/d.md")).unwrap();
    w.nanos += 1;
    write(&mut m, &mut w, &payload("01_Inbox/d.md", "v2")).unwrap();
    soft_delete(&mut m, &mut w, &format!("{VAULT}/01_Inbox/d.md")).unwrap();
    assert_eq!(w.count_by_prefix(dir, "d.md.deleted-"), 2, "both deletes must be preserved");
    write(&mut m, &mut w, &payload("01_Inbox/d.md", "v3")).unwrap();
    soft_delete(&mut m, &mut w, &format!("{VAULT}/01_Inbox/d.md")).unwrap();
    assert_eq!(
        w.count_by_prefix(dir, "d.md.deleted-"),
        3,
        "a delete in the same nanosecond finds another name"
    );
}

#[test]
fn deleted_files_are_named_after_their_time() {
    assert_eq!(deleted_stamp(0), Some("19700101T000000Z".to_string()));
    assert_eq!(deleted_stamp(1_785_615_005), Some("20260801T201005Z".to_string()));
    assert_eq!(deleted_stamp(i64::MAX), None);
    let first = deleted_name("a.md", "S", 5, &[]);
    assert_eq!(first, "a.md.deleted-S-000000005");
    let second = deleted_name("a.md", "S", 5, &[first.clone()]);
    assert_eq!(second, "a.md.deleted-S-000000005-2");
    assert_eq!(deleted_name("a.md", "S", 5, &[first, second]), "a.md.deleted-S-000000005-3");
}

// ---- the decision ------------------------------------------------------

#[test]
fn t3_guard_arm1_pure_strip_preserves_local_and_enqueues_compensating_push() {
    let (mut w, m) = mk_with_shadow(MaterializerMode::Live);
    let mut m = m.with_push_journal();
    let rel = format!("{VAULT}/01_Inbox/strip.md");
    let target = "/vaults/Mainframe/01_Inbox/strip.md";
    let local = "---\ntitle: Keep Me\n---\nSHARED BODY\n";
    w.put(target, local);
    m.stores.record_shadow(&rel, &sha256_hex(local));
    let server_body = "SHARED BODY\n";
    let server = plain_payload(&rel, server_body);
    let out = write(&mut m, &mut w, &server).unwrap();
    assert_eq!(
        out,
        MaterializeOutcome::Skipped(SkipReason::GuardPreserveLocalPushUp { enqueued_push: true }),
        "ARM 1 must preserve local AND enqueue a compensating push, got {out:?}"
    );
    assert_eq!(w.text(target), local, "local frontmatter must be preserved (guard never strips)");
    let mut j = PushJournal::open(&w.journal);
    let batch = j.drain(&w.journal, 10);
    assert_eq!(batch.len(), 1, "exactly one compensating push enqueued");
    assert_eq!(batch[0].0.path, rel);
    assert_eq!(batch[0].0.action, PushAction::Modify);
    assert_eq!(
        batch[0].0.base_hash,
        Some(sha256_hex(server_body)),
        "CAS base must be the server hash from the pull payload"
    );
    assert_eq!(batch[0].0.content_sha, sha256_hex(local));
    assert_eq!(batch[0].0.content_bytes, None);
}

#[test]
fn without_a_journal_the_kept_file_is_not_queued() {
    let (mut w, mut m) = mk_with_shadow(MaterializerMode::Live);
    let rel = format!("{VAULT}/strip.md");
    let local = "---\nx: 1\n---\nBODY\n";
    w.put("/vaults/Mainframe/strip.md", local);
    m.stores.record_shadow(&rel, &sha256_hex(local));
    assert_eq!(
        write(&mut m, &mut w, &plain_payload(&rel, "BODY\n")).unwrap(),
        MaterializeOutcome::Skipped(SkipReason::GuardPreserveLocalPushUp { enqueued_push: false })
    );
}

#[test]
fn t3_guard_arm2_divergence_stashes_then_aligns() {
    let (mut w, m) = mk_with_shadow(MaterializerMode::Live);
    let mut m = m.with_push_journal();
    let rel = format!("{VAULT}/01_Inbox/diverge.md");
    let target = "/vaults/Mainframe/01_Inbox/diverge.md";
    let local = "---\ntitle: Keep Me\n---\nLOCAL BODY\n";
    w.put(target, local);
    m.stores.record_shadow(&rel, &sha256_hex(local));
    let server_body = "SERVER BODY (different)\n";
    let out = write(&mut m, &mut w, &plain_payload(&rel, server_body)).unwrap();
    assert!(
        matches!(out, MaterializeOutcome::Stashed { .. }),
        "ARM 2 must stash-then-align (Stashed), got {out:?}"
    );
    assert_eq!(w.text(target), server_body, "ARM 2 aligns local to server");
    assert!(
        !w.conflict_copies("/vaults/Mainframe/01_Inbox").is_empty(),
        "ARM 2 must stash the losing local bytes as a conflict copy"
    );
    let mut j = PushJournal::open(&w.journal);
    assert_eq!(j.drain(&w.journal, 10).len(), 0, "ARM 2 enqueues no compensating push");
}

#[test]
fn t3_classify_guard_arm_table() {
    assert_eq!(
        classify_guard_arm(b"---\nx: 1\n---\nBODY\n", b"BODY\n"),
        GuardArm::PreserveAndPushUp
    );
    assert_eq!(
        classify_guard_arm(b"---\nx: 1\n---\nBODY A\n", b"BODY B\n"),
        GuardArm::StashThenAlign
    );
    assert_eq!(
        classify_guard_arm(b"---\nx: 1\n---\nL1\r\nL2\n", b"L1\nL2\n"),
        GuardArm::PreserveAndPushUp
    );
}

#[test]
fn decide_truth_table_r1_to_r5() {
    assert_eq!(decide(true, false, false, false), Decision::Noop);
    assert_eq!(decide(true, true, true, true), Decision::Noop);
    assert_eq!(decide(false, false, false, false), Decision::Conflict);
    assert_eq!(decide(false, true, true, false), Decision::PreserveLocalEdit);
    assert_eq!(decide(false, true, false, true), Decision::PullClean);
    assert_eq!(decide(false, true, false, false), Decision::Conflict);
}

#[test]
fn guard_downgrades_frontmatter_stripping_pulls() {
    assert_eq!(
        guard_no_frontmatter_strip(Decision::PullClean, true),
        Decision::PreserveLocalEdit,
        "R3 silent pull that strips frontmatter must be refused"
    );
    assert_eq!(
        guard_no_frontmatter_strip(Decision::Conflict, true),
        Decision::PreserveLocalEdit,
        "R5 conflict pull that strips frontmatter must be refused"
    );
    assert_eq!(guard_no_frontmatter_strip(Decision::Noop, true), Decision::Noop);
    assert_eq!(
        guard_no_frontmatter_strip(Decision::PreserveLocalEdit, true),
        Decision::PreserveLocalEdit
    );
    assert_eq!(guard_no_frontmatter_strip(Decision::PullClean, false), Decision::PullClean);
    assert_eq!(guard_no_frontmatter_strip(Decision::Conflict, false), Decision::Conflict);
    assert_eq!(guard_no_frontmatter_strip(Decision::Noop, false), Decision::Noop);
    assert_eq!(
        guard_no_frontmatter_strip(Decision::PreserveLocalEdit, false),
        Decision::PreserveLocalEdit
    );
}

#[test]
fn starts_with_frontmatter_detects_yaml_fence() {
    assert!(starts_with_frontmatter(b"---\naliases: []\n---\nbody"));
    assert!(starts_with_frontmatter(b"---\r\ntype: note\r\n---\r\nbody"));
    assert!(starts_with_frontmatter("\u{feff}---\nx: 1\n---\n".as_bytes()));
    assert!(!starts_with_frontmatter(b"> [!info] Contact Info\nno frontmatter here"));
    assert!(!starts_with_frontmatter(b"# Heading\n\n---\nnot a leading fence"));
    assert!(!starts_with_frontmatter(b""));
}

#[test]
fn verdicts_follow_the_bytes() {
    let fields = vec!["updated".to_string()];
    let server = b"---\nx: 1\n---\nbody\n";
    let sha = sha256_hex_bytes(server);
    let old = b"---\nx: 0\n---\nold\n";
    let judge = |shadow: Option<String>, local: &[u8]| {
        classify_write(&fields, &shadow, &sha, server, local)
    };
    assert_eq!(judge(None, server), WriteVerdict::Identical);
    assert_eq!(judge(None, b"---\r\nx: 1\r\n---\r\nbody\r\n"), WriteVerdict::Align);
    assert_eq!(judge(None, b"---\nupdated: y\nx: 1\n---\nbody\n"), WriteVerdict::Align);
    assert_eq!(judge(None, old), WriteVerdict::Conflict);
    assert_eq!(judge(Some(sha.clone()), old), WriteVerdict::KeepLocalEdit);
    assert_eq!(judge(Some(sha256_hex_bytes(old)), old), WriteVerdict::PullClean);
    assert_eq!(judge(Some("f".repeat(64)), old), WriteVerdict::Conflict);
    let bare = b"old\n";
    let bare_sha = sha256_hex_bytes(bare);
    assert_eq!(
        classify_write(&fields, &None, &bare_sha, bare, old),
        WriteVerdict::PushLocalUp
    );
    assert_eq!(body_after_frontmatter_normalized(old), b"old\n".to_vec());
}

#[test]
fn r2_local_edit_is_preserved_not_overwritten() {
    let (mut w, mut m) = mk_with_shadow(MaterializerMode::Live);
    let rel = format!("{VAULT}/01_Inbox/edited.md");
    let target = "/vaults/Mainframe/01_Inbox/edited.md";
    let server = payload("01_Inbox/edited.md", "server-body");
    m.stores.record_shadow(&rel, &server.sha256);
    let local_edit = "---\ntitle: Test\n---\n\nMY LOCAL EDIT, do not lose\n";
    w.put(target, local_edit);
    let out = write(&mut m, &mut w, &server).unwrap();
    assert_eq!(
        out,
        MaterializeOutcome::Skipped(SkipReason::LocalEditPreserved),
        "R2 must preserve the local edit, not overwrite it"
    );
    assert_eq!(w.text(target), local_edit, "the local edit must survive verbatim");
    assert!(
        w.conflict_copies("/vaults/Mainframe/01_Inbox").is_empty(),
        "R2 must not write a conflict copy"
    );
}

#[test]
fn r3_clean_pull_no_stash() {
    let (mut w, mut m) = mk_with_shadow(MaterializerMode::Live);
    let rel = format!("{VAULT}/01_Inbox/clean.md");
    let target = "/vaults/Mainframe/01_Inbox/clean.md";
    let old_bytes = "---\ntitle: Test\n---\n\nold server body\n";
    w.put(target, old_bytes);
    m.stores.record_shadow(&rel, &sha256_hex(old_bytes));
    let server = payload("01_Inbox/clean.md", "new server body");
    let out = write(&mut m, &mut w, &server).unwrap();
    match out {
        MaterializeOutcome::Wrote { .. } => {}
        other => panic!("expected clean Wrote (R3), got {other:?}"),
    }
    assert!(w.text(target).contains("new server body"), "server bytes pulled");
    assert!(
        w.conflict_copies("/vaults/Mainframe/01_Inbox").is_empty(),
        "R3 clean pull must not stash"
    );
}

#[test]
fn r4_both_moved_stashes_with_change_seq() {
    let (mut w, mut m) = mk_with_shadow(MaterializerMode::Live);
    let rel = format!("{VAULT}/01_Inbox/both.md");
    let target = "/vaults/Mainframe/01_Inbox/both.md";
    m.stores.record_shadow(&rel, &"0".repeat(64));
    let local_edit = "---\ntitle: Test\n---\n\nlocal divergent edit\n";
    w.put(target, local_edit);
    let server = payload("01_Inbox/both.md", "server divergent body");
    let out = write_seq(&mut m, &mut w, &server, 4242).unwrap();
    match out {
        MaterializeOutcome::Stashed { stash_path } => {
            let name = stash_path.rsplit('/').next().unwrap().to_string();
            assert!(
                name.contains("both.conflict-from-") && name.contains("-4242.md"),
                "stash must be named by change_seq 4242, got {name}"
            );
            assert_eq!(
                w.text(&stash_path),
                local_edit,
                "loser (local) preserved verbatim in the stash"
            );
        }
        other => panic!("expected Stashed (R4), got {other:?}"),
    }
    assert!(w.text(target).contains("server divergent body"));
}

// ---- rewrites to the canonical form ------------------------------------

#[test]
fn write_aligned_bytes_refuses_frontmatter_strip() {
    let (mut w, mut m) = mk_with_shadow(MaterializerMode::Live);
    let rel = format!("{VAULT}/01_Inbox/fm.md");
    let target = format!("/vaults/{rel}");
    let local_bytes = b"---\ntitle: keep me\n---\nbody\n".to_vec();
    w.files.insert(target.clone(), local_bytes.clone());
    let local_sha = sha256_hex_bytes(&local_bytes);
    let canonical_bytes = b"body\n".to_vec();
    let canonical_sha = sha256_hex_bytes(&canonical_bytes);
    let out =
        write_aligned(&mut m, &mut w, &rel, &canonical_bytes, &canonical_sha, &local_sha).unwrap();
    assert_eq!(out, AlignOutcome::SkippedWouldStripFrontmatter);
    assert_eq!(w.files[&target], local_bytes);
    assert!(shadow_of(&m, &rel).is_none());
}

#[test]
fn write_aligned_bytes_still_rewrites_crlf_with_frontmatter_on_both_sides() {
    let (mut w, mut m) = mk_with_shadow(MaterializerMode::Live);
    let rel = format!("{VAULT}/01_Inbox/crlf.md");
    let target = format!("/vaults/{rel}");
    let canonical_bytes = b"---\ntitle: x\n---\nline one\nline two\n".to_vec();
    let canonical_sha = sha256_hex_bytes(&canonical_bytes);
    let local_bytes = format!(
        "\u{feff}{}",
        String::from_utf8(canonical_bytes.clone()).unwrap().replace('\n', "\r\n")
    )
    .into_bytes();
    w.files.insert(target.clone(), local_bytes.clone());
    let local_sha = sha256_hex_bytes(&local_bytes);
    let out =
        write_aligned(&mut m, &mut w, &rel, &canonical_bytes, &canonical_sha, &local_sha).unwrap();
    assert_eq!(out, AlignOutcome::Rewrote { path: target.clone() });
    assert_eq!(w.files[&target], canonical_bytes);
    assert_eq!(shadow_of(&m, &rel).as_deref(), Some(canonical_sha.as_str()));
}

#[test]
fn rewrites_need_the_file_as_it_was_pushed() {
    let (mut w, mut m) = mk_with_shadow(MaterializerMode::Live);
    let out = write_aligned(&mut m, &mut w, "a.md", b"x", "s", "e").unwrap();
    assert_eq!(out, AlignOutcome::SkippedMissing);
    w.put("/vaults/a.md", "edited");
    let out = write_aligned(&mut m, &mut w, "a.md", b"x", "s", "e").unwrap();
    assert_eq!(out, AlignOutcome::SkippedConcurrentEdit { current_sha: sha256_hex("edited") });
    assert!(write_aligned(&mut m, &mut w, "../a.md", b"x", "s", "e").is_err());
    let (mut w, mut m) = mk(MaterializerMode::Disabled, default_cfg());
    let out = write_aligned(&mut m, &mut w, "../a.md", b"x", "s", "e").unwrap();
    assert_eq!(out, AlignOutcome::SkippedDisabled);
}

// ---- conflict copies and versions --------------------------------------

#[test]
fn write_with_change_seq_names_stash_with_real_seq_r5() {
    let (mut w, mut m) = mk(MaterializerMode::Live, default_cfg());
    w.put("/vaults/Mainframe/01_Inbox/fork.md", "local divergent bytes");
    let p = payload("01_Inbox/fork.md", "server canonical bytes");
    let out = write_seq(&mut m, &mut w, &p, 4242).unwrap();
    let stash = match out {
        MaterializeOutcome::Stashed { stash_path } => stash_path,
        other => panic!("expected Stashed, got {other:?}"),
    };
    let name = stash.rsplit('/').next().unwrap().to_string();
    assert!(name.contains("4242"), "R5: stash must embed the real change_seq, got {name}");
    assert!(
        !name.contains("-0.md") && !name.contains("-0-"),
        "R5: must not be the -0 hardwire, got {name}"
    );
}

#[test]
fn unknown_ancestry_preserves_both_sides_r6() {
    let (mut w, mut m) = mk(MaterializerMode::Live, default_cfg());
    let target = "/vaults/Mainframe/01_Inbox/amb.md";
    w.put(target, "LOCAL only line\n");
    let p = payload("01_Inbox/amb.md", "SERVER only line");
    let out = write_seq(&mut m, &mut w, &p, 7).unwrap();
    let stash = match out {
        MaterializeOutcome::Stashed { stash_path } => stash_path,
        o => panic!("expected Stashed (preserve both), got {o:?}"),
    };
    assert_eq!(w.text(&stash), "LOCAL only line\n", "local side preserved in the stash");
    assert_eq!(
        w.text(target),
        p.enriched_body.clone().unwrap(),
        "server side materialized to the live target"
    );
}

#[test]
fn server_lines_contained_in_local_r6() {
    assert!(server_lines_contained_in_local(b"a\nb\n", b"a\nx\nb\nc\n"));
    assert!(server_lines_contained_in_local(b"a\nb\n", b"a\nb\n"));
    assert!(server_lines_contained_in_local(b"", b"anything\n"));
    assert!(!server_lines_contained_in_local(b"a\nb\nc\n", b"a\nc\n"));
    assert!(!server_lines_contained_in_local(b"a\nb\n", b"b\na\n"));
    assert!(!server_lines_contained_in_local(b"keep\nDROP\n", b"keep\nx\ny\nz\n"));
}

fn canary_bytes(host: &str, nonce: u64) -> String {
    format!("---\ntype: sync-canary\nhost: {host}\n---\nnonce: {host}-{nonce}\n")
}

#[test]
fn r1_single_writer_rapid_rewrite_race_mints_zero_conflict_copies() {
    let (mut w, mut m) = mk_with_stores(MaterializerMode::Live);
    let rel = "_sync/canary-trinity.md";
    let wire = format!("{VAULT}/{rel}");
    let target = format!("/vaults/{wire}");
    let dir = "/vaults/Mainframe/_sync";
    let observed: i64 = 1_000_500;
    m.stores.record_adopted(&wire, observed);
    m.stores.record_shadow(&wire, &sha256_hex("some older synced revision"));
    let mut last_local = String::new();
    for i in 1..=5u64 {
        last_local = canary_bytes("trinity", 1_785_615_000 + i);
        w.put(&target, &last_local);
        let mut server = payload(rel, "server side canary body");
        server.change_seq = Some(observed - (5 - i as i64));
        let out = write_seq(&mut m, &mut w, &server, 1_003_646_077).unwrap();
        assert_eq!(
            out,
            MaterializeOutcome::Skipped(SkipReason::LocalEditPreserved),
            "rewrite {i}: a not-newer server version must resolve to preserve-local, got {out:?}"
        );
        assert!(
            w.conflict_copies(dir).is_empty(),
            "rewrite {i}: single-writer file must NEVER acquire a conflict copy"
        );
        assert_eq!(
            w.text(&target),
            last_local,
            "rewrite {i}: the racing local write must stay at the canonical path"
        );
    }
    assert_eq!(w.text(&target), last_local);
    assert!(last_local.contains("nonce: trinity-1785615005"));
    assert!(w.conflict_copies(dir).is_empty());
    assert_eq!(seq_of(&m, rel), Some(observed));
    assert_eq!(m.stores.seq_get_adopted(rel), Some(observed));
}

#[test]
fn causal_arm_does_not_suppress_a_genuinely_newer_server_version() {
    let (mut w, mut m) = mk_with_stores(MaterializerMode::Live);
    let rel = "01_Inbox/contested.md";
    let wire = format!("{VAULT}/{rel}");
    let target = format!("/vaults/{wire}");
    m.stores.record_adopted(&wire, 500);
    m.stores.record_shadow(&wire, &sha256_hex("stale baseline"));
    w.put(&target, "---\ntitle: Test\n---\n\nmy divergent local revision\n");
    let mut server = payload(rel, "a genuinely newer peer revision");
    server.change_seq = Some(501);
    let out = write_seq(&mut m, &mut w, &server, 501).unwrap();
    match out {
        MaterializeOutcome::Stashed { .. } => {}
        other => panic!("a strictly-newer server version must still stash (R4), got {other:?}"),
    }
    assert_eq!(
        w.conflict_copies("/vaults/Mainframe/01_Inbox").len(),
        1,
        "true divergence keeps the always-stash floor"
    );
    assert!(w.text(&target).contains("a genuinely newer peer revision"));
}

#[test]
fn causal_arm_ignores_receipt_observed_lineage_and_keeps_stash_floor() {
    let (mut w, mut m) = mk_with_stores(MaterializerMode::Live);
    let rel = "01_Inbox/receipt-divergent.md";
    let wire = format!("{VAULT}/{rel}");
    let target = format!("/vaults/{wire}");
    m.stores.record_shadow(&wire, &sha256_hex("stale baseline"));
    w.put(&target, "---\ntitle: Test\n---\n\nmy divergent local revision\n");
    m.stores.base_seq.as_mut().unwrap().record_observed(&wire, 900);
    assert_eq!(seq_of(&m, rel), Some(900), "wire declaration armed");
    assert_eq!(m.stores.seq_get_adopted(rel), None, "no adopted lineage");
    let mut server = payload(rel, "the server head named by the 409");
    server.change_seq = Some(900);
    let out = write_seq(&mut m, &mut w, &server, 900).unwrap();
    match out {
        MaterializeOutcome::Stashed { .. } => {}
        other => panic!(
            "an observed-only lineage must NOT enable preserve-local; expected Stashed, got {other:?}"
        ),
    }
    assert_eq!(
        w.conflict_copies("/vaults/Mainframe/01_Inbox").len(),
        1,
        "the true conflict keeps the always-stash floor"
    );
    assert!(
        w.text(&target).contains("the server head named by the 409"),
        "the server head materialized to the canonical path"
    );
}

#[test]
fn r1_scope_suspect_shadow_mints_no_conflict_copy() {
    let (mut w, m) = mk(MaterializerMode::Live, default_cfg());
    let mut seed = std::collections::HashMap::new();
    seed.insert(format!("{VAULT}/01_Notes/other.md"), "deadbeef".to_string());
    let shadow =
        ShadowStore::load_with_vault_folders(Some(serde_json::to_vec(&seed).unwrap()), vec![]);
    assert!(shadow.vault_scope_suspect(), "fixture must reproduce the suspect state");
    let mut m = m.with_shadow_store(shadow);
    let rel = "_sync/canary-link.md";
    let target = "/vaults/Mainframe/_sync/canary-link.md";
    let local = canary_bytes("link", 1_784_439_675);
    w.put(target, &local);
    let server = payload(rel, "server canary body");
    let out = write_seq(&mut m, &mut w, &server, 1_003_627_563).unwrap();
    assert_eq!(
        out,
        MaterializeOutcome::Skipped(SkipReason::ShadowScopeSuspect),
        "a scope-suspect shadow must refuse the write, not mint a fork"
    );
    assert!(
        w.conflict_copies("/vaults/Mainframe/_sync").is_empty(),
        "no fork may be minted on a known store misconfiguration"
    );
    assert_eq!(w.text(target), local, "local bytes must be untouched");
}

#[test]
fn r3_repeated_sweeps_with_identical_content_keep_exactly_one_stash() {
    let (mut w, mut m) = mk_with_stores(MaterializerMode::Live);
    let rel = "01_Inbox/resweep.md";
    let wire = format!("{VAULT}/{rel}");
    let target = format!("/vaults/{wire}");
    let dir = "/vaults/Mainframe/01_Inbox";
    let local = "---\ntitle: Test\n---\n\nlocal divergent bytes\n";
    let server = payload(rel, "server winner bytes");
    assert_eq!(server.change_seq, None);
    assert_eq!(seq_of(&m, rel), None);
    for pass in 1..=4 {
        w.put(&target, local);
        m.stores.record_shadow(&wire, &sha256_hex("stale baseline"));
        let out = write_seq(&mut m, &mut w, &server, 9_000).unwrap();
        match out {
            MaterializeOutcome::Stashed { .. } => {}
            other => panic!("sweep {pass}: expected Stashed, got {other:?}"),
        }
        assert_eq!(
            w.conflict_copies(dir).len(),
            1,
            "sweep {pass}: byte-identical content must reuse the ONE stash"
        );
    }
    let forks = w.conflict_copies(dir);
    assert_eq!(w.text(&format!("{dir}/{}", forks[0])), local);
}

#[test]
fn watchers_are_told_of_writes_beforehand() {
    let (_w, m) = mk(MaterializerMode::Live, default_cfg());
    let p = payload("a\\b.md", "x");
    match m.begin_write(&p).unwrap() {
        WriteStart::Ready(pending) => {
            assert!(!pending.announce);
            assert_eq!(pending.lock_key, "Mainframe/a/b.md");
        }
        other => panic!("expected Ready, got {other:?}"),
    }
    match m.with_echo_guard().begin_write(&p).unwrap() {
        WriteStart::Ready(pending) => assert!(pending.announce),
        other => panic!("expected Ready, got {other:?}"),
    }
}

#[test]
fn windows_folders_are_confined_by_their_own_separators() {
    let mut m = Materializer::new(
        "D:\\Vaults".to_string(),
        None,
        MaterializerMode::Live,
        "D:\\ws".to_string(),
        "sub".to_string(),
        MaterializerConfig::default(),
    );
    let w = PathStyle::Windows;
    assert_eq!(m.confine(w, "sub/a.md", "\\\\?\\D:\\Vaults", "\\\\?\\D:\\Vaults\\sub"), Ok(()));
    assert_eq!(
        m.confine(w, "x.md", "\\\\?\\D:\\Vaults", "\\\\?\\D:\\Other"),
        Err(MaterializerError::PathTraversal("x.md".to_string()))
    );
    assert_eq!(m.rel_for_stash(w, "D:\\Vaults\\a\\b.md"), Some("a/b.md".to_string()));
    m.mode = MaterializerMode::Shadow;
    assert_eq!(m.rel_for_stash(w, "D:\\Vaults\\a\\b.md"), None);
}

#[test]
fn numbers_of_the_frontmatter_keep_every_digit() {
    for n in ["31.245270191439438", "121.48791951161945", "0.1", "1e-7", "9007199254740993"] {
        let value: f64 = n.parse().unwrap();
        let mut p = payload("a.md", "body");
        p.frontmatter = object(&format!("{{\"score\":{n}}}"));
        let text = serialize_with_frontmatter(&p);
        let line = text.lines().find(|l| l.starts_with("score: ")).unwrap();
        assert_eq!(line["score: ".len()..].parse::<f64>().unwrap(), value, "{n}");
    }
}
