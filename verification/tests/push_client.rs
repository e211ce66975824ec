use base64::engine::general_purpose::STANDARD as B64;
use base64::Engine;
use std::collections::BTreeMap;
use vault_sync::base_seq_store::BaseSeqStore;
use vault_sync::digest::sha256_hex;
use vault_sync::materializer::{
    Frontmatter, IntegrityVerdict, MaterializeOutcome, Materializer, MaterializerConfig,
    MaterializerMode, NotePayload, StashRequest, WritePlan, WriteStart,
};
use vault_sync::path_map::PathMap;
use vault_sync::push_client::{
    check_extension, compute_backoff, in_drain_order, map_response, plan_chains,
    shadow_hash_for_ack, AlignSource, AlignTask, ApiError, ErrorStep, EventStart, FailureReason,
    FileRead, Processed, PushClient, PushClientConfig, PushOutcome, PushRequest, PushResponse,
    PushStatus, SkipReason, GATE_COOLDOWN_SECS,
};
use vault_sync::push_journal::{
    new_event_id, JournalFile, PushAction, PushEvent, PushJournal, CURRENT_SCHEMA,
};
use vault_sync::sync_health::SyncHealth;
use vault_sync::sync_shadow::ShadowStore;
use vault_sync::tray_state::TrayState;

const SEC: u128 = 1_000_000_000;
const MS: u128 = 1_000_000;

fn config_for_test() -> PushClientConfig {
    PushClientConfig {
        allowed_extensions: vec![".md".into(), ".canvas".into()],
        strip_frontmatter_fields_for_diff: vec!["updated".into()],
        max_retry_attempts: 3,
        initial_backoff_ms: 1,
        max_backoff_ms: 10,
        batch_size: 8,
        loop_interval_ms: 50,
        push_concurrency: 4,
        busy_loop_interval_ms: 5,
    }
}

fn event(n: u64, path: &str, sha: String, content: Option<Vec<u8>>) -> PushEvent {
    PushEvent {
        schema_version: CURRENT_SCHEMA,
        id: new_event_id(1_785_000_000_000_000_000, n),
        path: path.to_string(),
        action: PushAction::Modify,
        base_hash: Some("0".repeat(64)),
        content_sha: sha,
        content_bytes: content,
        queued_at: "2026-07-01T00:00:00Z".to_string(),
        device_id: "dev-test".into(),
    }
}

fn evt(path: &str, body: &[u8]) -> PushEvent {
    let n = path.bytes().chain(body.iter().copied()).fold(7u64, |h, b| {
        h.wrapping_mul(31).wrapping_add(b as u64)
    });
    event(n, path, sha256_hex(body), Some(body.to_vec()))
}

fn lazy_evt(path: &str, enqueue_sha_of: &[u8]) -> PushEvent {
    event(1, path, sha256_hex(enqueue_sha_of), None)
}

fn accepted(content_hash: &str, server_hash: Option<&str>, seq: Option<i64>) -> PushResponse {
    PushResponse {
        status: PushStatus::Accepted,
        seq: Some(1),
        content_hash: Some(content_hash.to_string()),
        merged_content: None,
        message: None,
        server_hash: server_hash.map(|s| s.to_string()),
        server_seq: seq,
    }
}

fn accepted_plain() -> PushResponse {
    accepted("h", None, None)
}

fn accepted_body(server_hash: &str) -> PushResponse {
    accepted(server_hash, Some(server_hash), Some(1))
}

fn copy_response(r: &PushResponse) -> PushResponse {
    PushResponse {
        status: r.status,
        seq: r.seq,
        content_hash: r.content_hash.clone(),
        merged_content: r.merged_content.clone(),
        message: r.message.clone(),
        server_hash: r.server_hash.clone(),
        server_seq: r.server_seq,
    }
}

/// What the server says to every push.
enum Reply {
    Answer(PushResponse),
    Status(u16),
    Conflict(Option<String>),
    Upgrade(String),
}

impl Reply {
    fn to_result(&self) -> Result<PushResponse, ApiError> {
        match self {
            Reply::Answer(r) => Ok(copy_response(r)),
            Reply::Status(401) => Err(ApiError::Unauthorized),
            Reply::Status(403) => Err(ApiError::Forbidden),
            Reply::Status(status) => Err(ApiError::Server {
                status: *status,
                message: format!("server error: {status}"),
            }),
            Reply::Conflict(h) => Err(ApiError::Conflict { expected_hash: h.clone() }),
            Reply::Upgrade(d) => Err(ApiError::UpgradeRequired { detail: d.clone() }),
        }
    }
}

struct Rig {
    files: BTreeMap<String, Vec<u8>>,
    read_only: bool,
    now: u128,
    file: JournalFile,
    journal: PushJournal,
    client: PushClient,
    m: Materializer,
    reply: Reply,
    requests: Vec<PushRequest>,
    notes: BTreeMap<String, NotePayload>,
    fetches: usize,
}

fn line_of(e: &PushEvent) -> String {
    format!("{e:?}")
}

impl Rig {
    fn new(events: Vec<PushEvent>, reply: Reply) -> Rig {
        let mut file = JournalFile { lines: Vec::new(), bytes: 0, terminated: true };
        let mut journal = PushJournal::open(&file);
        for e in events {
            let line = line_of(&e);
            journal.append(&mut file, e, line).unwrap();
        }
        let m = Materializer::new(
            "/vault".to_string(),
            None,
            MaterializerMode::Live,
            "/ws".to_string(),
            "sub-test".to_string(),
            MaterializerConfig { device_id: "dev-test".into(), ..Default::default() },
        );
        Rig {
            files: BTreeMap::new(),
            read_only: false,
            now: 1_000 * SEC,
            file,
            journal,
            client: PushClient::new("dev-test".into(), config_for_test(), "/vault".to_string()),
            m,
            reply,
            requests: Vec::new(),
            notes: BTreeMap::new(),
            fetches: 0,
        }
    }

    /// A client that can rewrite local files, with a shadow store and the
    /// watcher's record of queued hashes.
    fn aligning(events: Vec<PushEvent>, reply: Reply) -> Rig {
        let mut r = Rig::new(events, reply).with_shadow();
        r.client = r.client.with_materializer().with_enqueued_hashes(PathMap::new());
        r
    }

    fn with_shadow(mut self) -> Rig {
        self.m = self.m.with_shadow_store(ShadowStore::load(None));
        self
    }

    fn with_versions(mut self) -> Rig {
        self.m = self.m.with_base_seq_store(BaseSeqStore::new(vec![]));
        self
    }

    fn with_tray(mut self) -> Rig {
        let tray = TrayState::new("sub".into(), "https://x".into(), "/v".into());
        self.m = self.m.with_tray_state(tray);
        self
    }

    fn pending(&mut self) -> usize {
        self.journal.len(&self.file)
    }

    fn shadow(&self, path: &str) -> Option<String> {
        self.m.stores.shadow_get(path)
    }

    fn enqueued(&self, path: &str) -> Option<String> {
        self.client.enqueued_hashes.as_ref().unwrap().get(path).cloned()
    }

    fn stash(&mut self, req: &StashRequest, bytes: &[u8]) -> String {
        assert_eq!(req.local_sha, sha256_hex(bytes));
        let stem = req.path.strip_suffix(".md").unwrap();
        let path = format!("/vault/{stem}.conflict-from-{}-{}.md", req.device_id, req.seq);
        self.files.insert(path.clone(), bytes.to_vec());
        path
    }

    fn fetch(&mut self, path: &str) -> Option<NotePayload> {
        self.fetches += 1;
        self.notes.get(path).map(|p| NotePayload {
            path: p.path.clone(),
            frontmatter: Frontmatter::Null,
            body: p.body.clone(),
            sha256: p.sha256.clone(),
            change_seq: p.change_seq,
            enriched_body: p.enriched_body.clone(),
        })
    }

    fn pull(&mut self, p: &NotePayload, seq: u64) -> MaterializeOutcome {
        let pending = match self.m.begin_write(p).unwrap() {
            WriteStart::Skip(reason) => return MaterializeOutcome::Skipped(reason),
            WriteStart::Ready(pending) => pending,
        };
        let local = self.files.get(&pending.target).cloned();
        let now = self.now;
        match self.m.write_with_change_seq(p, seq, &pending.content, local.as_deref(), now) {
            WritePlan::Skip(reason) => MaterializeOutcome::Skipped(reason),
            WritePlan::PushUp { .. } => Materializer::finish_push_up(false),
            WritePlan::Pull { stash, aligned } => {
                let stash_path = stash.map(|req| self.stash(&req, &local.unwrap()));
                self.files.insert(pending.target.clone(), pending.content.clone());
                let check = if sha256_hex(&self.files[&pending.target]) == p.sha256 {
                    IntegrityVerdict::Matches
                } else {
                    IntegrityVerdict::OtherMismatch
                };
                self.m.finish_write(
                    p,
                    pending.target,
                    pending.content_sha,
                    stash_path,
                    aligned,
                    check,
                )
            }
        }
    }

    fn align(&mut self, path: &str, drained: &[u8], drained_sha: &str, task: &AlignTask) {
        let canonical = std::str::from_utf8(drained)
            .ok()
            .map(|t| t.replace("\r\n", "\n").into_bytes());
        let content = match self.client.align_source(canonical, &task.server_hash) {
            AlignSource::NotWired => return,
            AlignSource::Local { content } => content,
            AlignSource::Fetch => match self.fetch(path) {
                Some(note) => match PushClient::fetched_bytes(&note) {
                    Some(bytes) => bytes,
                    None => return,
                },
                None => return,
            },
        };
        let sha = sha256_hex(&content);
        let target = self.m.begin_aligned_write(path).unwrap().unwrap();
        let current = self.files.get(&target).cloned();
        let outcome =
            match Materializer::write_aligned_bytes(&content, drained_sha, current.as_deref()) {
                Some(skipped) => Some(skipped),
                None if self.read_only => None,
                None => {
                    self.files.insert(target.clone(), content);
                    Some(self.m.finish_aligned_write(path, &sha, target))
                }
            };
        self.client.finish_align(&mut self.m.stores, path, task, sha, outcome.as_ref());
    }

    fn process(&mut self, evt: &PushEvent) -> PushOutcome {
        let content = match self.client.begin_event(evt) {
            EventStart::Skip(reason) => return PushOutcome::Skipped(reason),
            EventStart::Ready { content } => content,
            EventStart::NeedsFile { path } => {
                let read = match self.files.get(&path) {
                    Some(b) => FileRead::Bytes(b.clone()),
                    None => FileRead::Missing,
                };
                match PushClient::after_read(read) {
                    Ok(content) => content,
                    Err(outcome) => return outcome,
                }
            }
        };
        let drained_sha = PushClient::drained_sha(evt, &content);
        let mut last_error: Option<String> = None;
        let mut attempt = 0;
        loop {
            if let Some(outcome) = self.client.next_attempt(attempt, last_error.clone()) {
                return outcome;
            }
            let req = self.client.build_request(&self.m.stores, evt, &content);
            self.requests.push(req);
            match self.reply.to_result() {
                Ok(resp) => {
                    let step =
                        PushClient::on_response(&mut self.m.stores, evt, &drained_sha, resp);
                    if let Some(task) = step.align {
                        self.align(&evt.path, &content, &drained_sha, &task);
                    }
                    return step.outcome;
                }
                Err(e) => {
                    let now = self.now;
                    match self.client.on_error(evt, &content, attempt, e, now) {
                        ErrorStep::Done(outcome) => return outcome,
                        ErrorStep::Conflict { stash, outcome } => {
                            if let Some(req) = stash {
                                self.stash(&req, &content);
                            }
                            if self.client.materializer_wired {
                                match self.fetch(&evt.path) {
                                    Some(note) => {
                                        let _ = self.pull(&note, 0);
                                    }
                                    None => {
                                        self.client.note_gone(&mut self.m.stores, &evt.path)
                                    }
                                }
                            }
                            return outcome;
                        }
                        ErrorStep::Retry { backoff_ms, last_error: e } => {
                            self.now += backoff_ms as u128 * MS;
                            last_error = Some(e);
                            attempt += 1;
                        }
                    }
                }
            }
        }
    }

    fn drain_once(&mut self) -> Vec<(PushEvent, PushOutcome)> {
        let now = self.now;
        let drained =
            self.client.drain_once(&self.m.stores, &mut self.journal, &self.file, now);
        let batch = match drained {
            Some(batch) => batch,
            None => return Vec::new(),
        };
        let mut done: Vec<(usize, PushOutcome)> = Vec::new();
        for chain in plan_chains(&batch) {
            for i in chain {
                let outcome = self.process(&batch[i].0);
                done.push((i, outcome));
            }
        }
        let processed = in_drain_order(batch, done).expect("an event is sent once");
        let (keep, out) = PushClient::settle(
            &mut self.m.stores,
            &mut self.journal,
            &self.file,
            processed,
            1_785_000_000,
        );
        if let Some(keep) = keep {
            let lines = keep.into_iter().map(|e| (e.clone(), line_of(&e))).collect();
            self.journal.rewrite(&mut self.file, lines);
        }
        let pending = self.pending();
        let now_secs = (self.now / SEC) as u64;
        self.client.note_backlog(&mut self.m.stores, out.len(), pending, now_secs);
        out
    }
}

#[test]
fn test_no_ack_materialize_when_hashes_equal() {
    let body = b"already canonical\n";
    let sha = sha256_hex(body);
    let rel = "notes/a.md";
    let mut r = Rig::aligning(vec![lazy_evt(rel, body)], Reply::Answer(accepted_body(&sha)));
    r.files.insert("/vault/notes/a.md".to_string(), body.to_vec());
    let before = r.files.clone();
    let outcomes = r.drain_once();
    assert!(matches!(outcomes[0].1, PushOutcome::Sent { .. }));
    assert_eq!(r.files, before, "steady state stays zero-write");
    assert_eq!(r.shadow(rel).as_deref(), Some(sha.as_str()));
    assert_eq!((r.requests.len(), r.fetches), (1, 0));
}

#[test]
fn test_pre_piece1_server_omits_server_hash_no_align() {
    let body = b"local bytes, non-canonicalizing server\n";
    let local_sha = sha256_hex(body);
    let rel = "notes/a.md";
    let reply = Reply::Answer(accepted(&local_sha, None, Some(1)));
    let mut r = Rig::aligning(vec![lazy_evt(rel, body)], reply);
    r.files.insert("/vault/notes/a.md".to_string(), body.to_vec());
    let before = r.files.clone();
    let outcomes = r.drain_once();
    assert!(matches!(outcomes[0].1, PushOutcome::Sent { .. }));
    assert_eq!(r.files, before, "file untouched - no align attempted");
    assert_eq!(
        r.shadow(rel).as_deref(),
        Some(local_sha.as_str()),
        "shadow still advances via the content_hash fallback"
    );
    assert_eq!((r.requests.len(), r.fetches), (1, 0));
}

#[test]
fn test_no_materializer_fallback_records_nothing_in_shadow() {
    let body = b"drained pre-canonicalization bytes\n";
    let drained_sha = sha256_hex(body);
    let server_hash = sha256_hex(b"different canonical bytes the server stored\n");
    let rel = "notes/a.md";
    let mut r = Rig::new(vec![lazy_evt(rel, body)], Reply::Answer(accepted_body(&server_hash)))
        .with_shadow();
    r.files.insert("/vault/notes/a.md".to_string(), body.to_vec());
    let outcomes = r.drain_once();
    assert!(
        matches!(outcomes[0].1, PushOutcome::Sent { .. }),
        "server still ACCEPTED the push; got {:?}",
        outcomes[0].1
    );
    assert!(
        r.shadow(rel).is_none(),
        "no-materializer fallback must record NOTHING, got {:?}",
        r.shadow(rel)
    );
    assert_ne!(drained_sha, server_hash);
    assert_eq!(r.requests.len(), 1);
}

#[test]
fn test_ack_materialize_rewrite_then_shadow() {
    let drained = b"line one\r\nline two\r\n";
    let canonical = b"line one\nline two\n";
    let canon_sha = sha256_hex(canonical);
    let rel = "notes/crlf.md";
    let mut r =
        Rig::aligning(vec![lazy_evt(rel, drained)], Reply::Answer(accepted_body(&canon_sha)));
    r.files.insert("/vault/notes/crlf.md".to_string(), drained.to_vec());
    let outcomes = r.drain_once();
    assert!(matches!(outcomes[0].1, PushOutcome::Sent { .. }));
    assert_eq!(
        r.files["/vault/notes/crlf.md"],
        canonical.to_vec(),
        "local must be rewritten to the server canonical bytes"
    );
    assert_eq!(r.shadow(rel).as_deref(), Some(canon_sha.as_str()));
    assert_eq!(
        r.enqueued(rel).as_deref(),
        Some(canon_sha.as_str()),
        "enqueued_hashes must be updated to the canonical sha"
    );
    assert_eq!((r.requests.len(), r.fetches), (1, 0));
}

#[test]
fn test_ack_materialize_failed_rewrite_leaves_shadow_stale() {
    let drained = b"x\r\n";
    let canon_sha = sha256_hex(b"x\n");
    let rel = "notes/ro/g.md";
    let mut r =
        Rig::aligning(vec![lazy_evt(rel, drained)], Reply::Answer(accepted_body(&canon_sha)));
    r.files.insert("/vault/notes/ro/g.md".to_string(), drained.to_vec());
    r.read_only = true;
    let outcomes = r.drain_once();
    assert!(matches!(outcomes[0].1, PushOutcome::Sent { .. }));
    assert_ne!(
        r.shadow(rel).as_deref(),
        Some(canon_sha.as_str()),
        "failed rewrite must NOT record shadow == server"
    );
    assert!(
        r.enqueued(rel).is_none(),
        "enqueued_hashes must not advance on a failed rewrite"
    );
    assert_eq!(r.files["/vault/notes/ro/g.md"], drained.to_vec());
}

#[test]
fn test_ack_materialize_concurrent_edit_guard() {
    let drained = b"first version\r\n";
    let edited = b"the user edited this mid-flight\n";
    let canon_sha = sha256_hex(b"first version\n");
    let rel = "notes/edit.md";
    let mut r = Rig::aligning(vec![evt(rel, drained)], Reply::Answer(accepted_body(&canon_sha)));
    r.files.insert("/vault/notes/edit.md".to_string(), edited.to_vec());
    let outcomes = r.drain_once();
    assert!(matches!(outcomes[0].1, PushOutcome::Sent { .. }));
    assert_eq!(
        r.files["/vault/notes/edit.md"],
        edited.to_vec(),
        "the mid-flight edit must NEVER be overwritten"
    );
    assert_eq!(
        r.shadow(rel).as_deref(),
        Some(canon_sha.as_str()),
        "shadow records the server's current canonical (push2's CAS base)"
    );
    assert!(
        r.enqueued(rel).is_none(),
        "enqueued_hashes must NOT advance past the edit (push2 must enqueue)"
    );
    assert_eq!(r.requests.len(), 1);
}

#[test]
fn test_ack_materialize_hash_verify_fallback() {
    let drained = b"body only\r\n";
    let server_body = "<!-- nx:begin -->\nmanaged\n<!-- nx:end -->\n\nbody only\n";
    let server_sha = sha256_hex(server_body.as_bytes());
    let rel = "notes/defended.md";
    let mut r =
        Rig::aligning(vec![lazy_evt(rel, drained)], Reply::Answer(accepted_body(&server_sha)));
    r.files.insert("/vault/notes/defended.md".to_string(), drained.to_vec());
    r.notes.insert(
        rel.to_string(),
        NotePayload {
            path: rel.to_string(),
            frontmatter: Frontmatter::Null,
            body: server_body.to_string(),
            sha256: server_sha.clone(),
            change_seq: None,
            enriched_body: Some(server_body.to_string()),
        },
    );
    let outcomes = r.drain_once();
    assert!(matches!(outcomes[0].1, PushOutcome::Sent { .. }));
    assert_eq!(
        r.files["/vault/notes/defended.md"],
        server_body.as_bytes().to_vec(),
        "the served bytes must be written"
    );
    assert_eq!(r.shadow(rel).as_deref(), Some(server_sha.as_str()));
    assert_eq!(r.enqueued(rel).as_deref(), Some(server_sha.as_str()));
    assert_eq!((r.requests.len(), r.fetches), (1, 1));
}

#[test]
fn fetched_bytes_must_have_the_announced_hash() {
    let mut note = NotePayload {
        path: "a.md".to_string(),
        frontmatter: Frontmatter::Null,
        body: "body".to_string(),
        sha256: sha256_hex(b"body"),
        change_seq: None,
        enriched_body: None,
    };
    assert_eq!(PushClient::fetched_bytes(&note), Some(b"body".to_vec()));
    note.enriched_body = Some("other".to_string());
    assert_eq!(PushClient::fetched_bytes(&note), None);
}

#[test]
fn test_ack_materialize_updates_enqueued_hashes() {
    let drained = b"t\r\n";
    let canonical = b"t\n";
    let canon_sha = sha256_hex(canonical);
    let rel = "notes/touch.md";
    let mut r =
        Rig::aligning(vec![lazy_evt(rel, drained)], Reply::Answer(accepted_body(&canon_sha)));
    r.files.insert("/vault/notes/touch.md".to_string(), drained.to_vec());
    r.drain_once();
    assert_eq!(r.enqueued(rel).as_deref(), Some(canon_sha.as_str()));
    assert_eq!(r.shadow(rel).as_deref(), Some(canon_sha.as_str()));
    assert_eq!(r.files["/vault/notes/touch.md"], canonical.to_vec());
}

#[test]
fn test_ack_materialize_uses_drained_sha_not_enqueue_time_sha() {
    let stale_content_at_enqueue = b"version at enqueue time\r\n";
    let drained = b"version at drain time\r\n";
    let canonical = b"version at drain time\n";
    let canon_sha = sha256_hex(canonical);
    let rel = "notes/stale-enqueue.md";
    let mut r = Rig::aligning(
        vec![lazy_evt(rel, stale_content_at_enqueue)],
        Reply::Answer(accepted_body(&canon_sha)),
    );
    r.files.insert("/vault/notes/stale-enqueue.md".to_string(), drained.to_vec());
    let outcomes = r.drain_once();
    assert!(matches!(outcomes[0].1, PushOutcome::Sent { .. }));
    assert_eq!(
        r.files["/vault/notes/stale-enqueue.md"],
        canonical.to_vec(),
        "the rewrite is compared against the DRAINED sha, not the stale enqueue-time sha"
    );
    assert_eq!(r.shadow(rel).as_deref(), Some(canon_sha.as_str()));
    assert_eq!(r.enqueued(rel).as_deref(), Some(canon_sha.as_str()));
    assert_eq!((r.requests.len(), r.fetches), (1, 0));
}

#[test]
fn drain_once_stamps_sync_health_progress_when_events_processed() {
    let mut r = Rig::new(vec![evt("00_VAULT.md", b"x")], Reply::Status(500));
    r.client = r.client.with_sync_health(SyncHealth::new());
    let now_secs = (r.now / SEC) as u64;
    let before = r.client.health.as_ref().unwrap().secs_since_progress(now_secs);
    assert!(before >= 1);
    let outcomes = r.drain_once();
    assert_eq!(outcomes.len(), 1, "drain_once must have processed the event");
    let after = r.client.health.as_ref().unwrap().secs_since_progress(now_secs);
    assert!(after < 1, "elapsed before = {before}s, after = {after}s");
}

#[test]
fn drain_once_stamps_progress_on_caught_up_empty_journal() {
    let mut r = Rig::new(vec![], Reply::Status(500));
    r.client = r.client.with_sync_health(SyncHealth::new());
    let now_secs = (r.now / SEC) as u64;
    let before = r.client.health.as_ref().unwrap().secs_since_progress(now_secs);
    assert!(before >= 1, "elapsed should be measurable");
    let outcomes = r.drain_once();
    assert!(outcomes.is_empty(), "no events queued; empty outcomes");
    let after = r.client.health.as_ref().unwrap().secs_since_progress(now_secs);
    assert!(after < 1, "elapsed before = {before}s, after = {after}s");
}

#[test]
fn no_progress_is_noted_where_there_was_none() {
    let mut r = Rig::new(vec![], Reply::Status(500));
    r.client = r.client.with_sync_health(SyncHealth::new());
    r.client.note_backlog(&mut r.m.stores, 0, 3, 77);
    assert_eq!(r.client.health.as_ref().unwrap().last_progress_secs, 0);
    assert_eq!(r.client.next_interval_ms(0), 50);
    assert_eq!(r.client.next_interval_ms(2), 5);
}

#[test]
fn former_substrate_path_now_pushes() {
    let mut r = Rig::new(vec![evt("00_VAULT.md", b"x")], Reply::Answer(accepted_plain()));
    let outcomes = r.drain_once();
    assert_eq!(outcomes.len(), 1);
    assert!(
        matches!(outcomes[0].1, PushOutcome::Sent { .. }),
        "expected Sent (substrate pushes as content), got {:?}",
        outcomes[0].1
    );
    assert_eq!(r.requests.len(), 1);
}

#[test]
fn disallowed_extension_skipped() {
    let mut r = Rig::new(vec![evt("notes/a.exe", b"x")], Reply::Answer(accepted_plain()));
    let outcomes = r.drain_once();
    match &outcomes[0].1 {
        PushOutcome::Skipped(SkipReason::ExtensionFiltered { ext }) => {
            assert_eq!(ext, ".exe");
        }
        other => panic!("expected ExtensionFiltered, got {other:?}"),
    }
    assert_eq!(r.requests.len(), 0);
}

fn bare_client() -> PushClient {
    PushClient::new("d".into(), config_for_test(), "/v".to_string())
}

#[test]
fn identical_hash_skipped() {
    let client = bare_client();
    let bytes = b"hello world";
    let server_hash = sha256_hex(bytes);
    let skip = client.pre_journal_filter("notes/a.md", bytes, Some(&server_hash));
    match skip {
        Some(SkipReason::IdenticalToServer { hash }) => assert_eq!(hash, server_hash),
        other => panic!("expected IdenticalToServer, got {other:?}"),
    }
}

#[test]
fn normalize_strips_updated_field() {
    let client = bare_client();
    let raw = b"---\nupdated: 2026-05-27\ntitle: x\n---\nbody\n";
    let normalized = client.normalize_for_diff(raw);
    let s = String::from_utf8(normalized).unwrap();
    assert!(!s.contains("updated:"));
    assert!(s.contains("title: x"));
    assert!(s.contains("body"));
    assert_ne!(sha256_hex(raw), sha256_hex(s.as_bytes()));
}

#[test]
fn normalize_no_frontmatter_passthrough() {
    let client = bare_client();
    let raw = b"plain markdown body, no frontmatter\n";
    assert_eq!(client.normalize_for_diff(raw), raw.to_vec());
}

#[test]
fn normalize_unusual_frontmatter_delimiters() {
    let client = bare_client();
    let raw = b"# heading\n---\nupdated: x\n---\nbody\n";
    assert_eq!(client.normalize_for_diff(raw), raw.to_vec());
}

#[test]
fn frontmatter_only_rewrite_is_skipped() {
    let client = bare_client();
    let yesterday = b"---\nupdated: 2026-05-26\ntitle: x\n---\nbody\n";
    let today = b"---\nupdated: 2026-05-27\ntitle: x\n---\nbody\n";
    let server_hash = sha256_hex(&client.normalize_for_diff(yesterday));
    let skip = client.pre_journal_filter("notes/a.md", today, Some(&server_hash));
    assert!(matches!(skip, Some(SkipReason::IdenticalToServer { .. })));
}

#[test]
fn empty_files_are_not_queued() {
    let client = bare_client();
    assert_eq!(client.pre_journal_filter("a.md", b"", None), Some(SkipReason::EmptyContent));
    assert_eq!(
        client.pre_journal_filter("a.png", b"", None),
        Some(SkipReason::ExtensionFiltered { ext: ".png".to_string() })
    );
}

#[test]
fn accepted_event_acks_journal() {
    let mut r = Rig::new(vec![evt("notes/a.md", b"hello")], Reply::Answer(accepted_plain()));
    let outcomes = r.drain_once();
    assert_eq!(outcomes.len(), 1);
    assert!(matches!(outcomes[0].1, PushOutcome::Sent { .. }));
    assert_eq!(r.pending(), 0);
}

#[test]
fn drain_routes_by_path_processes_all_events_and_drains() {
    let mut r = Rig::new(
        vec![
            evt("notes/a.md", b"a1"),
            evt("notes/b.md", b"b1"),
            evt("notes/c.md", b"c1"),
            evt("notes/a.md", b"a2"),
        ],
        Reply::Answer(accepted_plain()),
    );
    let outcomes = r.drain_once();
    assert_eq!(outcomes.len(), 4, "every event is pushed (no collapse)");
    assert!(
        outcomes.iter().all(|(_, o)| matches!(o, PushOutcome::Sent { .. })),
        "all four accepted"
    );
    assert_eq!(r.pending(), 0, "journal fully drained (batch-acked)");
    let mut paths: Vec<&str> = outcomes.iter().map(|(e, _)| e.path.as_str()).collect();
    paths.sort();
    paths.dedup();
    assert_eq!(paths, vec!["notes/a.md", "notes/b.md", "notes/c.md"]);
    let sent: Vec<&str> = r
        .requests
        .iter()
        .filter(|q| q.path == "notes/a.md")
        .map(|q| q.content_b64.as_str())
        .collect();
    assert_eq!(sent, vec![B64.encode(b"a1"), B64.encode(b"a2")], "one path keeps its order");
}

#[test]
fn lazy_none_content_reads_from_disk_at_drain() {
    let rel = "notes/lazy.md";
    let body = b"lazily-read-body";
    let mut r = Rig::new(vec![lazy_evt(rel, body)], Reply::Answer(accepted_plain()));
    r.files.insert("/vault/notes/lazy.md".to_string(), body.to_vec());
    let outcomes = r.drain_once();
    assert_eq!(outcomes.len(), 1);
    assert!(matches!(outcomes[0].1, PushOutcome::Sent { .. }));
    assert_eq!(r.requests.len(), 1);
    assert_eq!(r.requests[0].content_b64, B64.encode(body));
    assert_eq!(r.requests[0].content_b64, "bGF6aWx5LXJlYWQtYm9keQ==");
}

#[test]
fn lazy_none_content_vanished_file_skips_and_acks() {
    let mut r = Rig::new(
        vec![event(1, "notes/gone.md", "a".repeat(64), None)],
        Reply::Answer(accepted_plain()),
    );
    let outcomes = r.drain_once();
    assert!(matches!(
        outcomes[0].1,
        PushOutcome::Skipped(SkipReason::FileVanished)
    ));
    assert_eq!(r.pending(), 0);
    assert_eq!(r.requests.len(), 0);
}

#[test]
fn unreadable_files_are_tried_again() {
    match PushClient::after_read(FileRead::Failed("denied".to_string())) {
        Err(PushOutcome::Failed(FailureReason::NetworkExhausted { last_error })) => {
            assert_eq!(last_error, "lazy read failed: denied")
        }
        other => panic!("expected NetworkExhausted, got {other:?}"),
    }
}

#[test]
fn failed_event_nacks_journal() {
    let mut r = Rig::new(vec![evt("notes/a.md", b"hello")], Reply::Status(500));
    let outcomes = r.drain_once();
    assert!(matches!(
        outcomes[0].1,
        PushOutcome::Failed(FailureReason::NetworkExhausted { .. })
    ));
    assert_eq!(r.pending(), 1, "failed event must stay in journal for retry");
    assert_eq!(r.requests.len(), 3);
}

#[test]
fn http_409_yields_conflict_unrecoverable() {
    let mut r = Rig::new(
        vec![evt("notes/a.md", b"hello")],
        Reply::Conflict(Some("srv_hash".to_string())),
    );
    let outcomes = r.drain_once();
    match &outcomes[0].1 {
        PushOutcome::Failed(FailureReason::ConflictUnrecoverable { expected_hash }) => {
            assert_eq!(expected_hash.as_deref(), Some("srv_hash"));
        }
        other => panic!("expected ConflictUnrecoverable, got {other:?}"),
    }
    assert_eq!(r.pending(), 0);
}

#[test]
fn test_422_permanent_skip_and_ack() {
    for status in [422u16, 400] {
        let mut r = Rig::new(vec![evt("notes/bad.md", b"x")], Reply::Status(status));
        let outcomes = r.drain_once();
        assert_eq!(outcomes.len(), 1);
        assert_eq!(
            outcomes[0].1,
            PushOutcome::Skipped(SkipReason::ServerRejected { status }),
            "{status} must be a permanent ServerRejected skip"
        );
        assert_eq!(r.pending(), 0, "the outcome must be acked (journal drained)");
        assert_eq!(r.requests.len(), 1);
    }
}

#[test]
fn modify_with_none_base_backfills_cas_base_from_shadow() {
    let server_hash = "a".repeat(64);
    let mut e = evt("notes/edited.md", b"new local body");
    e.base_hash = None;
    let mut r = Rig::new(vec![e], Reply::Answer(accepted_plain())).with_shadow();
    r.m.stores.record_shadow("notes/edited.md", &server_hash);
    let outcomes = r.drain_once();
    assert!(
        matches!(outcomes[0].1, PushOutcome::Sent { .. }),
        "shadow-backfilled base must let the push be accepted, got {:?}",
        outcomes[0].1
    );
    assert_eq!(r.requests.len(), 1);
    assert_eq!(r.requests[0].base_hash, server_hash);
}

#[test]
fn modify_with_none_base_and_no_shadow_entry_sends_empty_base() {
    let mut e = evt("notes/brand-new.md", b"brand new");
    e.base_hash = None;
    let mut r = Rig::new(vec![e], Reply::Answer(accepted_plain())).with_shadow();
    let outcomes = r.drain_once();
    assert!(matches!(outcomes[0].1, PushOutcome::Sent { .. }));
    assert_eq!(r.requests.len(), 1);
    assert_eq!(r.requests[0].base_hash, "");
}

#[test]
fn delete_with_none_base_backfills_cas_base_from_shadow() {
    let server_hash = "b".repeat(64);
    let mut e = event(1, "notes/deleted.md", String::new(), None);
    e.action = PushAction::Delete;
    e.base_hash = None;
    let mut r = Rig::new(vec![e], Reply::Answer(accepted("", None, None)))
        .with_shadow()
        .with_versions();
    r.m.stores.record_shadow("notes/deleted.md", &server_hash);
    r.m.stores.record_adopted("notes/deleted.md", 4);
    let outcomes = r.drain_once();
    assert!(
        matches!(outcomes[0].1, PushOutcome::Sent { .. }),
        "shadow-backfilled delete base must let the delete be accepted, got {:?}",
        outcomes[0].1
    );
    assert_eq!(r.requests[0].base_hash, server_hash);
    assert_eq!(r.requests[0].action, PushAction::Delete);
    assert_eq!(r.requests[0].base_seq, Some(4));
    assert_eq!(r.m.stores.seq_get("notes/deleted.md"), None, "the version is forgotten");
}

#[test]
fn cas_409_stashes_local_bytes_before_ack() {
    let body = b"my local edit that lost the CAS race";
    let mut r = Rig::new(
        vec![evt("notes/raced.md", body)],
        Reply::Conflict(Some("srv_hash".to_string())),
    );
    let outcomes = r.drain_once();
    assert!(matches!(
        outcomes[0].1,
        PushOutcome::Failed(FailureReason::ConflictUnrecoverable { .. })
    ));
    let stash: Vec<&String> =
        r.files.keys().filter(|p| p.contains(".conflict-from-")).collect();
    assert_eq!(stash.len(), 1, "CAS-409 must stash the losing local bytes, got {stash:?}");
    assert_eq!(r.files[stash[0]], body.to_vec(), "stash must hold the exact local bytes pushed");
}

#[test]
fn lost_deletes_set_nothing_aside() {
    let client = bare_client();
    assert_eq!(client.stash_local_on_conflict("a.md", b""), None);
    let req = client.stash_local_on_conflict("a.md", b"x").unwrap();
    assert_eq!((req.path.as_str(), req.device_id.as_str(), req.seq), ("a.md", "d", 0));
}

#[test]
fn unauthorized_does_not_retry() {
    let mut r = Rig::new(vec![evt("notes/a.md", b"hello")], Reply::Status(401));
    let outcomes = r.drain_once();
    assert!(matches!(
        outcomes[0].1,
        PushOutcome::Failed(FailureReason::Unauthorized)
    ));
    assert_eq!(r.requests.len(), 1);
    let mut r = Rig::new(vec![evt("notes/a.md", b"hello")], Reply::Status(403));
    assert_eq!(r.drain_once()[0].1, PushOutcome::Failed(FailureReason::Forbidden));
}

#[test]
fn retry_backoff_capped_at_max_backoff_ms() {
    assert_eq!(compute_backoff(0, 500, 60_000), 500);
    assert_eq!(compute_backoff(1, 500, 60_000), 1000);
    assert_eq!(compute_backoff(2, 500, 60_000), 2000);
    assert_eq!(compute_backoff(20, 500, 60_000), 60_000);
    assert_eq!(compute_backoff(100, 500, 60_000), 60_000);
    assert_eq!(compute_backoff(usize::MAX, u64::MAX, u64::MAX), u64::MAX);
    assert_eq!(compute_backoff(70, 0, 60_000), 0);
    assert_eq!(compute_backoff(0, 70_000, 60_000), 60_000);
}

#[test]
fn extension_check_canvas_allowed() {
    let cfg = config_for_test();
    assert!(check_extension("foo.canvas", &cfg.allowed_extensions).is_none());
    assert!(check_extension("foo.MD", &cfg.allowed_extensions).is_none());
    assert!(check_extension("foo.png", &cfg.allowed_extensions).is_some());
    assert_eq!(
        check_extension("FOO.Png", &cfg.allowed_extensions),
        Some(SkipReason::ExtensionFiltered { ext: ".png".to_string() })
    );
    assert_eq!(
        check_extension("README", &cfg.allowed_extensions),
        Some(SkipReason::ExtensionFiltered { ext: "<none>".to_string() })
    );
}

#[test]
fn push_client_increments_tray_on_sent() {
    let mut r =
        Rig::new(vec![evt("notes/a.md", b"hello")], Reply::Answer(accepted_plain())).with_tray();
    let _ = r.drain_once();
    let s = r.m.stores.tray.as_ref().unwrap();
    assert_eq!(s.uploads_sent, 1);
    assert_eq!(s.uploads_failed, 0);
    assert_eq!(s.uploads_pending, 0);
    assert!(s.uploads_last_at.is_some());
}

#[test]
fn push_client_increments_tray_on_failed() {
    let mut r = Rig::new(vec![evt("notes/a.md", b"hello")], Reply::Status(500)).with_tray();
    let _ = r.drain_once();
    let s = r.m.stores.tray.as_ref().unwrap();
    assert_eq!(s.uploads_sent, 0);
    assert_eq!(s.uploads_failed, 1);
    assert_eq!(s.uploads_pending, 1);
}

#[test]
fn lazy_read_uses_passed_vault_root_not_global() {
    let rel = "notes/shared.md";
    for (root, body) in
        [("/root_a", b"content-from-root-a"), ("/root_b", b"content-from-root-b")]
    {
        let mut r = Rig::new(
            vec![event(1, rel, "a".repeat(64), None)],
            Reply::Answer(accepted_plain()),
        );
        r.client = PushClient::new("dev-test".into(), config_for_test(), root.to_string());
        r.files.insert("/root_a/notes/shared.md".to_string(), b"content-from-root-a".to_vec());
        r.files.insert("/root_b/notes/shared.md".to_string(), b"content-from-root-b".to_vec());
        let outcomes = r.drain_once();
        assert_eq!(outcomes.len(), 1);
        assert!(matches!(outcomes[0].1, PushOutcome::Sent { .. }));
        assert_eq!(r.requests[0].content_b64, B64.encode(body));
    }
}

#[test]
fn pre_journal_filter_treats_path_as_root_relative() {
    let client = PushClient::new("d".into(), config_for_test(), "/sync/root/a".to_string());
    let result = client.pre_journal_filter("01_Inbox/note.md", b"some content", None);
    assert!(result.is_none(), "root-relative path must not be filtered; got {result:?}");
}

#[test]
fn shadow_hash_for_ack_table() {
    let some = |s: &str| Some(s.to_string());
    let ack = |status: PushStatus, server: Option<String>, content: Option<String>| {
        shadow_hash_for_ack(status, "local", &server, &content)
    };
    assert_eq!(ack(PushStatus::Accepted, some("srv"), some("ch")), some("srv"));
    assert_eq!(ack(PushStatus::Accepted, None, some("ch")), some("ch"));
    assert_eq!(ack(PushStatus::Accepted, None, None), some("local"));
    assert_eq!(ack(PushStatus::Merged, some("srv"), some("ch")), some("srv"));
    assert_eq!(ack(PushStatus::Merged, None, some("ch")), some("ch"));
    assert_eq!(ack(PushStatus::Merged, None, None), some("local"));
    assert_eq!(ack(PushStatus::ConflictMarkers, some("srv"), None), None);
    assert_eq!(ack(PushStatus::Error, some("srv"), None), None);
}

#[test]
fn answers_stand_for_outcomes() {
    let answer = |status: PushStatus| PushResponse {
        status,
        seq: None,
        content_hash: None,
        merged_content: Some("both".to_string()),
        message: None,
        server_hash: None,
        server_seq: None,
    };
    assert_eq!(
        map_response(answer(PushStatus::Accepted)),
        PushOutcome::Sent { seq: 0, content_hash: String::new() }
    );
    assert_eq!(
        map_response(answer(PushStatus::Merged)),
        PushOutcome::Merged { merged_content: "both".to_string() }
    );
    assert_eq!(
        map_response(answer(PushStatus::ConflictMarkers)),
        PushOutcome::ConflictMarkers { merged_content: "both".to_string() }
    );
    assert_eq!(
        map_response(answer(PushStatus::Error)),
        PushOutcome::Failed(FailureReason::NetworkExhausted {
            last_error: "server reported error".to_string()
        })
    );
}

#[test]
fn test_426_upgrade_required_fails_loudly_and_backs_off() {
    let detail = "{\"error\":\"daemon_version_below_minimum\",\"minimum\":\"0.4.28\",\"reported\":\"0.4.27\"}";
    let mut r =
        Rig::new(vec![evt("notes/a.md", b"body\n")], Reply::Upgrade(detail.to_string()));
    let outcomes = r.drain_once();
    assert_eq!(outcomes.len(), 1);
    match &outcomes[0].1 {
        PushOutcome::Failed(FailureReason::UpgradeRequired { detail }) => {
            assert!(
                detail.contains("0.4.28"),
                "detail must name the required version: {detail}"
            );
        }
        other => panic!("expected Failed(UpgradeRequired), got {other:?}"),
    }
    assert_eq!(r.pending(), 1, "426 must NOT ack - the edit is preserved, not dropped");
    let outcomes2 = r.drain_once();
    assert!(
        outcomes2.is_empty(),
        "gate cooldown must skip the drain tick entirely (no retry-loop)"
    );
    assert_eq!(r.requests.len(), 1);
    r.now += GATE_COOLDOWN_SECS as u128 * SEC - 1;
    assert!(r.drain_once().is_empty());
    r.now += 1;
    assert_eq!(r.drain_once().len(), 1);
}

#[test]
fn test_426_gate_cooldown_expires_after_window() {
    let mut r = Rig::new(
        vec![evt("notes/a.md", b"body\n")],
        Reply::Answer(accepted("deadbeef", None, None)),
    );
    let now = r.now;
    r.client.arm_gate_cooldown(now, 1);
    let outcomes = r.drain_once();
    assert!(
        outcomes.is_empty(),
        "tick inside the cooldown window must be fully suppressed"
    );
    r.now += 3 * SEC / 2;
    let outcomes2 = r.drain_once();
    assert_eq!(
        outcomes2.len(),
        1,
        "tick after cooldown expiry must drain the journal normally"
    );
    assert!(
        matches!(outcomes2[0].1, PushOutcome::Sent { .. }),
        "expected Sent after cooldown expiry; got {:?}",
        outcomes2[0].1
    );
    assert_eq!(r.requests.len(), 1);
}

#[test]
fn push_declares_recorded_base_seq_on_the_wire() {
    let body = "hello base_seq";
    let drained = sha256_hex(body.as_bytes());
    let mut r = Rig::aligning(
        vec![evt("01_Notes/x.md", body.as_bytes())],
        Reply::Answer(accepted(&drained, Some(&drained), Some(5))),
    )
    .with_versions();
    r.m.stores.record_adopted("01_Notes/x.md", 91);
    let outcomes = r.drain_once();
    assert!(matches!(outcomes[0].1, PushOutcome::Sent { .. }));
    assert_eq!(r.requests[0].base_seq, Some(91));
}

#[test]
fn accepted_push_records_server_seq_as_observed() {
    let body = "canonical body";
    let drained = sha256_hex(body.as_bytes());
    let mut r = Rig::aligning(
        vec![evt("01_Notes/c.md", body.as_bytes())],
        Reply::Answer(accepted(&drained, Some(&drained), Some(4242))),
    )
    .with_versions();
    assert_eq!(r.m.stores.seq_get("01_Notes/c.md"), None);
    let outcomes = r.drain_once();
    assert!(matches!(outcomes[0].1, PushOutcome::Sent { .. }));
    assert_eq!(r.m.stores.seq_get("01_Notes/c.md"), Some(4242));
}

#[test]
fn conflict_refetches_merges_and_records_observed() {
    let server_body = "server wins\n";
    let mut r = Rig::aligning(
        vec![evt("01_Notes/x.md", b"local edit\n")],
        Reply::Conflict(Some("srv".to_string())),
    )
    .with_versions();
    r.notes.insert(
        "01_Notes/x.md".to_string(),
        NotePayload {
            path: "01_Notes/x.md".to_string(),
            frontmatter: Frontmatter::Null,
            body: server_body.to_string(),
            sha256: sha256_hex(server_body.as_bytes()),
            change_seq: Some(9),
            enriched_body: Some(server_body.to_string()),
        },
    );
    let outcomes = r.drain_once();
    assert!(
        matches!(
            outcomes[0].1,
            PushOutcome::Failed(FailureReason::ConflictUnrecoverable { .. })
        ),
        "got {:?}",
        outcomes[0].1
    );
    assert_eq!((r.requests.len(), r.fetches), (1, 1));
    assert_eq!(r.files["/vault/01_Notes/x.md"], server_body.as_bytes().to_vec());
    assert_eq!(r.m.stores.seq_get("01_Notes/x.md"), Some(9));
    assert!(
        r.files.keys().any(|p| p.contains("conflict-from")),
        "losing local bytes must be stashed, not dropped"
    );
}

#[test]
fn notes_that_are_gone_lose_their_version() {
    let mut r = Rig::aligning(
        vec![evt("01_Notes/x.md", b"local edit\n")],
        Reply::Conflict(None),
    )
    .with_versions();
    r.m.stores.record_adopted("01_Notes/x.md", 3);
    r.drain_once();
    assert_eq!(r.m.stores.seq_get("01_Notes/x.md"), None);
}

#[test]
fn drain_parks_on_suspect_vault_scope() {
    let mut map = std::collections::HashMap::new();
    map.insert("Mainframe/01_Notes/x.md".to_string(), "h".to_string());
    let shadow =
        ShadowStore::load_with_vault_folders(Some(serde_json::to_vec(&map).unwrap()), vec![]);
    assert!(shadow.vault_scope_suspect());
    let mut r = Rig::new(vec![evt("01_Notes/x.md", b"edit\n")], Reply::Answer(accepted_plain()));
    r.m = r.m.with_shadow_store(shadow);
    let outcomes = r.drain_once();
    assert!(outcomes.is_empty(), "parked drain must process nothing");
    assert_eq!(r.requests.len(), 0);
    assert_eq!(r.pending(), 1);
}

#[test]
fn merged_answers_adopt_no_version() {
    let mut answer = accepted("h", Some("srv"), Some(8));
    answer.status = PushStatus::Merged;
    answer.merged_content = Some("m".to_string());
    let mut r = Rig::aligning(vec![evt("a.md", b"x")], Reply::Answer(answer)).with_versions();
    let outcomes = r.drain_once();
    assert_eq!(outcomes[0].1, PushOutcome::Merged { merged_content: "m".to_string() });
    assert_eq!(r.shadow("a.md").as_deref(), Some("srv"));
    assert_eq!(r.m.stores.seq_get("a.md"), None);
}

#[test]
fn default_settings() {
    let c = PushClientConfig::default();
    assert_eq!(c.allowed_extensions, vec![".md", ".canvas"]);
    assert_eq!(c.strip_frontmatter_fields_for_diff, vec!["updated"]);
    assert_eq!((c.max_retry_attempts, c.initial_backoff_ms, c.max_backoff_ms), (5, 500, 60_000));
    assert_eq!((c.batch_size, c.push_concurrency), (32, 6));
    assert_eq!((c.loop_interval_ms, c.busy_loop_interval_ms), (5_000, 250));
}

#[test]
fn outgoing_notes_keep_what_does_not_count() {
    let client = bare_client();
    assert_eq!(
        client.normalize_for_diff(b"---\r\nupdated: x\r\nt: y\r\n---\r\nb\r\n"),
        b"---\n\nt: y\n---\nb\r\n".to_vec()
    );
    assert_eq!(
        client.normalize_for_diff(b"---\nupdated: x\n  more\n\tagain\nt: y\n---\nb"),
        b"---\nt: y\n---\nb".to_vec()
    );
    assert_eq!(client.normalize_for_diff(b"---\nupdated: x\n---\n"), b"---\n\n---\n".to_vec());
    for raw in ["---\nupdated: x\nno end", "\u{feff}---\nupdated: x\n---\n", "---", ""] {
        assert_eq!(client.normalize_for_diff(raw.as_bytes()), raw.as_bytes().to_vec());
    }
    assert_eq!(client.normalize_for_diff(b"---\n\xff\n---\n"), b"---\n\xff\n---\n".to_vec());
}

#[test]
fn outcomes_come_back_in_drain_order() {
    let batch = |n: u64| {
        let events = (0..n).map(|i| event(i, "a.md", "h".to_string(), None)).collect();
        let mut r = Rig::new(events, Reply::Answer(accepted_plain()));
        r.journal.drain(&r.file, 10)
    };
    let fails = |s: &str| {
        PushOutcome::Failed(FailureReason::NetworkExhausted { last_error: s.to_string() })
    };
    let seen = |r: Option<Vec<Processed>>| {
        r.map(|v| v.into_iter().map(|(e, _, o)| (e.id, o)).collect::<Vec<(String, PushOutcome)>>())
    };
    let ids: Vec<String> = batch(3).into_iter().map(|(e, _)| e.id).collect();
    let got = seen(in_drain_order(batch(3), vec![(2, fails("c")), (0, fails("a")), (1, fails("b"))]));
    let want = vec![
        (ids[0].clone(), fails("a")),
        (ids[1].clone(), fails("b")),
        (ids[2].clone(), fails("c")),
    ];
    assert_eq!(got, Some(want));
    assert_eq!(seen(in_drain_order(batch(0), vec![])), Some(vec![]));
    assert_eq!(seen(in_drain_order(batch(2), vec![(0, fails("a"))])), None);
    assert_eq!(seen(in_drain_order(batch(2), vec![(0, fails("a")), (0, fails("b"))])), None);
    assert_eq!(seen(in_drain_order(batch(2), vec![(0, fails("a")), (2, fails("b"))])), None);
    let thrice = vec![(0, fails("a")), (1, fails("b")), (1, fails("c"))];
    assert_eq!(seen(in_drain_order(batch(2), thrice)), None);
}

#[test]
fn every_event_is_in_one_chain() {
    let paths = ["a.md", "b.md", "a.md", "c.md", "b.md", "a.md"];
    let events = (0..6).map(|i| event(i as u64, paths[i], "h".to_string(), None)).collect();
    let mut r = Rig::new(events, Reply::Answer(accepted_plain()));
    let batch = r.journal.drain(&r.file, 10);
    let chains = plan_chains(&batch);
    let mut all: Vec<usize> = chains.iter().flatten().copied().collect();
    all.sort();
    assert_eq!(all, vec![0, 1, 2, 3, 4, 5]);
    for chain in &chains {
        for w in chain.windows(2) {
            assert!(w[0] < w[1]);
            assert_eq!(batch[w[0]].0.path, batch[w[1]].0.path);
        }
    }
}

#[test]
fn bodies_are_sent_in_padded_base64() {
    let r = Rig::new(Vec::new(), Reply::Answer(accepted_plain()));
    let e = evt("a.md", b"x");
    let cases: [(&[u8], &str); 8] = [
        (b"", ""),
        (b"f", "Zg=="),
        (b"fo", "Zm8="),
        (b"foo", "Zm9v"),
        (b"foobar", "Zm9vYmFy"),
        (&[0xfb, 0xff, 0xbe], "+/++"),
        (&[0xff, 0xff], "//8="),
        (&[0, 0x10, 0x83], "ABCD"),
    ];
    for (body, want) in cases {
        assert_eq!(r.client.build_request(&r.m.stores, &e, body).content_b64, want);
    }
}
