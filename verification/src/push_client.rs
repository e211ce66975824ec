//! Sending queued pushes to the server.
//!
//! The caller talks to the disk, the clock and the server; this module decides.
//! An event goes through [`PushClient::begin_event`], which gates it and says
//! where its bytes are, [`PushClient::build_request`], and for each answer
//! [`PushClient::on_response`] or [`PushClient::on_error`]. A batch goes through
//! [`PushClient::drain_once`], [`plan_chains`] and [`PushClient::settle`].

use vstd::prelude::*;

use crate::conflict_breaker::NANOS_PER_SEC;
use crate::digest;
use crate::frontmatter;
use crate::materializer;
use crate::materializer::{AlignOutcome, NotePayload, StashRequest};
use crate::path_map::PathMap;
use crate::paths;
use crate::push_journal;
use crate::push_journal::{JournalCursor, JournalFile, PushAction, PushEvent, PushJournal};
use crate::rasp_fence;
use crate::rasp_fence::PathClassification;
use crate::stores;
use crate::stores::SyncStores;
use crate::sync_health::SyncHealth;
use crate::sync_shadow;
use crate::text;
use crate::tray_state;
use crate::tray_state::TrayState;

verus! {

/// Seconds for which draining stops after the server has asked for a newer
/// daemon.
pub const GATE_COOLDOWN_SECS: u64 = 900;

/// Settings.
#[derive(Debug, PartialEq, Eq)]
pub struct PushClientConfig {
    /// Extensions that may be pushed, with their dot.
    pub allowed_extensions: Vec<String>,
    /// Frontmatter fields that do not count in comparisons.
    pub strip_frontmatter_fields_for_diff: Vec<String>,
    pub max_retry_attempts: usize,
    /// The first pause between attempts; it doubles up to the largest.
    pub initial_backoff_ms: u64,
    pub max_backoff_ms: u64,
    /// Events per drain.
    pub batch_size: usize,
    /// Pause between drains while there is nothing to do.
    pub loop_interval_ms: u64,
    /// Paths that are pushed at the same time.
    pub push_concurrency: usize,
    /// Pause between drains while there is work.
    pub busy_loop_interval_ms: u64,
}

impl Default for PushClientConfig {
    fn default() -> (c: PushClientConfig)
        ensures
            text::views(c.allowed_extensions@) == seq![".md"@, ".canvas"@],
            text::views(c.strip_frontmatter_fields_for_diff@) == seq!["updated"@],
            c.max_retry_attempts == 5,
            c.initial_backoff_ms == 500,
            c.max_backoff_ms == 60_000,
            c.batch_size == 32,
            c.loop_interval_ms == 5_000,
            c.push_concurrency == 6,
            c.busy_loop_interval_ms == 250,
    {
        let mut exts: Vec<String> = Vec::new();
        exts.push(".md".to_string());
        exts.push(".canvas".to_string());
        assert(text::views(exts@) =~= seq![".md"@, ".canvas"@]);
        let mut fields: Vec<String> = Vec::new();
        fields.push("updated".to_string());
        assert(text::views(fields@) =~= seq!["updated"@]);
        PushClientConfig {
            allowed_extensions: exts,
            strip_frontmatter_fields_for_diff: fields,
            max_retry_attempts: 5,
            initial_backoff_ms: 500,
            max_backoff_ms: 60_000,
            batch_size: 32,
            loop_interval_ms: 5_000,
            push_concurrency: 6,
            busy_loop_interval_ms: 250,
        }
    }
}

/// Why an event was not sent, or sent in vain for good.
#[derive(Debug, PartialEq, Eq)]
pub enum SkipReason {
    SubstrateRefused { rule: &'static str },
    ExtensionFiltered { ext: String },
    IdenticalToServer { hash: String },
    EmptyContent,
    /// The file is gone.
    FileVanished,
    /// The server will never take it.
    ServerRejected { status: u16 },
}

/// Why an event failed.
#[derive(Debug, PartialEq, Eq)]
pub enum FailureReason {
    NetworkExhausted { last_error: String },
    ConflictUnrecoverable { expected_hash: Option<String> },
    Unauthorized,
    Forbidden,
    /// The server wants a newer daemon.
    UpgradeRequired { detail: String },
}

/// What became of an event.
#[derive(Debug, PartialEq, Eq)]
pub enum PushOutcome {
    Sent { seq: u64, content_hash: String },
    Merged { merged_content: String },
    ConflictMarkers { merged_content: String },
    Skipped(SkipReason),
    Failed(FailureReason),
}

/// The server's verdict on a push.
#[derive(Debug, Clone, Copy, PartialEq, Eq, Structural)]
pub enum PushStatus {
    Accepted,
    Merged,
    ConflictMarkers,
    Error,
}

/// The server's answer to a push.
#[derive(Debug, PartialEq, Eq)]
pub struct PushResponse {
    pub status: PushStatus,
    pub seq: Option<u64>,
    pub content_hash: Option<String>,
    pub merged_content: Option<String>,
    pub message: Option<String>,
    /// Hash of what the server stored.
    pub server_hash: Option<String>,
    /// Version of what the server stored.
    pub server_seq: Option<i64>,
}

/// How a request failed.
#[derive(Debug, PartialEq, Eq)]
pub enum ApiError {
    Unauthorized,
    Forbidden,
    Conflict { expected_hash: Option<String> },
    UpgradeRequired { detail: String },
    /// Any other status, with the message.
    Server { status: u16, message: String },
    /// Anything else, with the message.
    Other { message: String },
}

/// A push as it goes to the server.
#[derive(Debug, PartialEq, Eq)]
pub struct PushRequest {
    pub device_id: String,
    pub path: String,
    pub content_b64: String,
    /// Hash of the version that the change is based on; empty for none.
    pub base_hash: String,
    /// Version that was last seen.
    pub base_seq: Option<i64>,
    pub action: PushAction,
}

// ---------------------------------------------------------------------------
// Gates
// ---------------------------------------------------------------------------

/// The path ends in one of the extensions, whatever the case of ASCII letters.
pub open spec fn extension_allowed(path: Seq<char>, allowed: Seq<Seq<char>>) -> bool {
    exists|k: int|
        0 <= k < allowed.len() && text::is_suffix(
            text::ascii_lower_seq(#[trigger] allowed[k]),
            text::ascii_lower_seq(path),
        )
}

/// How the extension of a refused path is reported.
pub open spec fn reported_extension(path: Seq<char>) -> Seq<char> {
    match text::rsplit_once_spec(text::ascii_lower_seq(path), '.') {
        Some((_, e)) => "."@ + e,
        None => "<none>"@,
    }
}

/// Refuses a path whose extension is not listed.
pub fn check_extension(path: &str, allowed: &[String]) -> (r: Option<SkipReason>)
    ensures
        match r {
            None => extension_allowed(path@, text::views(allowed@)),
            Some(SkipReason::ExtensionFiltered { ext }) => {
                &&& !extension_allowed(path@, text::views(allowed@))
                &&& ext@ == reported_extension(path@)
            },
            Some(_) => false,
        },
{
    let lower = text::to_ascii_lowercase(path);
    let ghost names = text::views(allowed@);
    let mut k: usize = 0;
    while k < allowed.len()
        invariant
            k <= allowed@.len(),
            names == text::views(allowed@),
            lower@ == text::ascii_lower_seq(path@),
            forall|j: int|
                0 <= j < k ==> !text::is_suffix(
                    text::ascii_lower_seq(#[trigger] names[j]),
                    text::ascii_lower_seq(path@),
                ),
        decreases allowed@.len() - k,
    {
        let ext = text::to_ascii_lowercase(allowed[k].as_str());
        assert(names[k as int] == allowed@[k as int]@);
        if text::ends_with(lower.as_str(), ext.as_str()) {
            return None;
        }
        k = k + 1;
    }
    let ext = match text::rsplit_once(lower.as_str(), '.') {
        Some((_, e)) => text::concat(".", e.as_str()),
        None => "<none>".to_string(),
    };
    Some(SkipReason::ExtensionFiltered { ext })
}

// ---------------------------------------------------------------------------
// Answers
// ---------------------------------------------------------------------------

/// The pause before the attempt after `attempt`, in milliseconds: the initial
/// one doubled so many times, up to the largest.
pub open spec fn backoff(attempt: nat, initial: nat, max: nat) -> nat {
    let b = initial * vstd::arithmetic::power2::pow2(attempt);
    if b < max {
        b
    } else {
        max
    }
}

proof fn lemma_backoff_doubles(i: nat, initial: nat)
    ensures
        initial * vstd::arithmetic::power2::pow2(i + 1) == 2 * (initial
            * vstd::arithmetic::power2::pow2(i)),
        vstd::arithmetic::power2::pow2(i) > 0,
{
    vstd::arithmetic::power2::lemma_pow2_unfold(i + 1);
    vstd::arithmetic::power2::lemma_pow2_pos(i);
    let p = vstd::arithmetic::power2::pow2(i);
    assert(initial * (2 * p) == 2 * (initial * p)) by (nonlinear_arith);
}

proof fn lemma_backoff_stays(i: nat, j: nat, initial: nat, max: nat)
    requires
        i <= j,
        initial * vstd::arithmetic::power2::pow2(i) >= max,
    ensures
        initial * vstd::arithmetic::power2::pow2(j) >= max,
    decreases j,
{
    if i < j {
        lemma_backoff_stays(i, (j - 1) as nat, initial, max);
        lemma_backoff_doubles((j - 1) as nat, initial);
    }
}

/// The pause after a failed attempt, in milliseconds.
pub fn compute_backoff(attempt: usize, initial_ms: u64, max_ms: u64) -> (r: u64)
    ensures
        r == backoff(attempt as nat, initial_ms as nat, max_ms as nat),
{
    if initial_ms == 0 {
        assert(0 * vstd::arithmetic::power2::pow2(attempt as nat) == 0) by (nonlinear_arith);
        return 0;
    }
    let mut cur: u64 = initial_ms;
    let mut i: usize = 0;
    proof {
        vstd::arithmetic::power2::lemma2_to64();
    }
    while i < attempt && cur < max_ms
        invariant
            i <= attempt,
            initial_ms > 0,
            cur < max_ms ==> cur == initial_ms * vstd::arithmetic::power2::pow2(i as nat),
            cur >= max_ms ==> initial_ms * vstd::arithmetic::power2::pow2(i as nat) >= max_ms,
        decreases attempt - i,
    {
        proof {
            lemma_backoff_doubles(i as nat, initial_ms as nat);
        }
        cur = if cur > max_ms - cur {
            max_ms
        } else {
            cur + cur
        };
        i = i + 1;
    }
    if cur >= max_ms {
        proof {
            lemma_backoff_stays(i as nat, attempt as nat, initial_ms as nat, max_ms as nat);
        }
        max_ms
    } else {
        cur
    }
}

/// The text, or the empty one.
pub open spec fn text_or_empty(s: Option<String>) -> Seq<char> {
    match s {
        Some(x) => x@,
        None => Seq::empty(),
    }
}

fn or_empty(s: Option<String>) -> (r: String)
    ensures
        r@ == text_or_empty(s),
{
    match s {
        Some(x) => x,
        None => String::new(),
    }
}

/// The hash that is the server's now, if the answer says so.
pub open spec fn acked_hash(
    status: PushStatus,
    local_sha: Seq<char>,
    server_hash: Option<Seq<char>>,
    content_hash: Option<Seq<char>>,
) -> Option<Seq<char>> {
    match status {
        PushStatus::Accepted | PushStatus::Merged => match (server_hash, content_hash) {
            (Some(h), _) => Some(h),
            (None, Some(h)) => Some(h),
            (None, None) => Some(local_sha),
        },
        PushStatus::ConflictMarkers | PushStatus::Error => None,
    }
}

/// The hash to record for an answered push: what the server says it stored, and
/// what was sent where it does not say. Nothing where it stored nothing clean.
pub fn shadow_hash_for_ack(
    status: PushStatus,
    local_sha: &str,
    server_hash: &Option<String>,
    content_hash: &Option<String>,
) -> (r: Option<String>)
    ensures
        text::opt_text(r) == acked_hash(
            status,
            local_sha@,
            text::opt_text(*server_hash),
            text::opt_text(*content_hash),
        ),
{
    match status {
        PushStatus::Accepted | PushStatus::Merged => {
            match server_hash {
                Some(h) => Some(h.clone()),
                None => match content_hash {
                    Some(h) => Some(h.clone()),
                    None => Some(local_sha.to_string()),
                },
            }
        },
        PushStatus::ConflictMarkers | PushStatus::Error => None,
    }
}

/// `r` is the outcome that the answer stands for.
pub open spec fn answers_to(resp: PushResponse, r: PushOutcome) -> bool {
    match (resp.status, r) {
        (PushStatus::Accepted, PushOutcome::Sent { seq, content_hash }) => {
            &&& seq == (match resp.seq {
                Some(n) => n,
                None => 0,
            })
            &&& content_hash@ == text_or_empty(resp.content_hash)
        },
        (PushStatus::Merged, PushOutcome::Merged { merged_content }) => merged_content@
            == text_or_empty(resp.merged_content),
        (PushStatus::ConflictMarkers, PushOutcome::ConflictMarkers { merged_content }) =>
            merged_content@ == text_or_empty(resp.merged_content),
        (
            PushStatus::Error,
            PushOutcome::Failed(FailureReason::NetworkExhausted { last_error }),
        ) => last_error@ == (match resp.message {
            Some(m) => m@,
            None => "server reported error"@,
        }),
        _ => false,
    }
}

/// The outcome that an answer stands for.
pub fn map_response(resp: PushResponse) -> (r: PushOutcome)
    ensures
        answers_to(resp, r),
{
    match resp.status {
        PushStatus::Accepted => {
            let seq: u64 = match resp.seq {
                Some(n) => n,
                None => 0,
            };
            PushOutcome::Sent { seq, content_hash: or_empty(resp.content_hash) }
        },
        PushStatus::Merged => PushOutcome::Merged {
            merged_content: or_empty(resp.merged_content),
        },
        PushStatus::ConflictMarkers => PushOutcome::ConflictMarkers {
            merged_content: or_empty(resp.merged_content),
        },
        PushStatus::Error => {
            let last_error = match resp.message {
                Some(m) => m,
                None => "server reported error".to_string(),
            };
            PushOutcome::Failed(FailureReason::NetworkExhausted { last_error })
        },
    }
}

// ---------------------------------------------------------------------------
// Base64
// ---------------------------------------------------------------------------

/// The character for six bits.
pub open spec fn base64_digit(n: int) -> char {
    if n < 26 {
        (65 + n) as char
    } else if n < 52 {
        (71 + n) as char
    } else if n < 62 {
        (n - 4) as char
    } else if n == 62 {
        '+'
    } else {
        '/'
    }
}

/// Base64 with the standard alphabet and with padding (RFC 4648): four characters
/// for every three bytes, six bits each, the high bits first.
pub open spec fn base64_text(data: Seq<u8>) -> Seq<char>
    decreases data.len(),
{
    let a = data[0] as int;
    let b = data[1] as int;
    let c = data[2] as int;
    if data.len() == 0 {
        Seq::empty()
    } else if data.len() == 1 {
        seq![base64_digit(a / 4), base64_digit(a % 4 * 16), '=', '=']
    } else if data.len() == 2 {
        seq![
            base64_digit(a / 4),
            base64_digit(a % 4 * 16 + b / 16),
            base64_digit(b % 16 * 4),
            '=',
        ]
    } else {
        seq![
            base64_digit(a / 4),
            base64_digit(a % 4 * 16 + b / 16),
            base64_digit(b % 16 * 4 + c / 64),
            base64_digit(c % 64),
        ] + base64_text(data.subrange(3, data.len() as int))
    }
}

/// Calls `base64::Engine::encode` on the engine
/// `base64::engine::general_purpose::STANDARD`. The contract says that it writes
/// standard base64 with padding.
#[verifier::external_body]
fn encode_base64(data: &[u8]) -> (r: String)
    ensures
        r@ == base64_text(data@),
{
    base64::Engine::encode(&base64::engine::general_purpose::STANDARD, data)
}

// ---------------------------------------------------------------------------
// The client
// ---------------------------------------------------------------------------

/// What the gates say of an event.
#[derive(Debug, PartialEq, Eq)]
pub enum EventStart {
    Skip(SkipReason),
    /// The bytes are in this file.
    NeedsFile { path: String },
    /// The bytes.
    Ready { content: Vec<u8> },
}

/// What reading a file came to.
#[derive(Debug, PartialEq, Eq)]
pub enum FileRead {
    Bytes(Vec<u8>),
    Missing,
    /// The disk refused; the message.
    Failed(String),
}

/// The server stored other bytes than were sent: the local file should follow.
#[derive(Debug, PartialEq, Eq)]
pub struct AlignTask {
    pub server_hash: String,
    pub server_seq: Option<i64>,
}

/// What an answer comes to.
#[derive(Debug, PartialEq, Eq)]
pub struct ResponseStep {
    pub align: Option<AlignTask>,
    pub outcome: PushOutcome,
}

/// What a failed request comes to.
#[derive(Debug, PartialEq, Eq)]
pub enum ErrorStep {
    Done(PushOutcome),
    /// Set the bytes aside where asked to, fetch the server's note and take it,
    /// and report the outcome.
    Conflict { stash: Option<StashRequest>, outcome: PushOutcome },
    /// Wait and try again.
    Retry { backoff_ms: u64, last_error: String },
}

/// Where the bytes of the server's canonical form come from.
#[derive(Debug, PartialEq, Eq)]
pub enum AlignSource {
    /// Nothing can be rewritten; nothing is to be recorded either.
    NotWired,
    /// These bytes, which have the server's hash.
    Local { content: Vec<u8> },
    /// The server.
    Fetch,
}

/// Hash of the bytes that are sent; a delete keeps the one it was queued with.
pub open spec fn drained_hash(evt: push_journal::EventView, content: Seq<u8>) -> Seq<char> {
    if evt.action is Delete {
        evt.content_sha
    } else {
        digest::content_hash(content)
    }
}

/// The server accepted the push and stored other bytes.
pub open spec fn must_align(
    action: PushAction,
    drained: Seq<char>,
    resp: PushResponse,
) -> bool {
    &&& resp.status is Accepted
    &&& action !is Delete
    &&& resp.server_hash is Some
    &&& resp.server_hash->0@ != drained
}

/// What an answer leaves in the stores where the local file need not follow.
pub open spec fn ack_recorded(
    before: SyncStores,
    after: SyncStores,
    path: Seq<char>,
    action: PushAction,
    drained: Seq<char>,
    resp: PushResponse,
) -> bool {
    &&& after.tray == before.tray
    &&& match acked_hash(
        resp.status,
        drained,
        text::opt_text(resp.server_hash),
        text::opt_text(resp.content_hash),
    ) {
        Some(h) => stores::shadow_recorded(before.shadow, after.shadow, path, h),
        None => after.shadow == before.shadow,
    }
    &&& if resp.status is Accepted && action is Delete {
        stores::lineage_dropped(before.base_seq, after.base_seq, path)
    } else {
        match (resp.status, resp.server_seq) {
            (PushStatus::Accepted, Some(seq)) => stores::adoption_recorded(
                before.base_seq,
                after.base_seq,
                path,
                seq,
            ),
            _ => after.base_seq == before.base_seq,
        }
    }
}

/// `secs` seconds after `now`, in nanoseconds, as far as the clock goes.
pub open spec fn later(now: u128, secs: u64) -> u128 {
    let t = now + secs * NANOS_PER_SEC;
    if t > u128::MAX {
        u128::MAX
    } else {
        t as u128
    }
}

/// The outcome leaves the journal: it succeeded, or trying again is no use.
pub open spec fn is_final(o: PushOutcome) -> bool {
    match o {
        PushOutcome::Failed(FailureReason::NetworkExhausted { .. }) => false,
        PushOutcome::Failed(FailureReason::UpgradeRequired { .. }) => false,
        _ => true,
    }
}

/// The tray after one more outcome.
pub open spec fn counted(t: TrayState, o: PushOutcome, at: i64) -> TrayState {
    match o {
        PushOutcome::Sent { .. } => TrayState {
            uploads_sent: tray_state::plus(t.uploads_sent, 1),
            uploads_last_at: Some(at),
            ..t
        },
        PushOutcome::Failed(FailureReason::NetworkExhausted { .. })
        | PushOutcome::Failed(FailureReason::UpgradeRequired { .. }) => TrayState {
            uploads_failed: tray_state::plus(t.uploads_failed, 1),
            ..t
        },
        _ => t,
    }
}

/// One processed event of a batch.
pub type Processed = (PushEvent, JournalCursor, PushOutcome);

/// The tray after a batch.
pub open spec fn tallied(t: TrayState, batch: Seq<Processed>, at: i64) -> TrayState
    decreases batch.len(),
{
    if batch.len() == 0 {
        t
    } else {
        counted(tallied(t, batch.drop_last(), at), batch.last().2, at)
    }
}

/// The ids of the events of a batch that leave the journal, in drain order.
pub open spec fn final_ids(batch: Seq<Processed>) -> Seq<Seq<char>>
    decreases batch.len(),
{
    if batch.len() == 0 {
        Seq::empty()
    } else if is_final(batch.last().2) {
        final_ids(batch.drop_last()).push(batch.last().1.0@)
    } else {
        final_ids(batch.drop_last())
    }
}

/// The push client's own state. What it shares with the pull side, it is handed.
pub struct PushClient {
    pub device_id: String,
    pub config: PushClientConfig,
    /// The folder that the paths of events are relative to.
    pub vault_root: String,
    pub health: Option<SyncHealth>,
    /// No drain before this time.
    pub gate_cooldown_until: Option<u128>,
    /// There is a materializer to rewrite local files with.
    pub materializer_wired: bool,
    /// Hashes the watcher need not queue again, by canonical path.
    pub enqueued_hashes: Option<PathMap<String>>,
}

impl PushClient {
    /// The client's state is consistent.
    pub open spec fn wf(self) -> bool {
        self.enqueued_hashes is Some ==> self.enqueued_hashes->0.wf()
    }

    /// The names of the volatile fields.
    pub open spec fn fields(self) -> Seq<Seq<char>> {
        text::views(self.config.strip_frontmatter_fields_for_diff@)
    }

    /// The path may be pushed.
    pub open spec fn pushable(self, path: Seq<char>) -> bool {
        extension_allowed(path, text::views(self.config.allowed_extensions@))
    }

    /// A client with nothing wired.
    pub fn new(device_id: String, config: PushClientConfig, vault_root: String) -> (c: PushClient)
        ensures
            c == (PushClient {
                device_id,
                config,
                vault_root,
                health: None,
                gate_cooldown_until: None,
                materializer_wired: false,
                enqueued_hashes: None,
            }),
            c.wf(),
    {
        PushClient {
            device_id,
            config,
            vault_root,
            health: None,
            gate_cooldown_until: None,
            materializer_wired: false,
            enqueued_hashes: None,
        }
    }

    /// The client with a record of progress.
    pub fn with_sync_health(self, health: SyncHealth) -> (c: PushClient)
        ensures
            c == (PushClient { health: Some(health), ..self }),
    {
        let mut c = self;
        c.health = Some(health);
        c
    }

    /// The client with a materializer at hand.
    pub fn with_materializer(self) -> (c: PushClient)
        ensures
            c == (PushClient { materializer_wired: true, ..self }),
    {
        let mut c = self;
        c.materializer_wired = true;
        c
    }

    /// The client with the watcher's record of queued hashes.
    pub fn with_enqueued_hashes(self, map: PathMap<String>) -> (c: PushClient)
        ensures
            c == (PushClient { enqueued_hashes: Some(map), ..self }),
    {
        let mut c = self;
        c.enqueued_hashes = Some(map);
        c
    }

    /// Whether a change is worth queueing: the reason to drop it, if there is one.
    pub fn pre_journal_filter(
        &self,
        path: &str,
        content_bytes: &[u8],
        last_server_hash: Option<&str>,
    ) -> (r: Option<SkipReason>)
        ensures
            ({
                let hash = digest::content_hash(
                    frontmatter::outgoing_bytes(content_bytes@, self.fields()),
                );
                let known = last_server_hash is Some && last_server_hash->0@ == hash;
                match r {
                    Some(SkipReason::ExtensionFiltered { ext }) => {
                        &&& !self.pushable(path@)
                        &&& ext@ == reported_extension(path@)
                    },
                    Some(SkipReason::EmptyContent) => {
                        &&& self.pushable(path@)
                        &&& content_bytes@.len() == 0
                    },
                    Some(SkipReason::IdenticalToServer { hash: h }) => {
                        &&& self.pushable(path@)
                        &&& content_bytes@.len() > 0
                        &&& known
                        &&& h@ == hash
                    },
                    Some(_) => false,
                    None => {
                        &&& self.pushable(path@)
                        &&& content_bytes@.len() > 0
                        &&& !known
                    },
                }
            }),
    {
        match rasp_fence::classify_path(path) {
            PathClassification::Substrate { rule } => {
                return Some(SkipReason::SubstrateRefused { rule });
            },
            PathClassification::Content => {},
        }
        match check_extension(path, self.config.allowed_extensions.as_slice()) {
            Some(skip) => {
                return Some(skip);
            },
            None => {},
        }
        if content_bytes.len() == 0 {
            return Some(SkipReason::EmptyContent);
        }
        match last_server_hash {
            Some(server) => {
                let normalized = self.normalize_for_diff(content_bytes);
                let local = digest::sha256_hex(normalized.as_slice());
                if text::str_eq(local.as_str(), server) {
                    return Some(SkipReason::IdenticalToServer { hash: local });
                }
            },
            None => {},
        }
        None
    }

    /// The bytes without the volatile frontmatter fields.
    pub fn normalize_for_diff(&self, content: &[u8]) -> (r: Vec<u8>)
        ensures
            r@ == frontmatter::outgoing_bytes(content@, self.fields()),
    {
        frontmatter::normalize_outgoing(
            content,
            self.config.strip_frontmatter_fields_for_diff.as_slice(),
        )
    }

    /// The first step of an event: the gates, and where its bytes are. A delete
    /// needs none.
    pub fn begin_event(&self, evt: &PushEvent) -> (r: EventStart)
        ensures
            match r {
                EventStart::Skip(SkipReason::ExtensionFiltered { ext }) => {
                    &&& !self.pushable(evt.path@)
                    &&& ext@ == reported_extension(evt.path@)
                },
                EventStart::Skip(_) => false,
                EventStart::NeedsFile { path } => {
                    &&& self.pushable(evt.path@)
                    &&& evt.content_bytes is None
                    &&& evt.action !is Delete
                    &&& path@ == paths::joined(self.vault_root@, evt.path@)
                },
                EventStart::Ready { content } => {
                    &&& self.pushable(evt.path@)
                    &&& match evt.content_bytes {
                        Some(b) => content@ == b@,
                        None => evt.action is Delete && content@.len() == 0,
                    }
                },
            },
    {
        match rasp_fence::classify_path(evt.path.as_str()) {
            PathClassification::Substrate { rule } => {
                return EventStart::Skip(SkipReason::SubstrateRefused { rule });
            },
            PathClassification::Content => {},
        }
        match check_extension(evt.path.as_str(), self.config.allowed_extensions.as_slice()) {
            Some(skip) => {
                return EventStart::Skip(skip);
            },
            None => {},
        }
        match &evt.content_bytes {
            Some(bytes) => EventStart::Ready { content: frontmatter::copy_bytes(bytes.as_slice()) },
            None => {
                if evt.action == PushAction::Delete {
                    EventStart::Ready { content: Vec::new() }
                } else {
                    EventStart::NeedsFile {
                        path: paths::join(self.vault_root.as_str(), evt.path.as_str()),
                    }
                }
            },
        }
    }

    /// What reading an event's file comes to: its bytes, or the outcome.
    pub fn after_read(read: FileRead) -> (r: Result<Vec<u8>, PushOutcome>)
        ensures
            match read {
                FileRead::Bytes(b) => r == Ok::<Vec<u8>, PushOutcome>(b),
                FileRead::Missing => r == Err::<Vec<u8>, PushOutcome>(
                    PushOutcome::Skipped(SkipReason::FileVanished),
                ),
                FileRead::Failed(e) => match r {
                    Err(PushOutcome::Failed(FailureReason::NetworkExhausted { last_error })) =>
                        last_error@ == "lazy read failed: "@ + e@,
                    _ => false,
                },
            },
    {
        match read {
            FileRead::Bytes(b) => Ok(b),
            FileRead::Missing => Err(PushOutcome::Skipped(SkipReason::FileVanished)),
            FileRead::Failed(e) => Err(
                PushOutcome::Failed(
                    FailureReason::NetworkExhausted {
                        last_error: text::concat("lazy read failed: ", e.as_str()),
                    },
                ),
            ),
        }
    }

    /// The request for an event with these bytes. Its base is the event's own,
    /// or the last-synced hash, or none; the version is the one last seen.
    pub fn build_request(&self, st: &SyncStores, evt: &PushEvent, content: &[u8]) -> (r: PushRequest)
        requires
            st.wf(),
        ensures
            r.device_id == self.device_id,
            r.path == evt.path,
            r.action == evt.action,
            r.content_b64@ == base64_text(content@),
            r.base_seq == st.declared_seq(evt.path@),
            r.base_hash@ == (match evt.base_hash {
                Some(b) => b@,
                None => match st.synced_hash(evt.path@) {
                    Some(h) => h,
                    None => Seq::empty(),
                },
            }),
    {
        let base_hash = match &evt.base_hash {
            Some(b) => b.clone(),
            None => or_empty(st.shadow_get(evt.path.as_str())),
        };
        PushRequest {
            device_id: self.device_id.clone(),
            path: evt.path.clone(),
            content_b64: encode_base64(content),
            base_hash,
            base_seq: st.seq_get(evt.path.as_str()),
            action: evt.action,
        }
    }

    /// Hash of the bytes that are sent for an event.
    pub fn drained_sha(evt: &PushEvent, content: &[u8]) -> (r: String)
        ensures
            r@ == drained_hash(evt@, content@),
    {
        if evt.action == PushAction::Delete {
            evt.content_sha.clone()
        } else {
            digest::sha256_hex(content)
        }
    }

    /// Handles the server's answer to an event whose bytes had the hash
    /// `drained_sha`. What the server has now is recorded, unless it stored other
    /// bytes than were sent: the local file has to follow first, and recording
    /// is left to that.
    pub fn on_response(
        st: &mut SyncStores,
        evt: &PushEvent,
        drained_sha: &str,
        resp: PushResponse,
    ) -> (r: ResponseStep)
        requires
            old(st).wf(),
        ensures
            final(st).wf(),
            answers_to(resp, r.outcome),
            if must_align(evt.action, drained_sha@, resp) {
                &&& *final(st) == *old(st)
                &&& r.align is Some
                &&& r.align->0.server_hash == resp.server_hash->0
                &&& r.align->0.server_seq == resp.server_seq
            } else {
                &&& r.align is None
                &&& ack_recorded(
                    *old(st),
                    *final(st),
                    evt.path@,
                    evt.action,
                    drained_sha@,
                    resp,
                )
            },
    {
        let accepted = resp.status == PushStatus::Accepted;
        let is_delete = evt.action == PushAction::Delete;
        if accepted && !is_delete {
            match &resp.server_hash {
                Some(h) => {
                    if !text::str_eq(h.as_str(), drained_sha) {
                        let align = Some(
                            AlignTask { server_hash: h.clone(), server_seq: resp.server_seq },
                        );
                        return ResponseStep { align, outcome: map_response(resp) };
                    }
                },
                None => {},
            }
        }
        match shadow_hash_for_ack(
            resp.status,
            drained_sha,
            &resp.server_hash,
            &resp.content_hash,
        ) {
            Some(h) => {
                st.record_shadow(evt.path.as_str(), h.as_str());
            },
            None => {},
        }
        if accepted {
            if is_delete {
                st.drop_lineage(evt.path.as_str());
            } else {
                match resp.server_seq {
                    Some(seq) => {
                        st.record_adopted(evt.path.as_str(), seq);
                    },
                    None => {},
                }
            }
        }
        ResponseStep { align: None, outcome: map_response(resp) }
    }

    /// Handles a failed request, the `attempt`th (counted from zero) for an event
    /// with these bytes.
    pub fn on_error(
        &mut self,
        evt: &PushEvent,
        content: &[u8],
        attempt: usize,
        err: ApiError,
        now: u128,
    ) -> (r: ErrorStep)
        ensures
            *final(self) == (PushClient {
                gate_cooldown_until: if err is UpgradeRequired {
                    Some(later(now, GATE_COOLDOWN_SECS))
                } else {
                    old(self).gate_cooldown_until
                },
                ..*old(self)
            }),
            match err {
                ApiError::Unauthorized => r == ErrorStep::Done(
                    PushOutcome::Failed(FailureReason::Unauthorized),
                ),
                ApiError::Forbidden => r == ErrorStep::Done(
                    PushOutcome::Failed(FailureReason::Forbidden),
                ),
                ApiError::Conflict { expected_hash } => match r {
                    ErrorStep::Conflict { stash, outcome } => {
                        &&& outcome == PushOutcome::Failed(
                            FailureReason::ConflictUnrecoverable { expected_hash },
                        )
                        &&& materializer::opt_stash(stash) == (if content@.len() > 0 {
                            Some(
                                materializer::StashView {
                                    path: evt.path@,
                                    device_id: old(self).device_id@,
                                    seq: 0,
                                    local_sha: digest::content_hash(content@),
                                },
                            )
                        } else {
                            None
                        })
                    },
                    _ => false,
                },
                ApiError::UpgradeRequired { detail } => r == ErrorStep::Done(
                    PushOutcome::Failed(FailureReason::UpgradeRequired { detail }),
                ),
                ApiError::Server { status, message } => if status == 400 || status == 422 {
                    r == ErrorStep::Done(
                        PushOutcome::Skipped(SkipReason::ServerRejected { status }),
                    )
                } else {
                    old(self).tries_again(attempt, message, r)
                },
                ApiError::Other { message } => old(self).tries_again(attempt, message, r),
            },
    {
        match err {
            ApiError::Unauthorized => ErrorStep::Done(
                PushOutcome::Failed(FailureReason::Unauthorized),
            ),
            ApiError::Forbidden => ErrorStep::Done(PushOutcome::Failed(FailureReason::Forbidden)),
            ApiError::Conflict { expected_hash } => {
                let stash = self.stash_local_on_conflict(evt.path.as_str(), content);
                ErrorStep::Conflict {
                    stash,
                    outcome: PushOutcome::Failed(
                        FailureReason::ConflictUnrecoverable { expected_hash },
                    ),
                }
            },
            ApiError::UpgradeRequired { detail } => {
                self.arm_gate_cooldown(now, GATE_COOLDOWN_SECS);
                ErrorStep::Done(PushOutcome::Failed(FailureReason::UpgradeRequired { detail }))
            },
            ApiError::Server { status, message } => {
                if status == 400 || status == 422 {
                    ErrorStep::Done(PushOutcome::Skipped(SkipReason::ServerRejected { status }))
                } else {
                    self.retry_after(attempt, message)
                }
            },
            ApiError::Other { message } => self.retry_after(attempt, message),
        }
    }

    /// `r` is another try after the pause that is due.
    pub open spec fn tries_again(self, attempt: usize, message: String, r: ErrorStep) -> bool {
        match r {
            ErrorStep::Retry { backoff_ms, last_error } => {
                &&& backoff_ms == backoff(
                    attempt as nat,
                    self.config.initial_backoff_ms as nat,
                    self.config.max_backoff_ms as nat,
                )
                &&& last_error == message
            },
            _ => false,
        }
    }

    fn retry_after(&self, attempt: usize, message: String) -> (r: ErrorStep)
        ensures
            self.tries_again(attempt, message, r),
    {
        let backoff_ms: u64 = compute_backoff(
            attempt,
            self.config.initial_backoff_ms,
            self.config.max_backoff_ms,
        );
        ErrorStep::Retry { backoff_ms, last_error: message }
    }

    /// The bytes to set aside when a push lost against another: none where there
    /// are none.
    pub fn stash_local_on_conflict(&self, path: &str, local_bytes: &[u8]) -> (r: Option<StashRequest>)
        ensures
            materializer::opt_stash(r) == (if local_bytes@.len() > 0 {
                Some(
                    materializer::StashView {
                        path: path@,
                        device_id: self.device_id@,
                        seq: 0,
                        local_sha: digest::content_hash(local_bytes@),
                    },
                )
            } else {
                None
            }),
    {
        if local_bytes.len() == 0 {
            return None;
        }
        Some(
            StashRequest {
                path: path.to_string(),
                device_id: self.device_id.clone(),
                seq: 0,
                local_sha: digest::sha256_hex(local_bytes),
            },
        )
    }

    /// Whether there is a further attempt, the `attempt`th counted from zero: the
    /// outcome where there is none.
    pub fn next_attempt(&self, attempt: usize, last_error: Option<String>) -> (r: Option<PushOutcome>)
        ensures
            match r {
                None => attempt < self.config.max_retry_attempts,
                Some(PushOutcome::Failed(FailureReason::NetworkExhausted { last_error: e })) => {
                    &&& attempt >= self.config.max_retry_attempts
                    &&& e@ == (match last_error {
                        Some(m) => m@,
                        None => "unknown"@,
                    })
                },
                Some(_) => false,
            },
    {
        if attempt < self.config.max_retry_attempts {
            return None;
        }
        let last_error = match last_error {
            Some(m) => m,
            None => "unknown".to_string(),
        };
        Some(PushOutcome::Failed(FailureReason::NetworkExhausted { last_error }))
    }

    /// Stops draining for `secs` seconds.
    pub fn arm_gate_cooldown(&mut self, now: u128, secs: u64)
        ensures
            *final(self) == (PushClient {
                gate_cooldown_until: Some(later(now, secs)),
                ..*old(self)
            }),
    {
        assert(secs * NANOS_PER_SEC <= u64::MAX * NANOS_PER_SEC) by (nonlinear_arith)
            requires
                secs <= u64::MAX,
        ;
        let d: u128 = secs as u128 * NANOS_PER_SEC;
        let until: u128 = if now > u128::MAX - d {
            u128::MAX
        } else {
            now + d
        };
        self.gate_cooldown_until = Some(until);
    }

    /// Where the bytes that the local file has to follow come from. `canonical`
    /// is the canonical form of what was sent, where it has one; it is used only
    /// if it has the very hash that the server reports.
    pub fn align_source(&self, canonical: Option<Vec<u8>>, server_hash: &str) -> (r: AlignSource)
        ensures
            r == (if !self.materializer_wired {
                AlignSource::NotWired
            } else {
                match canonical {
                    Some(c) if digest::content_hash(c@) == server_hash@ => AlignSource::Local {
                        content: c,
                    },
                    _ => AlignSource::Fetch,
                }
            }),
    {
        if !self.materializer_wired {
            return AlignSource::NotWired;
        }
        match canonical {
            Some(content) => {
                let sha = digest::sha256_hex(content.as_slice());
                if text::str_eq(sha.as_str(), server_hash) {
                    AlignSource::Local { content }
                } else {
                    AlignSource::Fetch
                }
            },
            None => AlignSource::Fetch,
        }
    }

    /// The bytes of a fetched note, provided they have the hash that it was
    /// announced with.
    pub fn fetched_bytes(payload: &NotePayload) -> (r: Option<Vec<u8>>)
        ensures
            ({
                let bytes = vstd::utf8::encode_utf8(
                    match payload.enriched_body {
                        Some(raw) => raw@,
                        None => payload.body@,
                    },
                );
                text::opt_bytes(r) == (if digest::content_hash(bytes) == payload.sha256@ {
                    Some(bytes)
                } else {
                    None
                })
            }),
    {
        let bytes = match &payload.enriched_body {
            Some(raw) => frontmatter::copy_bytes(raw.as_str().as_bytes()),
            None => frontmatter::copy_bytes(payload.body.as_str().as_bytes()),
        };
        let sha = digest::sha256_hex(bytes.as_slice());
        if text::str_eq(sha.as_str(), payload.sha256.as_str()) {
            Some(bytes)
        } else {
            None
        }
    }

    /// Records what became of making the local file follow. After a rewrite the
    /// watcher need not queue the new bytes, and the server's version is adopted.
    /// After an edit that came in between, the server's hash is the base that the
    /// push of that edit needs. Otherwise, and where the rewrite failed (`None`),
    /// nothing is recorded.
    pub fn finish_align(
        &mut self,
        st: &mut SyncStores,
        path: &str,
        task: &AlignTask,
        canonical_sha: String,
        outcome: Option<&AlignOutcome>,
    )
        requires
            old(self).wf(),
            old(st).wf(),
        ensures
            final(self).wf(),
            final(st).wf(),
            *final(self) == (PushClient {
                enqueued_hashes: final(self).enqueued_hashes,
                ..*old(self)
            }),
            final(st).tray == old(st).tray,
            match outcome {
                Some(AlignOutcome::Rewrote { .. }) => {
                    &&& match (old(self).enqueued_hashes, final(self).enqueued_hashes) {
                        (Some(a), Some(b)) => b@ == a@.insert(
                            sync_shadow::canonical_path(path@),
                            canonical_sha,
                        ),
                        (None, None) => true,
                        _ => false,
                    }
                    &&& final(st).shadow == old(st).shadow
                    &&& match task.server_seq {
                        Some(seq) => stores::adoption_recorded(
                            old(st).base_seq,
                            final(st).base_seq,
                            path@,
                            seq,
                        ),
                        None => final(st).base_seq == old(st).base_seq,
                    }
                },
                Some(AlignOutcome::SkippedConcurrentEdit { .. }) => {
                    &&& *final(self) == *old(self)
                    &&& stores::shadow_recorded(
                        old(st).shadow,
                        final(st).shadow,
                        path@,
                        task.server_hash@,
                    )
                    &&& final(st).base_seq == old(st).base_seq
                },
                _ => {
                    &&& *final(self) == *old(self)
                    &&& *final(st) == *old(st)
                },
            },
    {
        match outcome {
            Some(AlignOutcome::Rewrote { path: _ }) => {
                match &mut self.enqueued_hashes {
                    Some(map) => {
                        map.insert(sync_shadow::canonical_sync_path(path), canonical_sha);
                    },
                    None => {},
                }
                match task.server_seq {
                    Some(seq) => {
                        st.record_adopted(path, seq);
                    },
                    None => {},
                }
            },
            Some(AlignOutcome::SkippedConcurrentEdit { current_sha: _ }) => {
                st.record_shadow(path, task.server_hash.as_str());
            },
            _ => {},
        }
    }

    /// Records that the note of a lost push is gone from the server: its version
    /// is forgotten, so that a new note starts without one.
    pub fn note_gone(&self, st: &mut SyncStores, path: &str)
        requires
            old(st).wf(),
        ensures
            final(st).wf(),
            if self.materializer_wired {
                &&& stores::lineage_dropped(old(st).base_seq, final(st).base_seq, path@)
                &&& final(st).shadow == old(st).shadow
                &&& final(st).tray == old(st).tray
            } else {
                *final(st) == *old(st)
            },
    {
        if self.materializer_wired {
            st.drop_lineage(path);
        }
    }

    /// Draining is refused: the sync history cannot be read, or the server wants a
    /// newer daemon.
    pub open spec fn stands_down(self, st: SyncStores, now: u128) -> bool {
        st.scope_suspect() || (self.gate_cooldown_until is Some && now
            < self.gate_cooldown_until->0)
    }

    /// The first step of a drain: the oldest events of the journal, or nothing
    /// where draining is refused.
    pub fn drain_once(
        &self,
        st: &SyncStores,
        journal: &mut PushJournal,
        file: &JournalFile,
        now: u128,
    ) -> (r: Option<Vec<(PushEvent, JournalCursor)>>)
        ensures
            r is None <==> self.stands_down(*st, now),
            r is None ==> *final(journal) == *old(journal),
            match r {
                Some(batch) => {
                    let live = push_journal::live(file.lines@);
                    let n = self.config.batch_size;
                    &&& batch@.len() == (if live.len() < n {
                        live.len()
                    } else {
                        n as nat
                    })
                    &&& forall|i: int|
                        0 <= i < batch@.len() ==> {
                            &&& (#[trigger] batch@[i]).0@ == live[i]
                            &&& batch@[i].1.0@ == live[i].id
                        }
                },
                None => true,
            },
    {
        if st.shadow_suspect() {
            return None;
        }
        match self.gate_cooldown_until {
            Some(until) => {
                if now < until {
                    return None;
                }
            },
            None => {},
        }
        Some(journal.drain(file, self.config.batch_size))
    }

    /// The second step of a drain, once every event of the batch was processed:
    /// what the journal has to hold now (`None` where nothing leaves it), and the events
    /// with their outcomes in drain order. The tray counts them.
    pub fn settle(
        st: &mut SyncStores,
        journal: &mut PushJournal,
        file: &JournalFile,
        batch: Vec<Processed>,
        at: i64,
    ) -> (r: (Option<Vec<PushEvent>>, Vec<(PushEvent, PushOutcome)>))
        ensures
            final(st).shadow == old(st).shadow,
            final(st).base_seq == old(st).base_seq,
            final(st).tray == (match old(st).tray {
                Some(t) => Some(tallied(t, batch@, at)),
                None => None,
            }),
            r.0 is Some <==> push_journal::any_listed(
                push_journal::live(file.lines@),
                final_ids(batch@),
            ),
            r.0 is Some ==> push_journal::event_views(r.0->0@) == push_journal::without_ids(
                push_journal::live(file.lines@),
                final_ids(batch@),
            ),
            final(journal).seen() == (if final_ids(batch@).len() > 0 {
                file.bytes
            } else {
                old(journal).seen()
            }),
            final(journal).limit() == old(journal).limit(),
            r.1@.len() == batch@.len(),
            forall|i: int|
                0 <= i < batch@.len() ==> (#[trigger] r.1@[i]).0@ == batch@[i].0@ && r.1@[i].1
                    == batch@[i].2,
    {
        let mut cursors: Vec<JournalCursor> = Vec::new();
        let ghost all = batch@;
        let mut i: usize = 0;
        assert(push_journal::cursor_ids(cursors@) =~= Seq::<Seq<char>>::empty());
        while i < batch.len()
            invariant
                i <= batch@.len(),
                batch@ == all,
                st.shadow == old(st).shadow,
                st.base_seq == old(st).base_seq,
                st.tray == (match old(st).tray {
                    Some(t) => Some(tallied(t, all.subrange(0, i as int), at)),
                    None => None,
                }),
                push_journal::cursor_ids(cursors@) == final_ids(all.subrange(0, i as int)),
            decreases batch@.len() - i,
        {
            let ghost head = all.subrange(0, i + 1);
            assert(head.drop_last() =~= all.subrange(0, i as int));
            assert(head.last() == all[i as int]);
            let ghost before = cursors@;
            if outcome_is_final(&batch[i].2) {
                cursors.push(batch[i].1.clone());
                assert(push_journal::cursor_ids(cursors@) =~= push_journal::cursor_ids(before).push(
                    all[i as int].1.0@,
                ));
            }
            count_outcome(st, &batch[i].2, at);
            i = i + 1;
        }
        assert(all.subrange(0, all.len() as int) =~= all);
        assert(push_journal::cursor_ids(cursors@).len() == cursors@.len());
        let keep = journal.ack_batch(file, cursors);
        let mut out: Vec<(PushEvent, PushOutcome)> = Vec::new();
        for p in it: batch
            invariant
                it.seq() == all,
                out@.len() == it.index(),
                forall|k: int|
                    0 <= k < it.index() ==> (#[trigger] out@[k]).0@ == all[k].0@ && out@[k].1
                        == all[k].2,
        {
            out.push((p.0, p.2));
        }
        (keep, out)
    }

    /// The last step of a drain: the tray shows the backlog, and it counts as
    /// progress if something was processed or nothing is left.
    pub fn note_backlog(
        &mut self,
        st: &mut SyncStores,
        processed: usize,
        pending_after: usize,
        now_secs: u64,
    )
        ensures
            *final(self) == (PushClient {
                health: match old(self).health {
                    Some(h) => if processed > 0 || pending_after == 0 {
                        Some(SyncHealth { last_progress_secs: now_secs })
                    } else {
                        Some(h)
                    },
                    None => None,
                },
                ..*old(self)
            }),
            *final(st) == (SyncStores {
                tray: match old(st).tray {
                    Some(t) => Some(TrayState { uploads_pending: pending_after, ..t }),
                    None => None,
                },
                ..*old(st)
            }),
    {
        match &mut st.tray {
            Some(t) => {
                t.set_uploads_pending(pending_after);
            },
            None => {},
        }
        if processed > 0 || pending_after == 0 {
            match &mut self.health {
                Some(h) => {
                    h.mark_progress(now_secs);
                },
                None => {},
            }
        }
    }

    /// Milliseconds to the next drain: few while there was work to do.
    pub fn next_interval_ms(&self, processed: usize) -> (r: u64)
        ensures
            r == (if processed == 0 {
                self.config.loop_interval_ms
            } else {
                self.config.busy_loop_interval_ms
            }),
    {
        if processed == 0 {
            self.config.loop_interval_ms
        } else {
            self.config.busy_loop_interval_ms
        }
    }
}

fn outcome_is_final(o: &PushOutcome) -> (r: bool)
    ensures
        r == is_final(*o),
{
    match o {
        PushOutcome::Failed(FailureReason::NetworkExhausted { last_error: _ }) => false,
        PushOutcome::Failed(FailureReason::UpgradeRequired { detail: _ }) => false,
        _ => true,
    }
}

fn count_outcome(st: &mut SyncStores, o: &PushOutcome, at: i64)
    ensures
        final(st).shadow == old(st).shadow,
        final(st).base_seq == old(st).base_seq,
        final(st).tray == (match old(st).tray {
            Some(t) => Some(counted(t, *o, at)),
            None => None,
        }),
{
    match &mut st.tray {
        Some(t) => match o {
            PushOutcome::Sent { seq: _, content_hash: _ } => {
                t.inc_uploads_sent(at);
            },
            PushOutcome::Failed(FailureReason::NetworkExhausted { last_error: _ }) => {
                t.inc_uploads_failed();
            },
            PushOutcome::Failed(FailureReason::UpgradeRequired { detail: _ }) => {
                t.inc_uploads_failed();
            },
            _ => {},
        },
        None => {},
    }
}

// ---------------------------------------------------------------------------
// Chains
// ---------------------------------------------------------------------------

/// The paths of a batch.
pub open spec fn batch_paths(batch: Seq<(PushEvent, JournalCursor)>) -> Seq<Seq<char>> {
    batch.map_values(|b: (PushEvent, JournalCursor)| b.0.path@)
}

/// Where an event stands in its chain.
pub open spec fn at(chains: Seq<Vec<usize>>, c: int, k: int) -> usize {
    chains[c]@[k]
}

/// The position is one of a chain.
pub open spec fn is_place(chains: Seq<Vec<usize>>, c: int, k: int) -> bool {
    0 <= c < chains.len() && 0 <= k < chains[c]@.len()
}

/// Some chain holds the event.
pub open spec fn is_placed(chains: Seq<Vec<usize>>, i: int) -> bool {
    exists|c: int, k: int| #[trigger] is_place(chains, c, k) && at(chains, c, k) == i
}

/// The chains hold the first `n` events of a batch: each exactly one path, in
/// drain order, and no path in two chains.
pub open spec fn routes(paths: Seq<Seq<char>>, n: int, chains: Seq<Vec<usize>>) -> bool {
    &&& forall|c: int| 0 <= c < chains.len() ==> (#[trigger] chains[c])@.len() > 0
    &&& forall|c: int, k: int| #[trigger] is_place(chains, c, k) ==> at(chains, c, k) < n
    &&& forall|c: int, k: int, l: int|
        #![trigger at(chains, c, k), at(chains, c, l)]
        is_place(chains, c, k) && is_place(chains, c, l) && k < l ==> at(chains, c, k) < at(
            chains,
            c,
            l,
        )
    &&& forall|c: int, k: int, d: int, l: int|
        #![trigger is_place(chains, c, k), is_place(chains, d, l)]
        is_place(chains, c, k) && is_place(chains, d, l) ==> (paths[at(chains, c, k) as int]
            == paths[at(chains, d, l) as int] <==> c == d)
    &&& forall|i: int| 0 <= i < n ==> #[trigger] is_placed(chains, i)
}

/// Sorts a batch into chains. The events of a chain are sent one after the
/// other, so that the server never sees two pushes of one path race; different
/// chains may be sent at the same time.
pub fn plan_chains(batch: &[(PushEvent, JournalCursor)]) -> (r: Vec<Vec<usize>>)
    ensures
        routes(batch_paths(batch@), batch@.len() as int, r@),
{
    let ghost paths = batch_paths(batch@);
    let mut chains: Vec<Vec<usize>> = Vec::new();
    let mut i: usize = 0;
    while i < batch.len()
        invariant
            i <= batch@.len(),
            paths == batch_paths(batch@),
            routes(paths, i as int, chains@),
        decreases batch@.len() - i,
    {
        let ghost before = chains@;
        assert(paths[i as int] == batch@[i as int].0.path@);
        let mut c: usize = 0;
        let mut found = false;
        while c < chains.len() && !found
            invariant
                c <= chains@.len(),
                i < batch@.len(),
                chains@ == before,
                paths == batch_paths(batch@),
                routes(paths, i as int, chains@),
                forall|d: int|
                    0 <= d < c ==> paths[at(chains@, d, 0) as int] != paths[i as int],
                found ==> c < chains@.len() && paths[at(chains@, c as int, 0) as int]
                    == paths[i as int],
            decreases chains@.len() - c + (if found {
                0int
            } else {
                1int
            }),
        {
            assert(is_place(chains@, c as int, 0));
            let first: usize = chains[c][0];
            assert(first == at(chains@, c as int, 0));
            assert(paths[first as int] == batch@[first as int].0.path@);
            if text::str_eq(batch[first].0.path.as_str(), batch[i].0.path.as_str()) {
                found = true;
            } else {
                c = c + 1;
            }
        }
        if found {
            chains[c].push(i);
            proof {
                lemma_route_extended(paths, i as int, before, chains@, c as int);
            }
        } else {
            let mut fresh: Vec<usize> = Vec::new();
            fresh.push(i);
            chains.push(fresh);
            proof {
                lemma_route_opened(paths, i as int, before, chains@);
            }
        }
        i = i + 1;
    }
    chains
}

/// An outcome is given for the event at `i`.
pub open spec fn has_outcome(done: Seq<(usize, PushOutcome)>, i: int) -> bool {
    exists|k: int| 0 <= k < done.len() && (#[trigger] done[k]).0 == i
}

/// The outcomes are given for each of the first `n` events exactly once.
pub open spec fn names_each_once(done: Seq<(usize, PushOutcome)>, n: nat) -> bool {
    &&& forall|k: int| 0 <= k < done.len() ==> (#[trigger] done[k]).0 < n
    &&& forall|k: int, l: int|
        0 <= k < l < done.len() ==> (#[trigger] done[k]).0 != (#[trigger] done[l]).0
    &&& forall|i: int| 0 <= i < n ==> #[trigger] has_outcome(done, i)
}

/// Puts outcomes that came in any order, each with the place of its event in the
/// batch, into drain order. `None` where they are not given for each event exactly
/// once.
#[verifier::loop_isolation(false)]
pub fn in_drain_order(
    batch: Vec<(PushEvent, JournalCursor)>,
    done: Vec<(usize, PushOutcome)>,
) -> (r: Option<Vec<Processed>>)
    ensures
        r is Some <==> names_each_once(done@, batch@.len()),
        r is Some ==> {
            &&& r->0@.len() == batch@.len()
            &&& forall|i: int|
                0 <= i < batch@.len() ==> {
                    &&& (#[trigger] r->0@[i]).0 == batch@[i].0
                    &&& r->0@[i].1 == batch@[i].1
                    &&& done@.contains((i as usize, r->0@[i].2))
                }
        },
{
    let n: usize = batch.len();
    let ghost all = done@;
    let ghost events = batch@;
    let mut slots: Vec<Option<PushOutcome>> = Vec::new();
    let mut i: usize = 0;
    while i < n
        invariant
            i <= n,
            slots@.len() == i,
            forall|k: int| 0 <= k < i ==> (#[trigger] slots@[k]) is None,
        decreases n - i,
    {
        slots.push(None);
        i = i + 1;
    }
    for d in it: done
        invariant
            it.seq() == all,
            n == events.len(),
            slots@.len() == n,
            forall|k: int|
                0 <= k < it.index() ==> (#[trigger] all[k]).0 < n && slots@[all[k].0 as int]
                    == Some(all[k].1),
            forall|m: int|
                0 <= m < n && (#[trigger] slots@[m]) is Some ==> exists|k: int|
                    0 <= k < it.index() && (#[trigger] all[k]).0 == m,
            forall|k: int, l: int|
                0 <= k < l < it.index() ==> (#[trigger] all[k]).0 != (#[trigger] all[l]).0,
    {
        let ghost at = it.index() as int;
        assert(all[at] == d);
        let ghost before = slots@;
        if d.0 >= n {
            return None;
        }
        if slots[d.0].is_some() {
            proof {
                let k = choose|k: int| 0 <= k < at && (#[trigger] all[k]).0 == d.0;
                assert(all[k].0 == all[at].0);
            }
            return None;
        }
        let place: usize = d.0;
        slots.set(place, Some(d.1));
        proof {
            assert forall|k: int| 0 <= k < at implies (#[trigger] all[k]).0 != place by {
                assert(before[all[k].0 as int] is Some);
            }
            assert forall|m: int| 0 <= m < n && (#[trigger] slots@[m]) is Some implies exists|k: int|
                0 <= k < at + 1 && (#[trigger] all[k]).0 == m by {
                if m == place {
                    assert(all[at].0 == m);
                } else {
                    assert(before[m] is Some);
                    let k = choose|k: int| 0 <= k < at && (#[trigger] all[k]).0 == m;
                    assert(all[k].0 == m);
                }
            }
        }
    }
    let ghost full = slots@;
    let mut out: Vec<Processed> = Vec::new();
    let mut at: usize = 0;
    for b in it: batch
        invariant
            it.seq() == events,
            n == events.len(),
            at == it.index(),
            slots@.len() == n,
            full.len() == n,
            out@.len() == at,
            forall|m: int| at <= m < n ==> #[trigger] slots@[m] == full[m],
            forall|m: int| 0 <= m < at ==> (#[trigger] full[m]) is Some,
            forall|m: int|
                0 <= m < at ==> (#[trigger] out@[m]).0 == events[m].0 && out@[m].1 == events[m].1
                    && full[m] == Some(out@[m].2),
            forall|k: int|
                0 <= k < all.len() ==> (#[trigger] all[k]).0 < n && full[all[k].0 as int] == Some(
                    all[k].1,
                ),
    {
        assert(events[at as int] == b);
        let taken = slots[at].take();
        match taken {
            Some(o) => {
                out.push((b.0, b.1, o));
            },
            None => {
                proof {
                    assert(full[at as int] is None);
                    if names_each_once(all, n as nat) {
                        assert(has_outcome(all, at as int));
                        let k = choose|k: int| 0 <= k < all.len() && (#[trigger] all[k]).0 == at;
                        assert(full[all[k].0 as int] is Some);
                    }
                }
                return None;
            },
        }
        at = at + 1;
    }
    proof {
        assert forall|m: int| 0 <= m < n implies #[trigger] has_outcome(all, m) by {
            assert(full[m] is Some);
        }
        assert forall|m: int| 0 <= m < n implies all.contains((m as usize, (#[trigger] out@[m]).2)) by {
            assert(full[m] is Some);
            assert(has_outcome(all, m));
            let k = choose|k: int| 0 <= k < all.len() && (#[trigger] all[k]).0 == m;
            assert(full[all[k].0 as int] == Some(all[k].1));
            assert(all[k] == (m as usize, out@[m].2));
        }
    }
    Some(out)
}

proof fn lemma_route_extended(
    paths: Seq<Seq<char>>,
    n: int,
    before: Seq<Vec<usize>>,
    after: Seq<Vec<usize>>,
    c: int,
)
    requires
        routes(paths, n, before),
        0 <= n <= usize::MAX,
        0 <= c < before.len(),
        after.len() == before.len(),
        forall|d: int| 0 <= d < before.len() && d != c ==> after[d] == before[d],
        after[c]@ == before[c]@.push(n as usize),
        paths[at(before, c, 0) as int] == paths[n],
    ensures
        routes(paths, n + 1, after),
{
    let last = before[c]@.len() as int;
    assert(is_place(before, c, 0));
    assert forall|d: int, k: int| #[trigger] is_place(after, d, k) implies (if d == c && k == last {
        at(after, d, k) == n
    } else {
        is_place(before, d, k) && at(after, d, k) == at(before, d, k)
    }) by {
    }
    assert forall|d: int, k: int, l: int|
        #![trigger at(after, d, k), at(after, d, l)]
        is_place(after, d, k) && is_place(after, d, l) && k < l implies at(after, d, k) < at(
        after,
        d,
        l,
    ) by {
        if d == c && l == last {
            assert(is_place(before, d, k));
        } else {
            assert(is_place(before, d, k) && is_place(before, d, l));
            assert(at(before, d, k) < at(before, d, l));
        }
    }
    assert forall|d: int, k: int, e: int, l: int|
        #![trigger is_place(after, d, k), is_place(after, e, l)]
        is_place(after, d, k) && is_place(after, e, l) implies (paths[at(after, d, k) as int]
        == paths[at(after, e, l) as int] <==> d == e) by {
        let new_d = d == c && k == last;
        let new_e = e == c && l == last;
        if new_d && !new_e {
            assert(is_place(before, e, l));
            assert(is_place(before, c, 0));
        } else if new_e && !new_d {
            assert(is_place(before, d, k));
            assert(is_place(before, c, 0));
        } else if !new_d && !new_e {
            assert(is_place(before, d, k) && is_place(before, e, l));
        }
    }
    assert forall|i: int| 0 <= i < n + 1 implies #[trigger] is_placed(after, i) by {
        if i == n {
            assert(is_place(after, c, last));
        } else {
            assert(is_placed(before, i));
            let (d, k) = choose|d: int, k: int|
                #[trigger] is_place(before, d, k) && at(before, d, k) == i;
            assert(is_place(after, d, k));
        }
    }
    assert forall|d: int| 0 <= d < after.len() implies (#[trigger] after[d])@.len() > 0 by {
        assert(before[d]@.len() > 0);
    }
}

proof fn lemma_route_opened(
    paths: Seq<Seq<char>>,
    n: int,
    before: Seq<Vec<usize>>,
    after: Seq<Vec<usize>>,
)
    requires
        routes(paths, n, before),
        0 <= n <= usize::MAX,
        after.len() == before.len() + 1,
        forall|d: int| 0 <= d < before.len() ==> after[d] == before[d],
        after[before.len() as int]@ == seq![n as usize],
        forall|d: int| 0 <= d < before.len() ==> paths[at(before, d, 0) as int] != paths[n],
    ensures
        routes(paths, n + 1, after),
{
    let c = before.len() as int;
    assert forall|d: int, k: int| #[trigger] is_place(after, d, k) implies (if d == c {
        k == 0 && at(after, d, k) == n
    } else {
        is_place(before, d, k) && at(after, d, k) == at(before, d, k)
    }) by {
    }
    assert forall|d: int, k: int, l: int|
        #![trigger at(after, d, k), at(after, d, l)]
        is_place(after, d, k) && is_place(after, d, l) && k < l implies at(after, d, k) < at(
        after,
        d,
        l,
    ) by {
        assert(is_place(before, d, k) && is_place(before, d, l));
        assert(at(before, d, k) < at(before, d, l));
    }
    assert forall|d: int, k: int, e: int, l: int|
        #![trigger is_place(after, d, k), is_place(after, e, l)]
        is_place(after, d, k) && is_place(after, e, l) implies (paths[at(after, d, k) as int]
        == paths[at(after, e, l) as int] <==> d == e) by {
        if d == c && e != c {
            assert(is_place(before, e, l) && is_place(before, e, 0));
        } else if e == c && d != c {
            assert(is_place(before, d, k) && is_place(before, d, 0));
        } else if d != c && e != c {
            assert(is_place(before, d, k) && is_place(before, e, l));
        }
    }
    assert forall|i: int| 0 <= i < n + 1 implies #[trigger] is_placed(after, i) by {
        if i == n {
            assert(is_place(after, c, 0));
        } else {
            assert(is_placed(before, i));
            let (d, k) = choose|d: int, k: int|
                #[trigger] is_place(before, d, k) && at(before, d, k) == i;
            assert(is_place(after, d, k));
        }
    }
    assert forall|d: int| 0 <= d < after.len() implies (#[trigger] after[d])@.len() > 0 by {
        if d < c {
            assert(before[d]@.len() > 0);
        }
    }
}

} // verus!
