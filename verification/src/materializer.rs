//! Deciding what a pulled note does to the local file.
//!
//! The caller reads and writes the disk; this module decides. A pull goes
//! through three calls: [`Materializer::begin_write`] gates the path and
//! resolves the exact bytes, [`Materializer::write_with_change_seq`] looks at the
//! local bytes and says whether to write, to keep the local file or to set a
//! copy of it aside first, and [`Materializer::finish_write`] records a write
//! whose bytes were verified. Nothing is recorded for a write that failed, nor
//! for one that went to the shadow tree.

use vstd::prelude::*;

use crate::conflict_breaker;
use crate::conflict_breaker::{BreakerView, ConflictBreaker};
use crate::digest;
use crate::frontmatter;
use crate::numbers;
use crate::paths;
use crate::paths::PathStyle;
use crate::push_journal;
use crate::push_journal::{PushAction, PushEvent, CURRENT_SCHEMA};
use crate::rasp_fence;
use crate::rasp_fence::PathClassification;
use crate::scope;
use crate::stores;
use crate::stores::SyncStores;
use crate::sync_shadow;
use crate::text;
use crate::tray_state::TrayState;

pub use crate::frontmatter::{
    body_after_frontmatter_normalized, server_lines_contained_in_local, starts_with_frontmatter,
};

verus! {

// ---------------------------------------------------------------------------
// Types
// ---------------------------------------------------------------------------

/// Where pulled notes go.
#[derive(Debug, Clone, Copy, PartialEq, Eq, Structural)]
pub enum MaterializerMode {
    /// Into a tree of their own, beside the vault.
    Shadow,
    /// Into the vault.
    Live,
    /// Nowhere.
    Disabled,
}

impl MaterializerMode {
    /// The mode a configuration names: unknown names mean shadow mode.
    pub fn from_str(s: &str) -> (r: MaterializerMode)
        ensures
            r == (if s@ == "live"@ {
                MaterializerMode::Live
            } else if s@ == "disabled"@ {
                MaterializerMode::Disabled
            } else {
                MaterializerMode::Shadow
            }),
    {
        if text::str_eq(s, "live") {
            MaterializerMode::Live
        } else if text::str_eq(s, "disabled") {
            MaterializerMode::Disabled
        } else {
            MaterializerMode::Shadow
        }
    }
}

/// Why an operation failed.
#[derive(Debug, PartialEq, Eq)]
pub enum MaterializerError {
    /// The path could lead out of its tree.
    PathTraversal(String),
    /// The path belongs to the substrate, which is read-only here.
    SubstrateRefuse(String),
    /// The disk refused; the message.
    Io(String),
    ShaMismatch { expected: String, actual: String },
    /// A conflict copy could not be written; the message.
    Stash(String),
    /// The check of the written bytes could not run; the message.
    Integrity(String),
}

impl MaterializerError {
    /// The message for people.
    pub open spec fn text(self) -> Seq<char> {
        match self {
            MaterializerError::PathTraversal(p) => "path traversal rejected: "@ + p@,
            MaterializerError::SubstrateRefuse(p) =>
                "RASP substrate path refused (read-only by daemon): "@ + p@,
            MaterializerError::Io(e) => "io error: "@ + e@,
            MaterializerError::ShaMismatch { expected, actual } => "sha mismatch: expected "@
                + expected@ + ", got "@ + actual@,
            MaterializerError::Stash(e) => "conflict-stash error: "@ + e@,
            MaterializerError::Integrity(e) => "integrity-check error: "@ + e@,
        }
    }

    /// The message for people.
    pub fn message(&self) -> (r: String)
        ensures
            r@ == self.text(),
    {
        match self {
            MaterializerError::PathTraversal(p) => text::concat(
                "path traversal rejected: ",
                p.as_str(),
            ),
            MaterializerError::SubstrateRefuse(p) => text::concat(
                "RASP substrate path refused (read-only by daemon): ",
                p.as_str(),
            ),
            MaterializerError::Io(e) => text::concat("io error: ", e.as_str()),
            MaterializerError::ShaMismatch { expected, actual } => {
                let mut s = text::concat("sha mismatch: expected ", expected.as_str());
                s.append(", got ");
                s.append(actual.as_str());
                s
            },
            MaterializerError::Stash(e) => text::concat("conflict-stash error: ", e.as_str()),
            MaterializerError::Integrity(e) => text::concat(
                "integrity-check error: ",
                e.as_str(),
            ),
        }
    }
}

/// Why nothing was written.
#[derive(Debug, Clone, Copy, PartialEq, Eq)]
pub enum SkipReason {
    /// The substrate fence refused the path; the label of its rule.
    SubstrateRefused { rule: &'static str },
    /// The local bytes are the server's bytes.
    IdenticalToLocal,
    /// The mode is [`MaterializerMode::Disabled`].
    DisabledMode,
    /// Only the local side moved since the last sync, or it descends from the
    /// version on offer: it stays, and its push carries it up.
    LocalEditPreserved,
    /// Too many conflict copies were minted: the local file stays untouched.
    ConflictStormBreakerOpen,
    /// The server's copy lacks only the frontmatter: the local file stays and
    /// is pushed up. Not queued where there is no journal to queue it in.
    GuardPreserveLocalPushUp { enqueued_push: bool },
    /// The sync history cannot be read, so "unknown provenance" means nothing:
    /// the local file stays untouched.
    ShadowScopeSuspect,
}

/// What became of a pull.
#[derive(Debug, PartialEq, Eq)]
pub enum MaterializeOutcome {
    /// Written, and the written bytes verified.
    Wrote { path: String },
    Skipped(SkipReason),
    /// Written after the diverging local bytes were set aside.
    Stashed { stash_path: String },
    /// Written over bytes that differed in line endings, byte order mark or
    /// volatile fields only.
    AlignedToCanonical { path: String },
    /// Written, but the bytes on disk are not the expected ones. The file is
    /// kept for inspection.
    IntegrityFailed { path: String, expected_sha: String, actual_sha: String },
}

/// What became of a rewrite to the server's canonical bytes.
#[derive(Debug, PartialEq, Eq)]
pub enum AlignOutcome {
    Rewrote { path: String },
    /// The file no longer holds the bytes that were pushed.
    SkippedConcurrentEdit { current_sha: String },
    SkippedMissing,
    SkippedDisabled,
    /// The rewrite would have dropped the file's frontmatter.
    SkippedWouldStripFrontmatter,
}

/// Who wins a conflict on the pull side. The losing bytes are set aside either
/// way.
#[derive(Debug, Clone, Copy, PartialEq, Eq, Structural)]
pub enum ConflictPolicy {
    ServerWins,
    NewerWins,
}

/// Settings.
#[derive(Debug, PartialEq, Eq)]
pub struct MaterializerConfig {
    /// Read back and verify what was written.
    pub enable_integrity_check: bool,
    pub conflict_policy: ConflictPolicy,
    /// Frontmatter fields that do not count in comparisons.
    pub strip_frontmatter_fields_for_diff: Vec<String>,
    /// Names this device in conflict copies.
    pub device_id: String,
    /// Conflict copies admitted inside the window; zero for no bound.
    pub conflict_storm_threshold: u32,
    pub conflict_storm_window_secs: u64,
}

impl Default for MaterializerConfig {
    fn default() -> (c: MaterializerConfig)
        ensures
            c.enable_integrity_check,
            c.conflict_policy is ServerWins,
            text::views(c.strip_frontmatter_fields_for_diff@) == seq!["updated"@],
            c.device_id@ == "unknown-device"@,
            c.conflict_storm_threshold == 50,
            c.conflict_storm_window_secs == 600,
    {
        let mut fields: Vec<String> = Vec::new();
        fields.push("updated".to_string());
        assert(text::views(fields@) =~= seq!["updated"@]);
        MaterializerConfig {
            enable_integrity_check: true,
            conflict_policy: ConflictPolicy::ServerWins,
            strip_frontmatter_fields_for_diff: fields,
            device_id: "unknown-device".to_string(),
            conflict_storm_threshold: 50,
            conflict_storm_window_secs: 600,
        }
    }
}

/// The metadata of a note as the server sends it.
#[derive(Debug, PartialEq, Eq)]
pub enum Frontmatter {
    Null,
    /// An object with so many fields, as JSON text.
    Object { fields: usize, json: String },
    /// Any other value, as JSON text.
    Other { json: String },
}

impl Frontmatter {
    /// The parts were taken off one JSON value, whose text is written without
    /// white space between its parts: an object without fields reads `{}`, and
    /// nothing else reads so or `null`.
    pub open spec fn wf(self) -> bool {
        match self {
            Frontmatter::Null => true,
            Frontmatter::Object { fields, json } => (fields == 0 <==> json@ == "{}"@) && json@
                != "null"@,
            Frontmatter::Other { json } => json@ != "{}"@ && json@ != "null"@,
        }
    }

    /// There is nothing to render.
    pub open spec fn is_blank(self) -> bool {
        match self {
            Frontmatter::Null => true,
            Frontmatter::Object { fields, .. } => fields == 0,
            Frontmatter::Other { .. } => false,
        }
    }

    /// The JSON text.
    pub open spec fn json(self) -> Seq<char> {
        match self {
            Frontmatter::Null => "null"@,
            Frontmatter::Object { json, .. } => json@,
            Frontmatter::Other { json } => json@,
        }
    }
}

/// A note as the server sends it.
#[derive(Debug, PartialEq, Eq)]
pub struct NotePayload {
    /// Path relative to the vaults root.
    pub path: String,
    pub frontmatter: Frontmatter,
    pub body: String,
    /// Hash of the note's exact bytes.
    pub sha256: String,
    /// The note's version.
    pub change_seq: Option<i64>,
    /// The note's exact text; older servers leave it out.
    pub enriched_body: Option<String>,
}

// ---------------------------------------------------------------------------
// The note's text
// ---------------------------------------------------------------------------

/// What serde_yaml renders of the JSON value that `json` reads as; `None` where
/// it is no JSON or cannot be rendered.
pub uninterp spec fn yaml_of_json(json: Seq<char>) -> Option<Seq<char>>;

/// Calls `serde_yaml::to_string` on the JSON value that `json` reads as. Before that
/// `serde_json::from_str` turns the text into the value; with its feature
/// `float_roundtrip` it reads back every number that it wrote. The contract says
/// only that the result depends on `json` alone.
#[verifier::external_body]
fn render_yaml(json: &str) -> (r: Option<String>)
    ensures
        text::opt_text(r) == yaml_of_json(json@),
{
    let value: serde_json::Value = serde_json::from_str(json).ok()?;
    serde_yaml::to_string(&value).ok()
}

/// `body` behind a frontmatter block that holds `yaml`.
pub open spec fn fronted_text(yaml: Option<Seq<char>>, body: Seq<char>) -> Seq<char> {
    "---\n"@ + (match yaml {
        Some(y) => y,
        None => Seq::empty(),
    }) + "---\n\n"@ + body
}

/// The note's text as put together from its metadata and its body.
pub open spec fn serialized(payload: NotePayload) -> Seq<char> {
    if payload.frontmatter.is_blank() {
        payload.body@
    } else {
        fronted_text(yaml_of_json(payload.frontmatter.json()), payload.body@)
    }
}

/// The exact bytes to write for a note.
pub open spec fn note_bytes(payload: NotePayload) -> Seq<u8> {
    vstd::utf8::encode_utf8(
        match payload.enriched_body {
            Some(raw) => raw@,
            None => serialized(payload),
        },
    )
}

/// Puts a frontmatter block in front of a body.
pub fn with_front_block(yaml: &Option<String>, body: &str) -> (r: String)
    ensures
        r@ == fronted_text(text::opt_text(*yaml), body@),
{
    let mut s = "---\n".to_string();
    match yaml {
        Some(y) => {
            s.append(y.as_str());
        },
        None => {},
    }
    s.append("---\n\n");
    s.append(body);
    assert(s@ =~= fronted_text(text::opt_text(*yaml), body@));
    s
}

/// Puts a note's text together from its metadata and its body.
pub fn serialize_with_frontmatter(payload: &NotePayload) -> (r: String)
    ensures
        r@ == serialized(*payload),
{
    match &payload.frontmatter {
        Frontmatter::Null => payload.body.clone(),
        Frontmatter::Object { fields, json } => {
            if *fields == 0 {
                payload.body.clone()
            } else {
                let yaml = render_yaml(json.as_str());
                with_front_block(&yaml, payload.body.as_str())
            }
        },
        Frontmatter::Other { json } => {
            let yaml = render_yaml(json.as_str());
            with_front_block(&yaml, payload.body.as_str())
        },
    }
}

// ---------------------------------------------------------------------------
// Decisions
// ---------------------------------------------------------------------------

/// What three pairwise comparisons say of local file, server and last sync.
#[derive(Debug, Clone, Copy, PartialEq, Eq, Structural)]
pub enum Decision {
    /// Local and server agree.
    Noop,
    /// Only the local side moved.
    PreserveLocalEdit,
    /// Only the server moved.
    PullClean,
    /// Both moved, or there is no record of a last sync.
    Conflict,
}

/// The decision for a path.
pub open spec fn decision(
    local_eq_server: bool,
    shadow_present: bool,
    shadow_eq_server: bool,
    local_eq_shadow: bool,
) -> Decision {
    if local_eq_server {
        Decision::Noop
    } else if !shadow_present {
        Decision::Conflict
    } else if shadow_eq_server {
        Decision::PreserveLocalEdit
    } else if local_eq_shadow {
        Decision::PullClean
    } else {
        Decision::Conflict
    }
}

/// Decides for a path: `local_eq_server` compares normalized, the last-synced
/// hash is compared raw with the server's hash and with the local bytes' hash.
pub fn decide(
    local_eq_server: bool,
    shadow_present: bool,
    shadow_eq_server: bool,
    local_eq_shadow: bool,
) -> (r: Decision)
    ensures
        r == decision(local_eq_server, shadow_present, shadow_eq_server, local_eq_shadow),
{
    if local_eq_server {
        return Decision::Noop;
    }
    if !shadow_present {
        return Decision::Conflict;
    }
    if shadow_eq_server {
        return Decision::PreserveLocalEdit;
    }
    if local_eq_shadow {
        return Decision::PullClean;
    }
    Decision::Conflict
}

/// The decision, with an overwrite that would drop frontmatter turned into
/// keeping the local file.
pub open spec fn guarded(d: Decision, would_strip: bool) -> Decision {
    if would_strip && (d is PullClean || d is Conflict) {
        Decision::PreserveLocalEdit
    } else {
        d
    }
}

/// Keeps the local file where a pull would drop its frontmatter.
pub fn guard_no_frontmatter_strip(
    decision: Decision,
    pull_would_strip_frontmatter: bool,
) -> (r: Decision)
    ensures
        r == guarded(decision, pull_would_strip_frontmatter),
{
    if pull_would_strip_frontmatter && (decision == Decision::PullClean || decision
        == Decision::Conflict) {
        return Decision::PreserveLocalEdit;
    }
    decision
}

/// What to do where a pull would drop the local frontmatter.
#[derive(Debug, Clone, Copy, PartialEq, Eq, Structural)]
pub enum GuardArm {
    /// The bodies agree: keep the local file and push it up.
    PreserveAndPushUp,
    /// The bodies differ: set the local bytes aside and take the server's.
    StashThenAlign,
}

/// The arm for two notes' bytes.
pub open spec fn guard_arm(local: Seq<u8>, server: Seq<u8>) -> GuardArm {
    if frontmatter::body_bytes(local) == frontmatter::body_bytes(server) {
        GuardArm::PreserveAndPushUp
    } else {
        GuardArm::StashThenAlign
    }
}

/// Tells a server copy that merely lost its frontmatter from one that diverged.
pub fn classify_guard_arm(local_bytes: &[u8], server_bytes: &[u8]) -> (r: GuardArm)
    ensures
        r == guard_arm(local_bytes@, server_bytes@),
{
    let l = frontmatter::body_after_frontmatter_normalized(local_bytes);
    let s = frontmatter::body_after_frontmatter_normalized(server_bytes);
    if frontmatter::bytes_eq(l.as_slice(), s.as_slice()) {
        GuardArm::PreserveAndPushUp
    } else {
        GuardArm::StashThenAlign
    }
}

/// Overwriting `local` with `server` would drop frontmatter.
pub open spec fn would_strip(local: Seq<u8>, server: Seq<u8>) -> bool {
    frontmatter::has_frontmatter(local) && !frontmatter::has_frontmatter(server)
}

/// What the bytes alone say should happen to an existing local file.
#[derive(Debug, Clone, Copy, PartialEq, Eq, Structural)]
pub enum WriteVerdict {
    /// Byte for byte the server's note.
    Identical,
    /// The same note in another byte form.
    Align,
    /// A local edit of what the server still has.
    KeepLocalEdit,
    /// The server's copy lost its frontmatter.
    PushLocalUp,
    /// The local file is what was last synced.
    PullClean,
    /// Diverged, or of unknown provenance.
    Conflict,
}

/// The verdict on local bytes against the server's note `content` with hash
/// `server_sha`, given the last-synced hash.
pub open spec fn verdict(
    fields: Seq<Seq<char>>,
    shadow: Option<Seq<char>>,
    server_sha: Seq<char>,
    content: Seq<u8>,
    local: Seq<u8>,
) -> WriteVerdict {
    let raw = decision(
        frontmatter::compare_bytes(local, fields) == frontmatter::compare_bytes(content, fields),
        shadow is Some,
        shadow == Some(server_sha),
        shadow == Some(digest::content_hash(local)),
    );
    if would_strip(local, content) && (raw is PullClean || raw is Conflict) {
        match guard_arm(local, content) {
            GuardArm::PreserveAndPushUp => WriteVerdict::PushLocalUp,
            GuardArm::StashThenAlign => WriteVerdict::Conflict,
        }
    } else {
        match raw {
            Decision::Noop => if local == content {
                WriteVerdict::Identical
            } else {
                WriteVerdict::Align
            },
            Decision::PreserveLocalEdit => WriteVerdict::KeepLocalEdit,
            Decision::PullClean => WriteVerdict::PullClean,
            Decision::Conflict => WriteVerdict::Conflict,
        }
    }
}

/// Judges local bytes against the server's note.
pub fn classify_write(
    strip_fields: &[String],
    shadow: &Option<String>,
    server_sha: &str,
    content: &[u8],
    local: &[u8],
) -> (r: WriteVerdict)
    ensures
        r == verdict(
            text::views(strip_fields@),
            text::opt_text(*shadow),
            server_sha@,
            content@,
            local@,
        ),
{
    let local_raw_sha = digest::sha256_hex(local);
    let local_norm = frontmatter::normalize_for_compare(local, strip_fields);
    let content_norm = frontmatter::normalize_for_compare(content, strip_fields);
    let local_eq_server = frontmatter::bytes_eq(local_norm.as_slice(), content_norm.as_slice());
    let shadow_eq_server = text::opt_str_eq(shadow, server_sha);
    let local_eq_shadow = text::opt_str_eq(shadow, local_raw_sha.as_str());
    let raw = decide(local_eq_server, shadow.is_some(), shadow_eq_server, local_eq_shadow);
    let strips = frontmatter::starts_with_frontmatter(local)
        && !frontmatter::starts_with_frontmatter(content);
    if strips && (raw == Decision::PullClean || raw == Decision::Conflict) {
        return match classify_guard_arm(local, content) {
            GuardArm::PreserveAndPushUp => WriteVerdict::PushLocalUp,
            GuardArm::StashThenAlign => WriteVerdict::Conflict,
        };
    }
    match raw {
        Decision::Noop => {
            if frontmatter::bytes_eq(local, content) {
                WriteVerdict::Identical
            } else {
                WriteVerdict::Align
            }
        },
        Decision::PreserveLocalEdit => WriteVerdict::KeepLocalEdit,
        Decision::PullClean => WriteVerdict::PullClean,
        Decision::Conflict => WriteVerdict::Conflict,
    }
}

// ---------------------------------------------------------------------------
// The materializer
// ---------------------------------------------------------------------------

/// Milliseconds between two scans for conflict copies.
pub const CONFLICT_REFRESH_DEBOUNCE_MS: i64 = 30_000;

/// Folder of the daemon's own state below the workspace.
pub const RUNTIME_DIR: &'static str = ".lattice-runtime";

/// Local bytes to be set aside as a conflict copy.
#[derive(Debug, PartialEq, Eq)]
pub struct StashRequest {
    /// The note's path.
    pub path: String,
    pub device_id: String,
    /// Names the copy, so that all devices agree on one name.
    pub seq: u64,
    /// Hash of the bytes.
    pub local_sha: String,
}

/// A [`StashRequest`] as a mathematical value.
pub struct StashView {
    pub path: Seq<char>,
    pub device_id: Seq<char>,
    pub seq: u64,
    pub local_sha: Seq<char>,
}

impl View for StashRequest {
    type V = StashView;

    open spec fn view(&self) -> StashView {
        StashView {
            path: self.path@,
            device_id: self.device_id@,
            seq: self.seq,
            local_sha: self.local_sha@,
        }
    }
}

/// The value of an optional request.
pub open spec fn opt_stash(s: Option<StashRequest>) -> Option<StashView> {
    match s {
        Some(x) => Some(x@),
        None => None,
    }
}

/// The contents of a file that may be missing.
pub open spec fn opt_slice(b: Option<&[u8]>) -> Option<Seq<u8>> {
    match b {
        Some(x) => Some(x@),
        None => None,
    }
}

/// A pull that passed the gates.
#[derive(Debug, PartialEq, Eq)]
pub struct PendingWrite {
    /// Where the note goes.
    pub target: String,
    /// The exact bytes to write.
    pub content: Vec<u8>,
    pub content_sha: String,
    /// What to lock while the file is compared and written.
    pub lock_key: String,
    /// Tell the watcher's echo guard of the path and the hash beforehand.
    pub announce: bool,
}

/// What the gates say of a pull.
#[derive(Debug, PartialEq, Eq)]
pub enum WriteStart {
    Skip(SkipReason),
    Ready(PendingWrite),
}

/// What to do with a pull that passed the gates.
#[derive(Debug, PartialEq, Eq)]
pub enum WritePlan {
    /// Leave the local file.
    Skip(SkipReason),
    /// Leave the local file and queue a push of its bytes.
    PushUp { local_sha: String },
    /// Write, after setting the local bytes aside where that is asked for.
    Pull { stash: Option<StashRequest>, aligned: bool },
}

/// A [`WritePlan`] as a mathematical value.
pub enum PlanView {
    Skip(SkipReason),
    PushUp { local_sha: Seq<char> },
    Pull { stash: Option<StashView>, aligned: bool },
}

impl View for WritePlan {
    type V = PlanView;

    open spec fn view(&self) -> PlanView {
        match self {
            WritePlan::Skip(reason) => PlanView::Skip(*reason),
            WritePlan::PushUp { local_sha } => PlanView::PushUp { local_sha: local_sha@ },
            WritePlan::Pull { stash, aligned } => PlanView::Pull {
                stash: opt_stash(*stash),
                aligned: *aligned,
            },
        }
    }
}

/// What reading the written file back showed.
#[derive(Debug, PartialEq, Eq)]
pub enum IntegrityVerdict {
    Matches,
    /// Another hash; as much of it as was reported.
    ShaMismatch { actual_prefix: String },
    /// Some other difference.
    OtherMismatch,
}

/// Writes notes into the vault or into a shadow tree.
pub struct Materializer {
    /// The folder that holds the vaults.
    pub vaults_root: String,
    /// Folder of the shadow tree below the subscriber's state.
    pub shadow_subdir: String,
    pub mode: MaterializerMode,
    /// The folder that holds the daemon's state.
    pub workspace_root: String,
    pub subscriber_slug: String,
    pub config: MaterializerConfig,
    pub stores: SyncStores,
    /// The watcher is told of every write beforehand.
    pub echo_guarded: bool,
    /// There is a journal to queue pushes in.
    pub journal_wired: bool,
    /// Time of the last scan for conflict copies; zero for never.
    pub last_conflict_refresh_ms: i64,
    pub breaker: ConflictBreaker,
}

impl Materializer {
    /// The stores are consistent.
    pub open spec fn wf(self) -> bool {
        self.stores.wf()
    }

    /// Root of the shadow tree.
    pub open spec fn shadow_root_spec(self) -> Seq<char> {
        paths::joined(
            paths::joined(
                paths::joined(self.workspace_root@, RUNTIME_DIR@),
                self.subscriber_slug@,
            ),
            self.shadow_subdir@,
        )
    }

    /// Root of the tree that the mode writes to.
    pub open spec fn root(self) -> Seq<char> {
        if self.mode is Live {
            self.vaults_root@
        } else {
            self.shadow_root_spec()
        }
    }

    /// Where the note at `rel` goes.
    pub open spec fn target(self, rel: Seq<char>) -> Seq<char> {
        paths::joined(self.root(), rel)
    }

    /// The version on offer is one whose bytes were already on this disk.
    pub open spec fn not_newer(self, payload: NotePayload) -> bool {
        match (payload.change_seq, self.stores.adopted_seq(payload.path@)) {
            (Some(incoming), Some(adopted)) => incoming <= adopted,
            _ => false,
        }
    }

    /// The verdict on the local bytes.
    pub open spec fn verdict_on(
        self,
        payload: NotePayload,
        content: Seq<u8>,
        local: Seq<u8>,
    ) -> WriteVerdict {
        verdict(
            text::views(self.config.strip_frontmatter_fields_for_diff@),
            self.stores.synced_hash(payload.path@),
            payload.sha256@,
            content,
            local,
        )
    }

    /// The pull is a conflict that nothing but the breaker can refuse.
    pub open spec fn asks_breaker(
        self,
        payload: NotePayload,
        content: Seq<u8>,
        local: Option<Seq<u8>>,
    ) -> bool {
        &&& local is Some
        &&& self.verdict_on(payload, content, local->0) is Conflict
        &&& !self.not_newer(payload)
        &&& !(self.stores.synced_hash(payload.path@) is None && self.stores.scope_suspect())
    }

    /// What asking the breaker comes to: its state afterwards, whether it
    /// refuses, and whether it latched just now.
    pub open spec fn breaker_answer(self, now: u128) -> (BreakerView, bool, bool) {
        conflict_breaker::breaker_step(
            self.breaker@,
            self.breaker.limit(),
            self.breaker.window(),
            now,
        )
    }

    /// The plan for a pull whose local file holds `local`, if there is one.
    pub open spec fn plan(
        self,
        payload: NotePayload,
        change_seq: u64,
        content: Seq<u8>,
        local: Option<Seq<u8>>,
        now: u128,
    ) -> PlanView {
        match local {
            None => PlanView::Pull { stash: None, aligned: false },
            Some(l) => match self.verdict_on(payload, content, l) {
                WriteVerdict::Identical => PlanView::Skip(SkipReason::IdenticalToLocal),
                WriteVerdict::Align => PlanView::Pull { stash: None, aligned: true },
                WriteVerdict::KeepLocalEdit => PlanView::Skip(SkipReason::LocalEditPreserved),
                WriteVerdict::PushLocalUp => if self.journal_wired {
                    PlanView::PushUp { local_sha: digest::content_hash(l) }
                } else {
                    PlanView::Skip(SkipReason::GuardPreserveLocalPushUp { enqueued_push: false })
                },
                WriteVerdict::PullClean => PlanView::Pull { stash: None, aligned: false },
                WriteVerdict::Conflict => if self.not_newer(payload) {
                    PlanView::Skip(SkipReason::LocalEditPreserved)
                } else if !self.asks_breaker(payload, content, local) {
                    PlanView::Skip(SkipReason::ShadowScopeSuspect)
                } else if self.breaker_answer(now).1 {
                    PlanView::Skip(SkipReason::ConflictStormBreakerOpen)
                } else {
                    PlanView::Pull {
                        stash: Some(
                            StashView {
                                path: payload.path@,
                                device_id: self.config.device_id@,
                                seq: change_seq,
                                local_sha: digest::content_hash(l),
                            },
                        ),
                        aligned: false,
                    }
                },
            },
        }
    }

    /// Everything but the stores and the breaker is as in `before`.
    pub open spec fn same_setup(self, before: Materializer) -> bool {
        self == (Materializer { stores: self.stores, breaker: self.breaker, ..before })
    }

    /// The note's hash and version are recorded as synced: in live mode only,
    /// the version only where the server sent one.
    pub open spec fn synced(
        self,
        before: Materializer,
        payload: NotePayload,
        hash: Seq<char>,
    ) -> bool {
        &&& self.stores.tray == before.stores.tray
        &&& if self.mode is Live {
            &&& stores::shadow_recorded(
                before.stores.shadow,
                self.stores.shadow,
                payload.path@,
                hash,
            )
            &&& match payload.change_seq {
                Some(seq) => stores::adoption_recorded(
                    before.stores.base_seq,
                    self.stores.base_seq,
                    payload.path@,
                    seq,
                ),
                None => self.stores.base_seq == before.stores.base_seq,
            }
        } else {
            &&& self.stores.shadow == before.stores.shadow
            &&& self.stores.base_seq == before.stores.base_seq
        }
    }

    /// What planning a pull leaves behind: a file that is the server's byte for
    /// byte is recorded as synced, a conflict is put to the breaker, and the tray
    /// shows the breaker latching. Nothing else changes.
    pub open spec fn carried_out(
        self,
        before: Materializer,
        payload: NotePayload,
        content: Seq<u8>,
        local: Option<Seq<u8>>,
        now: u128,
        plan: PlanView,
    ) -> bool {
        let asked = before.asks_breaker(payload, content, local);
        &&& if plan == PlanView::Skip(SkipReason::IdenticalToLocal) {
            self.synced(before, payload, digest::content_hash(local->0))
        } else {
            self.stores == (SyncStores {
                tray: match before.stores.tray {
                    Some(t) if asked && before.breaker_answer(now).2 => Some(
                        TrayState { conflict_storm_latched: true, ..t },
                    ),
                    t => t,
                },
                ..before.stores
            })
        }
        &&& self.breaker@ == (if asked {
            before.breaker_answer(now).0
        } else {
            before.breaker@
        })
    }

    /// A materializer with no store wired. The shadow tree is called `shadow/`
    /// unless `shadow_path` names it.
    pub fn new(
        vaults_root: String,
        shadow_path: Option<String>,
        mode: MaterializerMode,
        workspace_root: String,
        subscriber_slug: String,
        config: MaterializerConfig,
    ) -> (m: Materializer)
        ensures
            m.wf(),
            m.vaults_root == vaults_root,
            m.shadow_subdir@ == (match shadow_path {
                Some(p) => p@,
                None => "shadow/"@,
            }),
            m.mode == mode,
            m.workspace_root == workspace_root,
            m.subscriber_slug == subscriber_slug,
            m.config == config,
            m.stores == (SyncStores { shadow: None, base_seq: None, tray: None }),
            !m.echo_guarded,
            !m.journal_wired,
            m.last_conflict_refresh_ms == 0,
            m.breaker@ == (BreakerView { mints: Seq::empty(), latched: false }),
            m.breaker.limit() == config.conflict_storm_threshold,
            m.breaker.window() == config.conflict_storm_window_secs * conflict_breaker::NANOS_PER_SEC,
    {
        let shadow_subdir = match shadow_path {
            Some(p) => p,
            None => "shadow/".to_string(),
        };
        let breaker = ConflictBreaker::new(
            config.conflict_storm_threshold,
            config.conflict_storm_window_secs,
        );
        Materializer {
            vaults_root,
            shadow_subdir,
            mode,
            workspace_root,
            subscriber_slug,
            config,
            stores: SyncStores::none(),
            echo_guarded: false,
            journal_wired: false,
            last_conflict_refresh_ms: 0,
            breaker,
        }
    }

    /// Root of the shadow tree.
    pub fn shadow_root(&self) -> (r: String)
        ensures
            r@ == self.shadow_root_spec(),
    {
        let a = paths::join(self.workspace_root.as_str(), RUNTIME_DIR);
        let b = paths::join(a.as_str(), self.subscriber_slug.as_str());
        paths::join(b.as_str(), self.shadow_subdir.as_str())
    }

    /// Root of the tree that the mode writes to.
    pub fn active_root(&self) -> (r: String)
        ensures
            r@ == self.root(),
    {
        if self.mode == MaterializerMode::Live {
            self.vaults_root.clone()
        } else {
            self.shadow_root()
        }
    }

    /// Where the note at `rel` goes in live mode.
    pub fn live_path_for(&self, rel: &str) -> (r: String)
        ensures
            r@ == paths::joined(self.vaults_root@, rel@),
    {
        paths::join(self.vaults_root.as_str(), rel)
    }

    /// Where the note at `rel` goes.
    pub fn target_path(&self, rel: &str) -> (r: String)
        ensures
            r@ == self.target(rel@),
    {
        let root = self.active_root();
        paths::join(root.as_str(), rel)
    }

    /// The first step of a pull: whether it may go on, and with what bytes.
    pub fn begin_write(&self, payload: &NotePayload) -> (r: Result<WriteStart, MaterializerError>)
        ensures
            match r {
                Ok(WriteStart::Skip(reason)) => {
                    &&& self.mode is Disabled
                    &&& reason == SkipReason::DisabledMode
                },
                Ok(WriteStart::Ready(w)) => {
                    &&& self.mode !is Disabled
                    &&& scope::safe(payload.path@)
                    &&& w.target@ == self.target(payload.path@)
                    &&& w.content@ == note_bytes(*payload)
                    &&& w.content_sha@ == digest::content_hash(note_bytes(*payload))
                    &&& w.lock_key@ == sync_shadow::canonical_path(payload.path@)
                    &&& w.announce == self.echo_guarded
                },
                Err(e) => {
                    &&& self.mode !is Disabled
                    &&& !scope::safe(payload.path@)
                    &&& e == MaterializerError::PathTraversal(payload.path)
                },
            },
    {
        if self.mode == MaterializerMode::Disabled {
            return Ok(WriteStart::Skip(SkipReason::DisabledMode));
        }
        if !scope::is_safe_path(payload.path.as_str()) {
            return Err(MaterializerError::PathTraversal(payload.path.clone()));
        }
        match rasp_fence::classify_path(payload.path.as_str()) {
            PathClassification::Substrate { rule } => {
                return Ok(WriteStart::Skip(SkipReason::SubstrateRefused { rule }));
            },
            PathClassification::Content => {},
        }
        let content = match &payload.enriched_body {
            Some(raw) => frontmatter::copy_bytes(raw.as_str().as_bytes()),
            None => {
                let whole = serialize_with_frontmatter(payload);
                frontmatter::copy_bytes(whole.as_str().as_bytes())
            },
        };
        let content_sha = digest::sha256_hex(content.as_slice());
        Ok(
            WriteStart::Ready(
                PendingWrite {
                    target: self.target_path(payload.path.as_str()),
                    content,
                    content_sha,
                    lock_key: sync_shadow::canonical_sync_path(payload.path.as_str()),
                    announce: self.echo_guarded,
                },
            ),
        )
    }

    /// Records a note as synced.
    fn record_synced(&mut self, payload: &NotePayload, hash: &str)
        requires
            old(self).wf(),
        ensures
            final(self).wf(),
            final(self).same_setup(*old(self)),
            final(self).breaker == old(self).breaker,
            final(self).synced(*old(self), *payload, hash@),
    {
        if self.mode == MaterializerMode::Live {
            self.stores.record_shadow(payload.path.as_str(), hash);
            match payload.change_seq {
                Some(seq) => {
                    self.stores.record_adopted(payload.path.as_str(), seq);
                },
                None => {},
            }
        }
    }

    /// The second step of a pull: what to do about the local file, which holds
    /// `local` where there is one. `change_seq` names a conflict copy. A file
    /// that is found to be the server's, byte for byte, is recorded as synced.
    pub fn write_with_change_seq(
        &mut self,
        payload: &NotePayload,
        change_seq: u64,
        content: &[u8],
        local: Option<&[u8]>,
        now: u128,
    ) -> (r: WritePlan)
        requires
            old(self).wf(),
        ensures
            final(self).wf(),
            final(self).same_setup(*old(self)),
            r@ == old(self).plan(
                *payload,
                change_seq,
                content@,
                opt_slice(local),
                now,
            ),
            final(self).carried_out(*old(self), *payload, content@, opt_slice(local), now, r@),
            final(self).breaker.limit() == old(self).breaker.limit(),
            final(self).breaker.window() == old(self).breaker.window(),
    {
        let local_bytes = match local {
            Some(l) => l,
            None => {
                return WritePlan::Pull { stash: None, aligned: false };
            },
        };
        let shadow = self.stores.shadow_get(payload.path.as_str());
        let v = classify_write(
            self.config.strip_frontmatter_fields_for_diff.as_slice(),
            &shadow,
            payload.sha256.as_str(),
            content,
            local_bytes,
        );
        let local_sha = digest::sha256_hex(local_bytes);
        match v {
            WriteVerdict::Identical => {
                self.record_synced(payload, local_sha.as_str());
                WritePlan::Skip(SkipReason::IdenticalToLocal)
            },
            WriteVerdict::Align => WritePlan::Pull { stash: None, aligned: true },
            WriteVerdict::KeepLocalEdit => WritePlan::Skip(SkipReason::LocalEditPreserved),
            WriteVerdict::PushLocalUp => {
                if self.journal_wired {
                    WritePlan::PushUp { local_sha }
                } else {
                    WritePlan::Skip(SkipReason::GuardPreserveLocalPushUp { enqueued_push: false })
                }
            },
            WriteVerdict::PullClean => WritePlan::Pull { stash: None, aligned: false },
            WriteVerdict::Conflict => {
                let not_newer = match (
                    payload.change_seq,
                    self.stores.seq_get_adopted(payload.path.as_str()),
                ) {
                    (Some(incoming), Some(adopted)) => incoming <= adopted,
                    _ => false,
                };
                if not_newer {
                    return WritePlan::Skip(SkipReason::LocalEditPreserved);
                }
                if shadow.is_none() && self.stores.shadow_suspect() {
                    return WritePlan::Skip(SkipReason::ShadowScopeSuspect);
                }
                let (open, just_latched) = self.breaker.open(now);
                if open {
                    if just_latched {
                        match &mut self.stores.tray {
                            Some(t) => {
                                t.set_conflict_storm_latched(true);
                            },
                            None => {},
                        }
                    }
                    return WritePlan::Skip(SkipReason::ConflictStormBreakerOpen);
                }
                let request = StashRequest {
                    path: payload.path.clone(),
                    device_id: self.config.device_id.clone(),
                    seq: change_seq,
                    local_sha,
                };
                WritePlan::Pull { stash: Some(request), aligned: false }
            },
        }
    }

    /// The second step of a pull whose conflict copy has no version to be named
    /// by.
    pub fn write(
        &mut self,
        payload: &NotePayload,
        content: &[u8],
        local: Option<&[u8]>,
        now: u128,
    ) -> (r: WritePlan)
        requires
            old(self).wf(),
        ensures
            final(self).wf(),
            final(self).same_setup(*old(self)),
            r@ == old(self).plan(*payload, 0, content@, opt_slice(local), now),
            final(self).carried_out(*old(self), *payload, content@, opt_slice(local), now, r@),
            final(self).breaker.limit() == old(self).breaker.limit(),
            final(self).breaker.window() == old(self).breaker.window(),
    {
        self.write_with_change_seq(payload, 0, content, local, now)
    }

    /// The push that carries kept local bytes up. Its base is the hash of the
    /// server's note, and the bytes are read when it is sent.
    pub fn compensating_push(
        &self,
        payload: &NotePayload,
        local_sha: &str,
        id: String,
        queued_at: String,
    ) -> (e: PushEvent)
        ensures
            e@ == (push_journal::EventView {
                schema_version: CURRENT_SCHEMA,
                id: id@,
                path: payload.path@,
                action: PushAction::Modify,
                base_hash: Some(payload.sha256@),
                content_sha: local_sha@,
                content_bytes: None,
                queued_at: queued_at@,
                device_id: self.config.device_id@,
            }),
    {
        PushEvent {
            schema_version: CURRENT_SCHEMA,
            id,
            path: payload.path.clone(),
            action: PushAction::Modify,
            base_hash: Some(payload.sha256.clone()),
            content_sha: local_sha.to_string(),
            content_bytes: None,
            queued_at,
            device_id: self.config.device_id.clone(),
        }
    }

    /// The outcome of a pull that was answered with a push: `enqueued` says
    /// whether the journal took it.
    pub fn finish_push_up(enqueued: bool) -> (r: MaterializeOutcome)
        ensures
            r == MaterializeOutcome::Skipped(
                SkipReason::GuardPreserveLocalPushUp { enqueued_push: enqueued },
            ),
    {
        MaterializeOutcome::Skipped(
            SkipReason::GuardPreserveLocalPushUp { enqueued_push: enqueued },
        )
    }

    /// Refuses a target whose folder, links resolved, is not inside the tree.
    pub fn confine(
        &self,
        style: PathStyle,
        path: &str,
        canonical_root: &str,
        canonical_parent: &str,
    ) -> (r: Result<(), MaterializerError>)
        ensures
            match r {
                Ok(_) => paths::within(style, canonical_root@, canonical_parent@),
                Err(e) => {
                    &&& !paths::within(style, canonical_root@, canonical_parent@)
                    &&& e is PathTraversal
                    &&& e->PathTraversal_0@ == path@
                },
            },
    {
        if paths::is_within(style, canonical_root, canonical_parent) {
            Ok(())
        } else {
            Err(MaterializerError::PathTraversal(path.to_string()))
        }
    }

    /// The path by which the watcher knows a conflict copy; the shadow tree is
    /// not watched.
    pub fn rel_for_stash(&self, style: PathStyle, stash_path: &str) -> (r: Option<String>)
        ensures
            text::opt_text(r) == (if self.mode is Live {
                match paths::below(style, self.vaults_root@, stash_path@) {
                    Some(rel) => Some(rasp_fence::slashed(rel)),
                    None => None,
                }
            } else {
                None
            }),
    {
        if self.mode != MaterializerMode::Live {
            return None;
        }
        match paths::strip_root(style, self.vaults_root.as_str(), stash_path) {
            Some(rel) => Some(rasp_fence::normalize(rel.as_str())),
            None => None,
        }
    }

    /// The last step of a pull: the bytes with hash `content_sha` were written to
    /// `target`, the local bytes set aside as `stash_path` before that where
    /// there is one, and `check` is what reading the file back showed. A failed
    /// check counts only where checks are enabled, and then nothing is recorded.
    pub fn finish_write(
        &mut self,
        payload: &NotePayload,
        target: String,
        content_sha: String,
        stash_path: Option<String>,
        aligned: bool,
        check: IntegrityVerdict,
    ) -> (r: MaterializeOutcome)
        requires
            old(self).wf(),
        ensures
            final(self).wf(),
            final(self).same_setup(*old(self)),
            final(self).breaker == old(self).breaker,
            old(self).config.enable_integrity_check && check !is Matches ==> {
                &&& r == MaterializeOutcome::IntegrityFailed {
                    path: target,
                    expected_sha: payload.sha256,
                    actual_sha: match check {
                        IntegrityVerdict::ShaMismatch { actual_prefix } => actual_prefix,
                        _ => content_sha,
                    },
                }
                &&& final(self).stores.shadow == old(self).stores.shadow
                &&& final(self).stores.base_seq == old(self).stores.base_seq
                &&& final(self).stores.tray == (match old(self).stores.tray {
                    Some(t) => Some(
                        TrayState {
                            integrity_failures: crate::tray_state::plus(t.integrity_failures, 1),
                            ..t
                        },
                    ),
                    None => None,
                })
            },
            !(old(self).config.enable_integrity_check && check !is Matches) ==> {
                &&& final(self).synced(*old(self), *payload, payload.sha256@)
                &&& r == (match stash_path {
                    Some(p) => MaterializeOutcome::Stashed { stash_path: p },
                    None => if aligned {
                        MaterializeOutcome::AlignedToCanonical { path: target }
                    } else {
                        MaterializeOutcome::Wrote { path: target }
                    },
                })
            },
    {
        if self.config.enable_integrity_check {
            let actual = match check {
                IntegrityVerdict::Matches => None,
                IntegrityVerdict::ShaMismatch { actual_prefix } => Some(actual_prefix),
                IntegrityVerdict::OtherMismatch => Some(content_sha),
            };
            match actual {
                Some(actual_sha) => {
                    match &mut self.stores.tray {
                        Some(t) => {
                            t.inc_integrity_failures();
                        },
                        None => {},
                    }
                    return MaterializeOutcome::IntegrityFailed {
                        path: target,
                        expected_sha: payload.sha256.clone(),
                        actual_sha,
                    };
                },
                None => {},
            }
        }
        self.record_synced(payload, payload.sha256.as_str());
        match stash_path {
            Some(p) => MaterializeOutcome::Stashed { stash_path: p },
            None => {
                if aligned {
                    MaterializeOutcome::AlignedToCanonical { path: target }
                } else {
                    MaterializeOutcome::Wrote { path: target }
                }
            },
        }
    }

    /// The first step of a rewrite: where the note is, or `None` in disabled
    /// mode.
    pub fn begin_aligned_write(&self, rel_path: &str) -> (r: Result<
        Option<String>,
        MaterializerError,
    >)
        ensures
            match r {
                Ok(None) => self.mode is Disabled,
                Ok(Some(target)) => {
                    &&& self.mode !is Disabled
                    &&& scope::safe(rel_path@)
                    &&& target@ == self.target(rel_path@)
                },
                Err(e) => {
                    &&& self.mode !is Disabled
                    &&& !scope::safe(rel_path@)
                    &&& e is PathTraversal
                    &&& e->PathTraversal_0@ == rel_path@
                },
            },
    {
        if self.mode == MaterializerMode::Disabled {
            return Ok(None);
        }
        if !scope::is_safe_path(rel_path) {
            return Err(MaterializerError::PathTraversal(rel_path.to_string()));
        }
        Ok(Some(self.target_path(rel_path)))
    }

    /// The second step of a rewrite: why it must not happen, if so. `current` is
    /// what the file holds; it must still be what was pushed, with hash
    /// `expected_local_sha`.
    pub fn write_aligned_bytes(
        canonical_bytes: &[u8],
        expected_local_sha: &str,
        current: Option<&[u8]>,
    ) -> (r: Option<AlignOutcome>)
        ensures
            match current {
                None => r == Some(AlignOutcome::SkippedMissing),
                Some(c) => if digest::content_hash(c@) != expected_local_sha@ {
                    match r {
                        Some(AlignOutcome::SkippedConcurrentEdit { current_sha }) => current_sha@
                            == digest::content_hash(c@),
                        _ => false,
                    }
                } else if would_strip(c@, canonical_bytes@) {
                    r == Some(AlignOutcome::SkippedWouldStripFrontmatter)
                } else {
                    r is None
                },
            },
    {
        let c = match current {
            Some(c) => c,
            None => {
                return Some(AlignOutcome::SkippedMissing);
            },
        };
        let current_sha = digest::sha256_hex(c);
        if !text::str_eq(current_sha.as_str(), expected_local_sha) {
            return Some(AlignOutcome::SkippedConcurrentEdit { current_sha });
        }
        if frontmatter::starts_with_frontmatter(c) && !frontmatter::starts_with_frontmatter(
            canonical_bytes,
        ) {
            return Some(AlignOutcome::SkippedWouldStripFrontmatter);
        }
        None
    }

    /// The last step of a rewrite, after the file was replaced: its hash becomes
    /// the last-synced one.
    pub fn finish_aligned_write(
        &mut self,
        rel_path: &str,
        canonical_sha: &str,
        target: String,
    ) -> (r: AlignOutcome)
        requires
            old(self).wf(),
        ensures
            final(self).wf(),
            final(self).same_setup(*old(self)),
            final(self).breaker == old(self).breaker,
            stores::shadow_recorded(
                old(self).stores.shadow,
                final(self).stores.shadow,
                rel_path@,
                canonical_sha@,
            ),
            final(self).stores.base_seq == old(self).stores.base_seq,
            final(self).stores.tray == old(self).stores.tray,
            r == (AlignOutcome::Rewrote { path: target }),
    {
        self.stores.record_shadow(rel_path, canonical_sha);
        AlignOutcome::Rewrote { path: target }
    }

    /// The first step of a delete: where the file is, or `None` in disabled mode.
    pub fn soft_delete(&self, path: &str) -> (r: Result<Option<String>, MaterializerError>)
        ensures
            match r {
                Ok(None) => scope::safe(path@) && self.mode is Disabled,
                Ok(Some(target)) => {
                    &&& scope::safe(path@)
                    &&& self.mode !is Disabled
                    &&& target@ == self.target(path@)
                },
                Err(e) => {
                    &&& !scope::safe(path@)
                    &&& e is PathTraversal
                    &&& e->PathTraversal_0@ == path@
                },
            },
    {
        if !scope::is_safe_path(path) {
            return Err(MaterializerError::PathTraversal(path.to_string()));
        }
        match rasp_fence::classify_path(path) {
            PathClassification::Substrate { rule: _ } => {
                return Err(MaterializerError::SubstrateRefuse(path.to_string()));
            },
            PathClassification::Content => {},
        }
        if self.mode == MaterializerMode::Disabled {
            return Ok(None);
        }
        Ok(Some(self.target_path(path)))
    }

    /// Whether the bytes of a file about to be deleted hold an edit that was
    /// never pushed, and so have to be set aside: they are not empty and are not
    /// what was last synced. A file without a record of a last sync, or one that
    /// could not be read (`None`), is deleted as it is.
    pub fn stash_local_before_delete(&self, path: &str, local: Option<&[u8]>) -> (r: Option<
        StashRequest,
    >)
        requires
            self.wf(),
        ensures
            opt_stash(r) == (match (self.stores.synced_hash(path@), opt_slice(local)) {
                (Some(shadow), Some(l)) if l.len() > 0 && shadow != digest::content_hash(l) => Some(
                    StashView {
                        path: path@,
                        device_id: self.config.device_id@,
                        seq: match self.stores.declared_seq(path@) {
                            Some(s) if s >= 0 => s as u64,
                            _ => 0,
                        },
                        local_sha: digest::content_hash(l),
                    },
                ),
                _ => None,
            }),
    {
        let shadow = match self.stores.shadow_get(path) {
            Some(s) => s,
            None => {
                return None;
            },
        };
        let bytes = match local {
            Some(b) => b,
            None => {
                return None;
            },
        };
        if bytes.len() == 0 {
            return None;
        }
        let local_sha = digest::sha256_hex(bytes);
        if text::str_eq(shadow.as_str(), local_sha.as_str()) {
            return None;
        }
        let seq: u64 = match self.stores.seq_get(path) {
            Some(s) => if s >= 0 {
                s as u64
            } else {
                0
            },
            None => 0,
        };
        Some(
            StashRequest {
                path: path.to_string(),
                device_id: self.config.device_id.clone(),
                seq,
                local_sha,
            },
        )
    }

    /// Whether a scan for conflict copies is due, and where: not without a tray
    /// to show the count in, nor within half a minute of the last one.
    pub fn refresh_conflict_count_into_tray(&mut self, now_ms: i64) -> (r: Option<String>)
        ensures
            *final(self) == (Materializer {
                last_conflict_refresh_ms: final(self).last_conflict_refresh_ms,
                ..*old(self)
            }),
            ({
                let due = old(self).stores.tray is Some && (old(self).last_conflict_refresh_ms == 0
                    || now_ms - old(self).last_conflict_refresh_ms >= CONFLICT_REFRESH_DEBOUNCE_MS);
                &&& text::opt_text(r) == (if due {
                    Some(old(self).root())
                } else {
                    None
                })
                &&& final(self).last_conflict_refresh_ms == (if due {
                    now_ms
                } else {
                    old(self).last_conflict_refresh_ms
                })
            }),
    {
        if self.stores.tray.is_none() {
            return None;
        }
        let last: i64 = self.last_conflict_refresh_ms;
        if last != 0 && (now_ms as i128) - (last as i128) < CONFLICT_REFRESH_DEBOUNCE_MS as i128 {
            return None;
        }
        self.last_conflict_refresh_ms = now_ms;
        Some(self.active_root())
    }

    /// Shows the number of conflict copies that a scan found.
    pub fn publish_conflict_count(&mut self, count: usize)
        ensures
            *final(self) == (Materializer {
                stores: SyncStores {
                    tray: match old(self).stores.tray {
                        Some(t) => Some(TrayState { conflict_unresolved: count, ..t }),
                        None => None,
                    },
                    ..old(self).stores
                },
                ..*old(self)
            }),
    {
        match &mut self.stores.tray {
            Some(t) => {
                t.set_conflict_unresolved(count);
            },
            None => {},
        }
    }

    /// Whether the conflict-storm breaker has latched.
    pub fn conflict_storm_latched(&self) -> (r: bool)
        ensures
            r == self.breaker@.latched,
    {
        self.breaker.is_latched()
    }

    /// Unlatches the conflict-storm breaker.
    pub fn reset_conflict_storm_breaker(&mut self)
        ensures
            *final(self) == (Materializer { breaker: final(self).breaker, ..*old(self) }),
            final(self).breaker@ == (BreakerView { mints: Seq::empty(), latched: false }),
            final(self).breaker.limit() == old(self).breaker.limit(),
            final(self).breaker.window() == old(self).breaker.window(),
    {
        self.breaker.reset();
    }

    /// The materializer with a shadow store.
    pub fn with_shadow_store(self, store: sync_shadow::ShadowStore) -> (m: Materializer)
        ensures
            m == (Materializer {
                stores: SyncStores { shadow: Some(store), ..self.stores },
                ..self
            }),
    {
        let mut m = self;
        m.stores.shadow = Some(store);
        m
    }

    /// The materializer with a store of versions.
    pub fn with_base_seq_store(self, store: crate::base_seq_store::BaseSeqStore) -> (m: Materializer)
        ensures
            m == (Materializer {
                stores: SyncStores { base_seq: Some(store), ..self.stores },
                ..self
            }),
    {
        let mut m = self;
        m.stores.base_seq = Some(store);
        m
    }

    /// The materializer with a tray to report to.
    pub fn with_tray_state(self, state: TrayState) -> (m: Materializer)
        ensures
            m == (Materializer { stores: SyncStores { tray: Some(state), ..self.stores }, ..self }),
    {
        let mut m = self;
        m.stores.tray = Some(state);
        m
    }

    /// The materializer with a watcher that has to be told of writes.
    pub fn with_echo_guard(self) -> (m: Materializer)
        ensures
            m == (Materializer { echo_guarded: true, ..self }),
    {
        let mut m = self;
        m.echo_guarded = true;
        m
    }

    /// The materializer with a journal to queue pushes in.
    pub fn with_push_journal(self) -> (m: Materializer)
        ensures
            m == (Materializer { journal_wired: true, ..self }),
    {
        let mut m = self;
        m.journal_wired = true;
        m
    }
}

// ---------------------------------------------------------------------------
// Names of deleted files
// ---------------------------------------------------------------------------

/// How the time is written in the name of a deleted file.
pub const DELETED_STAMP: &'static str = "%Y%m%dT%H%M%SZ";

/// What chrono writes for a UTC time, given in seconds since the epoch, under a
/// pattern; `None` where the time has no date.
pub uninterp spec fn utc_text(secs: i64, pattern: Seq<char>) -> Option<Seq<char>>;

/// Calls `chrono::DateTime::from_timestamp` and formats the time with
/// `DateTime::format`. The contract says that the text depends on the time and
/// the pattern alone, and that there is one from the year 1 to the year 9999.
#[verifier::external_body]
fn format_utc(secs: i64, pattern: &str) -> (r: Option<String>)
    requires
        pattern@ == DELETED_STAMP@,
    ensures
        text::opt_text(r) == utc_text(secs, pattern@),
        -62_135_596_800 <= secs < 253_402_300_800 ==> r is Some,
{
    let t = chrono::DateTime::from_timestamp(secs, 0)?;
    Some(t.format(pattern).to_string())
}

/// The time stamp in the name of a file deleted at `secs`.
pub fn deleted_stamp(secs: i64) -> (r: Option<String>)
    ensures
        text::opt_text(r) == utc_text(secs, DELETED_STAMP@),
        -62_135_596_800 <= secs < 253_402_300_800 ==> r is Some,
{
    format_utc(secs, DELETED_STAMP)
}

/// `n` in decimal, filled up with zeros in front to `width` digits.
pub open spec fn padded(n: nat, width: nat) -> Seq<char> {
    let d = numbers::dec_text(n);
    if d.len() >= width {
        d
    } else {
        Seq::new((width - d.len()) as nat, |i: int| '0') + d
    }
}

/// The name under which a deleted file is kept at the `n`th attempt.
pub open spec fn deleted_name_spec(
    file_name: Seq<char>,
    stamp: Seq<char>,
    nanos: nat,
    n: nat,
) -> Seq<char> {
    let first = file_name + ".deleted-"@ + stamp + "-"@ + padded(nanos, 9);
    if n <= 1 {
        first
    } else {
        first + "-"@ + numbers::dec_text(n)
    }
}

fn padded_text(n: u32, width: usize) -> (r: String)
    ensures
        r@ == padded(n as nat, width as nat),
{
    let d = numbers::u64_text(n as u64);
    let have: usize = text::chars_of(d.as_str()).len();
    let mut s = String::new();
    let mut k: usize = have;
    while k < width
        invariant
            have == numbers::dec_text(n as nat).len(),
            have <= k,
            have < width ==> k <= width,
            have >= width ==> k == have,
            s@ == Seq::new((k - have) as nat, |i: int| '0'),
        decreases width - k,
    {
        s.push('0');
        k = k + 1;
        assert(s@ =~= Seq::new((k - have) as nat, |i: int| '0'));
    }
    s.append(d.as_str());
    assert(s@ =~= padded(n as nat, width as nat));
    s
}

fn deleted_name_at(file_name: &str, stamp: &str, nanos: u32, n: u32) -> (r: String)
    ensures
        r@ == deleted_name_spec(file_name@, stamp@, nanos as nat, n as nat),
{
    let mut s = text::concat(file_name, ".deleted-");
    s.append(stamp);
    s.append("-");
    let p = padded_text(nanos, 9);
    s.append(p.as_str());
    if n > 1 {
        s.append("-");
        let d = numbers::u64_text(n as u64);
        s.append(d.as_str());
    }
    s
}

/// The name under which to keep a deleted file: the first of its names that is
/// not `taken`. Should every one of them be, the first.
pub fn deleted_name(file_name: &str, stamp: &str, nanos: u32, taken: &[String]) -> (r: String)
    ensures
        ({
            let at = |n: nat| deleted_name_spec(file_name@, stamp@, nanos as nat, n);
            let names = text::views(taken@);
            ||| exists|n: nat|
                1 <= n < u32::MAX && r@ == #[trigger] at(n) && !names.contains(at(n)) && forall|m: nat|
                    1 <= m < n ==> names.contains(#[trigger] at(m))
            ||| {
                &&& r@ == at(1)
                &&& forall|m: nat| 1 <= m < u32::MAX ==> names.contains(#[trigger] at(m))
            }
        }),
{
    let ghost at = |n: nat| deleted_name_spec(file_name@, stamp@, nanos as nat, n);
    let ghost names = text::views(taken@);
    let mut n: u32 = 1;
    while n < u32::MAX
        invariant
            at == (|n: nat| deleted_name_spec(file_name@, stamp@, nanos as nat, n)),
            names == text::views(taken@),
            1 <= n <= u32::MAX,
            forall|m: nat| 1 <= m < n ==> names.contains(#[trigger] at(m)),
        decreases u32::MAX - n,
    {
        let c = deleted_name_at(file_name, stamp, nanos, n);
        assert(c@ == at(n as nat));
        if !text::list_contains(taken, c.as_str()) {
            return c;
        }
        n = n + 1;
    }
    let c = deleted_name_at(file_name, stamp, nanos, 1);
    assert(c@ == at(1nat));
    c
}

} // verus!
