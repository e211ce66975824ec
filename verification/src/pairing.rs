//! Pairing a device with the server.

use vstd::prelude::*;

use crate::reconciliation::SyncRoot;
use crate::text;

verus! {

/// Why pairing failed; each with the message of what failed.
#[derive(Debug, PartialEq, Eq)]
pub enum PairingError {
    KeyringUnavailable(String),
    TokenStore(String),
    Api(String),
    Config(String),
}

impl PairingError {
    /// The message for people.
    pub open spec fn text(self) -> Seq<char> {
        match self {
            PairingError::KeyringUnavailable(e) => "keyring unavailable: "@ + e@,
            PairingError::TokenStore(e) => "token persistence failed: "@ + e@,
            PairingError::Api(e) => "api error: "@ + e@,
            PairingError::Config(e) => "config error: "@ + e@,
        }
    }

    /// The message for people.
    pub fn message(&self) -> (r: String)
        ensures
            r@ == self.text(),
    {
        match self {
            PairingError::KeyringUnavailable(e) => text::concat(
                "keyring unavailable: ",
                e.as_str(),
            ),
            PairingError::TokenStore(e) => text::concat("token persistence failed: ", e.as_str()),
            PairingError::Api(e) => text::concat("api error: ", e.as_str()),
            PairingError::Config(e) => text::concat("config error: ", e.as_str()),
        }
    }
}

/// What the user enters.
#[derive(Debug, PartialEq, Eq)]
pub struct PairingInput {
    pub nexus_url: String,
    pub token: String,
    /// The folder that holds the vaults.
    pub vaults_root: String,
    /// The mode to ask the server for, if any.
    pub materializer_mode: Option<String>,
}

/// What the server says of the subscriber.
#[derive(Debug, PartialEq, Eq)]
pub struct HealthSnapshot {
    pub subscriber_id: String,
    pub scope_roots: Vec<String>,
    pub materializer_mode: String,
}

/// What the user is told.
#[derive(Debug, PartialEq, Eq)]
pub struct PairingSuccess {
    pub subscriber_id: String,
    pub scope_roots: Vec<String>,
    pub materializer_mode: String,
}

/// What the daemon keeps.
#[derive(Debug, PartialEq, Eq)]
pub struct Config {
    pub nexus_url: String,
    pub subscriber_id: String,
    pub vaults_root: String,
    pub daemon_version: String,
    pub daemon_platform: String,
    pub last_event_id: Option<String>,
    /// The folders that are swept one by one.
    pub sync_roots: Vec<SyncRoot>,
}

/// What the settings page shows.
#[derive(Debug, PartialEq, Eq)]
pub struct CurrentConfig {
    pub nexus_url: String,
    pub vaults_root: String,
    pub subscriber_id: String,
}

/// The configuration of a freshly paired device: the subscriber is the one that
/// the server knows.
pub fn config_for(
    input: &PairingInput,
    snap: &HealthSnapshot,
    daemon_version: String,
    daemon_platform: String,
) -> (c: Config)
    ensures
        c == (Config {
            nexus_url: input.nexus_url,
            subscriber_id: snap.subscriber_id,
            vaults_root: input.vaults_root,
            daemon_version,
            daemon_platform,
            last_event_id: None,
            sync_roots: c.sync_roots,
        }),
        c.sync_roots@.len() == 0,
{
    Config {
        nexus_url: input.nexus_url.clone(),
        subscriber_id: snap.subscriber_id.clone(),
        vaults_root: input.vaults_root.clone(),
        daemon_version,
        daemon_platform,
        last_event_id: None,
        sync_roots: Vec::new(),
    }
}

/// The outcome of pairing. The mode is the one that the server confirmed when it
/// was asked for one (`patched`), and its own where it was not asked or refused.
pub fn pair_inner(
    input: &PairingInput,
    snap: HealthSnapshot,
    patched: Option<String>,
) -> (r: PairingSuccess)
    ensures
        r == (PairingSuccess {
            subscriber_id: snap.subscriber_id,
            scope_roots: snap.scope_roots,
            materializer_mode: match (input.materializer_mode, patched) {
                (Some(_), Some(mode)) => mode,
                _ => snap.materializer_mode,
            },
        }),
{
    let mode = if input.materializer_mode.is_some() {
        match patched {
            Some(m) => m,
            None => snap.materializer_mode,
        }
    } else {
        snap.materializer_mode
    };
    PairingSuccess {
        subscriber_id: snap.subscriber_id,
        scope_roots: snap.scope_roots,
        materializer_mode: mode,
    }
}

/// What the settings page shows of a configuration, if there is one.
pub fn load_current_config(config: Option<Config>) -> (r: Option<CurrentConfig>)
    ensures
        r == (match config {
            Some(c) => Some(
                CurrentConfig {
                    nexus_url: c.nexus_url,
                    vaults_root: c.vaults_root,
                    subscriber_id: c.subscriber_id,
                },
            ),
            None => None,
        }),
{
    match config {
        Some(c) => Some(
            CurrentConfig {
                nexus_url: c.nexus_url,
                vaults_root: c.vaults_root,
                subscriber_id: c.subscriber_id,
            },
        ),
        None => None,
    }
}

/// Settings cannot be changed without pairing again: always the same refusal.
pub fn patch_self_subscriber(
    _nexus_url: String,
    _new_vaults_root: String,
    _new_mode: String,
) -> (r: Result<(), String>)
    ensures
        match r {
            Ok(_) => false,
            Err(e) => e@
                == "PATCH not yet implemented (S477 Phase F coordination pending \u{2014} re-pair with a token to change settings)."@,
        },
{
    Err(
        "PATCH not yet implemented (S477 Phase F coordination pending \u{2014} re-pair with a token to change settings).".to_string(),
    )
}

/// System and processor, as the server is told.
pub fn detect_platform(os: &str, arch: &str) -> (r: String)
    ensures
        r@ == os@ + "-"@ + arch@,
{
    let mut s = text::concat(os, "-");
    s.append(arch);
    s
}

/// The device is paired as the subscriber that the server knows, with the server's
/// scope. The mode is what the server confirmed, and only where one was asked for.
pub proof fn law_pairing_follows_the_server(
    input: &PairingInput,
    snap: HealthSnapshot,
    patched: Option<String>,
    version: String,
    platform: String,
    r: PairingSuccess,
    c: Config,
)
    requires
        call_ensures(pair_inner, (input, snap, patched), r),
        call_ensures(config_for, (input, &snap, version, platform), c),
    ensures
        r.subscriber_id@ == snap.subscriber_id@ && c.subscriber_id@ == snap.subscriber_id@,
        r.scope_roots@ == snap.scope_roots@,
        input.materializer_mode is None || patched is None ==> r.materializer_mode@
            == snap.materializer_mode@,
        input.materializer_mode is Some && patched is Some ==> r.materializer_mode@ == patched->0@,
        c.nexus_url@ == input.nexus_url@ && c.vaults_root@ == input.vaults_root@,
        c.last_event_id is None && c.sync_roots@.len() == 0,
        c.daemon_version@ == version@ && c.daemon_platform@ == platform@,
{
}

/// The settings page shows the parts of the configuration, and nothing where there
/// is none.
pub proof fn law_settings_show_the_configuration(config: Option<Config>, r: Option<CurrentConfig>)
    requires
        call_ensures(load_current_config, (config,), r),
    ensures
        r is Some <==> config is Some,
        r is Some ==> r->0.nexus_url@ == (config->0).nexus_url@ && r->0.vaults_root@ == (
        config->0).vaults_root@ && r->0.subscriber_id@ == (config->0).subscriber_id@,
{
}

/// A platform is named by its system and its machine.
pub proof fn law_platform_names_both(os: &str, arch: &str, r: String)
    requires
        call_ensures(detect_platform, (os, arch), r),
    ensures
        r@ == os@ + seq!['-'] + arch@,
{
    reveal_strlit("-");
    assert(r@ =~= os@ + seq!['-'] + arch@);
}

} // verus!
