use vault_sync::pairing::{
    config_for, detect_platform, load_current_config, pair_inner, patch_self_subscriber,
    HealthSnapshot, PairingError, PairingInput,
};

fn input(mode: Option<&str>) -> PairingInput {
    PairingInput {
        nexus_url: "https://nexus".to_string(),
        token: "tok".to_string(),
        vaults_root: "/vaults".to_string(),
        materializer_mode: mode.map(|s| s.to_string()),
    }
}

fn snapshot() -> HealthSnapshot {
    HealthSnapshot {
        subscriber_id: "sub-1".to_string(),
        scope_roots: vec!["a/".to_string()],
        materializer_mode: "shadow".to_string(),
    }
}

#[test]
fn the_mode_is_the_servers_unless_it_confirmed_another() {
    let live = Some("live".to_string());
    assert_eq!(pair_inner(&input(Some("live")), snapshot(), live.clone()).materializer_mode, "live");
    assert_eq!(pair_inner(&input(Some("live")), snapshot(), None).materializer_mode, "shadow");
    assert_eq!(pair_inner(&input(None), snapshot(), live).materializer_mode, "shadow");
    let r = pair_inner(&input(None), snapshot(), None);
    assert_eq!(r.subscriber_id, "sub-1");
    assert_eq!(r.scope_roots, vec!["a/"]);
}

#[test]
fn the_configuration_names_the_servers_subscriber() {
    let c = config_for(
        &input(None),
        &snapshot(),
        "0.4.0".to_string(),
        detect_platform("linux", "x86_64"),
    );
    assert_eq!(c.subscriber_id, "sub-1");
    assert_eq!(c.nexus_url, "https://nexus");
    assert_eq!(c.vaults_root, "/vaults");
    assert_eq!(c.daemon_platform, "linux-x86_64");
    assert_eq!(c.last_event_id, None);
    assert!(c.sync_roots.is_empty());
    let shown = load_current_config(Some(c)).unwrap();
    assert_eq!(shown.vaults_root, "/vaults");
    assert_eq!(shown.subscriber_id, "sub-1");
    assert!(load_current_config(None).is_none());
}

#[test]
fn platforms_are_system_and_processor() {
    assert_eq!(detect_platform("windows", "x86_64"), "windows-x86_64");
    assert_eq!(detect_platform("macos", "aarch64"), "macos-aarch64");
    assert_eq!(detect_platform("freebsd", "riscv64"), "freebsd-riscv64");
}

#[test]
fn settings_are_not_patched() {
    let e = patch_self_subscriber("u".to_string(), "r".to_string(), "m".to_string()).unwrap_err();
    assert_eq!(
        e,
        "PATCH not yet implemented (S477 Phase F coordination pending \u{2014} re-pair with a token to change settings)."
    );
}

#[test]
fn pairing_errors_have_their_messages() {
    let m = |e: PairingError| e.message();
    assert_eq!(m(PairingError::KeyringUnavailable("x".to_string())), "keyring unavailable: x");
    assert_eq!(m(PairingError::TokenStore("x".to_string())), "token persistence failed: x");
    assert_eq!(m(PairingError::Api("x".to_string())), "api error: x");
    assert_eq!(m(PairingError::Config("x".to_string())), "config error: x");
}
