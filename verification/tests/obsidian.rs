use vault_sync::obsidian_install_detect::{find_known_vaults, registry_path, HostOs};
use vault_sync::obsidian_plugin_detect::{
    detect_and_disable, finish_disable, plan_disable, summary_line, DetectResult,
};
use vault_sync::reconciliation::MapEnv;

fn list(items: &[&str]) -> Vec<String> {
    items.iter().map(|s| s.to_string()).collect()
}

fn document(items: &[&str]) -> String {
    serde_json::to_string_pretty(&items.to_vec()).unwrap()
}

/// Runs the detection on a vault whose document lists `enabled`; returns the
/// result and the list that the document holds afterwards.
fn run(enabled: &[&str], on_disk: &[&str]) -> (DetectResult, Vec<String>) {
    let doc = document(enabled);
    let plan = detect_and_disable(true, Some(&doc), &list(on_disk));
    let after = match &plan.rewrite {
        Some((_, new_doc)) => new_doc.clone(),
        None => doc,
    };
    (finish_disable(plan, true), serde_json::from_str(&after).unwrap())
}

#[test]
fn no_dot_obsidian_marks_not_found() {
    let plan = detect_and_disable(false, None, &[]);
    assert!(plan.rewrite.is_none());
    let r = finish_disable(plan, true);
    assert!(r.not_found);
    assert!(r.disabled.is_empty());
}

#[test]
fn empty_enabled_list_yields_no_changes() {
    let (r, _) = run(&[], &[]);
    assert!(!r.not_found);
    assert!(r.disabled.is_empty());
}

#[test]
fn no_conflicting_plugins_means_no_changes() {
    let (r, after) = run(&["dataview", "templater", "kepano-defuddle"], &[]);
    assert!(r.disabled.is_empty());
    assert_eq!(after, vec!["dataview", "templater", "kepano-defuddle"]);
}

#[test]
fn disables_conflicting_plugin_and_leaves_others() {
    let (r, after) = run(&["dataview", "lattice-sync", "templater"], &[]);
    assert_eq!(r.disabled, vec!["lattice-sync"]);
    assert_eq!(after, vec!["dataview", "templater"]);
}

#[test]
fn disables_multiple_conflicting() {
    let (r, after) = run(&["lattice-sync", "dataview", "vault-sync", "templater"], &[]);
    assert!(r.disabled.contains(&"lattice-sync".to_string()));
    assert!(r.disabled.contains(&"vault-sync".to_string()));
    assert_eq!(after, vec!["dataview", "templater"]);
}

#[test]
fn summary_line_format() {
    let r = DetectResult { disabled: list(&["lattice-sync"]), ..Default::default() };
    assert_eq!(
        summary_line(&r).unwrap(),
        "Disabled conflicting Obsidian plugin: lattice-sync"
    );
    let r = DetectResult {
        disabled: list(&["lattice-sync", "vault-sync"]),
        ..Default::default()
    };
    assert_eq!(
        summary_line(&r).unwrap(),
        "Disabled conflicting Obsidian plugins: lattice-sync, vault-sync"
    );
    assert_eq!(summary_line(&DetectResult::default()), None);
}

#[test]
fn installed_but_idle_plugins_are_reported() {
    let (r, _) = run(&["vault-sync"], &["nexus-vault-sync", "vault-sync", "dataview"]);
    assert_eq!(r.disabled, vec!["vault-sync"]);
    assert_eq!(r.already_disabled, vec!["nexus-vault-sync"]);
    let (off, idle, rest) = plan_disable(
        &list(&["obsidian-vault-sync", "x", "lattice-sync"]),
        &list(&["obsidian-nexus-sync"]),
    );
    assert_eq!(off, vec!["lattice-sync", "obsidian-vault-sync"]);
    assert_eq!(idle, vec!["obsidian-nexus-sync"]);
    assert_eq!(rest, vec!["x"]);
}

#[test]
fn unreadable_documents_count_as_empty() {
    for doc in ["not json", "{\"a\":1}", "[1,2]"] {
        let plan = detect_and_disable(true, Some(doc), &list(&["lattice-sync"]));
        assert!(plan.rewrite.is_none());
        assert_eq!(plan.result.already_disabled, vec!["lattice-sync"]);
    }
    let plan = detect_and_disable(true, None, &[]);
    assert!(plan.rewrite.is_none());
}

#[test]
fn nothing_is_reported_as_disabled_unless_it_was_written() {
    let doc = document(&["lattice-sync"]);
    let plan = detect_and_disable(true, Some(&doc), &[]);
    assert!(plan.rewrite.is_some());
    assert!(finish_disable(plan, false).disabled.is_empty());
}

fn env(pairs: &[(&str, &str)]) -> MapEnv {
    MapEnv(pairs.iter().map(|(k, v)| (k.to_string(), v.to_string())).collect())
}

#[test]
fn registry_path_resolves_per_os() {
    let home = env(&[("HOME", "/home/u")]);
    assert_eq!(
        registry_path(HostOs::Linux, &home).unwrap(),
        "/home/u/.config/obsidian/obsidian.json"
    );
    assert_eq!(
        registry_path(HostOs::Macos, &home).unwrap(),
        "/home/u/Library/Application Support/obsidian/obsidian.json"
    );
    let xdg = env(&[("HOME", "/home/u"), ("XDG_CONFIG_HOME", "/cfg/")]);
    assert_eq!(registry_path(HostOs::Linux, &xdg).unwrap(), "/cfg/obsidian/obsidian.json");
    let win = env(&[("APPDATA", "C:\\Users\\u\\AppData\\Roaming")]);
    assert_eq!(
        registry_path(HostOs::Windows, &win).unwrap(),
        "C:\\Users\\u\\AppData\\Roaming\\obsidian\\obsidian.json"
    );
    assert_eq!(registry_path(HostOs::Windows, &home), None);
    assert_eq!(registry_path(HostOs::Linux, &win), None);
    assert_eq!(registry_path(HostOs::Other, &home), None);
}

#[test]
fn find_known_vaults_returns_only_existing_paths() {
    let listed = list(&["/tmp/x/real-vault", "/tmp/x/ghost-vault"]);
    let paths = find_known_vaults(&listed, &[true, false]);
    assert_eq!(paths.len(), 1);
    assert!(paths[0].ends_with("real-vault"));
}

#[test]
fn empty_registry_yields_empty_list() {
    assert!(find_known_vaults(&[], &[]).is_empty());
}
