use vault_sync::sse::{
    after_session, change_seq_from_lsn, default_op, ConnectionStatus, Envelope, EventAction, Lsn,
    SessionEnd, SseConsumer, LIVENESS_WINDOW_MS,
};

fn consumer() -> SseConsumer {
    SseConsumer::new(
        "https://nexus".to_string(),
        "tok".to_string(),
        vec!["Mainframe/".to_string()],
        vec!["Mainframe/private".to_string()],
    )
}

fn envelope(op: &str, path: &str, lsn: Lsn) -> Envelope {
    Envelope {
        op: op.to_string(),
        path: path.to_string(),
        phase: "enrichment_complete".to_string(),
        lsn,
    }
}

#[test]
fn change_seq_comes_as_number_or_text() {
    assert_eq!(change_seq_from_lsn(&Lsn::Absent), 0);
    assert_eq!(change_seq_from_lsn(&Lsn::Number(Some(42))), 42);
    assert_eq!(change_seq_from_lsn(&Lsn::Number(None)), 0);
    assert_eq!(change_seq_from_lsn(&Lsn::Text("42".to_string())), 42);
    assert_eq!(change_seq_from_lsn(&Lsn::Text("0/16B".to_string())), 0);
    assert_eq!(change_seq_from_lsn(&Lsn::Text("18446744073709551616".to_string())), 0);
    assert_eq!(change_seq_from_lsn(&Lsn::Other), 0);
    assert_eq!(default_op(), "UPSERT");
}

#[test]
fn only_finished_events_in_scope_ask_for_anything() {
    let c = consumer();
    let e = envelope("UPDATE", "Mainframe/a.md", Lsn::Text("7".to_string()));
    assert_eq!(c.on_event("lint_complete", Some(&e)), EventAction::Ignore);
    assert_eq!(c.on_event("enrichment_complete", None), EventAction::Drop);
    assert_eq!(
        c.on_event("enrichment_complete", Some(&e)),
        EventAction::Fetch { path: "Mainframe/a.md".to_string(), change_seq: 7 }
    );
    let d = envelope("DELETE", "Mainframe/a.md", Lsn::Absent);
    assert_eq!(
        c.on_event("enrichment_complete", Some(&d)),
        EventAction::Delete { path: "Mainframe/a.md".to_string() }
    );
    for path in ["../x.md", "Other/a.md", "Mainframe/private/a.md"] {
        let bad = envelope("UPSERT", path, Lsn::Absent);
        assert_eq!(c.on_event("enrichment_complete", Some(&bad)), EventAction::Drop);
    }
}

#[test]
fn only_events_that_were_dealt_with_move_the_resume_point() {
    let old = Some("5".to_string());
    let id = Some("6".to_string());
    let fetch = EventAction::Fetch { path: "a".to_string(), change_seq: 0 };
    let delete = EventAction::Delete { path: "a".to_string() };
    assert_eq!(SseConsumer::resume_from(&fetch, id.clone(), old.clone()), id);
    assert_eq!(SseConsumer::resume_from(&delete, id.clone(), old.clone()), id);
    assert_eq!(SseConsumer::resume_from(&EventAction::Drop, id.clone(), old.clone()), old);
    assert_eq!(SseConsumer::resume_from(&EventAction::Ignore, id, old.clone()), old);
    assert_eq!(SseConsumer::resume_from(&fetch, None, old.clone()), old);
    assert_eq!(SseConsumer::resume_from(&fetch, Some(String::new()), old.clone()), old);
}

#[test]
fn kept_event_ids_are_trimmed() {
    assert_eq!(SseConsumer::load_last_event_id(Some(" 42\n")), Some("42".to_string()));
    assert_eq!(SseConsumer::load_last_event_id(Some(" \n\t")), None);
    assert_eq!(SseConsumer::load_last_event_id(None), None);
}

#[test]
fn sessions_are_taken_up_with_growing_pauses() {
    let mut backoff = 1;
    let mut waits = Vec::new();
    for _ in 0..8 {
        let step = after_session(SessionEnd::Disconnected, backoff);
        assert_eq!(step.status, ConnectionStatus::Reconnecting);
        waits.push(step.wait_secs.unwrap());
        backoff = step.backoff_secs;
    }
    assert_eq!(waits, vec![1, 2, 4, 8, 16, 32, 60, 60]);
    let clean = after_session(SessionEnd::Clean, backoff);
    assert_eq!((clean.wait_secs, clean.backoff_secs), (Some(0), 1));
}

#[test]
fn rejected_tokens_end_the_run() {
    for status in [401u16, 403] {
        let step = after_session(SessionEnd::Response { status, retry_after: None }, 4);
        assert_eq!(step.status, ConnectionStatus::AuthFailed);
        assert_eq!(step.message.unwrap(), format!("token rejected (HTTP {status})"));
        assert_eq!(step.wait_secs, None);
    }
    let step = after_session(
        SessionEnd::Response { status: 503, retry_after: Some("30".to_string()) },
        4,
    );
    assert_eq!(step.wait_secs, Some(30));
    assert_eq!(step.message.unwrap(), "HTTP 503, retry in 30s");
    assert_eq!(step.backoff_secs, 8);
    let step = after_session(
        SessionEnd::Response { status: 502, retry_after: Some("soon".to_string()) },
        4,
    );
    assert_eq!(step.wait_secs, Some(4));
    let fatal = after_session(SessionEnd::Fatal { message: "bad url".to_string() }, 4);
    assert_eq!(fatal.status, ConnectionStatus::Error);
    assert_eq!(fatal.message.unwrap(), "bad url");
    assert_eq!(fatal.wait_secs, None);
}

#[test]
fn consumers_say_where_and_as_whom_they_connect() {
    let c = consumer();
    assert_eq!(c.liveness_window_ms, LIVENESS_WINDOW_MS);
    assert_eq!(c.silence_message(), "no SSE frames in 90s; forcing reconnect");
    let c = c
        .with_liveness_window(300)
        .with_tray_state()
        .with_last_event_id_path("/state/last".to_string());
    assert_eq!(c.events_url(), "https://nexus/api/sync/events");
    assert_eq!(c.auth_header(), "Bearer tok");
    assert_eq!(c.silence_message(), "no SSE frames in 0s; forcing reconnect");
    assert_eq!(c.last_event_id_path, Some("/state/last".to_string()));
    assert!(c.has_tray);
}
