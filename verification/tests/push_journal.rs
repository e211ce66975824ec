use serde_json::Value;
use vault_sync::push_journal::{
    default_event_id, deterministic_legacy_id, new_event_id, read_live, JournalCursor,
    JournalError, JournalFile, PushAction, PushEvent, PushJournal, RawLine, CURRENT_SCHEMA,
};

/// The journal file as the disk holds it.
struct Disk {
    bytes: Vec<u8>,
}

fn action_name(a: PushAction) -> &'static str {
    match a {
        PushAction::Create => "create",
        PushAction::Modify => "modify",
        PushAction::Delete => "delete",
    }
}

fn opt_string(s: &Option<String>) -> Value {
    match s {
        Some(t) => Value::String(t.clone()),
        None => Value::Null,
    }
}

fn line_of(e: &PushEvent) -> String {
    let mut m = serde_json::Map::new();
    m.insert("schema_version".to_string(), Value::from(e.schema_version));
    m.insert("id".to_string(), Value::String(e.id.clone()));
    m.insert("path".to_string(), Value::String(e.path.clone()));
    m.insert("action".to_string(), Value::from(action_name(e.action)));
    m.insert("base_hash".to_string(), opt_string(&e.base_hash));
    m.insert("content_sha".to_string(), Value::String(e.content_sha.clone()));
    let body = match &e.content_bytes {
        Some(b) => Value::Array(b.iter().map(|x| Value::from(*x)).collect()),
        None => Value::Null,
    };
    m.insert("content_bytes".to_string(), body);
    m.insert("queued_at".to_string(), Value::String(e.queued_at.clone()));
    m.insert("device_id".to_string(), Value::String(e.device_id.clone()));
    serde_json::to_string(&Value::Object(m)).unwrap()
}

fn event_of(v: &Value) -> Option<PushEvent> {
    let text = |k: &str| v.get(k).and_then(|x| x.as_str()).map(|s| s.to_string());
    let action = match v.get("action")?.as_str()? {
        "create" => PushAction::Create,
        "modify" => PushAction::Modify,
        "delete" => PushAction::Delete,
        _ => return None,
    };
    let content_bytes = match v.get("content_bytes") {
        Some(Value::Array(a)) => {
            Some(a.iter().map(|x| x.as_u64().map(|n| n as u8)).collect::<Option<Vec<u8>>>()?)
        }
        _ => None,
    };
    Some(PushEvent {
        schema_version: v.get("schema_version")?.as_u64()? as u32,
        id: text("id").unwrap_or_default(),
        path: text("path")?,
        action,
        base_hash: text("base_hash"),
        content_sha: text("content_sha")?,
        content_bytes,
        queued_at: text("queued_at")?,
        device_id: text("device_id")?,
    })
}

impl Disk {
    fn new() -> Disk {
        Disk { bytes: Vec::new() }
    }

    fn len(&self) -> u64 {
        self.bytes.len() as u64
    }

    fn file(&self) -> JournalFile {
        let mut lines = Vec::new();
        let mut parts: Vec<&[u8]> = self.bytes.split(|b| *b == b'\n').collect();
        if parts.last().map(|p| p.is_empty()).unwrap_or(false) {
            parts.pop();
        }
        for part in parts {
            match std::str::from_utf8(part) {
                Err(_) => lines.push(RawLine::Unreadable),
                Ok(text) => {
                    let v: Option<Value> = serde_json::from_str(text).ok();
                    let schema_version = v
                        .as_ref()
                        .and_then(|v| v.get("schema_version"))
                        .and_then(|x| x.as_u64())
                        .map(|n| n as u32);
                    let event = v.as_ref().and_then(event_of);
                    lines.push(RawLine::Line { text: text.to_string(), schema_version, event });
                }
            }
        }
        JournalFile {
            lines,
            bytes: self.len(),
            terminated: self.bytes.last().map(|b| *b == b'\n').unwrap_or(true),
        }
    }

    fn store(&mut self, file: &JournalFile) {
        let mut bytes = Vec::new();
        for line in &file.lines {
            match line {
                RawLine::Line { text, .. } => {
                    bytes.extend_from_slice(text.as_bytes());
                    bytes.push(b'\n');
                }
                RawLine::Unreadable => panic!("an unreadable line was written"),
            }
        }
        if !file.terminated {
            bytes.pop();
        }
        self.bytes = bytes;
        assert_eq!(self.len(), file.bytes, "the file is as large as it was counted");
    }
}

fn open(disk: &Disk) -> PushJournal {
    PushJournal::open(&disk.file())
}

fn append(j: &mut PushJournal, disk: &mut Disk, e: PushEvent) -> Result<(), JournalError> {
    let mut file = disk.file();
    let line = line_of(&e);
    let r = j.append(&mut file, e, line);
    disk.store(&file);
    r
}

fn append_batch(j: &mut PushJournal, disk: &mut Disk, events: Vec<PushEvent>) -> usize {
    let mut file = disk.file();
    let lines = events.into_iter().map(|e| (e.clone(), line_of(&e))).collect();
    let n = j.append_batch(&mut file, lines);
    disk.store(&file);
    n
}

fn drain(j: &mut PushJournal, disk: &Disk, n: usize) -> Vec<(PushEvent, JournalCursor)> {
    j.drain(&disk.file(), n)
}

fn ack_batch(j: &mut PushJournal, disk: &mut Disk, cursors: Vec<JournalCursor>) {
    let mut file = disk.file();
    if let Some(keep) = j.ack_batch(&file, cursors) {
        let lines = keep.into_iter().map(|e| (e.clone(), line_of(&e))).collect();
        j.rewrite(&mut file, lines);
        disk.store(&file);
    }
}

fn ack(j: &mut PushJournal, disk: &mut Disk, cursor: JournalCursor) {
    let mut file = disk.file();
    if let Some(keep) = j.ack(&file, cursor) {
        let lines = keep.into_iter().map(|e| (e.clone(), line_of(&e))).collect();
        j.rewrite(&mut file, lines);
        disk.store(&file);
    }
}

fn len(j: &mut PushJournal, disk: &Disk) -> usize {
    j.len(&disk.file())
}

fn evt_n(n: u64, path: &str, action: PushAction) -> PushEvent {
    PushEvent {
        schema_version: CURRENT_SCHEMA,
        id: new_event_id(1_700_000_000_000_000_000, n),
        path: path.to_string(),
        action,
        base_hash: match action {
            PushAction::Create => None,
            _ => Some("0".repeat(64)),
        },
        content_sha: "a".repeat(64),
        content_bytes: Some(b"hello world".to_vec()),
        queued_at: "2026-06-13T12:00:00Z".to_string(),
        device_id: "dev-test".to_string(),
    }
}

fn evt(path: &str, action: PushAction) -> PushEvent {
    let n = path.bytes().fold(7u64, |h, b| h * 31 + b as u64);
    evt_n(n, path, action)
}

#[test]
fn open_empty_file_returns_empty_journal() {
    let disk = Disk::new();
    let mut j = open(&disk);
    assert_eq!(len(&mut j, &disk), 0);
    assert!(j.is_empty(&disk.file()));
    assert_eq!(j.total_bytes(), 0);
}

#[test]
fn append_then_reopen_persists() {
    let mut disk = Disk::new();
    let mut j = open(&disk);
    append(&mut j, &mut disk, evt("notes/a.md", PushAction::Create)).unwrap();
    append(&mut j, &mut disk, evt("notes/b.md", PushAction::Modify)).unwrap();
    assert_eq!(len(&mut j, &disk), 2);
    let mut j2 = open(&disk);
    assert_eq!(len(&mut j2, &disk), 2);
    assert!(j2.total_bytes() > 0);
}

#[test]
fn append_respects_capacity() {
    let mut disk = Disk::new();
    let mut j = PushJournal::open_with_capacity(&disk.file(), 32);
    let err = append(&mut j, &mut disk, evt("notes/a.md", PushAction::Create)).unwrap_err();
    match err {
        JournalError::CapacityExceeded { current, max } => assert_eq!((current, max), (0, 32)),
    }
    assert_eq!(len(&mut j, &disk), 0);
}

#[test]
fn append_refreshes_projection_across_handles() {
    let mut disk = Disk::new();
    let cap = 400u64;
    let mut a = PushJournal::open_with_capacity(&disk.file(), cap);
    let mut n = 0;
    loop {
        match append(&mut a, &mut disk, evt(&format!("notes/{n}.md"), PushAction::Create)) {
            Ok(()) => n += 1,
            Err(JournalError::CapacityExceeded { .. }) => break,
        }
        assert!(n <= 1000, "capacity never hit");
    }
    assert!(n > 0, "should write at least one event before the cap");

    let mut b = PushJournal::open_with_capacity(&disk.file(), cap);
    let cursors: Vec<_> = drain(&mut b, &disk, 10_000).into_iter().map(|(_, c)| c).collect();
    ack_batch(&mut b, &mut disk, cursors);
    assert_eq!(len(&mut b, &disk), 0, "journal should be empty after ack");

    append(&mut a, &mut disk, evt("notes/after-drain.md", PushAction::Create))
        .expect("append must succeed once the shared file is drained to empty");
    assert_eq!(len(&mut a, &disk), 1);
}

#[test]
fn drain_does_not_remove_until_ack() {
    let mut disk = Disk::new();
    let mut j = open(&disk);
    append(&mut j, &mut disk, evt("notes/a.md", PushAction::Create)).unwrap();
    append(&mut j, &mut disk, evt("notes/b.md", PushAction::Modify)).unwrap();
    let batch1 = drain(&mut j, &disk, 10);
    assert_eq!(batch1.len(), 2);
    let batch2 = drain(&mut j, &disk, 10);
    assert_eq!(batch2.len(), 2);
    assert_eq!(batch1[0].0, batch2[0].0);
}

#[test]
fn ack_then_reopen_skips_ackd() {
    let mut disk = Disk::new();
    let mut j = open(&disk);
    for i in 0..4 {
        append(&mut j, &mut disk, evt(&format!("notes/{i}.md"), PushAction::Create)).unwrap();
    }
    let batch = drain(&mut j, &disk, 10);
    for (_, cur) in batch.iter().take(3) {
        ack(&mut j, &mut disk, cur.clone());
    }
    assert_eq!(len(&mut j, &disk), 1);
    let mut j2 = open(&disk);
    assert_eq!(len(&mut j2, &disk), 1);
    let batch = drain(&mut j2, &disk, 10);
    assert_eq!(batch[0].0.path, "notes/3.md");
}

#[test]
fn corruption_at_tail_is_recovered() {
    let mut disk = Disk::new();
    let mut j = open(&disk);
    for i in 0..3 {
        append(&mut j, &mut disk, evt(&format!("notes/{i}.md"), PushAction::Create)).unwrap();
    }
    disk.bytes.extend_from_slice(b"{not valid json at all");
    let mut j = open(&disk);
    assert_eq!(len(&mut j, &disk), 3);
}

#[test]
fn nack_keeps_event() {
    let mut disk = Disk::new();
    let mut j = open(&disk);
    append(&mut j, &mut disk, evt("notes/a.md", PushAction::Create)).unwrap();
    let batch = drain(&mut j, &disk, 10);
    j.nack(batch[0].1.clone()).unwrap();
    assert_eq!(len(&mut j, &disk), 1);
    let batch2 = drain(&mut j, &disk, 10);
    assert_eq!(batch2.len(), 1);
}

#[test]
fn ack_rewrites_and_shrinks_file() {
    let mut disk = Disk::new();
    let mut j = open(&disk);
    for i in 0..10 {
        append(&mut j, &mut disk, evt(&format!("notes/{i}.md"), PushAction::Create)).unwrap();
    }
    let before_bytes = j.total_bytes();
    let batch = drain(&mut j, &disk, 10);
    for (_, cur) in batch.iter().take(6) {
        ack(&mut j, &mut disk, cur.clone());
    }
    assert_eq!(len(&mut j, &disk), 4);
    let after_bytes = disk.len();
    assert!(
        after_bytes < before_bytes,
        "ack should shrink file: before={before_bytes} after={after_bytes}"
    );
    assert_eq!(j.total_bytes(), after_bytes);
}

#[test]
fn crash_simulation() {
    let mut disk = Disk::new();
    let mut j = open(&disk);
    for i in 0..100 {
        append(&mut j, &mut disk, evt(&format!("notes/{i}.md"), PushAction::Create)).unwrap();
    }
    let n = disk.bytes.len();
    disk.bytes.truncate(n.saturating_sub(10));
    let mut j = open(&disk);
    assert_eq!(len(&mut j, &disk), 99);
}

#[test]
fn schema_version_forward_compat() {
    let mut disk = Disk::new();
    let good_line = line_of(&evt("notes/a.md", PushAction::Create));
    let future_line = format!(
        "{{\"schema_version\":2,\"path\":\"notes/future.md\",\"action\":\"create\",\
         \"base_hash\":null,\"content_sha\":\"{}\",\"content_bytes\":[1,2,3],\
         \"queued_at\":\"2026-06-13T12:00:00+00:00\",\"device_id\":\"dev-test\",\
         \"new_field_from_v2\":\"ignored\"}}",
        "b".repeat(64)
    );
    disk.bytes = format!("{good_line}\n{future_line}\n").into_bytes();
    let mut j = open(&disk);
    assert_eq!(len(&mut j, &disk), 1);
}

#[test]
fn lines_behind_a_foreign_one_are_still_read() {
    let mut disk = Disk::new();
    let a = line_of(&evt("notes/a.md", PushAction::Create));
    let b = line_of(&evt("notes/b.md", PushAction::Create));
    disk.bytes = format!("{a}\n\n  \n{{\"schema_version\":2}}\n{b}\n").into_bytes();
    assert_eq!(len(&mut open(&disk), &disk), 2);
    disk.bytes = format!("{a}\ngarbage\n{b}\n").into_bytes();
    assert_eq!(len(&mut open(&disk), &disk), 1);
    disk.bytes = format!("{a}\n").into_bytes();
    disk.bytes.extend_from_slice(&[0xff, b'\n']);
    disk.bytes.extend_from_slice(format!("{b}\n").as_bytes());
    assert_eq!(len(&mut open(&disk), &disk), 1);
}

#[test]
fn none_content_event_round_trips() {
    let mut disk = Disk::new();
    let lazy = PushEvent {
        schema_version: CURRENT_SCHEMA,
        id: new_event_id(1, 1),
        path: "notes/lazy.md".to_string(),
        action: PushAction::Modify,
        base_hash: Some("0".repeat(64)),
        content_sha: "a".repeat(64),
        content_bytes: None,
        queued_at: "2026-06-13T12:00:00Z".to_string(),
        device_id: "dev-test".to_string(),
    };
    let mut j = open(&disk);
    append(&mut j, &mut disk, lazy.clone()).unwrap();
    assert_eq!(len(&mut j, &disk), 1);
    let mut j2 = open(&disk);
    let batch = drain(&mut j2, &disk, 10);
    assert_eq!(batch.len(), 1);
    assert_eq!(batch[0].0.content_bytes, None);
    assert_eq!(batch[0].0.path, "notes/lazy.md");
}

#[test]
fn append_batch_writes_all_events_in_one_call() {
    let mut disk = Disk::new();
    let events: Vec<PushEvent> = (0..1000)
        .map(|i| evt(&format!("notes/{i}.md"), PushAction::Create))
        .collect();
    let mut j = open(&disk);
    let written = append_batch(&mut j, &mut disk, events);
    assert_eq!(written, 1000);
    assert_eq!(len(&mut j, &disk), 1000);
    let mut j2 = open(&disk);
    assert_eq!(len(&mut j2, &disk), 1000);
    let batch = drain(&mut j2, &disk, 2000);
    assert_eq!(batch.len(), 1000);
}

#[test]
fn append_batch_writes_what_fits_then_stops() {
    let mut disk = Disk::new();
    let events: Vec<PushEvent> = (0..10)
        .map(|i| evt(&format!("notes/{i}.md"), PushAction::Create))
        .collect();
    let line_len = |e: &PushEvent| line_of(e).len() as u64 + 1;
    let cap = line_len(&events[0]) + line_len(&events[1]) + 1;
    let mut j = PushJournal::open_with_capacity(&disk.file(), cap);
    let written = append_batch(&mut j, &mut disk, events);
    assert_eq!(written, 2, "only 2 of 10 events fit under the cap");
    assert_eq!(len(&mut j, &disk), 2);
}

#[test]
fn concurrent_safety_documented() {
    // One owner at a time: whatever changes the journal borrows it mutably.
    let append: fn(&mut PushJournal, &mut JournalFile, PushEvent, String) -> Result<(), JournalError> =
        PushJournal::append;
    let rewrite: fn(&mut PushJournal, &mut JournalFile, Vec<(PushEvent, String)>) =
        PushJournal::rewrite;
    let _ = (append, rewrite);
}

#[test]
fn separate_handles_see_each_others_appends() {
    let mut disk = Disk::new();
    let mut a = open(&disk);
    let mut b = open(&disk);
    append(&mut a, &mut disk, evt("notes/from-a.md", PushAction::Create)).unwrap();
    let drained = drain(&mut b, &disk, 10);
    assert_eq!(drained.len(), 1, "B must see the event A appended");
    assert_eq!(drained[0].0.path, "notes/from-a.md");
}

#[test]
fn ack_by_id_removes_from_file_across_handles() {
    let mut disk = Disk::new();
    let mut a = open(&disk);
    append(&mut a, &mut disk, evt("notes/0.md", PushAction::Create)).unwrap();
    append(&mut a, &mut disk, evt("notes/1.md", PushAction::Create)).unwrap();
    append(&mut a, &mut disk, evt("notes/2.md", PushAction::Create)).unwrap();

    let mut b = open(&disk);
    let batch = drain(&mut b, &disk, 10);
    assert_eq!(batch.len(), 3);
    let (acked_evt, acked_cur) = batch[1].clone();
    ack(&mut b, &mut disk, acked_cur.clone());

    let mut c = open(&disk);
    let remaining = drain(&mut c, &disk, 10);
    assert_eq!(remaining.len(), 2);
    let paths: Vec<&str> = remaining.iter().map(|(e, _)| e.path.as_str()).collect();
    assert!(!paths.contains(&acked_evt.path.as_str()));
    assert!(paths.contains(&"notes/0.md"));
    assert!(paths.contains(&"notes/2.md"));

    ack(&mut c, &mut disk, acked_cur);
    assert_eq!(len(&mut c, &disk), 2, "acknowledging twice changes nothing");
}

#[test]
fn event_ids_are_time_and_counter() {
    assert_eq!(new_event_id(1_700_000_000_000_000_000, 3), "1700000000000000000-3");
    assert_eq!(new_event_id(-5, 0), "-5-0");
    assert_eq!(default_event_id(), "");
}

#[test]
fn lines_without_an_id_get_the_same_one_at_every_read() {
    let mut old = evt("notes/old.md", PushAction::Modify);
    old.id = String::new();
    let id = deterministic_legacy_id(&old);
    assert_eq!(id.len(), "legacy-".len() + 16);
    assert!(id.starts_with("legacy-"));
    assert_eq!(deterministic_legacy_id(&old), id);
    let mut other = old.clone();
    other.path = "notes/other.md".to_string();
    assert_ne!(deterministic_legacy_id(&other), id);

    let lines = vec![RawLine::Line {
        text: line_of(&old),
        schema_version: Some(CURRENT_SCHEMA),
        event: Some(old.clone()),
    }];
    let read = read_live(&lines);
    assert_eq!(read[0].id, id);

    let mut disk = Disk::new();
    disk.bytes = format!("{}\n", line_of(&old)).into_bytes();
    let mut j = open(&disk);
    let batch = drain(&mut j, &disk, 1);
    assert_eq!(batch[0].1.id(), id);
    ack(&mut j, &mut disk, batch[0].1.clone());
    assert_eq!(len(&mut j, &disk), 0);
}

#[test]
fn acking_absent_ids_leaves_the_file() {
    let mut disk = Disk::new();
    let a = evt("notes/a.md", PushAction::Create);
    let line = line_of(&a);
    disk.bytes = format!("{line}\n\n{{\"schema_version\":2}}\n").into_bytes();
    let before = disk.bytes.clone();
    let mut j = open(&disk);
    let gone = JournalCursor(new_event_id(3, 3));
    assert!(j.ack(&disk.file(), gone.clone()).is_none());
    assert!(j.ack_batch(&disk.file(), vec![gone.clone(), gone.clone()]).is_none());
    assert!(j.ack_batch(&disk.file(), Vec::new()).is_none());
    ack(&mut j, &mut disk, gone.clone());
    assert_eq!(disk.bytes, before, "a line of another schema is still there");

    let kept = j.ack_batch(&disk.file(), vec![gone, JournalCursor(a.id.clone())]).unwrap();
    assert!(kept.is_empty());
    ack(&mut j, &mut disk, JournalCursor(a.id.clone()));
    assert!(disk.bytes.is_empty());
    ack(&mut j, &mut disk, JournalCursor(a.id));
    assert!(disk.bytes.is_empty());
}

#[test]
fn every_read_measures_the_file() {
    let mut disk = Disk::new();
    let mut writer = open(&disk);
    let mut reader = open(&disk);
    append(&mut writer, &mut disk, evt("notes/a.md", PushAction::Create)).unwrap();
    assert_eq!(reader.total_bytes(), 0);
    assert_eq!(len(&mut reader, &disk), 1);
    assert_eq!(reader.total_bytes(), disk.len());
    append(&mut writer, &mut disk, evt("notes/b.md", PushAction::Create)).unwrap();
    assert!(!reader.is_empty(&disk.file()));
    assert_eq!(reader.total_bytes(), disk.len());
    append(&mut writer, &mut disk, evt("notes/c.md", PushAction::Create)).unwrap();
    assert!(reader.ack(&disk.file(), JournalCursor("none".to_string())).is_none());
    assert_eq!(reader.total_bytes(), disk.len());
}

#[test]
fn after_an_ack_every_handle_drains_the_others() {
    let mut disk = Disk::new();
    let mut a = open(&disk);
    for i in 0..4 {
        append(&mut a, &mut disk, evt(&format!("notes/{i}.md"), PushAction::Create)).unwrap();
    }
    let before = drain(&mut a, &disk, usize::MAX);
    let mut b = open(&disk);
    ack(&mut b, &mut disk, before[2].1.clone());
    let mut c = open(&disk);
    for j in [&mut a, &mut b, &mut c] {
        let events: Vec<PushEvent> =
            drain(j, &disk, usize::MAX).into_iter().map(|(e, _)| e).collect();
        assert_eq!(events, vec![before[0].0.clone(), before[1].0.clone(), before[3].0.clone()]);
    }
}

#[test]
fn an_append_runs_together_with_a_cut_line() {
    let a = line_of(&evt("notes/a.md", PushAction::Create));
    let b = line_of(&evt("notes/b.md", PushAction::Create));
    let c = evt("notes/c.md", PushAction::Create);

    // A whole event without its line feed is live, until the next append.
    let mut disk = Disk::new();
    disk.bytes = format!("{a}\n{b}").into_bytes();
    let mut j = open(&disk);
    assert_eq!(len(&mut j, &disk), 2);
    append(&mut j, &mut disk, c.clone()).unwrap();
    let joined = format!("{a}\n{b}{}\n", line_of(&c));
    assert_eq!(disk.bytes, joined.into_bytes());
    assert_eq!(len(&mut j, &disk), 1);

    // White space in front of an event does no harm.
    disk.bytes = format!("{a}\n \t").into_bytes();
    append(&mut j, &mut disk, c.clone()).unwrap();
    assert_eq!(len(&mut j, &disk), 2);

    // Only the first of a batch runs together, but the scan ends there.
    disk.bytes = format!("{a}\n{{\"schema").into_bytes();
    let d = evt("notes/d.md", PushAction::Create);
    assert_eq!(append_batch(&mut j, &mut disk, vec![c.clone(), d.clone()]), 2);
    let want = format!("{a}\n{{\"schema{}\n{}\n", line_of(&c), line_of(&d));
    assert_eq!(disk.bytes, want.into_bytes());
    assert_eq!(len(&mut j, &disk), 1);
}

#[test]
fn what_runs_together_reads_as_the_library_says() {
    let c = evt("notes/c.md", PushAction::Create);
    let whole = line_of(&evt("notes/a.md", PushAction::Create));
    for cut in ["{", "{\"a\":", "{\"a\":\"", "{\"a\":\"\\", "[", "1", "null", "\u{a0}", " \t", "x", whole.as_str()] {
        let mut disk = Disk::new();
        disk.bytes = cut.as_bytes().to_vec();
        let mut file = disk.file();
        let mut j = PushJournal::open(&file);
        j.append(&mut file, c.clone(), line_of(&c)).unwrap();
        disk.store(&file);
        let again = disk.file();
        assert_eq!(read_live(&file.lines), read_live(&again.lines), "{cut:?}");
    }
}
