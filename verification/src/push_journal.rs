//! The journal of pending pushes.
//!
//! The journal is a file of one JSON object per line, and the file is the only
//! truth: a [`JournalFile`] is what was read off the disk, and any number of
//! [`PushJournal`] handles work on it in turn. Events are acknowledged by their
//! id, never by position.

use std::collections::hash_map::DefaultHasher;
use std::hash::Hasher;
use vstd::prelude::*;

use crate::digest;
use crate::numbers;
use crate::text;

verus! {

/// The event shape this code reads and writes.
pub const CURRENT_SCHEMA: u32 = 1;

/// Capacity of a journal file unless another is given: 100 MiB.
pub const DEFAULT_MAX_BYTES: u64 = 104_857_600;

/// What happened to the file.
#[derive(Debug, Clone, Copy, PartialEq, Eq, Structural)]
pub enum PushAction {
    Create,
    Modify,
    Delete,
}

/// One queued push.
#[derive(Debug, PartialEq)]
pub struct PushEvent {
    pub schema_version: u32,
    /// Identity for acknowledgement; empty on lines older than the field.
    pub id: String,
    /// Path relative to the vault root, with forward slashes.
    pub path: String,
    pub action: PushAction,
    /// The server hash the change is based on; `None` leaves it to the sender.
    pub base_hash: Option<String>,
    pub content_sha: String,
    /// The body, or `None` where it is to be read from disk when it is sent.
    pub content_bytes: Option<Vec<u8>>,
    /// Time of queueing, RFC 3339.
    pub queued_at: String,
    pub device_id: String,
}

/// A [`PushEvent`] as a mathematical value.
pub struct EventView {
    pub schema_version: u32,
    pub id: Seq<char>,
    pub path: Seq<char>,
    pub action: PushAction,
    pub base_hash: Option<Seq<char>>,
    pub content_sha: Seq<char>,
    pub content_bytes: Option<Seq<u8>>,
    pub queued_at: Seq<char>,
    pub device_id: Seq<char>,
}

impl View for PushEvent {
    type V = EventView;

    open spec fn view(&self) -> EventView {
        EventView {
            schema_version: self.schema_version,
            id: self.id@,
            path: self.path@,
            action: self.action,
            base_hash: text::opt_text(self.base_hash),
            content_sha: self.content_sha@,
            content_bytes: text::opt_bytes(self.content_bytes),
            queued_at: self.queued_at@,
            device_id: self.device_id@,
        }
    }
}

impl Clone for PushEvent {
    fn clone(&self) -> (r: PushEvent)
        ensures
            r@ == self@,
    {
        PushEvent {
            schema_version: self.schema_version,
            id: self.id.clone(),
            path: self.path.clone(),
            action: self.action,
            base_hash: text::clone_text(&self.base_hash),
            content_sha: self.content_sha.clone(),
            content_bytes: text::clone_bytes(&self.content_bytes),
            queued_at: self.queued_at.clone(),
            device_id: self.device_id.clone(),
        }
    }
}

/// Handle for acknowledging a drained event: the event's id.
#[derive(Debug, PartialEq, Eq)]
pub struct JournalCursor(pub String);

impl Clone for JournalCursor {
    fn clone(&self) -> (r: JournalCursor)
        ensures
            r == *self,
    {
        JournalCursor(self.0.clone())
    }
}

impl JournalCursor {
    /// The id that this cursor acknowledges.
    pub fn id(&self) -> (r: &str)
        ensures
            r@ == self.0@,
    {
        self.0.as_str()
    }
}

/// Why a journal operation failed.
#[derive(Debug, PartialEq, Eq)]
pub enum JournalError {
    /// The event does not fit: the file's size and its limit.
    CapacityExceeded { current: u64, max: u64 },
}

/// One line of the file, as far as a JSON parser could make sense of it.
#[derive(Debug)]
pub enum RawLine {
    /// The line could not be read.
    Unreadable,
    /// The line's text, the schema version in its header, and the event.
    Line { text: String, schema_version: Option<u32>, event: Option<PushEvent> },
}

impl RawLine {
    /// Header and event were read off one text: an event comes with the schema
    /// version that the header names.
    pub open spec fn valid(self) -> bool {
        match self {
            RawLine::Unreadable => true,
            RawLine::Line { text: _, schema_version, event } => event is Some ==> schema_version
                == Some(event->0.schema_version),
        }
    }
}

/// Every line is as a parser leaves it.
pub open spec fn lines_valid(lines: Seq<RawLine>) -> bool {
    forall|i: int| 0 <= i < lines.len() ==> (#[trigger] lines[i]).valid()
}

/// The journal as it stands on disk.
#[derive(Debug)]
pub struct JournalFile {
    pub lines: Vec<RawLine>,
    /// Size of the file.
    pub bytes: u64,
    /// The last line, if there is one, has its line feed. A line that was cut
    /// short lacks it, and what is written next goes on in that line.
    pub terminated: bool,
}

impl JournalFile {
    /// Every line is as a parser leaves it.
    pub open spec fn wf(self) -> bool {
        lines_valid(self.lines@)
    }
}

// ---------------------------------------------------------------------------
// Ids
// ---------------------------------------------------------------------------

/// `<nanos>-<counter>`.
pub open spec fn event_id_text(nanos: int, counter: nat) -> Seq<char> {
    numbers::i64_text_spec(nanos).push('-') + numbers::dec_text(counter)
}

/// A fresh event id from the clock and a counter that never repeats within the
/// process.
pub fn new_event_id(nanos: i64, counter: u64) -> (r: String)
    ensures
        r@ == event_id_text(nanos as int, counter as nat),
{
    let mut s = numbers::i64_text(nanos);
    s.push('-');
    let c = numbers::u64_text(counter);
    s.append(c.as_str());
    s
}

/// The id of an event whose line has none.
pub fn default_event_id() -> (r: String)
    ensures
        r@.len() == 0,
{
    String::new()
}

/// `n` in hexadecimal, `width` digits.
pub open spec fn hex_fixed(n: nat, width: nat) -> Seq<char>
    decreases width,
{
    if width == 0 {
        Seq::empty()
    } else {
        hex_fixed(n / 16, (width - 1) as nat).push(digest::hex_digit((n % 16) as int))
    }
}

fn hex_nibble(n: u8) -> (c: char)
    requires
        n < 16,
    ensures
        c == digest::hex_digit(n as int),
{
    if n < 10 {
        (48 + n) as char
    } else {
        (87 + n) as char
    }
}

fn hex_fixed_text(n: u64, width: u8) -> (r: String)
    ensures
        r@ == hex_fixed(n as nat, width as nat),
    decreases width,
{
    if width == 0 {
        String::new()
    } else {
        let mut s = hex_fixed_text(n / 16, width - 1);
        s.push(hex_nibble((n % 16) as u8));
        s
    }
}

/// The number of an action in a legacy id.
pub open spec fn action_code(a: PushAction) -> u8 {
    match a {
        PushAction::Create => 0,
        PushAction::Modify => 1,
        PushAction::Delete => 2,
    }
}

/// What std's default hasher makes of the fields that identify an event.
pub open spec fn legacy_hash(e: EventView) -> u64 {
    <DefaultHasher as vstd::std_specs::hash::DefaultHasherAdditionalSpecFns>::spec_finish(
        seq![
            vstd::utf8::encode_utf8(e.path),
            seq![0xffu8],
            vstd::utf8::encode_utf8(e.content_sha),
            seq![0xffu8],
            vstd::utf8::encode_utf8(e.queued_at),
            seq![0xffu8],
            seq![action_code(e.action)],
        ],
    )
}

/// The id given to an event whose line has none: the same at every reading.
pub open spec fn legacy_id(e: EventView) -> Seq<char> {
    "legacy-"@ + hex_fixed(legacy_hash(e) as nat, 16)
}

/// The event with its id, legacy or its own.
pub open spec fn with_id(e: EventView) -> EventView {
    if e.id.len() == 0 {
        EventView { id: legacy_id(e), ..e }
    } else {
        e
    }
}

fn hash_text(h: &mut DefaultHasher, s: &str)
    ensures
        final(h)@ == old(h)@.push(vstd::utf8::encode_utf8(s@)).push(seq![0xffu8]),
{
    h.write(s.as_bytes());
    let mut end: Vec<u8> = Vec::new();
    end.push(0xffu8);
    h.write(end.as_slice());
    assert(end@ =~= seq![0xffu8]);
}

/// An id for an event whose line has none, drawn from its own fields so that
/// every reading of the line agrees.
pub fn deterministic_legacy_id(evt: &PushEvent) -> (r: String)
    ensures
        r@ == legacy_id(evt@),
{
    let mut h = DefaultHasher::new();
    hash_text(&mut h, evt.path.as_str());
    hash_text(&mut h, evt.content_sha.as_str());
    hash_text(&mut h, evt.queued_at.as_str());
    let code: u8 = match evt.action {
        PushAction::Create => 0,
        PushAction::Modify => 1,
        PushAction::Delete => 2,
    };
    let mut last: Vec<u8> = Vec::new();
    last.push(code);
    h.write(last.as_slice());
    assert(last@ =~= seq![action_code(evt.action)]);
    assert(h@ =~= seq![
        vstd::utf8::encode_utf8(evt@.path),
        seq![0xffu8],
        vstd::utf8::encode_utf8(evt@.content_sha),
        seq![0xffu8],
        vstd::utf8::encode_utf8(evt@.queued_at),
        seq![0xffu8],
        seq![action_code(evt@.action)],
    ]);
    let n: u64 = h.finish();
    let hex = hex_fixed_text(n, 16);
    text::concat("legacy-", hex.as_str())
}

// ---------------------------------------------------------------------------
// Reading
// ---------------------------------------------------------------------------

/// The line holds nothing but white space.
pub open spec fn is_blank(s: Seq<char>) -> bool {
    text::trimmed(s).len() == 0
}

/// The line ends the scan: it cannot be read, or holds something without a
/// schema header. The tail behind it is presumed cut off.
pub open spec fn stops_scan(l: RawLine) -> bool {
    match l {
        RawLine::Unreadable => true,
        RawLine::Line { text, schema_version, event: _ } => !is_blank(text@)
            && schema_version is None,
    }
}

/// The event of a line that counts: not blank, in the current schema, and
/// parsed.
pub open spec fn line_event(l: RawLine) -> Option<EventView> {
    match l {
        RawLine::Unreadable => None,
        RawLine::Line { text, schema_version, event } => if is_blank(text@) {
            None
        } else if schema_version == Some(CURRENT_SCHEMA) {
            match event {
                Some(e) => Some(with_id(e@)),
                None => None,
            }
        } else {
            None
        },
    }
}

/// The live events of a file, in order: those of the lines before the first
/// that ends the scan.
pub open spec fn live(lines: Seq<RawLine>) -> Seq<EventView>
    decreases lines.len(),
{
    if lines.len() == 0 || stops_scan(lines[0]) {
        Seq::empty()
    } else {
        match line_event(lines[0]) {
            Some(e) => seq![e] + live(lines.drop_first()),
            None => live(lines.drop_first()),
        }
    }
}

/// A list of events as mathematical values.
pub open spec fn event_views(v: Seq<PushEvent>) -> Seq<EventView> {
    v.map_values(|e: PushEvent| e@)
}

fn blank_line(s: &str) -> (r: bool)
    ensures
        r == is_blank(s@),
{
    text::trim(s).as_str().is_empty()
}

fn event_with_id(e: &PushEvent) -> (r: PushEvent)
    ensures
        r@ == with_id(e@),
{
    let mut out = e.clone();
    if out.id.as_str().is_empty() {
        out.id = deterministic_legacy_id(e);
    }
    out
}

/// The live events of a file.
pub fn read_live(lines: &Vec<RawLine>) -> (r: Vec<PushEvent>)
    ensures
        event_views(r@) == live(lines@),
{
    let mut r: Vec<PushEvent> = Vec::new();
    let mut i: usize = 0;
    let ghost all = lines@;
    assert(all.subrange(0, all.len() as int) =~= all);
    assert(event_views(r@) =~= Seq::<EventView>::empty());
    assert(live(all) =~= event_views(r@) + live(all.subrange(0, all.len() as int)));
    while i < lines.len()
        invariant
            i <= lines@.len(),
            all == lines@,
            live(all) == event_views(r@) + live(all.subrange(i as int, all.len() as int)),
        decreases lines@.len() - i,
    {
        let ghost rest = all.subrange(i as int, all.len() as int);
        let ghost before = r@;
        proof {
            assert(rest[0] == lines@[i as int]);
            assert(rest.drop_first() =~= all.subrange(i + 1, all.len() as int));
        }
        match &lines[i] {
            RawLine::Unreadable => {
                assert(live(all) =~= event_views(r@));
                return r;
            },
            RawLine::Line { text, schema_version, event } => {
                if !blank_line(text.as_str()) {
                    match schema_version {
                        None => {
                            assert(live(all) =~= event_views(r@));
                            return r;
                        },
                        Some(v) => {
                            if *v == CURRENT_SCHEMA {
                                if let Some(e) = event {
                                    let e2 = event_with_id(e);
                                    r.push(e2);
                                    assert(event_views(r@) =~= event_views(before).push(e2@));
                                    assert(live(all) =~= event_views(r@) + live(
                                        rest.drop_first(),
                                    ));
                                }
                            }
                        },
                    }
                }
            },
        }
        i = i + 1;
    }
    assert(all.subrange(all.len() as int, all.len() as int).len() == 0);
    assert(live(all) =~= event_views(r@));
    r
}

// ---------------------------------------------------------------------------
// The handle
// ---------------------------------------------------------------------------

/// Size of a line with its line feed.
pub open spec fn line_size(t: Seq<char>) -> u64 {
    let n = (vstd::utf8::encode_utf8(t).len() as usize) as u64;
    if n == u64::MAX {
        n
    } else {
        (n + 1) as u64
    }
}

/// Sum of two sizes, held at the largest representable size.
pub open spec fn size_sum(a: u64, b: u64) -> u64 {
    if a + b > u64::MAX {
        u64::MAX
    } else {
        (a + b) as u64
    }
}

/// An event and its line, as they come off the serializer.
pub open spec fn written_line(e: (PushEvent, String), l: RawLine) -> bool {
    match l {
        RawLine::Unreadable => false,
        RawLine::Line { text, schema_version, event } => {
            &&& text@ == e.1@
            &&& schema_version == Some(e.0.schema_version)
            &&& event is Some
            &&& event->0@ == e.0@
        },
    }
}

/// How many of the lines fit, taken in order, on top of `used` bytes.
pub open spec fn fitting(lines: Seq<(PushEvent, String)>, used: u64, max: u64) -> nat
    decreases lines.len(),
{
    if lines.len() == 0 || size_sum(used, line_size(lines[0].1@)) > max {
        0
    } else {
        1 + fitting(lines.drop_first(), size_sum(used, line_size(lines[0].1@)), max)
    }
}

/// The size of a file that grows by these lines.
pub open spec fn grown(lines: Seq<(PushEvent, String)>, used: u64) -> u64
    decreases lines.len(),
{
    if lines.len() == 0 {
        used
    } else {
        grown(lines.drop_first(), size_sum(used, line_size(lines[0].1@)))
    }
}

/// `after` is `before` with these lines written behind it.
pub open spec fn appended(
    before: Seq<RawLine>,
    lines: Seq<(PushEvent, String)>,
    after: Seq<RawLine>,
) -> bool {
    &&& after.len() == before.len() + lines.len()
    &&& forall|i: int| 0 <= i < before.len() ==> #[trigger] after[i] == before[i]
    &&& forall|i: int|
        0 <= i < lines.len() ==> written_line(#[trigger] lines[i], after[before.len() + i])
}

/// Nothing that a JSON parser would see.
pub open spec fn is_json_blank(t: Seq<char>) -> bool {
    forall|i: int|
        0 <= i < t.len() ==> (#[trigger] t[i]) == ' ' || t[i] == '\t' || t[i] == '\r' || t[i]
            == '\n'
}

/// `l` is the line that a cut-off line and the line written next make together. A
/// JSON object behind anything but white space is no JSON document, so that such
/// a line has neither header nor event.
pub open spec fn run_together(cut: RawLine, e: (PushEvent, String), l: RawLine) -> bool {
    match (cut, l) {
        (RawLine::Unreadable, RawLine::Unreadable) => true,
        (
            RawLine::Line { text: before, .. },
            RawLine::Line { text, schema_version, event },
        ) => {
            &&& text@ == before@ + e.1@
            &&& if is_json_blank(before@) {
                &&& schema_version == Some(e.0.schema_version)
                &&& event is Some
                &&& event->0@ == e.0@
            } else {
                schema_version is None && event is None
            }
        },
        _ => false,
    }
}

/// `after` is the file `before` with these lines written at its end.
pub open spec fn extended(
    before: JournalFile,
    entries: Seq<(PushEvent, String)>,
    after: JournalFile,
) -> bool {
    let old_lines = before.lines@;
    let new_lines = after.lines@;
    if entries.len() == 0 {
        new_lines == old_lines && after.terminated == before.terminated
    } else if before.terminated || old_lines.len() == 0 {
        after.terminated && appended(old_lines, entries, new_lines)
    } else {
        let head = old_lines.drop_last();
        let seam = new_lines[head.len() as int];
        &&& after.terminated
        &&& run_together(old_lines.last(), entries[0], seam)
        &&& appended(head.push(seam), entries.drop_first(), new_lines)
    }
}

/// A handle on the journal: its size limit, and the file size it last saw.
pub struct PushJournal {
    total_bytes: u64,
    max_bytes: u64,
}

fn size_of_line(s: &str) -> (n: u64)
    ensures
        n == line_size(s@),
{
    let n: u64 = s.len() as u64;
    if n == u64::MAX {
        n
    } else {
        n + 1
    }
}

impl PushJournal {
    /// The file size this handle last saw.
    pub closed spec fn seen(self) -> u64 {
        self.total_bytes
    }

    /// The size limit.
    pub closed spec fn limit(self) -> u64 {
        self.max_bytes
    }

    /// A handle with the default limit.
    pub fn open(file: &JournalFile) -> (j: PushJournal)
        ensures
            j.seen() == file.bytes,
            j.limit() == DEFAULT_MAX_BYTES,
    {
        PushJournal::open_with_capacity(file, DEFAULT_MAX_BYTES)
    }

    /// A handle with the given limit.
    pub fn open_with_capacity(file: &JournalFile, max_bytes: u64) -> (j: PushJournal)
        ensures
            j.seen() == file.bytes,
            j.limit() == max_bytes,
    {
        PushJournal { total_bytes: file.bytes, max_bytes }
    }

    /// Writes one event behind the others. Where it does not fit, nothing is
    /// written.
    pub fn append(&mut self, file: &mut JournalFile, evt: PushEvent, line: String) -> (r: Result<
        (),
        JournalError,
    >)
        ensures
            final(self).limit() == old(self).limit(),
            old(file).wf() ==> final(file).wf(),
            size_sum(old(file).bytes, line_size(line@)) > old(self).limit() ==> {
                &&& r == Err::<(), JournalError>(
                    JournalError::CapacityExceeded {
                        current: old(file).bytes,
                        max: old(self).limit(),
                    },
                )
                &&& *final(file) == *old(file)
                &&& final(self).seen() == old(file).bytes
            },
            size_sum(old(file).bytes, line_size(line@)) <= old(self).limit() ==> {
                &&& r is Ok
                &&& extended(*old(file), seq![(evt, line)], *final(file))
                &&& final(file).bytes == size_sum(old(file).bytes, line_size(line@))
                &&& final(self).seen() == final(file).bytes
            },
    {
        let added: u64 = size_of_line(line.as_str());
        self.total_bytes = file.bytes;
        if self.total_bytes.saturating_add(added) > self.max_bytes {
            return Err(
                JournalError::CapacityExceeded { current: self.total_bytes, max: self.max_bytes },
            );
        }
        write_line(file, evt, line);
        self.total_bytes = file.bytes;
        Ok(())
    }

    /// Writes as many of the events as fit, in order, and returns how many.
    pub fn append_batch(
        &mut self,
        file: &mut JournalFile,
        events: Vec<(PushEvent, String)>,
    ) -> (n: usize)
        ensures
            n == fitting(events@, old(file).bytes, old(self).limit()),
            n <= events@.len(),
            extended(*old(file), events@.subrange(0, n as int), *final(file)),
            final(file).bytes == grown(events@.subrange(0, n as int), old(file).bytes),
            old(file).wf() ==> final(file).wf(),
            final(self).limit() == old(self).limit(),
            events@.len() > 0 ==> final(self).seen() == final(file).bytes,
            events@.len() == 0 ==> final(self).seen() == old(self).seen(),
    {
        if events.len() == 0 {
            return 0;
        }
        let ghost before = *file;
        let ghost base = file.bytes;
        let limit: u64 = self.max_bytes;
        let mut n: usize = 0;
        assert(events@.subrange(0, events@.len() as int) =~= events@);
        while n < events.len()
            invariant_except_break
                n <= events@.len(),
                self.max_bytes == limit == old(self).limit(),
                base == old(file).bytes,
                before == *old(file),
                before.wf() ==> file.wf(),
                extended(before, events@.subrange(0, n as int), *file),
                file.bytes == grown(events@.subrange(0, n as int), base),
                fitting(events@, base, limit) == n + fitting(
                    events@.subrange(n as int, events@.len() as int),
                    file.bytes,
                    limit,
                ),
            ensures
                n <= events@.len(),
                self.max_bytes == limit == old(self).limit(),
                before.wf() ==> file.wf(),
                extended(before, events@.subrange(0, n as int), *file),
                file.bytes == grown(events@.subrange(0, n as int), base),
                n == fitting(events@, base, limit),
            decreases events@.len() - n,
        {
            let added: u64 = size_of_line(events[n].1.as_str());
            let ghost rest = events@.subrange(n as int, events@.len() as int);
            assert(rest[0] == events@[n as int]);
            if file.bytes.saturating_add(added) > limit {
                break;
            }
            let ghost mid = *file;
            let evt = events[n].0.clone();
            let line = events[n].1.clone();
            let ghost pair = (evt, line);
            write_line(file, evt, line);
            proof {
                let p0 = events@.subrange(0, n as int);
                let x = events@[n as int];
                lemma_extended_same(mid, pair, x, *file);
                lemma_extended_push(before, p0, mid, x, *file);
                lemma_grown_push(p0, x, base);
                assert(events@.subrange(0, n + 1) =~= p0.push(x));
                assert(rest.drop_first() =~= events@.subrange(n + 1, events@.len() as int));
            }
            n = n + 1;
        }
        self.total_bytes = file.bytes;
        n
    }

    /// The first `n` live events with their cursors. Nothing is removed.
    pub fn drain(&mut self, file: &JournalFile, n: usize) -> (r: Vec<(PushEvent, JournalCursor)>)
        ensures
            r@.len() == if live(file.lines@).len() < n {
                live(file.lines@).len()
            } else {
                n as nat
            },
            forall|i: int|
                0 <= i < r@.len() ==> (#[trigger] r@[i]).0@ == live(file.lines@)[i] && r@[i].1.0@
                    == live(file.lines@)[i].id,
            final(self).seen() == file.bytes,
            final(self).limit() == old(self).limit(),
    {
        let events = read_live(&file.lines);
        self.total_bytes = file.bytes;
        let mut r: Vec<(PushEvent, JournalCursor)> = Vec::new();
        let mut i: usize = 0;
        while i < events.len() && i < n
            invariant
                i <= events@.len(),
                i <= n,
                r@.len() == i,
                event_views(events@) == live(file.lines@),
                forall|k: int|
                    0 <= k < r@.len() ==> (#[trigger] r@[k]).0@ == live(file.lines@)[k]
                        && r@[k].1.0@ == live(file.lines@)[k].id,
            decreases events@.len() - i,
        {
            assert(event_views(events@)[i as int] == events@[i as int]@);
            let e = events[i].clone();
            let cur = JournalCursor(e.id.clone());
            r.push((e, cur));
            i = i + 1;
        }
        assert(event_views(events@).len() == events@.len());
        r
    }

    /// What the file must hold once the event is acknowledged; `None` where no
    /// live event has that id and the file stays as it is.
    pub fn ack(&mut self, file: &JournalFile, cursor: JournalCursor) -> (r: Option<Vec<PushEvent>>)
        ensures
            r is Some <==> any_listed(live(file.lines@), seq![cursor.0@]),
            r is Some ==> event_views(r->0@) == without_ids(live(file.lines@), seq![cursor.0@]),
            final(self).seen() == file.bytes,
            final(self).limit() == old(self).limit(),
    {
        let mut one: Vec<JournalCursor> = Vec::new();
        one.push(cursor);
        assert(cursor_ids(one@) =~= seq![cursor.0@]);
        self.ack_batch(file, one)
    }

    /// What the file must hold once the events are acknowledged: the live
    /// events with other ids, in order. `None` where no live event has one of
    /// the ids and the file stays as it is, down to lines of another schema.
    pub fn ack_batch(&mut self, file: &JournalFile, cursors: Vec<JournalCursor>) -> (r: Option<
        Vec<PushEvent>,
    >)
        ensures
            r is Some <==> any_listed(live(file.lines@), cursor_ids(cursors@)),
            r is Some ==> event_views(r->0@) == without_ids(
                live(file.lines@),
                cursor_ids(cursors@),
            ),
            final(self).seen() == (if cursors@.len() > 0 {
                file.bytes
            } else {
                old(self).seen()
            }),
            final(self).limit() == old(self).limit(),
    {
        let ghost all = live(file.lines@);
        let ghost ids = cursor_ids(cursors@);
        if cursors.len() == 0 {
            assert(!any_listed(all, ids));
            return None;
        }
        let events = read_live(&file.lines);
        self.total_bytes = file.bytes;
        let mut keep: Vec<PushEvent> = Vec::new();
        let mut found = false;
        let mut i: usize = 0;
        assert(all.subrange(0, all.len() as int) =~= all);
        assert(event_views(keep@) =~= Seq::<EventView>::empty());
        assert(without_ids(all, ids) =~= event_views(keep@) + without_ids(
            all.subrange(0, all.len() as int),
            ids,
        ));
        while i < events.len()
            invariant
                i <= events@.len(),
                event_views(events@) == all,
                ids == cursor_ids(cursors@),
                found ==> any_listed(all, ids),
                !found ==> forall|k: int| 0 <= k < i ==> !ids.contains((#[trigger] all[k]).id),
                without_ids(all, ids) == event_views(keep@) + without_ids(
                    all.subrange(i as int, all.len() as int),
                    ids,
                ),
            decreases events@.len() - i,
        {
            let ghost rest = all.subrange(i as int, all.len() as int);
            let ghost before = keep@;
            assert(event_views(events@)[i as int] == events@[i as int]@);
            assert(rest[0] == events@[i as int]@);
            assert(all[i as int] == events@[i as int]@);
            assert(rest.drop_first() =~= all.subrange(i + 1, all.len() as int));
            if id_listed(&cursors, events[i].id.as_str()) {
                found = true;
            } else {
                let e = events[i].clone();
                keep.push(e);
                assert(event_views(keep@) =~= event_views(before).push(e@));
                assert(without_ids(all, ids) =~= event_views(keep@) + without_ids(
                    rest.drop_first(),
                    ids,
                ));
            }
            i = i + 1;
        }
        assert(event_views(events@).len() == events@.len());
        assert(all.subrange(all.len() as int, all.len() as int).len() == 0);
        assert(without_ids(all, ids) =~= event_views(keep@));
        if found {
            Some(keep)
        } else {
            None
        }
    }

    /// Keeps the event for a later attempt: nothing happens to the file.
    pub fn nack(&self, _cursor: JournalCursor) -> (r: Result<(), JournalError>)
        ensures
            r is Ok,
    {
        Ok(())
    }

    /// Replaces the file by exactly these events.
    pub fn rewrite(&mut self, file: &mut JournalFile, events: Vec<(PushEvent, String)>)
        ensures
            appended(Seq::empty(), events@, final(file).lines@),
            final(file).terminated,
            final(file).wf(),
            final(file).bytes == grown(events@, 0),
            final(self).seen() == final(file).bytes,
            final(self).limit() == old(self).limit(),
    {
        let mut lines: Vec<RawLine> = Vec::new();
        let mut bytes: u64 = 0;
        let mut i: usize = 0;
        while i < events.len()
            invariant
                i <= events@.len(),
                appended(Seq::empty(), events@.subrange(0, i as int), lines@),
                bytes == grown(events@.subrange(0, i as int), 0),
            decreases events@.len() - i,
        {
            let ghost lines0 = lines@;
            let added: u64 = size_of_line(events[i].1.as_str());
            let evt = events[i].0.clone();
            let line = events[i].1.clone();
            let schema_version = Some(evt.schema_version);
            lines.push(RawLine::Line { text: line, schema_version, event: Some(evt) });
            bytes = bytes.saturating_add(added);
            proof {
                let p0 = events@.subrange(0, i as int);
                let p1 = events@.subrange(0, i + 1);
                let none = Seq::<RawLine>::empty();
                assert forall|k: int| 0 <= k < p1.len() implies written_line(
                    #[trigger] p1[k],
                    lines@[none.len() + k],
                ) by {
                    if k < p0.len() {
                        assert(p1[k] == p0[k]);
                        assert(written_line(p0[k], lines0[none.len() + k]));
                    }
                }
                lemma_grown_push(p0, events@[i as int], 0);
                assert(p1 =~= p0.push(events@[i as int]));
            }
            i = i + 1;
        }
        proof {
            assert(events@.subrange(0, events@.len() as int) =~= events@);
            lemma_appended_valid(Seq::empty(), events@, lines@);
        }
        file.lines = lines;
        file.bytes = bytes;
        file.terminated = true;
        self.total_bytes = bytes;
    }

    /// The number of live events in the file.
    pub fn len(&mut self, file: &JournalFile) -> (n: usize)
        ensures
            n == live(file.lines@).len(),
            final(self).seen() == file.bytes,
            final(self).limit() == old(self).limit(),
    {
        let events = read_live(&file.lines);
        self.total_bytes = file.bytes;
        assert(event_views(events@).len() == events@.len());
        events.len()
    }

    /// Whether the file holds no live event.
    pub fn is_empty(&mut self, file: &JournalFile) -> (r: bool)
        ensures
            r == (live(file.lines@).len() == 0),
            final(self).seen() == file.bytes,
            final(self).limit() == old(self).limit(),
    {
        self.len(file) == 0
    }

    /// The file size this handle last saw: that of the file it last read or
    /// wrote.
    pub fn total_bytes(&self) -> (n: u64)
        ensures
            n == self.seen(),
    {
        self.total_bytes
    }
}

/// Adding a line at the end adds its size at the end.
proof fn lemma_grown_push(lines: Seq<(PushEvent, String)>, l: (PushEvent, String), used: u64)
    ensures
        grown(lines.push(l), used) == size_sum(grown(lines, used), line_size(l.1@)),
    decreases lines.len(),
{
    let all = lines.push(l);
    if lines.len() == 0 {
        assert(all[0] == l);
        assert(all.drop_first().len() == 0);
        assert(grown(all.drop_first(), size_sum(used, line_size(l.1@))) == size_sum(
            used,
            line_size(l.1@),
        ));
    } else {
        assert(all[0] == lines[0]);
        assert(all.drop_first() =~= lines.drop_first().push(l));
        lemma_grown_push(lines.drop_first(), l, size_sum(used, line_size(lines[0].1@)));
    }
}

fn json_blank(s: &str) -> (r: bool)
    ensures
        r == is_json_blank(s@),
{
    let cs = text::chars_of(s);
    let mut i: usize = 0;
    while i < cs.len()
        invariant
            cs@ == s@,
            i <= cs@.len(),
            forall|k: int|
                0 <= k < i ==> (#[trigger] s@[k]) == ' ' || s@[k] == '\t' || s@[k] == '\r' || s@[k]
                    == '\n',
        decreases cs@.len() - i,
    {
        let c = cs[i];
        if !(c == ' ' || c == '\t' || c == '\r' || c == '\n') {
            assert(s@[i as int] == c);
            return false;
        }
        i = i + 1;
    }
    true
}

/// Writes one line at the end of the file.
fn write_line(file: &mut JournalFile, evt: PushEvent, line: String)
    ensures
        extended(*old(file), seq![(evt, line)], *final(file)),
        final(file).bytes == size_sum(old(file).bytes, line_size(line@)),
        old(file).wf() ==> final(file).wf(),
{
    let ghost before = *file;
    let ghost pair = (evt, line);
    let added: u64 = size_of_line(line.as_str());
    file.bytes = file.bytes.saturating_add(added);
    let schema_version = Some(evt.schema_version);
    if file.terminated || file.lines.len() == 0 {
        file.lines.push(RawLine::Line { text: line, schema_version, event: Some(evt) });
        file.terminated = true;
        assert(appended(before.lines@, seq![pair], file.lines@));
    } else {
        let cut = file.lines.pop();
        let seam = match cut {
            Some(RawLine::Line { text, schema_version: _, event: _ }) => {
                let whole = text::concat(text.as_str(), line.as_str());
                if json_blank(text.as_str()) {
                    RawLine::Line { text: whole, schema_version, event: Some(evt) }
                } else {
                    RawLine::Line { text: whole, schema_version: None, event: None }
                }
            },
            _ => RawLine::Unreadable,
        };
        file.lines.push(seam);
        file.terminated = true;
        proof {
            let head = before.lines@.drop_last();
            assert(seq![pair].drop_first().len() == 0);
            assert(file.lines@ =~= head.push(seam));
            assert(appended(head.push(seam), seq![pair].drop_first(), file.lines@));
        }
    }
    proof {
        if before.wf() {
            lemma_extended_valid(before, seq![pair], *file);
        }
    }
}

/// What is written depends on the view of an event alone.
proof fn lemma_extended_same(
    before: JournalFile,
    a: (PushEvent, String),
    b: (PushEvent, String),
    after: JournalFile,
)
    requires
        extended(before, seq![a], after),
        a.0@ == b.0@,
        a.1@ == b.1@,
    ensures
        extended(before, seq![b], after),
{
    assert(a.0.schema_version == a.0@.schema_version);
    assert(b.0.schema_version == b.0@.schema_version);
    if before.terminated || before.lines@.len() == 0 {
        assert(written_line(seq![a][0], after.lines@[before.lines@.len() as int]));
    } else {
        assert(seq![a].drop_first() =~= seq![b].drop_first());
    }
}

/// Writing lines and then one more is writing all of them.
proof fn lemma_extended_push(
    before: JournalFile,
    entries: Seq<(PushEvent, String)>,
    mid: JournalFile,
    e: (PushEvent, String),
    after: JournalFile,
)
    requires
        extended(before, entries, mid),
        extended(mid, seq![e], after),
    ensures
        extended(before, entries.push(e), after),
{
    let all = entries.push(e);
    if entries.len() == 0 {
        assert(all =~= seq![e]);
    } else {
        assert(written_line(seq![e][0], after.lines@[mid.lines@.len() as int]));
        if before.terminated || before.lines@.len() == 0 {
            lemma_appended_push(before.lines@, entries, mid.lines@, e, after.lines@);
        } else {
            let head = before.lines@.drop_last();
            let seam = mid.lines@[head.len() as int];
            assert(after.lines@[head.len() as int] == seam);
            assert(all.drop_first() =~= entries.drop_first().push(e));
            lemma_appended_push(
                head.push(seam),
                entries.drop_first(),
                mid.lines@,
                e,
                after.lines@,
            );
        }
    }
}

proof fn lemma_appended_push(
    before: Seq<RawLine>,
    entries: Seq<(PushEvent, String)>,
    mid: Seq<RawLine>,
    e: (PushEvent, String),
    after: Seq<RawLine>,
)
    requires
        appended(before, entries, mid),
        appended(mid, seq![e], after),
    ensures
        appended(before, entries.push(e), after),
{
    let all = entries.push(e);
    assert(written_line(seq![e][0], after[mid.len() as int]));
    assert forall|i: int| 0 <= i < all.len() implies written_line(
        #[trigger] all[i],
        after[before.len() + i],
    ) by {
        if i < entries.len() {
            assert(written_line(entries[i], mid[before.len() + i]));
        }
    }
    assert forall|i: int| 0 <= i < before.len() implies #[trigger] after[i] == before[i] by {
        assert(mid[i] == before[i]);
    }
}

/// Writing lines leaves all lines valid.
proof fn lemma_extended_valid(
    before: JournalFile,
    entries: Seq<(PushEvent, String)>,
    after: JournalFile,
)
    requires
        before.wf(),
        extended(before, entries, after),
    ensures
        after.wf(),
{
    if entries.len() > 0 {
        if before.terminated || before.lines@.len() == 0 {
            lemma_appended_valid(before.lines@, entries, after.lines@);
        } else {
            let head = before.lines@.drop_last();
            let seam = after.lines@[head.len() as int];
            assert(seam.valid()) by {
                match seam {
                    RawLine::Line { event: Some(e), .. } => {
                        assert(e@.schema_version == entries[0].0@.schema_version);
                    },
                    _ => {},
                }
            }
            assert forall|i: int| 0 <= i < head.push(seam).len() implies (
            #[trigger] head.push(seam)[i]).valid() by {
                if i < head.len() {
                    assert(head.push(seam)[i] == before.lines@[i]);
                }
            }
            lemma_appended_valid(head.push(seam), entries.drop_first(), after.lines@);
        }
    }
}

/// Writing lines behind valid ones leaves all of them valid.
proof fn lemma_appended_valid(
    before: Seq<RawLine>,
    lines: Seq<(PushEvent, String)>,
    after: Seq<RawLine>,
)
    requires
        lines_valid(before),
        appended(before, lines, after),
    ensures
        lines_valid(after),
{
    assert forall|i: int| 0 <= i < after.len() implies (#[trigger] after[i]).valid() by {
        if i < before.len() {
            assert(after[i] == before[i]);
        } else {
            let k = i - before.len();
            assert(written_line(lines[k], after[before.len() + k]));
            assert(after[i]->event->0@.schema_version == lines[k].0@.schema_version);
        }
    }
}

/// Some event has one of the ids.
pub open spec fn any_listed(events: Seq<EventView>, ids: Seq<Seq<char>>) -> bool {
    exists|i: int| 0 <= i < events.len() && ids.contains((#[trigger] events[i]).id)
}

/// The ids of a list of cursors.
pub open spec fn cursor_ids(cursors: Seq<JournalCursor>) -> Seq<Seq<char>> {
    cursors.map_values(|c: JournalCursor| c.0@)
}

/// The events whose id is not listed, in order.
pub open spec fn without_ids(events: Seq<EventView>, ids: Seq<Seq<char>>) -> Seq<EventView>
    decreases events.len(),
{
    if events.len() == 0 {
        Seq::empty()
    } else if ids.contains(events[0].id) {
        without_ids(events.drop_first(), ids)
    } else {
        seq![events[0]] + without_ids(events.drop_first(), ids)
    }
}

fn id_listed(cursors: &Vec<JournalCursor>, id: &str) -> (r: bool)
    ensures
        r == cursor_ids(cursors@).contains(id@),
{
    let mut i: usize = 0;
    while i < cursors.len()
        invariant
            i <= cursors@.len(),
            forall|j: int| 0 <= j < i ==> (#[trigger] cursors@[j]).0@ != id@,
        decreases cursors@.len() - i,
    {
        if text::str_eq(cursors[i].0.as_str(), id) {
            assert(cursor_ids(cursors@)[i as int] == id@);
            return true;
        }
        i = i + 1;
    }
    assert forall|j: int| 0 <= j < cursor_ids(cursors@).len() implies cursor_ids(cursors@)[j]
        != id@ by {
        assert(cursor_ids(cursors@)[j] == cursors@[j].0@);
    }
    false
}

} // verus!
