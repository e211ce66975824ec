//! The server's event stream.
//!
//! The caller holds the connection; this module says what an event asks for,
//! which event ids are remembered, and what the end of a session leads to.

use vstd::prelude::*;

use crate::numbers;
use crate::scope;
use crate::text;

verus! {

/// Milliseconds without any frame after which a session counts as dead. The
/// server sends a keep-alive every half minute, so three of them are missing.
pub const LIVENESS_WINDOW_MS: u64 = 90_000;

/// The first pause before a new session, in seconds.
pub const INITIAL_BACKOFF_SECS: u64 = 1;

/// The longest pause before a new session, in seconds.
pub const MAX_BACKOFF_SECS: u64 = 60;

/// The only kind of event that asks for anything.
pub const EVENT_COMPLETE: &'static str = "enrichment_complete";

/// The operation that removes a note.
pub const OP_DELETE: &'static str = "DELETE";

/// The server's change counter as it stands in an event.
#[derive(Debug, PartialEq, Eq)]
pub enum Lsn {
    Absent,
    /// A number; `None` where it is negative, fractional or too large.
    Number(Option<u64>),
    Text(String),
    /// Some other value.
    Other,
}

/// What an event says.
#[derive(Debug, PartialEq, Eq)]
pub struct Envelope {
    pub op: String,
    pub path: String,
    pub phase: String,
    pub lsn: Lsn,
}

/// The change counter, or zero where there is none to be read.
pub open spec fn lsn_value(lsn: Lsn) -> u64 {
    match lsn {
        Lsn::Number(Some(n)) => n,
        Lsn::Text(s) => match numbers::parsed(s@, u64::MAX as nat) {
            Some(n) => n as u64,
            None => 0,
        },
        _ => 0,
    }
}

/// The change counter of an event, sent as a number or as text.
pub fn change_seq_from_lsn(lsn: &Lsn) -> (r: u64)
    ensures
        r == lsn_value(*lsn),
{
    match lsn {
        Lsn::Number(n) => match n {
            Some(n) => *n,
            None => 0,
        },
        Lsn::Text(s) => match numbers::parse_u64(s.as_str()) {
            Some(n) => n,
            None => 0,
        },
        _ => 0,
    }
}

/// The operation of an event that names none.
pub fn default_op() -> (r: String)
    ensures
        r@ == "UPSERT"@,
{
    "UPSERT".to_string()
}

/// What an event asks for.
#[derive(Debug, PartialEq, Eq)]
pub enum EventAction {
    /// Nothing; it was an intermediate event.
    Ignore,
    /// Nothing; it was counted, but could not be read or is not ours.
    Drop,
    /// Remove the note.
    Delete { path: String },
    /// Fetch the note and write it.
    Fetch { path: String, change_seq: u64 },
}

/// What happened to a session.
#[derive(Debug, PartialEq, Eq)]
pub enum SessionEnd {
    /// The stream ended in an orderly way.
    Clean,
    /// The connection broke or went silent.
    Disconnected,
    /// The server answered with another status than was hoped for, and perhaps
    /// said when to come back.
    Response { status: u16, retry_after: Option<String> },
    /// Anything else; the message.
    Fatal { message: String },
}

/// What the tray shows of the connection.
#[derive(Debug, Clone, Copy, PartialEq, Eq, Structural)]
pub enum ConnectionStatus {
    Connecting,
    Connected,
    Reconnecting,
    AuthFailed,
    Error,
}

/// What the end of a session leads to.
#[derive(Debug, PartialEq, Eq)]
pub struct SessionStep {
    pub status: ConnectionStatus,
    pub message: Option<String>,
    /// Seconds to wait for the next session; `None` for giving up.
    pub wait_secs: Option<u64>,
    /// The pause to use the next time.
    pub backoff_secs: u64,
}

/// The pause after this one.
pub open spec fn next_backoff(secs: u64) -> u64 {
    if 2 * secs < MAX_BACKOFF_SECS {
        (2 * secs) as u64
    } else {
        MAX_BACKOFF_SECS
    }
}

fn longer(secs: u64) -> (r: u64)
    ensures
        r == next_backoff(secs),
{
    if secs < 30 {
        2 * secs
    } else {
        MAX_BACKOFF_SECS
    }
}

/// The seconds that a `Retry-After` header asks for, or the pause that is due.
pub open spec fn retry_secs(retry_after: Option<Seq<char>>, backoff: u64) -> u64 {
    match retry_after {
        Some(s) => match numbers::parsed(s, u64::MAX as nat) {
            Some(n) => n as u64,
            None => backoff,
        },
        None => backoff,
    }
}

/// The step after a session with the pause `backoff` due.
pub open spec fn follows(end: SessionEnd, backoff: u64, r: SessionStep) -> bool {
    match end {
        SessionEnd::Clean => {
            &&& r.status is Reconnecting
            &&& r.message is None
            &&& r.wait_secs == Some(0u64)
            &&& r.backoff_secs == INITIAL_BACKOFF_SECS
        },
        SessionEnd::Disconnected => {
            &&& r.status is Reconnecting
            &&& r.message is None
            &&& r.wait_secs == Some(backoff)
            &&& r.backoff_secs == next_backoff(backoff)
        },
        SessionEnd::Response { status, retry_after } => if status == 401 || status == 403 {
            &&& r.status is AuthFailed
            &&& text::opt_text(r.message) == Some(
                "token rejected (HTTP "@ + numbers::dec_text(status as nat) + ")"@,
            )
            &&& r.wait_secs is None
            &&& r.backoff_secs == backoff
        } else {
            let wait = retry_secs(text::opt_text(retry_after), backoff);
            &&& r.status is Reconnecting
            &&& text::opt_text(r.message) == Some(
                "HTTP "@ + numbers::dec_text(status as nat) + ", retry in "@ + numbers::dec_text(
                    wait as nat,
                ) + "s"@,
            )
            &&& r.wait_secs == Some(wait)
            &&& r.backoff_secs == next_backoff(backoff)
        },
        SessionEnd::Fatal { message } => {
            &&& r.status is Error
            &&& r.message == Some(message)
            &&& r.wait_secs is None
            &&& r.backoff_secs == backoff
        },
    }
}

/// What the end of a session leads to: a new one after a pause, unless the token
/// was rejected or the failure is not one of the connection.
pub fn after_session(end: SessionEnd, backoff_secs: u64) -> (r: SessionStep)
    ensures
        follows(end, backoff_secs, r),
{
    match end {
        SessionEnd::Clean => SessionStep {
            status: ConnectionStatus::Reconnecting,
            message: None,
            wait_secs: Some(0),
            backoff_secs: INITIAL_BACKOFF_SECS,
        },
        SessionEnd::Disconnected => SessionStep {
            status: ConnectionStatus::Reconnecting,
            message: None,
            wait_secs: Some(backoff_secs),
            backoff_secs: longer(backoff_secs),
        },
        SessionEnd::Response { status, retry_after } => {
            let code = numbers::u64_text(status as u64);
            if status == 401 || status == 403 {
                let mut message = text::concat("token rejected (HTTP ", code.as_str());
                message.append(")");
                return SessionStep {
                    status: ConnectionStatus::AuthFailed,
                    message: Some(message),
                    wait_secs: None,
                    backoff_secs,
                };
            }
            let wait: u64 = match &retry_after {
                Some(s) => match numbers::parse_u64(s.as_str()) {
                    Some(n) => n,
                    None => backoff_secs,
                },
                None => backoff_secs,
            };
            let mut message = text::concat("HTTP ", code.as_str());
            message.append(", retry in ");
            let secs = numbers::u64_text(wait);
            message.append(secs.as_str());
            message.append("s");
            SessionStep {
                status: ConnectionStatus::Reconnecting,
                message: Some(message),
                wait_secs: Some(wait),
                backoff_secs: longer(backoff_secs),
            }
        },
        SessionEnd::Fatal { message } => SessionStep {
            status: ConnectionStatus::Error,
            message: Some(message),
            wait_secs: None,
            backoff_secs,
        },
    }
}

/// Follows the event stream of one subscriber.
#[derive(Debug)]
pub struct SseConsumer {
    pub nexus_url: String,
    pub token: String,
    /// Only paths below one of these; all paths where there is none.
    pub scope_roots: Vec<String>,
    pub scope_excludes: Vec<String>,
    /// There is a tray to show the connection in.
    pub has_tray: bool,
    /// Where the last event id is kept across restarts.
    pub last_event_id_path: Option<String>,
    pub liveness_window_ms: u64,
}

impl SseConsumer {
    /// The path is ours and cannot lead out of its tree.
    pub open spec fn accepts(self, path: Seq<char>) -> bool {
        scope::safe(path) && scope::in_scope(path, self.scope_roots@, self.scope_excludes@)
    }

    /// A consumer that keeps no event id.
    pub fn new(
        nexus_url: String,
        token: String,
        scope_roots: Vec<String>,
        scope_excludes: Vec<String>,
    ) -> (c: SseConsumer)
        ensures
            c == (SseConsumer {
                nexus_url,
                token,
                scope_roots,
                scope_excludes,
                has_tray: false,
                last_event_id_path: None,
                liveness_window_ms: LIVENESS_WINDOW_MS,
            }),
    {
        SseConsumer {
            nexus_url,
            token,
            scope_roots,
            scope_excludes,
            has_tray: false,
            last_event_id_path: None,
            liveness_window_ms: LIVENESS_WINDOW_MS,
        }
    }

    /// The consumer with another liveness window.
    pub fn with_liveness_window(self, window_ms: u64) -> (c: SseConsumer)
        ensures
            c == (SseConsumer { liveness_window_ms: window_ms, ..self }),
    {
        let mut c = self;
        c.liveness_window_ms = window_ms;
        c
    }

    /// The consumer with a tray.
    pub fn with_tray_state(self) -> (c: SseConsumer)
        ensures
            c == (SseConsumer { has_tray: true, ..self }),
    {
        let mut c = self;
        c.has_tray = true;
        c
    }

    /// The consumer with a file for the last event id.
    pub fn with_last_event_id_path(self, p: String) -> (c: SseConsumer)
        ensures
            c == (SseConsumer { last_event_id_path: Some(p), ..self }),
    {
        let mut c = self;
        c.last_event_id_path = Some(p);
        c
    }

    /// Where the stream is.
    pub fn events_url(&self) -> (r: String)
        ensures
            r@ == self.nexus_url@ + "/api/sync/events"@,
    {
        text::concat(self.nexus_url.as_str(), "/api/sync/events")
    }

    /// The value of the authorization header.
    pub fn auth_header(&self) -> (r: String)
        ensures
            r@ == "Bearer "@ + self.token@,
    {
        text::concat("Bearer ", self.token.as_str())
    }

    /// The last event id as kept in a file, without white space around it; none
    /// where there is no file or nothing in it.
    pub fn load_last_event_id(content: Option<&str>) -> (r: Option<String>)
        ensures
            text::opt_text(r) == (match content {
                Some(s) => if text::trimmed(s@).len() > 0 {
                    Some(text::trimmed(s@))
                } else {
                    None
                },
                None => None,
            }),
    {
        match content {
            Some(s) => {
                let t = text::trim(s);
                if t.as_str().is_empty() {
                    None
                } else {
                    Some(t)
                }
            },
            None => None,
        }
    }

    /// What an event asks for; `envelope` is `None` where it could not be read.
    pub fn on_event(&self, event_type: &str, envelope: Option<&Envelope>) -> (r: EventAction)
        ensures
            match r {
                EventAction::Ignore => event_type@ != EVENT_COMPLETE@,
                EventAction::Drop => {
                    &&& event_type@ == EVENT_COMPLETE@
                    &&& match envelope {
                        Some(e) => !self.accepts(e.path@),
                        None => true,
                    }
                },
                EventAction::Delete { path } => {
                    &&& event_type@ == EVENT_COMPLETE@
                    &&& envelope is Some
                    &&& self.accepts(envelope->0.path@)
                    &&& envelope->0.op@ == OP_DELETE@
                    &&& path == envelope->0.path
                },
                EventAction::Fetch { path, change_seq } => {
                    &&& event_type@ == EVENT_COMPLETE@
                    &&& envelope is Some
                    &&& self.accepts(envelope->0.path@)
                    &&& envelope->0.op@ != OP_DELETE@
                    &&& path == envelope->0.path
                    &&& change_seq == lsn_value(envelope->0.lsn)
                },
            },
    {
        if !text::str_eq(event_type, EVENT_COMPLETE) {
            return EventAction::Ignore;
        }
        let env = match envelope {
            Some(e) => e,
            None => {
                return EventAction::Drop;
            },
        };
        if !scope::is_safe_path(env.path.as_str()) {
            return EventAction::Drop;
        }
        if !scope::path_in_scope(
            env.path.as_str(),
            self.scope_roots.as_slice(),
            self.scope_excludes.as_slice(),
        ) {
            return EventAction::Drop;
        }
        if text::str_eq(env.op.as_str(), OP_DELETE) {
            EventAction::Delete { path: env.path.clone() }
        } else {
            EventAction::Fetch {
                path: env.path.clone(),
                change_seq: change_seq_from_lsn(&env.lsn),
            }
        }
    }

    /// The id to resume from once the event was dealt with: that of the event, if
    /// it has one and asked for something, and the one from before otherwise.
    pub fn resume_from(action: &EventAction, id: Option<String>, last: Option<String>) -> (r: Option<
        String,
    >)
        ensures
            r == (if (action is Delete || action is Fetch) && id is Some && id->0@.len() > 0 {
                id
            } else {
                last
            }),
    {
        match action {
            EventAction::Ignore => last,
            EventAction::Drop => last,
            _ => match id {
                Some(s) => {
                    if s.as_str().is_empty() {
                        last
                    } else {
                        Some(s)
                    }
                },
                None => last,
            },
        }
    }

    /// What the tray shows when a session went silent.
    pub fn silence_message(&self) -> (r: String)
        ensures
            r@ == "no SSE frames in "@ + numbers::dec_text((self.liveness_window_ms / 1000) as nat)
                + "s; forcing reconnect"@,
    {
        let secs = numbers::u64_text(self.liveness_window_ms / 1000);
        let mut s = text::concat("no SSE frames in ", secs.as_str());
        s.append("s; forcing reconnect");
        s
    }
}

/// The pause that is due stays between a second and a minute, however sessions
/// end, and a session that ended well makes it a second again.
pub proof fn law_backoff_stays_in_bounds(end: SessionEnd, backoff: u64, r: SessionStep)
    requires
        INITIAL_BACKOFF_SECS <= backoff <= MAX_BACKOFF_SECS,
        follows(end, backoff, r),
    ensures
        INITIAL_BACKOFF_SECS <= r.backoff_secs <= MAX_BACKOFF_SECS,
        end is Clean ==> r.backoff_secs == INITIAL_BACKOFF_SECS,
        end is Disconnected ==> r.backoff_secs >= backoff,
{
}

/// A broken connection is always taken up again, and a rejected token never is.
pub proof fn law_only_rejection_and_failure_end_the_run(
    end: SessionEnd,
    backoff: u64,
    r: SessionStep,
)
    requires
        follows(end, backoff, r),
    ensures
        r.wait_secs is None <==> match end {
            SessionEnd::Response { status, retry_after } => status == 401 || status == 403,
            SessionEnd::Fatal { message } => true,
            _ => false,
        },
{
}

/// A change counter means the same as a number and as text.
pub proof fn law_lsn_number_and_text_agree(n: u64, s: String)
    requires
        s@ == numbers::dec_text(n as nat),
    ensures
        lsn_value(Lsn::Text(s)) == lsn_value(Lsn::Number(Some(n))),
{
    numbers::law_print_then_parse(n as nat, u64::MAX as nat);
}

/// The event asks for something exactly where it is final, could be read, and is
/// for a safe path within the subscription: below a root, if there are roots, and
/// below no exclude. A delete removes that very path, anything else fetches it.
pub proof fn law_only_events_in_scope_act(
    consumer: SseConsumer,
    event_type: &str,
    envelope: Option<&Envelope>,
    r: EventAction,
)
    requires
        call_ensures(SseConsumer::on_event, (&consumer, event_type, envelope), r),
    ensures
        r is Ignore <==> event_type@ != "enrichment_complete"@,
        envelope is None ==> r is Ignore || r is Drop,
        match r {
            EventAction::Delete { path } => path@ == envelope->0.path@ && envelope->0.op@
                == "DELETE"@,
            EventAction::Fetch { path, change_seq } => path@ == envelope->0.path@
                && envelope->0.op@ != "DELETE"@ && change_seq == lsn_value(envelope->0.lsn),
            _ => true,
        },
        r is Delete || r is Fetch ==> {
            let path = envelope->0.path@;
            &&& envelope is Some
            &&& scope::safe(path)
            &&& forall|k: int|
                0 <= k < consumer.scope_excludes@.len() ==> !scope::begins_with(
                    path,
                    (#[trigger] consumer.scope_excludes@[k])@,
                )
            &&& consumer.scope_roots@.len() == 0 || exists|k: int|
                0 <= k < consumer.scope_roots@.len() && scope::begins_with(
                    path,
                    (#[trigger] consumer.scope_roots@[k])@,
                )
        },
        event_type@ == "enrichment_complete"@ && envelope is Some && scope::safe(
            envelope->0.path@,
        ) && (forall|k: int|
            0 <= k < consumer.scope_excludes@.len() ==> !scope::begins_with(
                envelope->0.path@,
                (#[trigger] consumer.scope_excludes@[k])@,
            )) && (consumer.scope_roots@.len() == 0 || exists|k: int|
            0 <= k < consumer.scope_roots@.len() && scope::begins_with(
                envelope->0.path@,
                (#[trigger] consumer.scope_roots@[k])@,
            )) ==> r is Delete || r is Fetch,
{
    if envelope is Some {
        scope::law_in_scope_is_by_prefix(
            envelope->0.path@,
            consumer.scope_roots@,
            consumer.scope_excludes@,
        );
    }
}

/// The change counter is the number that was sent, as a number or as decimal text,
/// and zero where none was.
pub proof fn law_change_counter(lsn: &Lsn, r: u64)
    requires
        call_ensures(change_seq_from_lsn, (lsn,), r),
    ensures
        match lsn {
            Lsn::Absent => r == 0,
            Lsn::Other => r == 0,
            Lsn::Number(None) => r == 0,
            Lsn::Number(Some(n)) => r == n,
            Lsn::Text(s) => {
                &&& s@.len() == 0 ==> r == 0
                &&& forall|n: u64| s@ == #[trigger] numbers::dec_text(n as nat) ==> r == n
                &&& forall|i: int|
                    0 < i < s@.len() && !('0' <= #[trigger] s@[i] <= '9') ==> r == 0
            },
        },
{
    if let Lsn::Text(s) = lsn {
        assert forall|n: u64| s@ == #[trigger] numbers::dec_text(n as nat) implies r == n by {
            numbers::law_print_then_parse(n as nat, u64::MAX as nat);
        }
        numbers::law_parsing_is_decimal(s@, '0', u64::MAX as nat);
    }
}

/// After a session that ended well the next begins at once. After a broken one it
/// begins when the pause is over, and the pause doubles up to a minute. A rejected
/// token or another failure ends the run. Where the server says how long to wait,
/// that is how long.
pub proof fn law_what_follows_a_session(end: SessionEnd, backoff: u64, r: SessionStep)
    requires
        call_ensures(after_session, (end, backoff), r),
        1 <= backoff <= 60,
    ensures
        match end {
            SessionEnd::Clean => r.wait_secs == Some(0u64) && r.backoff_secs == 1
                && r.status is Reconnecting,
            SessionEnd::Disconnected => {
                &&& r.wait_secs == Some(backoff)
                &&& r.backoff_secs == (if 2 * backoff <= 60 {
                    2 * backoff
                } else {
                    60
                })
                &&& r.status is Reconnecting
            },
            SessionEnd::Response { status, retry_after } => {
                &&& r.wait_secs is None <==> status == 401 || status == 403
                &&& r.status is AuthFailed <==> status == 401 || status == 403
                &&& status != 401 && status != 403 ==> {
                    &&& r.status is Reconnecting
                    &&& r.backoff_secs == (if 2 * backoff <= 60 {
                        2 * backoff
                    } else {
                        60
                    })
                    &&& retry_after is None ==> r.wait_secs == Some(backoff)
                    &&& retry_after is Some ==> {
                        &&& forall|n: u64|
                            retry_after->0@ == #[trigger] numbers::dec_text(n as nat)
                                ==> r.wait_secs == Some(n)
                        &&& retry_after->0@.len() == 0 ==> r.wait_secs == Some(backoff)
                    }
                }
            },
            SessionEnd::Fatal { message } => r.wait_secs is None && r.status is Error
                && r.message == Some(message),
        },
{
    if let SessionEnd::Response { status: _, retry_after } = end {
        if retry_after is Some {
            let s = retry_after->0@;
            assert forall|n: u64| s == #[trigger] numbers::dec_text(n as nat) implies retry_secs(
                Some(s),
                backoff,
            ) == n by {
                numbers::law_print_then_parse(n as nat, u64::MAX as nat);
            }
        }
    }
}

/// Only an event that asked for something moves the place to resume from, and only
/// to an id of its own.
pub proof fn law_resume_point_follows_acted_events(
    action: &EventAction,
    id: Option<String>,
    last: Option<String>,
    r: Option<String>,
)
    requires
        call_ensures(SseConsumer::resume_from, (action, id, last), r),
    ensures
        r == id || r == last,
        action is Ignore || action is Drop || id is None ==> r == last,
        (action is Delete || action is Fetch) && id is Some && id->0@.len() > 0 ==> r == id,
        id is Some && id->0@.len() == 0 ==> r == last,
{
}

/// The event id is kept without white space at its ends, and an empty file keeps
/// none.
pub proof fn law_kept_event_id_is_trimmed(content: Option<&str>, r: Option<String>)
    requires
        call_ensures(SseConsumer::load_last_event_id, (content,), r),
    ensures
        content is None ==> r is None,
        r is Some ==> r->0@.len() > 0 && crate::note_laws::trims_to(content->0@, r->0@),
        content is Some && r is None ==> crate::note_laws::trims_to(
            content->0@,
            Seq::<char>::empty(),
        ),
{
    if content is Some {
        let t = text::trimmed(content->0@);
        crate::note_laws::law_trimming(content->0@, t);
        if r is None {
            assert(t =~= Seq::<char>::empty());
        }
    }
}

/// The stream is asked for below the server's address, with the token as bearer.
pub proof fn law_stream_is_asked_for_with_the_token(
    consumer: SseConsumer,
    url: String,
    auth: String,
)
    requires
        call_ensures(SseConsumer::events_url, (&consumer,), url),
        call_ensures(SseConsumer::auth_header, (&consumer,), auth),
    ensures
        url@ == consumer.nexus_url@ + "/api/sync/events"@,
        auth@ == "Bearer "@ + consumer.token@,
{
}

/// What a consumer is given it has; and a frame without an operation is an upsert.
pub proof fn law_consumer_is_put_together(
    c: SseConsumer,
    ms: u64,
    p: String,
    a: SseConsumer,
    b: SseConsumer,
    d: SseConsumer,
    op: String,
)
    requires
        call_ensures(SseConsumer::with_liveness_window, (c, ms), a),
        call_ensures(SseConsumer::with_tray_state, (c,), b),
        call_ensures(SseConsumer::with_last_event_id_path, (c, p), d),
        call_ensures(default_op, (), op),
    ensures
        a.liveness_window_ms == ms && a.has_tray == c.has_tray && a.last_event_id_path
            == c.last_event_id_path && a.scope_roots == c.scope_roots && a.scope_excludes
            == c.scope_excludes,
        b.has_tray && b.liveness_window_ms == c.liveness_window_ms && b.last_event_id_path
            == c.last_event_id_path && b.scope_roots == c.scope_roots && b.scope_excludes
            == c.scope_excludes,
        d.last_event_id_path == Some(p) && d.has_tray == c.has_tray && d.liveness_window_ms
            == c.liveness_window_ms && d.scope_roots == c.scope_roots && d.scope_excludes
            == c.scope_excludes,
        op@ == "UPSERT"@,
{
}

} // verus!
