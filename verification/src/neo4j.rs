//! The graph-database cache backend: connection settings, redaction of error
//! messages, and the layout of an event.

use crate::cache::{CacheError, CacheErrorView};
use crate::digest;
use crate::rows;
use crate::text;
use crate::types::{
    ActionId, BuildError, BuildErrorView, BuildEvent, BuildEventView, BuildRecord,
};
use vstd::prelude::*;

verus! {

/// Name of the environment variable with the connection URI.
pub const ENV_URI: &'static str = "REPOLITH_NEO4J_URI";

/// Name of the environment variable with the user name.
pub const ENV_USER: &'static str = "REPOLITH_NEO4J_USER";

/// Name of the environment variable with the password.
pub const ENV_PASS: &'static str = "REPOLITH_NEO4J_PASS";

/// Seconds that the initial connectivity check may take.
pub const CONNECT_TIMEOUT_SECS: u64 = 5;

/// Connection settings.
pub struct Neo4jConfig {
    /// Bolt URI, e.g. `bolt://localhost:7687`.
    pub uri: String,
    /// Username.
    pub user: String,
    /// Password. Held only long enough to open the driver; never logged.
    pub pass: String,
}

/// The error for a missing variable: its name, never a value.
pub open spec fn missing_var(name: Seq<char>) -> CacheErrorView {
    CacheErrorView::Backend("neo4j cache backend requires the `"@ + name + "` env var"@)
}

fn missing_var_error(name: &str) -> (r: CacheError)
    ensures
        r@ == missing_var(name@),
{
    let mut s = "neo4j cache backend requires the `".to_owned();
    s.append(name);
    s.append("` env var");
    CacheError::Backend(s)
}

impl Neo4jConfig {
    /// The connection settings, given what the environment holds under
    /// [`ENV_URI`], [`ENV_USER`] and [`ENV_PASS`]. All three are required; the
    /// first that is missing is named.
    pub fn from_vars(uri: Option<String>, user: Option<String>, pass: Option<String>) -> (r: Result<
        Neo4jConfig,
        CacheError,
    >)
        ensures
            match r {
                Ok(cfg) => uri == Some(cfg.uri) && user == Some(cfg.user) && pass == Some(cfg.pass),
                Err(e) => if uri is None {
                    e@ == missing_var(ENV_URI@)
                } else if user is None {
                    e@ == missing_var(ENV_USER@)
                } else {
                    pass is None && e@ == missing_var(ENV_PASS@)
                },
            },
    {
        match uri {
            None => Err(missing_var_error(ENV_URI)),
            Some(uri) => match user {
                None => Err(missing_var_error(ENV_USER)),
                Some(user) => match pass {
                    None => Err(missing_var_error(ENV_PASS)),
                    Some(pass) => Ok(Neo4jConfig { uri, user, pass }),
                },
            },
        }
    }
}

/// A message with every occurrence of the password replaced.
pub open spec fn redacted(msg: Seq<char>, pass: Seq<char>) -> Seq<char> {
    if pass.len() == 0 {
        msg
    } else {
        text::replaced(msg, pass, "***"@)
    }
}

/// Replaces any occurrence of the password in `msg`: drivers sometimes echo
/// connection strings back in error text.
pub fn redact(msg: &str, pass: &str) -> (r: String)
    ensures
        r@ == redacted(msg@, pass@),
{
    if pass.is_empty() {
        msg.to_owned()
    } else {
        text::replace_all(msg, pass, "***")
    }
}

/// What went wrong while connecting.
pub enum ConnectFailure {
    /// The driver could not be constructed. Carries its message.
    Connect(String),
    /// The ping failed. Carries the driver's message.
    Ping(String),
    /// The server did not answer in time.
    Timeout,
}

/// What happened, before redaction.
pub open spec fn connect_text(uri: Seq<char>, f: ConnectFailure) -> Seq<char> {
    match f {
        ConnectFailure::Connect(msg) => "neo4j connect failed for "@ + uri + ": "@ + msg@,
        ConnectFailure::Ping(msg) => "neo4j ping failed for "@ + uri + ": "@ + msg@,
        ConnectFailure::Timeout => "neo4j unreachable at "@ + uri + " (timed out after "@
            + text::dec_text(CONNECT_TIMEOUT_SECS as nat) + "s)"@,
    }
}

/// The error to report for a failed connection.
pub open spec fn connect_failure(
    uri: Seq<char>,
    pass: Seq<char>,
    f: ConnectFailure,
) -> CacheErrorView {
    CacheErrorView::Backend(redacted(connect_text(uri, f), pass))
}

/// The error to report for a failed connection. All of it is redacted: both the
/// driver's message and the URI may hold the password.
pub fn connect_error(cfg: &Neo4jConfig, failure: &ConnectFailure) -> (r: CacheError)
    ensures
        r@ == connect_failure(cfg.uri@, cfg.pass@, *failure),
{
    let s = match failure {
        ConnectFailure::Connect(msg) => {
            let mut s = "neo4j connect failed for ".to_owned();
            s.append(&cfg.uri);
            s.append(": ");
            s.append(msg);
            s
        },
        ConnectFailure::Ping(msg) => {
            let mut s = "neo4j ping failed for ".to_owned();
            s.append(&cfg.uri);
            s.append(": ");
            s.append(msg);
            s
        },
        ConnectFailure::Timeout => {
            let mut s = "neo4j unreachable at ".to_owned();
            s.append(&cfg.uri);
            s.append(" (timed out after ");
            s.append(&text::dec(CONNECT_TIMEOUT_SECS));
            s.append("s)");
            s
        },
    };
    CacheError::Backend(redact(&s, &cfg.pass))
}

/// A password without `*` occurs nowhere in the error for a failed connection.
pub proof fn password_never_appears(uri: Seq<char>, pass: Seq<char>, f: ConnectFailure)
    requires
        pass.len() > 0,
        !pass.contains('*'),
    ensures
        connect_failure(uri, pass, f) matches CacheErrorView::Backend(msg) && !text::occurs_in(
            msg,
            pass,
        ),
{
    reveal_strlit("***");
    assert forall|i: int, j: int|
        0 <= i < pass.len() && 0 <= j < "***"@.len() implies #[trigger] pass[i]
        != #[trigger] "***"@[j] by {
        assert(pass.contains(pass[i]));
    }
    text::replaced_is_gone(connect_text(uri, f), pass, "***"@);
}

/// The properties that an event is written with.
#[derive(Debug)]
pub struct EventProps {
    /// The action.
    pub id: String,
    /// `success` or `failed`.
    pub kind: String,
    /// Input hash in hexadecimal.
    pub input: String,
    /// Output hash in hexadecimal; empty for a failure.
    pub output: String,
    /// What went wrong, for a failure.
    pub error: Option<BuildError>,
    /// Duration in milliseconds.
    pub ms: i64,
}

/// What an event is written with.
pub open spec fn props_match(p: EventProps, e: BuildEventView) -> bool {
    &&& p.id@ == e.id()
    &&& p.ms == rows::clamp_i64(e.ms() as int)
    &&& match e {
        BuildEventView::Success { input, output, .. } => {
            &&& p.kind@ == "success"@
            &&& p.input@ == digest::hex_text(input)
            &&& p.output@ == digest::hex_text(output)
            &&& p.error is None
        },
        BuildEventView::Failed { input, error, .. } => {
            &&& p.kind@ == "failed"@
            &&& p.input@ == digest::hex_text(input)
            &&& p.output@ == Seq::<char>::empty()
            &&& rows::opt_error(p.error) == Some(error)
        },
    }
}

fn clamp_ms(ms: u64) -> (r: i64)
    ensures
        r == rows::clamp_i64(ms as int),
{
    if ms > 0x7fff_ffff_ffff_ffff {
        i64::MAX
    } else {
        ms as i64
    }
}

/// The properties that an event is written with.
pub fn upsert_props(event: &BuildEvent) -> (r: EventProps)
    ensures
        props_match(r, event@),
{
    match event {
        BuildEvent::Success { id, input, output, ms } => EventProps {
            id: id.0.clone(),
            kind: "success".to_owned(),
            input: input.to_string(),
            output: output.to_string(),
            error: None,
            ms: clamp_ms(*ms),
        },
        BuildEvent::Failed { id, input, error, ms } => EventProps {
            id: id.0.clone(),
            kind: "failed".to_owned(),
            input: input.to_string(),
            output: String::new(),
            error: Some(error.clone()),
            ms: clamp_ms(*ms),
        },
    }
}

/// The properties of a stored event, each as far as it could be read.
#[derive(Debug)]
pub struct StoredProps {
    /// `success` or anything else for a failure.
    pub kind: Option<String>,
    /// Input hash in hexadecimal.
    pub input: Option<String>,
    /// Output hash in hexadecimal.
    pub output: Option<String>,
    /// The stored error: nothing where the property is missing, an inner
    /// nothing where it could not be read back.
    pub error: Option<Option<BuildError>>,
    /// Duration in milliseconds.
    pub ms: Option<i64>,
    /// Milliseconds since the Unix epoch.
    pub recorded_at: Option<i64>,
}

/// A duration property; a negative one counts as zero.
pub open spec fn stored_ms(ms: i64) -> u64 {
    if ms < 0 {
        0
    } else {
        ms as u64
    }
}

/// A write time; a missing, negative or zero one means "unknown".
pub open spec fn stored_date(t: Option<i64>) -> Option<u64> {
    match t {
        Some(t) => if t <= 0 {
            None
        } else {
            Some(t as u64)
        },
        None => None,
    }
}

/// What the stored properties say about the action `id`. Nothing where a
/// property that the event needs is missing or malformed.
pub open spec fn stored_record(id: Seq<char>, p: StoredProps) -> Option<
    (BuildEventView, Option<u64>),
> {
    if p.kind is None || p.input is None || p.ms is None || !rows::is_hash_text(p.input->0@) {
        None
    } else {
        let input = digest::hex_bytes(p.input->0@);
        let ms = stored_ms(p.ms->0);
        if p.kind->0@ == "success"@ {
            if p.output is None || !rows::is_hash_text(p.output->0@) {
                None
            } else {
                Some(
                    (
                        BuildEventView::Success {
                            id,
                            input,
                            output: digest::hex_bytes(p.output->0@),
                            ms,
                        },
                        stored_date(p.recorded_at),
                    ),
                )
            }
        } else {
            match p.error {
                None => None,
                Some(e) => Some(
                    (
                        BuildEventView::Failed {
                            id,
                            input,
                            error: match e {
                                Some(e) => e@,
                                None => BuildErrorView::Cancelled,
                            },
                            ms,
                        },
                        stored_date(p.recorded_at),
                    ),
                ),
            }
        }
    }
}

/// What the stored properties say about the action `id`.
pub fn decode_props(id: &ActionId, p: &StoredProps) -> (r: Option<BuildRecord>)
    ensures
        rows::record_view(r) == stored_record(id@, *p),
{
    let kind = match &p.kind {
        Some(k) => k,
        None => {
            return None;
        },
    };
    let input = match &p.input {
        Some(s) => match digest::parse_sha256(s) {
            Some(h) => h,
            None => {
                return None;
            },
        },
        None => {
            return None;
        },
    };
    let ms: u64 = match p.ms {
        Some(ms) => if ms < 0 {
            0
        } else {
            ms as u64
        },
        None => {
            return None;
        },
    };
    let recorded_at: Option<u64> = match p.recorded_at {
        Some(t) => if t <= 0 {
            None
        } else {
            Some(t as u64)
        },
        None => None,
    };
    if text::text_eq(kind, "success") {
        match &p.output {
            None => None,
            Some(out) => match digest::parse_sha256(out) {
                None => None,
                Some(output) => Some(
                    BuildRecord {
                        event: BuildEvent::Success { id: id.clone(), input, output, ms },
                        recorded_at,
                    },
                ),
            },
        }
    } else {
        match &p.error {
            None => None,
            Some(e) => {
                let error = match e {
                    Some(e) => e.clone(),
                    None => BuildError::Cancelled,
                };
                Some(
                    BuildRecord {
                        event: BuildEvent::Failed { id: id.clone(), input, error, ms },
                        recorded_at,
                    },
                )
            },
        }
    }
}

/// Reading back the properties that an event was written with gives the event.
/// The one loss is a duration beyond what a signed property holds.
pub proof fn props_round_trip(e: BuildEventView, p: EventProps, s: StoredProps)
    requires
        rows::sound_event(e),
        e.ms() <= i64::MAX,
        props_match(p, e),
        s.kind == Some(p.kind),
        s.input == Some(p.input),
        s.output == Some(p.output),
        s.error == Some(p.error),
        s.ms == Some(p.ms),
    ensures
        stored_record(e.id(), s) matches Some(rec) && rec.0 == e && rec.1 == stored_date(
            s.recorded_at,
        ),
{
    reveal_strlit("success");
    reveal_strlit("failed");
    assert("success"@.len() == 7 && "failed"@.len() == 6);
    match e {
        BuildEventView::Success { input, output, .. } => {
            digest::hex_round_trip(input);
            digest::hex_round_trip(output);
        },
        BuildEventView::Failed { input, .. } => {
            digest::hex_round_trip(input);
        },
    }
}

} // verus!
