//! How build events are laid out in the columns of the cache backends.
//!
//! A row carries the typed error of a failed build as a value; turning it into
//! the text that is stored, and back, is the backend's business.

use crate::clock;
use crate::digest;
use crate::manifest;
use crate::text;
use crate::types::{
    ActionId, BuildError, BuildErrorView, BuildEvent, BuildEventView, BuildRecord,
};
use vstd::prelude::*;

verus! {

/// The smaller of a number and the greatest that fits in a signed column.
pub open spec fn clamp_i64(n: int) -> int {
    if n > i64::MAX {
        i64::MAX as int
    } else {
        n
    }
}

/// The `(started_at, ended_at)` pair to store for a build that took `ms`, given
/// a clock reading.
///
/// The end is anchored on the clock and the start is the end minus the
/// duration. Where the clock cannot be read, or places the present at or before
/// the build's own duration, the pair is `(0, ms)`, which stands for "no write
/// time".
pub open spec fn stamps_for(ms: u64, now: Option<u128>) -> (int, int) {
    let duration = clamp_i64(ms as int);
    match now {
        None => (0, duration),
        Some(n) => {
            let ended = clamp_i64(n as int);
            if ended <= duration {
                (0, duration)
            } else {
                (ended - duration, ended)
            }
        },
    }
}

/// The `(started_at, ended_at)` pair for a build that took `ms`, given a clock
/// reading.
pub fn stamps_at(ms: u64, now: Option<u128>) -> (r: (i64, i64))
    ensures
        (r.0 as int, r.1 as int) == stamps_for(ms, now),
        r.1 - r.0 == clamp_i64(ms as int),
{
    let duration: i64 = if ms > 0x7fff_ffff_ffff_ffff {
        i64::MAX
    } else {
        ms as i64
    };
    match now {
        None => (0, duration),
        Some(n) => {
            let ended: i64 = if n > 0x7fff_ffff_ffff_ffff {
                i64::MAX
            } else {
                n as i64
            };
            if ended <= duration {
                (0, duration)
            } else {
                (ended - duration, ended)
            }
        },
    }
}

/// The `(started_at, ended_at)` pair for a build that took `ms` and ends now.
pub fn stamps(ms: u64) -> (r: (i64, i64))
    ensures
        r.1 - r.0 == clamp_i64(ms as int),
        exists|now: Option<u128>| (r.0 as int, r.1 as int) == #[trigger] stamps_for(ms, now),
{
    let now = clock::epoch_millis();
    stamps_at(ms, now)
}

/// A row of the `build_events` table.
#[derive(Debug)]
pub struct EventRow {
    /// Primary key.
    pub action_id: String,
    /// Sixty-four hexadecimal digits.
    pub input_hash: String,
    /// Sixty-four hexadecimal digits, for a success.
    pub output_hash: Option<String>,
    /// `success` or `failed`.
    pub status: String,
    /// When the build started, or zero where unknown.
    pub started_at: i64,
    /// When the build ended, or its duration where unknown.
    pub ended_at: i64,
    /// What went wrong, for a failure.
    pub error: Option<BuildError>,
}

/// What an optional error holds.
pub open spec fn opt_error(e: Option<BuildError>) -> Option<BuildErrorView> {
    match e {
        Some(e) => Some(e@),
        None => None,
    }
}

/// What an [`EventRow`] holds.
#[verifier::ext_equal]
pub struct EventRowView {
    /// Primary key.
    pub action_id: Seq<char>,
    /// Input hash.
    pub input_hash: Seq<char>,
    /// Output hash.
    pub output_hash: Option<Seq<char>>,
    /// Status.
    pub status: Seq<char>,
    /// Start.
    pub started_at: int,
    /// End.
    pub ended_at: int,
    /// Error.
    pub error: Option<BuildErrorView>,
}

impl View for EventRow {
    type V = EventRowView;

    open spec fn view(&self) -> EventRowView {
        EventRowView {
            action_id: self.action_id@,
            input_hash: self.input_hash@,
            output_hash: manifest::opt_text(self.output_hash),
            status: self.status@,
            started_at: self.started_at as int,
            ended_at: self.ended_at as int,
            error: opt_error(self.error),
        }
    }
}

/// The row of an event.
pub open spec fn row_of(e: BuildEventView, now: Option<u128>) -> EventRowView {
    let stamps = stamps_for(e.ms(), now);
    match e {
        BuildEventView::Success { id, input, output, .. } => EventRowView {
            action_id: id,
            input_hash: digest::hex_text(input),
            output_hash: Some(digest::hex_text(output)),
            status: "success"@,
            started_at: stamps.0,
            ended_at: stamps.1,
            error: None,
        },
        BuildEventView::Failed { id, input, error, .. } => EventRowView {
            action_id: id,
            input_hash: digest::hex_text(input),
            output_hash: None,
            status: "failed"@,
            started_at: stamps.0,
            ended_at: stamps.1,
            error: Some(error),
        },
    }
}

/// The row of an event, given a clock reading.
pub fn encode_row_at(event: &BuildEvent, now: Option<u128>) -> (r: EventRow)
    ensures
        r@ == row_of(event@, now),
{
    match event {
        BuildEvent::Success { id, input, output, ms } => {
            let (started_at, ended_at) = stamps_at(*ms, now);
            EventRow {
                action_id: id.0.clone(),
                input_hash: input.to_string(),
                output_hash: Some(output.to_string()),
                status: "success".to_owned(),
                started_at,
                ended_at,
                error: None,
            }
        },
        BuildEvent::Failed { id, input, error, ms } => {
            let (started_at, ended_at) = stamps_at(*ms, now);
            EventRow {
                action_id: id.0.clone(),
                input_hash: input.to_string(),
                output_hash: None,
                status: "failed".to_owned(),
                started_at,
                ended_at,
                error: Some(error.clone()),
            }
        },
    }
}

/// The row of an event that ends now.
pub fn encode_row(event: &BuildEvent) -> (r: EventRow)
    ensures
        exists|now: Option<u128>| r@ == #[trigger] row_of(event@, now),
{
    let now = clock::epoch_millis();
    encode_row_at(event, now)
}

/// A text that stands for a 256-bit hash.
pub open spec fn is_hash_text(s: Seq<char>) -> bool {
    digest::is_hex(s) && s.len() == 64
}

/// What an [`Option<BuildRecord>`] holds: the event and when it was recorded.
pub open spec fn record_view(r: Option<BuildRecord>) -> Option<(BuildEventView, Option<u64>)> {
    match r {
        Some(rec) => Some((rec.event@, rec.recorded_at)),
        None => None,
    }
}

/// What a row says about the action `id`: the event and when it was recorded.
///
/// Nothing where a hash is malformed. A failure whose error cannot be read back
/// counts as cancelled. A row whose start is zero has no date.
pub open spec fn record_of(id: Seq<char>, row: EventRowView) -> Option<
    (BuildEventView, Option<u64>),
> {
    let elapsed = row.ended_at - row.started_at;
    let ms = (if elapsed < 0 {
        0
    } else {
        elapsed
    }) as u64;
    let recorded_at = if row.started_at == 0 || row.ended_at < 0 {
        None
    } else {
        Some(row.ended_at as u64)
    };
    if !is_hash_text(row.input_hash) {
        None
    } else {
        let input = digest::hex_bytes(row.input_hash);
        if row.status == "success"@ {
            match row.output_hash {
                Some(out) => if is_hash_text(out) {
                    Some(
                        (
                            BuildEventView::Success {
                                id,
                                input,
                                output: digest::hex_bytes(out),
                                ms,
                            },
                            recorded_at,
                        ),
                    )
                } else {
                    None
                },
                None => None,
            }
        } else {
            Some(
                (
                    BuildEventView::Failed {
                        id,
                        input,
                        error: match row.error {
                            Some(e) => e,
                            None => BuildErrorView::Cancelled,
                        },
                        ms,
                    },
                    recorded_at,
                ),
            )
        }
    }
}

/// What a row says about the action `id`.
pub fn decode_row(id: &ActionId, row: &EventRow) -> (r: Option<BuildRecord>)
    ensures
        record_view(r) == record_of(id@, row@),
{
    let elapsed: i128 = row.ended_at as i128 - row.started_at as i128;
    let ms: u64 = if elapsed < 0 {
        0
    } else {
        elapsed as u64
    };
    let recorded_at: Option<u64> = if row.started_at == 0 || row.ended_at < 0 {
        None
    } else {
        Some(row.ended_at as u64)
    };
    let input = match digest::parse_sha256(&row.input_hash) {
        Some(h) => h,
        None => {
            return None;
        },
    };
    if text::text_eq(&row.status, "success") {
        match &row.output_hash {
            None => None,
            Some(out) => match digest::parse_sha256(out) {
                None => None,
                Some(output) => Some(
                    BuildRecord {
                        event: BuildEvent::Success { id: id.clone(), input, output, ms },
                        recorded_at,
                    },
                ),
            },
        }
    } else {
        let error = match &row.error {
            Some(e) => e.clone(),
            None => BuildError::Cancelled,
        };
        Some(
            BuildRecord {
                event: BuildEvent::Failed { id: id.clone(), input, error, ms },
                recorded_at,
            },
        )
    }
}

/// An event whose hashes are 256 bits long.
pub open spec fn sound_event(e: BuildEventView) -> bool {
    match e {
        BuildEventView::Success { input, output, .. } => input.len() == 32 && output.len() == 32,
        BuildEventView::Failed { input, .. } => input.len() == 32,
    }
}

/// Reading back the row of an event gives the event, whatever the clock said:
/// hashes, error and duration survive. The one loss is a duration beyond what a
/// signed column holds.
pub proof fn row_round_trip(e: BuildEventView, now: Option<u128>)
    requires
        sound_event(e),
        e.ms() <= i64::MAX,
    ensures
        record_of(e.id(), row_of(e, now)) matches Some(rec) && rec.0 == e,
{
    reveal_strlit("success");
    reveal_strlit("failed");
    assert("success"@ != "failed"@) by {
        assert("success"@.len() == 7);
        assert("failed"@.len() == 6);
    }
    match e {
        BuildEventView::Success { input, output, .. } => {
            digest::hex_round_trip(input);
            digest::hex_round_trip(output);
        },
        BuildEventView::Failed { input, .. } => {
            digest::hex_round_trip(input);
        },
    }
}

/// A row is dated exactly when the clock could be read and stood after the
/// build's own duration; the date is then the clock's.
pub proof fn row_date(e: BuildEventView, now: Option<u128>)
    requires
        sound_event(e),
        e.ms() <= i64::MAX,
    ensures
        record_of(e.id(), row_of(e, now)) matches Some(rec) && rec.1 == (if now is Some
            && clamp_i64(now->0 as int) > e.ms() {
            Some(clamp_i64(now->0 as int) as u64)
        } else {
            None
        }),
{
    row_round_trip(e, now);
}

/// A row written with its start pinned to zero keeps its duration and has no date.
pub proof fn undated_row(id: Seq<char>, row: EventRowView)
    requires
        row.started_at == 0,
        0 <= row.ended_at <= i64::MAX,
        record_of(id, row) is Some,
    ensures
        record_of(id, row) matches Some(rec) && rec.0.ms() == row.ended_at && rec.1 is None,
{
}

} // verus!
