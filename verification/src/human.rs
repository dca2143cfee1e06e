//! Durations and ages as people read them.

use crate::clock;
use crate::text;
use vstd::prelude::*;

verus! {

/// A duration: milliseconds, tenths of a second, or minutes and seconds.
pub open spec fn ms_text(ms: u64) -> Seq<char> {
    if ms < 1000 {
        text::dec_text(ms as nat) + " ms"@
    } else if ms < 60_000 {
        text::dec_text((ms / 1000) as nat) + "."@ + text::dec_text(((ms % 1000) / 100) as nat)
            + " s"@
    } else {
        text::dec_text((ms / 60_000) as nat) + " min "@ + text::dec_text(
            ((ms % 60_000) / 1000) as nat,
        ) + " s"@
    }
}

/// A duration that reads at a glance.
pub fn human_ms(ms: u64) -> (r: String)
    ensures
        r@ == ms_text(ms),
{
    if ms < 1000 {
        let mut s = text::dec(ms);
        s.append(" ms");
        s
    } else if ms < 60_000 {
        let mut s = text::dec(ms / 1000);
        s.append(".");
        s.append(&text::dec((ms % 1000) / 100));
        s.append(" s");
        s
    } else {
        let mut s = text::dec(ms / 60_000);
        s.append(" min ");
        s.append(&text::dec((ms % 60_000) / 1000));
        s.append(" s");
        s
    }
}

/// A unit of age.
#[derive(Clone, Copy, Debug, PartialEq, Eq)]
pub enum AgeUnit {
    /// Seconds.
    Second,
    /// Minutes.
    Minute,
    /// Hours.
    Hour,
    /// Days.
    Day,
}

/// The unit in seconds.
pub open spec fn unit_secs(u: AgeUnit) -> int {
    match u {
        AgeUnit::Second => 1,
        AgeUnit::Minute => 60,
        AgeUnit::Hour => 3600,
        AgeUnit::Day => 86_400,
    }
}

/// The unit in words.
pub open spec fn unit_text(u: AgeUnit) -> Seq<char> {
    match u {
        AgeUnit::Second => "second"@,
        AgeUnit::Minute => "minute"@,
        AgeUnit::Hour => "hour"@,
        AgeUnit::Day => "day"@,
    }
}

/// An age in seconds as a number of units: rounded to the nearest one, in a
/// greater unit once the number would reach one and a half of that.
pub open spec fn age(secs: int) -> (nat, AgeUnit) {
    if secs < 90 {
        (secs as nat, AgeUnit::Second)
    } else if (secs + 30) / 60 < 90 {
        (((secs + 30) / 60) as nat, AgeUnit::Minute)
    } else if secs < 129_600 {
        (((secs + 1800) / 3600) as nat, AgeUnit::Hour)
    } else {
        (((secs + 43_200) / 86_400) as nat, AgeUnit::Day)
    }
}

/// An age is off by at most half a unit, and never reads as ninety minutes or
/// seconds.
pub proof fn ages_round_well(secs: int)
    requires
        secs >= 0,
    ensures
        ({
            let (n, u) = age(secs);
            &&& -unit_secs(u) <= 2 * (n * unit_secs(u) - secs) <= unit_secs(u)
            &&& u == AgeUnit::Second || u == AgeUnit::Minute ==> n < 90
            &&& secs > 0 ==> n > 0
        }),
{
    let (n, u) = age(secs);
    match u {
        AgeUnit::Second => {
            assert(n * unit_secs(u) == n * 1);
        },
        AgeUnit::Minute => {
            assert(n * unit_secs(u) == n * 60);
        },
        AgeUnit::Hour => {
            assert(n * unit_secs(u) == n * 3600);
        },
        AgeUnit::Day => {
            assert(n * unit_secs(u) == n * 86_400);
        },
    }
}

/// The age of a moment seen from another. A moment in the future is as old as
/// one that has just passed.
pub open spec fn age_text(now_ms: u64, recorded_ms: u64) -> Seq<char> {
    let secs = if now_ms > recorded_ms {
        (now_ms - recorded_ms) / 1000
    } else {
        0
    };
    let (n, u) = age(secs);
    if secs == 0 {
        "just now"@
    } else if n == 1 {
        text::dec_text(n) + " "@ + unit_text(u) + " ago"@
    } else {
        text::dec_text(n) + " "@ + unit_text(u) + "s ago"@
    }
}

/// The age of `recorded_ms` at `now_ms`.
pub fn human_ago_at(now_ms: u64, recorded_ms: u64) -> (r: String)
    ensures
        r@ == age_text(now_ms, recorded_ms),
{
    let secs: u64 = now_ms.saturating_sub(recorded_ms) / 1000;
    if secs == 0 {
        return "just now".to_owned();
    }
    let n: u64 = if secs < 90 {
        secs
    } else if (secs + 30) / 60 < 90 {
        (secs + 30) / 60
    } else if secs < 129_600 {
        (secs + 1800) / 3600
    } else {
        (secs + 43_200) / 86_400
    };
    let mut s = text::dec(n);
    s.append(" ");
    if secs < 90 {
        s.append("second");
    } else if (secs + 30) / 60 < 90 {
        s.append("minute");
    } else if secs < 129_600 {
        s.append("hour");
    } else {
        s.append("day");
    }
    if n == 1 {
        s.append(" ago");
    } else {
        s.append("s ago");
    }
    s
}

/// The age of `recorded_ms` by the wall clock.
pub fn human_ago(recorded_ms: u64) -> (r: String)
    ensures
        exists|now_ms: u64| r@ == #[trigger] age_text(now_ms, recorded_ms),
{
    let now: u64 = clock::now_ms();
    human_ago_at(now, recorded_ms)
}

} // verus!
