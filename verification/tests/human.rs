use repolith::clock::now_ms;
use repolith::human::{human_ago, human_ago_at, human_ms};

#[test]
fn main_durations_read_like_durations() {
    assert_eq!(human_ms(0), "0 ms");
    assert_eq!(human_ms(999), "999 ms");
    assert_eq!(human_ms(1000), "1.0 s");
    assert_eq!(human_ms(26_800), "26.8 s");
    assert_eq!(human_ms(59_999), "59.9 s");
    assert_eq!(human_ms(60_000), "1 min 0 s");
    assert_eq!(human_ms(3_725_000), "62 min 5 s");
}

#[test]
fn progress_durations_read_like_durations() {
    assert_eq!(human_ms(999), "999 ms");
    assert_eq!(human_ms(26_800), "26.8 s");
    assert_eq!(human_ms(161_000), "2 min 41 s");
}

#[test]
fn ages_round_to_the_nearest_sensible_unit() {
    let ago = |secs: u64| human_ago(now_ms().saturating_sub(secs * 1000));
    assert_eq!(ago(0), "just now");
    assert_eq!(ago(1), "1 second ago");
    assert_eq!(ago(45), "45 seconds ago");
    // Past one and a half of a unit the next one is used.
    assert_eq!(ago(120), "2 minutes ago");
    assert_eq!(ago(3600), "60 minutes ago");
    assert_eq!(ago(5400), "2 hours ago");
    assert_eq!(ago(86_400 * 3), "3 days ago");
}

/// A clock that runs ahead must not turn into a nonsense age.
#[test]
fn a_future_timestamp_reads_as_just_now() {
    assert_eq!(human_ago(now_ms() + 3_600_000), "just now");
}

#[test]
fn nothing_reads_as_ninety_of_a_small_unit() {
    let ago = |secs: u64| human_ago_at(secs * 1000, 0);
    assert_eq!(ago(89), "89 seconds ago");
    assert_eq!(ago(90), "2 minutes ago");
    assert_eq!(ago(5369), "89 minutes ago");
    assert_eq!(ago(5370), "1 hour ago");
    assert_eq!(ago(5399), "1 hour ago");
    assert_eq!(ago(129_599), "36 hours ago");
    assert_eq!(ago(129_600), "2 days ago");
    assert_eq!(ago(u64::MAX / 1000), "213503982335 days ago");
}
