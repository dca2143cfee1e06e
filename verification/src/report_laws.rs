//! What is said about actions, plans and runs says what they are.

use crate::cli;
use crate::cli_progress;
use crate::digest;
use crate::factory_laws;
use crate::human;
use crate::human::AgeUnit;
use crate::manifest;
use crate::manifest::{ActionEntryView, ManifestView, NodeView};
use crate::path_laws;
use crate::picking;
use crate::plan;
use crate::plan::{ChangeReasonView, PlanView};
use crate::status;
use crate::text;
use crate::text_laws;
use crate::types;
use crate::types::{BuildErrorView, BuildEventView};
use vstd::prelude::*;

verus! {

/// Durations under a second are told in milliseconds, those under a minute in
/// seconds and tenths, and longer ones in minutes and seconds. Nothing is rounded
/// up.
pub proof fn durations_are_told(minutes: u64, seconds: u64, millis: u64)
    requires
        seconds < 60,
        millis < 1000,
        minutes * 60_000 + seconds * 1000 + millis <= u64::MAX,
    ensures
        ({
            let ms = (minutes * 60_000 + seconds * 1000 + millis) as u64;
            &&& minutes == 0 && seconds == 0 ==> human::ms_text(ms) == text::dec_text(millis as nat)
                + " ms"@
            &&& minutes == 0 && seconds > 0 ==> human::ms_text(ms) == text::dec_text(
                seconds as nat,
            ) + "."@ + text::dec_text((millis / 100) as nat) + " s"@
            &&& minutes > 0 ==> human::ms_text(ms) == text::dec_text(minutes as nat) + " min "@
                + text::dec_text(seconds as nat) + " s"@
        }),
{
}

/// A greater unit of age is taken only for ages of at least one and a half of it,
/// up to rounding, and a smaller one only below that.
pub proof fn ages_have_a_fitting_unit(secs: int)
    requires
        secs >= 0,
    ensures
        match human::age(secs).1 {
            AgeUnit::Second => secs < 90,
            AgeUnit::Minute => 90 <= secs < 5370,
            AgeUnit::Hour => 5370 <= secs < 129_600,
            AgeUnit::Day => 129_600 <= secs,
        },
{
}

/// An age is told as a number of units, in the singular for one. What has not
/// happened yet, or less than a second ago, is just now.
pub proof fn ages_are_told(now: u64, then_ms: u64)
    ensures
        now < then_ms + 1000 ==> human::age_text(now, then_ms) == "just now"@,
        now >= then_ms + 1000 ==> ({
            let (n, u) = human::age((now - then_ms) / 1000);
            let word = match u {
                AgeUnit::Second => "second"@,
                AgeUnit::Minute => "minute"@,
                AgeUnit::Hour => "hour"@,
                AgeUnit::Day => "day"@,
            };
            human::age_text(now, then_ms) == text::dec_text(n) + " "@ + word + (if n == 1 {
                " ago"@
            } else {
                "s ago"@
            })
        }),
{
}

/// The variables that reach a subprocess are these and no others.
pub proof fn allowed_variables_are_these(name: Seq<char>)
    ensures
        cli::allowed_names().contains(name) <==> {
            ||| name == "PATH"@
            ||| name == "HOME"@
            ||| name == "USER"@
            ||| name == "SHELL"@
            ||| name == "TMPDIR"@
            ||| name == "CARGO_HOME"@
            ||| name == "RUSTUP_HOME"@
            ||| name == "RUSTUP_TOOLCHAIN"@
            ||| name == "RUST_LOG"@
            ||| name == "RUST_BACKTRACE"@
            ||| name == "TZ"@
            ||| name == "LANG"@
            ||| name == "LC_ALL"@
            ||| name == "SSH_AUTH_SOCK"@
            ||| name == "XDG_CONFIG_HOME"@
        },
{
    let a = cli::allowed_names();
    assert(a[0] == "PATH"@ && a[1] == "HOME"@ && a[2] == "USER"@ && a[3] == "SHELL"@);
    assert(a[4] == "TMPDIR"@ && a[5] == "CARGO_HOME"@ && a[6] == "RUSTUP_HOME"@);
    assert(a[7] == "RUSTUP_TOOLCHAIN"@ && a[8] == "RUST_LOG"@ && a[9] == "RUST_BACKTRACE"@);
    assert(a[10] == "TZ"@ && a[11] == "LANG"@ && a[12] == "LC_ALL"@);
    assert(a[13] == "SSH_AUTH_SOCK"@ && a[14] == "XDG_CONFIG_HOME"@);
}

proof fn filter_picks<A>(s: Seq<A>, pred: spec_fn(A) -> bool) -> (kept: Seq<int>)
    ensures
        picking::picks(kept, s.len(), |i: int| pred(s[i])),
        s.filter(pred).len() == kept.len(),
        forall|k: int| 0 <= k < kept.len() ==> #[trigger] s.filter(pred)[k] == s[kept[k]],
    decreases s.len(),
{
    reveal(Seq::filter);
    let keep = |i: int| pred(s[i]);
    if s.len() == 0 {
        Seq::empty()
    } else {
        let before = s.drop_last();
        let n = before.len();
        let kept = filter_picks(before, pred);
        picking::picks_agree(kept, n, |i: int| pred(before[i]), keep);
        picking::picks_grow(kept, n, keep);
        let more = if keep(n as int) {
            kept.push(n as int)
        } else {
            kept
        };
        assert forall|k: int| 0 <= k < more.len() implies #[trigger] s.filter(pred)[k]
            == s[more[k]] by {
            if k < kept.len() {
                assert(before.filter(pred)[k] == before[kept[k]]);
            }
        }
        more
    }
}

/// Every allowed variable passes with its value, each once and in order.
pub proof fn every_allowed_variable_passes(vars: Seq<(Seq<char>, Seq<char>)>) -> (kept: Seq<int>)
    ensures
        picking::picks(kept, vars.len(), |i: int| cli::allowed_names().contains(vars[i].0)),
        cli::filtered(vars).len() == kept.len(),
        forall|k: int|
            0 <= k < kept.len() ==> #[trigger] cli::filtered(vars)[k] == vars[kept[k]],
{
    let pred = |v: (Seq<char>, Seq<char>)| cli::allowed_names().contains(v.0);
    let kept = filter_picks(vars, pred);
    picking::picks_agree(
        kept,
        vars.len(),
        |i: int| pred(vars[i]),
        |i: int| cli::allowed_names().contains(vars[i].0),
    );
    kept
}

/// Every id that holds the filter matches it, each once and in order; no other does.
pub proof fn every_matching_id_is_found(ids: Seq<Seq<char>>, filter: Seq<char>) -> (kept: Seq<int>)
    ensures
        picking::picks(kept, ids.len(), |i: int| text::occurs_in(ids[i], filter)),
        cli::matching_ids(ids, filter).len() == kept.len(),
        forall|k: int|
            0 <= k < kept.len() ==> #[trigger] cli::matching_ids(ids, filter)[k] == ids[kept[k]],
{
    let pred = |id: Seq<char>| text::occurs_in(id, filter);
    let kept = filter_picks(ids, pred);
    picking::picks_agree(
        kept,
        ids.len(),
        |i: int| pred(ids[i]),
        |i: int| text::occurs_in(ids[i], filter),
    );
    kept
}

/// A filter without a match is named.
pub proof fn missing_match_is_named(filter: Seq<char>)
    ensures
        text::occurs_in(cli::no_match_text(filter), filter),
{
    path_laws::part_of(
        "no action id contains `"@,
        filter,
        "` — run `repolith status` with no argument to list them"@,
    );
}

/// More verbosity logs more of the program's own modules, up to everything; what
/// others log stays at warnings.
#[verifier::rlimit(40)]
pub proof fn verbosity_raises_the_level(verbosity: u8)
    ensures
        ({
            let level = if verbosity == 0 {
                "info"@
            } else if verbosity == 1 {
                "debug"@
            } else {
                "trace"@
            };
            let t = cli::log_filter_text(verbosity);
            &&& "warn,"@.is_prefix_of(t)
            &&& text::occurs_in(t, "repolith="@ + level)
            &&& text::occurs_in(t, "repolith_engine="@ + level)
            &&& text::occurs_in(t, "repolith_cache="@ + level)
            &&& text::occurs_in(t, "repolith_actions="@ + level)
        }),
{
    let l = if verbosity == 0 {
        "info"@
    } else if verbosity == 1 {
        "debug"@
    } else {
        "trace"@
    };
    let none = Seq::<char>::empty();
    let w = "warn,"@;
    let c = ","@;
    let p = "repolith="@ + l;
    let e = "repolith_engine="@ + l;
    let k = "repolith_cache="@ + l;
    let a = "repolith_actions="@ + l;
    log_names();
    let t = cli::log_filter_text(verbosity);
    assert(t =~= w + p + (c + e + c + k + c + a));
    path_laws::part_of(w, p, c + e + c + k + c + a);
    assert(t =~= w + p + c + e + (c + k + c + a));
    path_laws::part_of(w + p + c, e, c + k + c + a);
    assert(t =~= w + p + c + e + c + k + (c + a));
    path_laws::part_of(w + p + c + e + c, k, c + a);
    assert(t =~= w + p + c + e + c + k + c + a + none);
    path_laws::part_of(w + p + c + e + c + k + c, a, none);
    assert(t.subrange(0, w.len() as int) =~= w);
}

proof fn log_names()
    ensures
        "warn,repolith="@ == "warn,"@ + "repolith="@,
        ",repolith_engine="@ == ","@ + "repolith_engine="@,
        ",repolith_cache="@ == ","@ + "repolith_cache="@,
        ",repolith_actions="@ == ","@ + "repolith_actions="@,
{
    reveal_strlit("warn,repolith=");
    reveal_strlit("warn,");
    reveal_strlit("repolith=");
    reveal_strlit(",");
    assert("warn,repolith="@ =~= "warn,"@ + "repolith="@);
    reveal_strlit(",repolith_engine=");
    reveal_strlit("repolith_engine=");
    assert(",repolith_engine="@ =~= ","@ + "repolith_engine="@);
    reveal_strlit(",repolith_cache=");
    reveal_strlit("repolith_cache=");
    assert(",repolith_cache="@ =~= ","@ + "repolith_cache="@);
    reveal_strlit(",repolith_actions=");
    reveal_strlit("repolith_actions=");
    assert(",repolith_actions="@ =~= ","@ + "repolith_actions="@);
}

/// What is said of a reason names what it is about: both hashes by their first eight
/// digits, the moved dependency, the beginning of the failure.
pub proof fn reasons_are_told(from: Seq<u8>, to: Seq<u8>, name: Seq<char>)
    ensures
        plan::reason_text(ChangeReasonView::NoCachedBuild) == "never built"@,
        plan::reason_text(ChangeReasonView::Forced) == "forced"@,
        plan::reason_text(ChangeReasonView::OutputMissing) == "artifact missing"@,
        text::occurs_in(
            plan::reason_text(ChangeReasonView::InputHashChanged { from, to }),
            digest::hex_text(from).take(8) + " -> "@ + digest::hex_text(to).take(8),
        ),
        text::occurs_in(plan::reason_text(ChangeReasonView::UpstreamMoved { dep: name }), name),
        !name.contains('\n') && name.len() <= 72 ==> plan::reason_text(
            ChangeReasonView::PreviousFailure { error: name },
        ) == "previous run failed: "@ + name,
        plan::reason_name(ChangeReasonView::NoCachedBuild) == "NoCachedBuild"@,
        plan::reason_name(ChangeReasonView::Forced) == "Forced"@,
        plan::reason_name(ChangeReasonView::OutputMissing) == "OutputMissing"@,
        plan::reason_name(ChangeReasonView::InputHashChanged { from, to }) == "InputHashChanged"@,
        plan::reason_name(ChangeReasonView::UpstreamMoved { dep: name }) == "UpstreamMoved"@,
        plan::reason_name(ChangeReasonView::PreviousFailure { error: name })
            == "PreviousFailure"@,
{
    let f = digest::hex_text(from).take(8);
    let t = digest::hex_text(to).take(8);
    let m = " -> "@;
    path_laws::part_of("inputs changed ("@, f + m + t, ")"@);
    assert("inputs changed ("@ + (f + m + t) + ")"@ =~= "inputs changed ("@ + f + m + t + ")"@);
    path_laws::part_of("upstream "@, name, " is stale"@);
    if !name.contains('\n') {
        text_laws::first_line_ends_at_the_break(name, Seq::empty());
    }
}

/// What is said of an error holds what the error holds.
pub proof fn build_errors_are_told(s: Seq<char>, code: i32)
    ensures
        text::occurs_in(types::build_error_text(BuildErrorView::UpstreamUnreachable(s)), s),
        text::occurs_in(types::build_error_text(BuildErrorView::Io(s)), s),
        text::occurs_in(
            types::build_error_text(BuildErrorView::CommandFailed { exit_code: code, stderr: s }),
            s,
        ),
        text::occurs_in(
            types::build_error_text(BuildErrorView::CommandFailed { exit_code: code, stderr: s }),
            text::int_text(code as int),
        ),
        types::build_error_text(BuildErrorView::Cancelled) == "Build cancelled"@,
{
    let none = Seq::<char>::empty();
    path_laws::part_of("upstream unreachable: "@, s, none);
    assert("upstream unreachable: "@ + s + none =~= "upstream unreachable: "@ + s);
    path_laws::part_of("IO error: "@, s, none);
    assert("IO error: "@ + s + none =~= "IO error: "@ + s);
    let c = text::int_text(code as int);
    let h = "Command failed: "@;
    let m = ": "@;
    factory_laws::names_both(h, c, m, s, none);
    assert(h + c + (m + s + none) =~= h + c + m + s);
}

/// The short form of an error is one line of bounded length, and the whole error
/// where that fits.
pub proof fn brief_errors_are_short(e: BuildErrorView)
    ensures
        !types::build_error_text(e).contains('\n') && types::build_error_text(e).len() <= 72
            ==> cli_progress::brief_text(e) == types::build_error_text(e),
        cli_progress::brief_text(e).len() <= 73,
        !cli_progress::brief_text(e).contains('\n'),
{
    let t = types::build_error_text(e);
    if !t.contains('\n') {
        text_laws::first_line_ends_at_the_break(t, Seq::empty());
    }
    reveal_strlit("…");
    text::find_from_facts(t, '\n', 0);
    let line = text::first_line_of(t);
    assert forall|i: int| 0 <= i < line.len() implies #[trigger] line[i] != '\n' by {
        assert(line[i] == t[i]);
    }
    let b = cli_progress::brief_text(e);
    assert forall|i: int| 0 <= i < b.len() implies #[trigger] b[i] != '\n' by {
        if i < line.len() && i < 72 {
            assert(b[i] == line[i]);
        }
    }
}

/// Each stale action is explained by a line that names it, why it is stale, and the
/// kind of reason.
pub proof fn stale_actions_are_explained(
    ids: Seq<Seq<char>>,
    reasons: Map<Seq<char>, ChangeReasonView>,
    i: int,
)
    requires
        0 <= i < ids.len(),
    ensures
        cli::reason_lines(ids, reasons).len() == ids.len(),
        text::occurs_in(cli::reason_lines(ids, reasons)[i], ids[i]),
        text::occurs_in(
            cli::reason_lines(ids, reasons)[i],
            plan::reason_text(reasons[ids[i]]),
        ),
        text::occurs_in(
            cli::reason_lines(ids, reasons)[i],
            plan::reason_name(reasons[ids[i]]),
        ),
{
    let id = ids[i];
    let r = plan::reason_text(reasons[id]);
    let n = plan::reason_name(reasons[id]);
    let line = cli::reason_line(id, reasons);
    let a = "• "@;
    let b = ": "@;
    let c = " ["@;
    let d = "]"@;
    factory_laws::names_both(a, id, b, r, c + n + d);
    assert(a + id + (b + r + (c + n + d)) =~= line);
    path_laws::part_of(a + id + b + r + c, n, d);
}

/// What is shown before a run: that nothing is stale, or what is if that was asked
/// for, and last the number of actions if nothing is going to run.
pub proof fn previews_tell_what_would_run(
    ids: Seq<Seq<char>>,
    reasons: Map<Seq<char>, ChangeReasonView>,
    explain: bool,
    dry_run: bool,
)
    ensures
        ({
            let lines = cli::preview_lines(ids, reasons, explain, dry_run);
            let shown = (if ids.len() == 0 {
                1
            } else if explain || dry_run {
                ids.len()
            } else {
                0
            }) as int;
            &&& lines.len() == shown + if dry_run {
                1int
            } else {
                0
            }
            &&& ids.len() == 0 ==> text::begins_with(lines[0], "up to date"@)
            &&& ids.len() > 0 && (explain || dry_run) ==> lines.take(shown)
                == cli::reason_lines(ids, reasons)
            &&& dry_run ==> lines.last() == "dry-run: "@ + text::dec_text(ids.len())
                + " action(s) would run"@
        }),
{
    up_to_date_is_said();
    let lines = cli::preview_lines(ids, reasons, explain, dry_run);
    if ids.len() > 0 && (explain || dry_run) {
        assert(lines.take(ids.len() as int) =~= cli::reason_lines(ids, reasons));
    }
}

proof fn up_to_date_is_said()
    ensures
        text::begins_with("up to date — no stale actions"@, "up to date"@),
        text::begins_with("up to date — 0 stale actions"@, "up to date"@),
{
    reveal_strlit("up to date — no stale actions");
    reveal_strlit("up to date — 0 stale actions");
    reveal_strlit("up to date");
    assert("up to date — no stale actions"@.take(10) =~= "up to date"@);
    assert("up to date — 0 stale actions"@.take(10) =~= "up to date"@);
}

/// Every failure gets a line that names the action and the error, each once and in
/// order. The successes are the rest.
pub proof fn every_failure_gets_a_line(events: Seq<BuildEventView>) -> (kept: Seq<int>)
    ensures
        picking::picks(kept, events.len(), |i: int| events[i] is Failed),
        cli_progress::failure_lines(events).len() == kept.len(),
        cli_progress::ok_count(events) + kept.len() == events.len(),
        forall|k: int|
            #![trigger cli_progress::failure_lines(events)[k]]
            0 <= k < kept.len() ==> (events[kept[k]] matches BuildEventView::Failed { id, error, .. }
                && cli_progress::failure_lines(events)[k] == "  ✗ "@ + id + ": "@
                + cli_progress::brief_text(error)),
    decreases events.len(),
{
    let keep = |i: int| events[i] is Failed;
    if events.len() == 0 {
        Seq::empty()
    } else {
        let before = events.drop_last();
        let n = before.len();
        let kept = every_failure_gets_a_line(before);
        picking::picks_agree(kept, n, |i: int| before[i] is Failed, keep);
        picking::picks_grow(kept, n, keep);
        let more = if keep(n as int) {
            kept.push(n as int)
        } else {
            kept
        };
        let all = cli_progress::failure_lines(events);
        assert forall|k: int| #![trigger all[k]] 0 <= k < more.len() implies (
        events[more[k]] matches BuildEventView::Failed { id, error, .. } && all[k] == "  ✗ "@ + id
            + ": "@ + cli_progress::brief_text(error)) by {
            if k < kept.len() {
                assert(cli_progress::failure_lines(before)[k] == all[k]);
                assert(before[kept[k]] == events[more[k]]);
            }
        }
        more
    }
}

/// The summary of a run counts successes and failures, then lists the failures. A
/// run in which nothing happened has none.
pub proof fn summaries_count_everything(events: Seq<BuildEventView>)
    ensures
        events.len() == 0 ==> cli_progress::summary_lines(events).len() == 0,
        events.len() > 0 ==> {
            let lines = cli_progress::summary_lines(events);
            let failed = cli_progress::failure_lines(events);
            &&& lines[0] == text::dec_text((events.len() - failed.len()) as nat) + " ok, "@
                + text::dec_text(failed.len()) + " failed"@
            &&& lines.skip(1) == failed
        },
{
    let kept = every_failure_gets_a_line(events);
    if events.len() > 0 {
        let lines = cli_progress::summary_lines(events);
        assert(lines.skip(1) =~= cli_progress::failure_lines(events));
    }
}

/// The time since a start, none where the clock went back.
pub proof fn elapsed_is_the_difference(start: u64, now: u64)
    ensures
        now >= start ==> start + cli_progress::elapsed_at(start, now) == now,
        now < start ==> cli_progress::elapsed_at(start, now) == 0,
{
}

/// Lines about running and vanished actions name them, the former with how long they
/// have been running.
pub proof fn progress_lines_name_their_actions(id: Seq<char>, ms: u64)
    ensures
        text::occurs_in(cli_progress::tick_line((id, ms)), id),
        text::occurs_in(cli_progress::tick_line((id, ms)), human::ms_text(ms)),
        text::occurs_in(cli_progress::vanished_line(id), id),
{
    let a = "  … still running: "@;
    let b = " ("@;
    let c = ")"@;
    let t = human::ms_text(ms);
    factory_laws::names_both(a, id, b, t, c);
    assert(a + id + (b + t + c) == a + id + b + t + c) by {
        assert(a + id + (b + t + c) =~= a + id + b + t + c);
    }
    path_laws::part_of("  ⚠ "@, id, " — vanished without reporting"@);
}

/// A layer is announced with its number, the number of layers and the number of its
/// actions.
pub proof fn layers_are_announced(index: nat, total: nat, n: nat)
    ensures
        cli_progress::layer_line(index, total, n) == "layer "@ + text::dec_text(index) + "/"@
            + text::dec_text(total) + " — "@ + text::dec_text(n) + (if n == 1 {
            " action"@
        } else {
            " actions"@
        }),
{
}

/// The status has one row for each action of the plan, in order: its id, whether it
/// is stale, and why. It is stale exactly if the plan has a reason for it.
pub proof fn status_rows_tell_staleness(p: PlanView, i: int)
    requires
        0 <= i < plan::flattened(p.layers).len(),
    ensures
        ({
            let id = plan::flattened(p.layers)[i];
            let row = status::status_rows_of(p)[i];
            &&& status::status_rows_of(p).len() == plan::flattened(p.layers).len()
            &&& row.len() == 3
            &&& row[0] == id
            &&& p.reasons.contains_key(id) ==> row[1] == "stale"@ && row[2] == plan::reason_text(
                p.reasons[id],
            )
            &&& !p.reasons.contains_key(id) ==> row[1] == "up-to-date"@
        }),
{
}

/// The layers one after the other: each action of each layer, in order.
pub proof fn layers_follow_one_another(layers: Seq<Seq<Seq<char>>>, more: Seq<Seq<Seq<char>>>)
    ensures
        plan::flattened(layers + more) == plan::flattened(layers) + plan::flattened(more),
        forall|layer: Seq<Seq<char>>| #[trigger] plan::flattened(seq![layer]) == layer,
    decreases more.len(),
{
    let none = Seq::<Seq<char>>::empty();
    assert forall|layer: Seq<Seq<char>>| #[trigger] plan::flattened(seq![layer]) == layer by {
        assert(seq![layer].drop_last() =~= Seq::<Seq<Seq<char>>>::empty());
        assert(plan::flattened(seq![layer].drop_last()) =~= none);
        assert(none + layer =~= layer);
    }
    if more.len() == 0 {
        assert(layers + more =~= layers);
        assert(plan::flattened(layers) + none =~= plan::flattened(layers));
    } else {
        layers_follow_one_another(layers, more.drop_last());
        assert((layers + more).drop_last() =~= layers + more.drop_last());
        assert(plan::flattened(layers + more) =~= plan::flattened(layers) + plan::flattened(more));
    }
}

/// A value of one line stands behind its label on one line. One of several lines has
/// as many, with the label before the first and blanks before the others. An empty
/// one leaves the label alone.
pub proof fn fields_keep_their_lines(label: Seq<char>, value: Seq<char>)
    requires
        label.len() <= 12,
    ensures
        ({
            let shown = status::field_lines(label, value);
            let lines = text::lines_of(value);
            &&& lines.len() > 0 ==> shown.len() == lines.len()
            &&& lines.len() == 0 ==> shown.len() == 1
            &&& label.is_prefix_of(shown[0].skip(2))
            &&& forall|i: int|
                0 <= i < lines.len() ==> (#[trigger] shown[i]).len() == 14 + lines[i].len()
                    && shown[i].skip(14) == lines[i]
            &&& forall|i: int, j: int|
                0 < i < lines.len() && 0 <= j < 14 ==> #[trigger] shown[i][j] == ' '
        }),
{
    reveal_strlit("  ");
    let shown = status::field_lines(label, value);
    let lines = text::lines_of(value);
    let pad = text::padded(label, 12);
    text_laws::padding_adds_blanks(label, 12);
    text_laws::padding_adds_blanks(Seq::empty(), 12);
    assert forall|i: int| 0 <= i < lines.len() implies (#[trigger] shown[i]).len() == 14
        + lines[i].len() && shown[i].skip(14) == lines[i] by {
        assert(shown[i].skip(14) =~= lines[i]);
    }
    assert forall|i: int, j: int| 0 < i < lines.len() && 0 <= j < 14 implies #[trigger] shown[i][j]
        == ' ' by {
        let q = text::padded(Seq::empty(), 12);
        assert(shown[i] == "  "@ + q + lines[i]);
        if j >= 2 {
            assert(shown[i][j] == q[j - 2]);
        } else {
            assert(shown[i][j] == "  "@[j]);
        }
    }
    let first = shown[0].skip(2);
    assert(first.subrange(0, label.len() as int) =~= pad.subrange(0, label.len() as int));
}

/// Some lines among others.
pub open spec fn among(part: Seq<Seq<char>>, lines: Seq<Seq<char>>) -> bool {
    exists|a: Seq<Seq<char>>, b: Seq<Seq<char>>| lines == #[trigger] ((a + part) + b)
}

/// Lines stand where they were put.
pub proof fn put_among(a: Seq<Seq<char>>, part: Seq<Seq<char>>, b: Seq<Seq<char>>)
    ensures
        among(part, a + part + b),
{
}

/// The details of an action begin with its id and tell its state, its last run, its
/// hashes, its dependencies and artifact where it is registered, and what the
/// manifest declares where there is one.
pub proof fn details_tell_everything(
    p: PlanView,
    id: Seq<char>,
    record: Option<(BuildEventView, Option<u64>)>,
    deps: Seq<Seq<char>>,
    present: bool,
    m: ManifestView,
    now: u64,
)
    ensures
        ({
            let all = status::detail_of(p, id, record, Some((deps, present)), Some(m), now);
            let hashes = status::hash_lines_of(
                match record {
                    Some((BuildEventView::Success { input, .. }, _)) => Some(input),
                    Some((BuildEventView::Failed { input, .. }, _)) => Some(input),
                    None => None,
                },
                if p.hashes.contains_key(id) {
                    Some(p.hashes[id])
                } else {
                    None
                },
            );
            &&& all[0] == id
            &&& among(status::state_lines_of(id, p.reasons), all)
            &&& among(status::last_run_of(record, now), all)
            &&& among(hashes, all)
            &&& among(status::action_lines_of(deps, present, p.reasons), all)
            &&& among(status::declared_of(m, id), all)
            &&& all.len() == 1 + status::state_lines_of(id, p.reasons).len() + status::last_run_of(
                record,
                now,
            ).len() + hashes.len() + status::action_lines_of(deps, present, p.reasons).len()
                + status::declared_of(m, id).len()
            &&& status::detail_of(p, id, record, None, None, now).len() == 1
                + status::state_lines_of(id, p.reasons).len() + status::last_run_of(
                record,
                now,
            ).len() + hashes.len()
        }),
{
    let a = seq![id];
    let s = status::state_lines_of(id, p.reasons);
    let l = status::last_run_of(record, now);
    let h = status::hash_lines_of(status::cached_input(record), plan::lookup(p.hashes, id));
    let d = status::action_lines_of(deps, present, p.reasons);
    let t = status::declared_of(m, id);
    let none = Seq::<Seq<char>>::empty();
    let all = status::detail_of(p, id, record, Some((deps, present)), Some(m), now);
    assert(all == a + s + l + h + d + t);
    assert(all =~= a + s + (l + h + d + t));
    put_among(a, s, l + h + d + t);
    assert(all =~= a + s + l + (h + d + t));
    put_among(a + s, l, h + d + t);
    assert(all =~= a + s + l + h + (d + t));
    put_among(a + s + l, h, d + t);
    put_among(a + s + l + h, d, t);
    assert(all =~= a + s + l + h + d + t + none);
    put_among(a + s + l + h + d, t, none);
}

/// The state is told, with the reason exactly if the action is stale.
pub proof fn states_are_told(id: Seq<char>, reasons: Map<Seq<char>, ChangeReasonView>)
    ensures
        reasons.contains_key(id) ==> {
            &&& among(status::field_lines("state"@, "stale"@), status::state_lines_of(id, reasons))
            &&& among(
                status::field_lines("reason"@, plan::reason_text(reasons[id])),
                status::state_lines_of(id, reasons),
            )
        },
        !reasons.contains_key(id) ==> status::state_lines_of(id, reasons) == status::field_lines(
            "state"@,
            "up-to-date"@,
        ),
{
    let none = Seq::<Seq<char>>::empty();
    let x = status::field_lines("state"@, "stale"@);
    let y = status::field_lines("reason"@, plan::reason_text(reasons[id]));
    put_among(none, x, y);
    assert(none + x + y =~= x + y);
    put_among(x, y, none);
    assert(x + y + none =~= x + y);
}

/// The last run is told with its outcome, how long it took and when it was, and with
/// its error exactly if it failed.
pub proof fn last_runs_are_told(
    id: Seq<char>,
    input: Seq<u8>,
    output: Seq<u8>,
    error: BuildErrorView,
    ms: u64,
    at: u64,
    now: u64,
)
    ensures
        ({
            let ok = BuildEventView::Success { id, input, output, ms };
            let bad = BuildEventView::Failed { id, input, error, ms };
            let line = |outcome: Seq<char>, when: Seq<char>|
                status::field_lines(
                    "last run"@,
                    outcome + " in "@ + human::ms_text(ms) + ", "@ + when,
                );
            let told = status::field_lines("error"@, types::build_error_text(error));
            let undated = "date not recorded by this cache"@;
            &&& status::last_run_of(None, now) == status::field_lines(
                "last run"@,
                "never — nothing cached for this id"@,
            )
            &&& status::last_run_of(Some((ok, Some(at))), now) == line(
                "succeeded"@,
                human::age_text(now, at),
            )
            &&& status::last_run_of(Some((ok, None)), now) == line("succeeded"@, undated)
            &&& status::last_run_of(Some((bad, Some(at))), now) == line(
                "failed"@,
                human::age_text(now, at),
            ) + told
            &&& status::last_run_of(Some((bad, None)), now) == line("failed"@, undated) + told
        }),
{
    let none = Seq::<Seq<char>>::empty();
    assert forall|x: Seq<Seq<char>>| #[trigger] (x + none) == x by {
        assert(x + none =~= x);
    }
}

/// The hashes are told as far as they are known, in full.
pub proof fn hashes_are_told(cached: Seq<u8>, current: Seq<u8>)
    ensures
        status::hash_lines_of(None, None).len() == 0,
        status::hash_lines_of(Some(cached), None) == status::field_lines(
            "input"@,
            "cached   "@ + digest::hex_text(cached),
        ),
        status::hash_lines_of(None, Some(current)) == status::field_lines(
            "input"@,
            "current  "@ + digest::hex_text(current),
        ),
        status::hash_lines_of(Some(cached), Some(current)) == status::field_lines(
            "input"@,
            "cached   "@ + digest::hex_text(cached) + seq!['\n'] + "current  "@ + digest::hex_text(
                current,
            ),
        ),
{
    reveal_strlit("\ncurrent  ");
    reveal_strlit("current  ");
    assert("\ncurrent  "@ =~= seq!['\n'] + "current  "@);
    let c = "cached   "@ + digest::hex_text(cached);
    let n = digest::hex_text(current);
    assert(c + "\ncurrent  "@ + n =~= c + seq!['\n'] + "current  "@ + n);
}

/// Every dependency is told with whether it is stale itself, and the artifact with
/// whether it is there.
pub proof fn dependencies_are_told(
    deps: Seq<Seq<char>>,
    present: bool,
    reasons: Map<Seq<char>, ChangeReasonView>,
)
    ensures
        ({
            let listed = status::dep_texts(deps, reasons);
            &&& listed.len() == deps.len()
            &&& forall|i: int|
                0 <= i < deps.len() ==> #[trigger] listed[i] == deps[i] + if reasons.contains_key(
                    deps[i],
                ) {
                    " (stale)"@
                } else {
                    " (up-to-date)"@
                }
            &&& status::action_lines_of(deps, present, reasons) == status::field_lines(
                "deps"@,
                if deps.len() == 0 {
                    "none"@
                } else {
                    text::joined(listed, seq!['\n'])
                },
            ) + status::field_lines(
                "artifact"@,
                if present {
                    "present"@
                } else {
                    "missing"@
                },
            )
        }),
{
    reveal_strlit("\n");
    assert("\n"@ =~= seq!['\n']);
}

/// The entry that is found for an id has that id, and no earlier one has; none is
/// found only if there is none.
pub proof fn found_entries_have_the_id(nodes: Seq<NodeView>, id: Seq<char>, from: int)
    requires
        0 <= from <= nodes.len(),
    ensures
        match status::entry_from(nodes, id, from) {
            Some((n, i)) => {
                &&& from <= n < nodes.len()
                &&& 0 <= i < nodes[n].actions.len()
                &&& manifest::action_id_text(nodes[n], i) == id
                &&& forall|m: int, j: int|
                    from <= m < n && 0 <= j < nodes[m].actions.len()
                        ==> #[trigger] manifest::action_id_text(nodes[m], j) != id
            },
            None => forall|m: int, j: int|
                from <= m < nodes.len() && 0 <= j < nodes[m].actions.len()
                    ==> #[trigger] manifest::action_id_text(nodes[m], j) != id,
        },
    decreases nodes.len() - from,
{
    if from < nodes.len() {
        found_in_node_has_the_id(nodes[from], id, 0);
        found_entries_have_the_id(nodes, id, from + 1);
    }
}

proof fn found_in_node_has_the_id(node: NodeView, id: Seq<char>, from: int)
    requires
        0 <= from <= node.actions.len(),
    ensures
        match status::node_entry_from(node, id, from) {
            Some(i) => from <= i < node.actions.len() && manifest::action_id_text(node, i) == id
                && forall|j: int|
                from <= j < i ==> #[trigger] manifest::action_id_text(node, j) != id,
            None => forall|j: int|
                from <= j < node.actions.len() ==> #[trigger] manifest::action_id_text(node, j)
                    != id,
        },
    decreases node.actions.len() - from,
{
    if from < node.actions.len() {
        found_in_node_has_the_id(node, id, from + 1);
    }
}

/// What the manifest declares for an action is told: the source, with the path before
/// the repository, the kind, and each field that is declared.
pub proof fn declarations_are_told(m: ManifestView, id: Seq<char>)
    ensures
        match status::entry_from(m.nodes, id, 0) {
            None => status::declared_of(m, id).len() == 0,
            Some((n, i)) => {
                let node = m.nodes[n];
                let all = status::declared_of(m, id);
                &&& node.path matches Some(p) ==> among(
                    status::field_lines("source"@, "path "@ + p),
                    all,
                )
                &&& node.path is None && node.git is Some ==> among(
                    status::field_lines("source"@, "git  "@ + node.git->Some_0),
                    all,
                )
                &&& among(
                    status::field_lines("action"@, manifest::kind_text(node.actions[i])),
                    all,
                )
                &&& among(status::entry_lines_of(node.actions[i]), all)
            },
        },
{
    if let Some((n, i)) = status::entry_from(m.nodes, id, 0) {
        let node = m.nodes[n];
        let none = Seq::<Seq<char>>::empty();
        let x = status::source_lines_of(node);
        let y = status::field_lines("action"@, manifest::kind_text(node.actions[i]));
        let z = status::entry_lines_of(node.actions[i]);
        put_among(none, x, y + z);
        assert(none + x + (y + z) =~= x + y + z);
        put_among(x, y, z);
        put_among(x + y, z, none);
        assert(x + y + z + none =~= x + y + z);
    }
}

/// Each declared field of an entry is told, and none that is not declared but the
/// profile and the manifest, which are told with their defaults.
pub proof fn declared_fields_are_told(
    crate_name: Option<Seq<char>>,
    package: Option<Seq<char>>,
    features: Seq<Seq<char>>,
    profile: Option<Seq<char>>,
    install_to: Option<Seq<char>>,
    tag: Seq<char>,
    dockerfile: Option<Seq<char>>,
    context: Option<Seq<char>>,
    child: Option<Seq<char>>,
)
    ensures
        ({
            let install = status::entry_lines_of(
                ActionEntryView::CargoInstall {
                    crate_name,
                    package,
                    features,
                    profile,
                    install_to,
                },
            );
            let told = |label: Seq<char>, v: Option<Seq<char>>|
                match v {
                    Some(x) => status::field_lines(label, x),
                    None => Seq::<Seq<char>>::empty(),
                };
            let listed = if features.len() > 0 {
                status::field_lines("features"@, text::joined(features, ", "@))
            } else {
                Seq::<Seq<char>>::empty()
            };
            let profile_lines = status::field_lines(
                "profile"@,
                match profile {
                    Some(p) => p,
                    None => "release (cargo default)"@,
                },
            );
            let image = status::entry_lines_of(ActionEntryView::Docker { tag, dockerfile, context });
            &&& install == told("bin"@, crate_name) + told("package"@, package) + profile_lines
                + listed + told("install to"@, install_to)
            &&& image == status::field_lines("tag"@, tag) + told("dockerfile"@, dockerfile) + told(
                "context"@,
                context,
            )
            &&& status::entry_lines_of(ActionEntryView::GitClone).len() == 0
            &&& child matches Some(c) ==> status::entry_lines_of(
                ActionEntryView::Repolith { manifest: child },
            ) == status::field_lines("manifest"@, c)
            &&& status::entry_lines_of(ActionEntryView::Repolith { manifest: None })
                == status::field_lines("manifest"@, "repolith.toml"@)
        }),
{
}

} // verus!
