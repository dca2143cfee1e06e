//! What planning decides, what a run does with it, and what is kept of it.

use crate::cache;
use crate::cache::CacheErrorView;
use crate::digest;
use crate::execution;
use crate::execution::{ExecutionView, JobView, Next, Phase, Terminal};
use crate::factory_laws;
use crate::graph;
use crate::graph::ActionSpecView;
use crate::neo4j;
use crate::neo4j::{EventProps, StoredProps};
use crate::path_laws;
use crate::picking;
use crate::plan;
use crate::plan::{ChangeReasonView, PlanErrorView, PlanView, ProbeView};
use crate::rows;
use crate::rows::EventRowView;
use crate::text;
use crate::types;
use crate::types::{BuildErrorView, BuildEventView};
use vstd::prelude::*;

verus! {

/// The dependency that counts as moved is the first stale one.
pub proof fn first_stale_is_first(deps: Seq<Seq<char>>, stale: Set<Seq<char>>)
    ensures
        match plan::first_stale(deps, stale) {
            Some(d) => exists|i: int|
                0 <= i < deps.len() && #[trigger] deps[i] == d && stale.contains(d)
                    && forall|j: int| 0 <= j < i ==> !stale.contains(#[trigger] deps[j]),
            None => forall|j: int| 0 <= j < deps.len() ==> !stale.contains(#[trigger] deps[j]),
        },
    decreases deps.len(),
{
    if deps.len() > 0 && !stale.contains(deps[0]) {
        let rest = deps.drop_first();
        first_stale_is_first(rest, stale);
        match plan::first_stale(deps, stale) {
            Some(d) => {
                let i = choose|i: int|
                    0 <= i < rest.len() && #[trigger] rest[i] == d && stale.contains(d)
                        && forall|j: int| 0 <= j < i ==> !stale.contains(#[trigger] rest[j]);
                assert(deps[i + 1] == d);
                assert forall|j: int| 0 <= j < i + 1 implies !stale.contains(
                    #[trigger] deps[j],
                ) by {
                    if j > 0 {
                        assert(rest[j - 1] == deps[j]);
                    }
                }
            },
            None => {
                assert forall|j: int| 0 <= j < deps.len() implies !stale.contains(
                    #[trigger] deps[j],
                ) by {
                    if j > 0 {
                        assert(rest[j - 1] == deps[j]);
                    }
                }
            },
        }
    }
}

/// Why an action is stale: because it was forced, else because it never ran, else
/// because it failed last, else because its input changed since, else because what
/// it made is gone, else because a dependency is stale. Otherwise it is not.
pub proof fn reasons_come_in_order(
    deps: Seq<Seq<char>>,
    now: Seq<u8>,
    id: Seq<char>,
    input: Seq<u8>,
    output: Seq<u8>,
    error: BuildErrorView,
    ms: u64,
    stale: Set<Seq<char>>,
    present: bool,
    last: Option<BuildEventView>,
)
    ensures
        ({
            let ok = Some(BuildEventView::Success { id, input, output, ms });
            let bad = Some(BuildEventView::Failed { id, input, error, ms });
            let why = |l: Option<BuildEventView>|
                plan::classified(deps, now, l, stale, present, false);
            let moved = exists|i: int| 0 <= i < deps.len() && stale.contains(#[trigger] deps[i]);
            &&& plan::classified(deps, now, last, stale, present, true) == Some(
                ChangeReasonView::Forced,
            )
            &&& why(None) == Some(ChangeReasonView::NoCachedBuild)
            &&& why(bad) == Some(
                ChangeReasonView::PreviousFailure { error: types::build_error_text(error) },
            )
            &&& input != now ==> why(ok) == Some(
                ChangeReasonView::InputHashChanged { from: input, to: now },
            )
            &&& input == now && !present ==> why(ok) == Some(ChangeReasonView::OutputMissing)
            &&& input == now && present && moved ==> (why(ok) matches Some(
                ChangeReasonView::UpstreamMoved { dep },
            ) && Some(dep) == plan::first_stale(deps, stale))
            &&& input == now && present && !moved ==> why(ok) is None
        }),
{
    first_stale_is_first(deps, stale);
}

/// Every dependency that an action lists is one, and there are no others.
pub proof fn listed_dependencies_count(g: Seq<ActionSpecView>, i: int)
    requires
        0 <= i < g.len(),
        forall|j: int| i < j < g.len() ==> (#[trigger] g[j]).id != g[i].id,
    ensures
        plan::deps_of(g, g[i].id) == g[i].deps,
        forall|j: int|
            0 <= j < g[i].deps.len() ==> graph::depends(g, g[i].id, #[trigger] g[i].deps[j]),
    decreases g.len(),
{
    if i < g.len() - 1 {
        let before = g.drop_last();
        assert(g[g.len() - 1].id != g[i].id);
        assert(before[i] == g[i]);
        listed_dependencies_count(before, i);
    }
}

/// An action runs in the first layer in which its dependencies allow it: behind each
/// of them, and directly behind one of them unless it is in the first layer.
pub proof fn layers_are_tight(
    g: Seq<ActionSpecView>,
    layers: Seq<Seq<Seq<char>>>,
    k: int,
    id: Seq<char>,
)
    requires
        graph::is_layering(g, layers),
        0 < k < layers.len(),
        layers[k].contains(id),
    ensures
        exists|d: Seq<char>| #[trigger] graph::depends(g, id, d) && layers[k - 1].contains(d),
{
    assert(graph::settled(g, (k + 1) as nat, id));
    assert(!graph::settled(g, k as nat, id));
    let d = choose|d: Seq<char>| #[trigger]
        graph::depends(g, id, d) && !graph::settled(g, (k - 1) as nat, d);
    assert(graph::settled(g, k as nat, d));
    assert(layers[k - 1].contains(d) <==> graph::settled(g, (k - 1 + 1) as nat, d)
        && !graph::settled(g, (k - 1) as nat, d));
}

/// The error that ends a layer is that of its first action that could not be hashed.
pub proof fn first_error_is_first(probes: Seq<ProbeView>)
    ensures
        match plan::first_error(probes) {
            Some(e) => exists|i: int|
                0 <= i < probes.len() && (#[trigger] probes[i]).hash == Err::<
                    Seq<u8>,
                    BuildErrorView,
                >(e) && forall|j: int| 0 <= j < i ==> (#[trigger] probes[j]).hash is Ok,
            None => forall|j: int| 0 <= j < probes.len() ==> (#[trigger] probes[j]).hash is Ok,
        },
    decreases probes.len(),
{
    if probes.len() > 0 && probes[0].hash is Ok {
        let rest = probes.drop_first();
        first_error_is_first(rest);
        match plan::first_error(probes) {
            Some(e) => {
                let i = choose|i: int|
                    0 <= i < rest.len() && (#[trigger] rest[i]).hash == Err::<
                        Seq<u8>,
                        BuildErrorView,
                    >(e) && forall|j: int| 0 <= j < i ==> (#[trigger] rest[j]).hash is Ok;
                assert(probes[i + 1].hash == Err::<Seq<u8>, BuildErrorView>(e));
                assert forall|j: int| 0 <= j < i + 1 implies (#[trigger] probes[j]).hash is Ok by {
                    if j > 0 {
                        assert(rest[j - 1] == probes[j]);
                    }
                }
            },
            None => {
                assert forall|j: int| 0 <= j < probes.len() implies (
                #[trigger] probes[j]).hash is Ok by {
                    if j > 0 {
                        assert(rest[j - 1] == probes[j]);
                    }
                }
            },
        }
    }
}

/// Planning fails exactly if it is cancelled before some layer, or a layer holds an
/// action that could not be hashed; with what comes first.
pub proof fn planning_fails_at_the_first_obstacle(
    layers: Seq<Seq<Seq<char>>>,
    answers: Map<Seq<char>, ProbeView>,
    cancel_at: Option<usize>,
    from: int,
)
    requires
        0 <= from <= layers.len(),
    ensures
        ({
            let cancelled = |k: int| cancel_at matches Some(c) && c <= k;
            let failed = |k: int| plan::first_error(plan::layer_answers(layers[k], answers));
            match plan::planning_failure(layers, answers, cancel_at, from) {
                None => forall|k: int|
                    from <= k < layers.len() ==> !cancelled(k) && #[trigger] failed(k) is None,
                Some(e) => exists|k: int|
                    from <= k < layers.len() && (if cancelled(k) {
                        e == BuildErrorView::Cancelled
                    } else {
                        #[trigger] failed(k) == Some(e)
                    }) && forall|j: int|
                        from <= j < k ==> !cancelled(j) && #[trigger] failed(j) is None,
            }
        }),
    decreases layers.len() - from,
{
    let cancelled = |k: int| cancel_at matches Some(c) && c <= k;
    let failed = |k: int| plan::first_error(plan::layer_answers(layers[k], answers));
    if from < layers.len() {
        planning_fails_at_the_first_obstacle(layers, answers, cancel_at, from + 1);
        let here = failed(from);
        match plan::planning_failure(layers, answers, cancel_at, from) {
            None => {},
            Some(e) => {
                if !cancelled(from) && here is None {
                    let k = choose|k: int|
                        from + 1 <= k < layers.len() && (if cancelled(k) {
                            e == BuildErrorView::Cancelled
                        } else {
                            #[trigger] failed(k) == Some(e)
                        }) && forall|j: int|
                            from + 1 <= j < k ==> !cancelled(j) && #[trigger] failed(j) is None;
                    let there = failed(k);
                    assert(from <= k < layers.len());
                }
            },
        }
    }
}

/// The answers for a layer are those for its actions, in order.
pub proof fn layer_answers_are_in_order(
    layer: Seq<Seq<char>>,
    answers: Map<Seq<char>, ProbeView>,
    i: int,
)
    requires
        0 <= i < layer.len(),
    ensures
        plan::layer_answers(layer, answers).len() == layer.len(),
        plan::layer_answers(layer, answers)[i] == answers[layer[i]],
{
}

/// Every stale action of a layer is to run, with its input hash, each once and in
/// order; no other action is.
pub proof fn every_stale_action_is_to_run(p: PlanView, layer: Seq<Seq<char>>) -> (kept: Seq<int>)
    ensures
        picking::picks(kept, layer.len(), |i: int| p.reasons.contains_key(layer[i])),
        plan::stale_jobs(p, layer).len() == kept.len(),
        forall|k: int|
            #![trigger plan::stale_jobs(p, layer)[k]]
            0 <= k < kept.len() ==> plan::stale_jobs(p, layer)[k].0 == layer[kept[k]]
                && plan::stale_jobs(p, layer)[k].1 == p.hashes[layer[kept[k]]],
    decreases layer.len(),
{
    let keep = |i: int| p.reasons.contains_key(layer[i]);
    if layer.len() == 0 {
        Seq::empty()
    } else {
        let before = layer.drop_last();
        let n = before.len();
        let kept = every_stale_action_is_to_run(p, before);
        picking::picks_agree(kept, n, |i: int| p.reasons.contains_key(before[i]), keep);
        picking::picks_grow(kept, n, keep);
        let more = if keep(n as int) {
            kept.push(n as int)
        } else {
            kept
        };
        let all = plan::stale_jobs(p, layer);
        assert forall|k: int| #![trigger all[k]] 0 <= k < more.len() implies all[k].0
            == layer[more[k]] && all[k].1 == p.hashes[layer[more[k]]] by {
            if k < kept.len() {
                assert(plan::stale_jobs(p, before)[k] == all[k]);
                assert(before[kept[k]] == layer[more[k]]);
            }
        }
        more
    }
}

/// A plan is run layer by layer.
pub proof fn plans_run_layer_by_layer(p: PlanView, k: int)
    requires
        0 <= k < p.layers.len(),
    ensures
        plan::plan_jobs(p).len() == p.layers.len(),
        plan::plan_jobs(p)[k] == plan::stale_jobs(p, p.layers[k]),
{
}

/// What is said of a plan that cannot be made names the actions involved.
pub proof fn plan_errors_are_told(
    from: Seq<char>,
    to: Seq<char>,
    ids: Seq<Seq<char>>,
    i: int,
    e: BuildErrorView,
)
    requires
        0 <= i < ids.len(),
    ensures
        text::occurs_in(plan::plan_error_text(PlanErrorView::MissingDep { from, to }), from),
        text::occurs_in(plan::plan_error_text(PlanErrorView::MissingDep { from, to }), to),
        text::occurs_in(plan::plan_error_text(PlanErrorView::Cycle(ids)), text::debug_text(ids[i])),
        plan::plan_error_text(PlanErrorView::Build(e)) == types::build_error_text(e),
{
    let a = "action "@;
    let b = " depends on "@;
    let c = ", which is not registered"@;
    factory_laws::names_both(a, from, b, to, c);
    assert(a + from + (b + to + c) == a + from + b + to + c) by {
        assert(a + from + (b + to + c) =~= a + from + b + to + c);
    }
    let x = cycle_lists(ids, 0, i);
    let (p, q) = x;
    let d = text::debug_text(ids[i]);
    let h = "cycle detected: ["@;
    path_laws::part_of(h + p, d, q);
    assert(h + p + d + q == h + (p + d + q)) by {
        assert(h + p + d + q =~= h + (p + d + q));
    }
}

proof fn cycle_lists(ids: Seq<Seq<char>>, from: int, i: int) -> (around: (Seq<char>, Seq<char>))
    requires
        0 <= from <= i < ids.len(),
    ensures
        plan::id_list_text(ids, from) == around.0 + text::debug_text(ids[i]) + around.1,
    decreases i - from,
{
    let head = (if from == 0 {
        ""@
    } else {
        ", "@
    }) + "ActionId("@;
    let rest = plan::id_list_text(ids, from + 1);
    let d = text::debug_text(ids[from]);
    assert(plan::id_list_text(ids, from) =~= head + d + (")"@ + rest));
    if from == i {
        (head, ")"@ + rest)
    } else {
        let (p, q) = cycle_lists(ids, from + 1, i);
        let e = text::debug_text(ids[i]);
        assert(head + d + (")"@ + (p + e + q)) =~= (head + d + ")"@ + p) + e + q);
        (head + d + ")"@ + p, q)
    }
}

/// How an action ended is told by its event: a failure that is a cancellation counts
/// as one.
pub proof fn ends_are_told_apart(
    id: Seq<char>,
    input: Seq<u8>,
    output: Seq<u8>,
    error: BuildErrorView,
    ms: u64,
)
    ensures
        execution::terminal(BuildEventView::Success { id, input, output, ms })
            == Terminal::Succeeded,
        execution::terminal(
            BuildEventView::Failed { id, input, error: BuildErrorView::Cancelled, ms },
        ) == Terminal::Cancelled,
        error != BuildErrorView::Cancelled ==> execution::terminal(
            BuildEventView::Failed { id, input, error, ms },
        ) == Terminal::Failed,
{
}

/// The number of layers with something to run.
pub proof fn busy_layers_are_counted(jobs: Seq<Seq<JobView>>, n: int) -> (kept: Seq<int>)
    requires
        0 <= n <= jobs.len(),
    ensures
        picking::picks(kept, n as nat, |i: int| jobs[i].len() > 0),
        execution::busy_layers(jobs, n) == kept.len(),
    decreases n,
{
    let keep = |i: int| jobs[i].len() > 0;
    if n == 0 {
        Seq::empty()
    } else {
        let kept = busy_layers_are_counted(jobs, n - 1);
        picking::picks_grow(kept, (n - 1) as nat, keep);
        if keep(n - 1) {
            kept.push(n - 1)
        } else {
            kept
        }
    }
}

/// A layer that runs is announced with its number among those with something to run,
/// from one to their total.
pub proof fn layers_are_numbered(v: ExecutionView)
    requires
        v.valid(),
        v.phase is Running,
        v.jobs.len() <= usize::MAX,
    ensures
        match v.run_step() {
            Next::Run { index, total } => {
                &&& index == execution::busy_layers(v.jobs, v.settled.len() as int) + 1
                &&& total == execution::busy_layers(v.jobs, v.jobs.len() as int)
                &&& 1 <= index <= total
            },
            _ => false,
        },
{
    let n = v.settled.len() as int;
    busy_layers_grow(v.jobs, n + 1, v.jobs.len() as int);
    busy_layers_grow(v.jobs, 0, v.jobs.len() as int);
}

proof fn busy_layers_grow(jobs: Seq<Seq<JobView>>, m: int, n: int)
    requires
        0 <= m <= n <= jobs.len(),
    ensures
        execution::busy_layers(jobs, m) <= execution::busy_layers(jobs, n) <= n,
    decreases n,
{
    if m < n {
        busy_layers_grow(jobs, m, n - 1);
    } else if n > 0 {
        busy_layers_grow(jobs, m - 1, n - 1);
    }
}

/// What a run does next: nothing after a failure or when all layers are through; it
/// stops where it was cancelled between layers, passes over a layer with nothing to
/// run, and runs any other.
pub proof fn runs_go_layer_by_layer(v: ExecutionView, cancelled: bool)
    requires
        v.valid(),
    ensures
        v.phase is Halted ==> v.step(cancelled) is Stopped && v.after_step(cancelled) == v,
        v.phase is Running ==> v.step(cancelled) is Run && v.after_step(cancelled) == v,
        v.phase is Idle && v.settled.len() == v.jobs.len() ==> v.step(cancelled) is Finished
            && v.after_step(cancelled) == v,
        v.phase is Idle && v.settled.len() < v.jobs.len() ==> ({
            let next = v.after_step(cancelled);
            let layer = v.jobs[v.settled.len() as int];
            if cancelled {
                v.step(cancelled) is Stopped && next.phase is Halted && next.settled == v.settled
            } else if layer.len() == 0 {
                v.step(cancelled) is Skip && next.phase is Idle && next.settled
                    == v.settled.push(Seq::empty())
            } else {
                v.step(cancelled) is Run && next.phase is Running && next.settled == v.settled
                    && next.layer() == layer
            }
        }),
        v.after_step(cancelled).jobs == v.jobs,
        v.after_step(cancelled).mode == v.mode,
        v.after_step(cancelled).current == v.current,
        v.after_step(cancelled).ended == v.ended,
{
}

/// The end of an action is kept, behind those before it, and changes nothing else. A
/// layer that is through is kept with all its events; the run goes on exactly if none
/// of them is a failure.
pub proof fn ends_and_layers_are_kept(v: ExecutionView, j: int, event: BuildEventView)
    ensures
        ({
            let next = v.after_end(j, event);
            &&& next.ended == v.ended.push(j)
            &&& next.current == v.current.push(event)
            &&& next.settled == v.settled
            &&& next.jobs == v.jobs
            &&& next.mode == v.mode
            &&& next.phase == v.phase
        }),
        ({
            let next = v.after_commit();
            &&& next.settled == v.settled.push(v.current)
            &&& next.current.len() == 0
            &&& next.ended.len() == 0
            &&& next.jobs == v.jobs
            &&& next.mode == v.mode
            &&& next.phase == if exists|k: int|
                0 <= k < v.current.len() && #[trigger] v.current[k] is Failed {
                Phase::Halted
            } else {
                Phase::Idle
            }
        }),
{
}

/// The events of a run are those of its layers, one after the other.
pub proof fn events_follow_one_another(
    a: Seq<Seq<BuildEventView>>,
    b: Seq<Seq<BuildEventView>>,
    layer: Seq<BuildEventView>,
)
    ensures
        execution::all_events(a + b) == execution::all_events(a) + execution::all_events(b),
        execution::all_events(seq![layer]) == layer,
    decreases b.len(),
{
    let none = Seq::<BuildEventView>::empty();
    assert(seq![layer].drop_last() =~= Seq::<Seq<BuildEventView>>::empty());
    assert(execution::all_events(seq![layer].drop_last()) =~= none);
    assert(none + layer =~= layer);
    if b.len() == 0 {
        assert(a + b =~= a);
        assert(execution::all_events(a) + none =~= execution::all_events(a));
    } else {
        events_follow_one_another(a, b.drop_last(), layer);
        assert((a + b).drop_last() =~= a + b.drop_last());
        assert(execution::all_events(a + b) =~= execution::all_events(a) + execution::all_events(b));
    }
}

/// The event of an action holds its id and input hash, and what came of it: the
/// output hash or the error. The duration is kept as far as it fits.
pub proof fn events_hold_the_outcome(
    id: Seq<char>,
    input: Seq<u8>,
    ms: u128,
    output: Seq<u8>,
    error: BuildErrorView,
)
    ensures
        ({
            let kept = (if ms <= u64::MAX {
                ms as int
            } else {
                u64::MAX as int
            }) as u64;
            &&& execution::event_of((id, input), ms, Ok(output)) == BuildEventView::Success {
                id,
                input,
                output,
                ms: kept,
            }
            &&& execution::event_of((id, input), ms, Err(error)) == BuildEventView::Failed {
                id,
                input,
                error,
                ms: kept,
            }
        }),
{
}

/// An event about another action is the same but for the id.
pub proof fn renaming_changes_only_the_id(e: BuildEventView, id: Seq<char>)
    ensures
        e.with_id(id).id() == id,
        e.with_id(id).with_id(e.id()) == e,
        e.with_id(id).ms() == e.ms(),
        e.with_id(id) is Success <==> e is Success,
{
}

/// After recording, each id has the last event that was recorded for it, and what it
/// had before where none was.
pub proof fn last_event_is_kept(
    contents: Map<Seq<char>, BuildEventView>,
    events: Seq<BuildEventView>,
    n: int,
    id: Seq<char>,
)
    requires
        0 <= n <= events.len(),
    ensures
        ({
            let after = cache::recorded(contents, events, n);
            &&& (forall|i: int| 0 <= i < n ==> (#[trigger] events[i]).id() != id) ==> (
            after.contains_key(id) <==> contents.contains_key(id)) && (contents.contains_key(id)
                ==> after[id] == contents[id])
            &&& forall|i: int|
                0 <= i < n && (#[trigger] events[i]).id() == id && (forall|j: int|
                    i < j < n ==> (#[trigger] events[j]).id() != id) ==> after.contains_key(id)
                    && after[id] == events[i]
        }),
    decreases n,
{
    if n > 0 {
        last_event_is_kept(contents, events, n - 1, id);
        let before = cache::recorded(contents, events, n - 1);
        let after = cache::recorded(contents, events, n);
        assert(events[n - 1].id() == id ==> after[id] == events[n - 1]);
        assert(events[n - 1].id() != id ==> after.contains_key(id) == before.contains_key(id));
    }
}

/// What is said of a cache that failed holds why.
pub proof fn cache_errors_are_told(s: Seq<char>)
    ensures
        text::occurs_in(cache::cache_error_text(CacheErrorView::Io(s)), s),
        text::occurs_in(cache::cache_error_text(CacheErrorView::Backend(s)), s),
{
    let none = Seq::<char>::empty();
    path_laws::part_of("io: "@, s, none);
    assert("io: "@ + s + none =~= "io: "@ + s);
    path_laws::part_of("backend: "@, s, none);
    assert("backend: "@ + s + none =~= "backend: "@ + s);
}

/// What a row holds of an event: its id, its hashes in full, its outcome, its error,
/// and two moments that lie as far apart as it took. The start is zero exactly if the
/// moment of the end is unknown, or not later than the duration.
pub proof fn rows_hold_the_event(
    id: Seq<char>,
    input: Seq<u8>,
    output: Seq<u8>,
    error: BuildErrorView,
    ms: u64,
    now: Option<u128>,
)
    ensures
        ({
            let ok = rows::row_of(BuildEventView::Success { id, input, output, ms }, now);
            let bad = rows::row_of(BuildEventView::Failed { id, input, error, ms }, now);
            let most = i64::MAX as int;
            let took = if ms <= most {
                ms as int
            } else {
                most
            };
            &&& ok.action_id == id && bad.action_id == id
            &&& ok.input_hash == digest::hex_text(input) && bad.input_hash == digest::hex_text(
                input,
            )
            &&& ok.output_hash == Some(digest::hex_text(output)) && bad.output_hash is None
            &&& ok.status == "success"@ && bad.status == "failed"@
            &&& ok.error is None && bad.error == Some(error)
            &&& ok.ended_at - ok.started_at == took && bad.ended_at - bad.started_at == took
            &&& ok.started_at == bad.started_at && ok.started_at >= 0
            &&& ok.started_at == 0 <==> (now is Some ==> now->Some_0 <= took || most <= took)
            &&& now matches Some(n) ==> (took < n <= most ==> ok.ended_at == n)
        }),
{
}

/// What is read from a row: the duration is what lies between its moments, none where
/// they are the wrong way round; the moment of the end counts unless the start is
/// zero; a status other than success is a failure, and a cancellation where no error
/// is kept.
pub proof fn rows_are_read_back(id: Seq<char>, row: EventRowView)
    requires
        i64::MIN <= row.started_at <= i64::MAX,
        i64::MIN <= row.ended_at <= i64::MAX,
    ensures
        match rows::record_of(id, row) {
            Some((event, at)) => {
                &&& rows::is_hash_text(row.input_hash)
                &&& event.id() == id
                &&& event.ms() == if row.ended_at >= row.started_at {
                    row.ended_at - row.started_at
                } else {
                    0
                }
                &&& at == if row.started_at != 0 && row.ended_at >= 0 {
                    Some(row.ended_at as u64)
                } else {
                    None
                }
                &&& match event {
                    BuildEventView::Success { input, output, .. } => {
                        &&& row.status == "success"@
                        &&& input == digest::hex_bytes(row.input_hash)
                        &&& row.output_hash is Some
                        &&& output == digest::hex_bytes(row.output_hash->Some_0)
                    },
                    BuildEventView::Failed { input, error, .. } => {
                        &&& row.status != "success"@
                        &&& input == digest::hex_bytes(row.input_hash)
                        &&& row.error matches Some(e) ==> error == e
                        &&& row.error is None ==> error == BuildErrorView::Cancelled
                    },
                }
            },
            None => !rows::is_hash_text(row.input_hash) || (row.status == "success"@ && (
            row.output_hash is None || !rows::is_hash_text(row.output_hash->Some_0))),
        },
{
}

/// What is read from a stored node: all of it has to be there and well-formed, a date
/// before the epoch counts as none and a negative duration as zero.
pub proof fn stored_nodes_are_read_back(id: Seq<char>, p: StoredProps)
    ensures
        match neo4j::stored_record(id, p) {
            Some((event, at)) => {
                &&& p.kind is Some && p.input is Some && p.ms is Some
                &&& rows::is_hash_text(p.input->Some_0@)
                &&& event.id() == id
                &&& event.ms() == if p.ms->Some_0 >= 0 {
                    p.ms->Some_0 as int
                } else {
                    0
                }
                &&& p.recorded_at is Some && p.recorded_at->Some_0 > 0 ==> at == Some(
                    p.recorded_at->Some_0 as u64,
                )
                &&& p.recorded_at is None || p.recorded_at->Some_0 <= 0 ==> at is None
                &&& match event {
                    BuildEventView::Success { input, output, .. } => {
                        &&& p.kind->Some_0@ == "success"@
                        &&& input == digest::hex_bytes(p.input->Some_0@)
                        &&& p.output is Some
                        &&& output == digest::hex_bytes(p.output->Some_0@)
                    },
                    BuildEventView::Failed { input, error, .. } => {
                        &&& p.kind->Some_0@ != "success"@
                        &&& input == digest::hex_bytes(p.input->Some_0@)
                        &&& p.error matches Some(Some(e)) ==> error == e@
                        &&& p.error == Some(None::<types::BuildError>) ==> error
                            == BuildErrorView::Cancelled
                    },
                }
            },
            None => {
                ||| p.kind is None
                ||| p.input is None
                ||| p.ms is None
                ||| !rows::is_hash_text(p.input->Some_0@)
                ||| p.kind->Some_0@ == "success"@ && (p.output is None || !rows::is_hash_text(
                    p.output->Some_0@,
                ))
                ||| p.kind->Some_0@ != "success"@ && p.error is None
            },
        },
{
}

/// What is stored of an event: its id, kind, hashes, error and duration.
pub proof fn stored_nodes_hold_the_event(p: EventProps, e: BuildEventView)
    requires
        neo4j::props_match(p, e),
    ensures
        p.id@ == e.id(),
        e.ms() <= i64::MAX ==> p.ms == e.ms(),
        e matches BuildEventView::Success { input, output, .. } ==> p.kind@ == "success"@
            && p.input@ == digest::hex_text(input) && p.output@ == digest::hex_text(output)
            && p.error is None,
        e matches BuildEventView::Failed { input, error, .. } ==> p.kind@ == "failed"@ && p.input@
            == digest::hex_text(input) && p.output@.len() == 0 && (p.error matches Some(x) && x@
            == error),
{
}

/// What is said of a database that cannot be reached names it, what went wrong, or how
/// long it was waited for.
pub proof fn connection_failures_are_told(uri: Seq<char>, msg: String)
    ensures
        text::occurs_in(neo4j::connect_text(uri, neo4j::ConnectFailure::Connect(msg)), uri),
        text::occurs_in(neo4j::connect_text(uri, neo4j::ConnectFailure::Connect(msg)), msg@),
        text::occurs_in(neo4j::connect_text(uri, neo4j::ConnectFailure::Ping(msg)), uri),
        text::occurs_in(neo4j::connect_text(uri, neo4j::ConnectFailure::Ping(msg)), msg@),
        text::occurs_in(neo4j::connect_text(uri, neo4j::ConnectFailure::Timeout), uri),
{
    let none = Seq::<char>::empty();
    let m = msg@;
    let c = ": "@;
    let a = "neo4j connect failed for "@;
    factory_laws::names_both(a, uri, c, m, none);
    assert(a + uri + (c + m + none) == a + uri + c + m) by {
        assert(a + uri + (c + m + none) =~= a + uri + c + m);
    }
    let b = "neo4j ping failed for "@;
    factory_laws::names_both(b, uri, c, m, none);
    assert(b + uri + (c + m + none) == b + uri + c + m) by {
        assert(b + uri + (c + m + none) =~= b + uri + c + m);
    }
    let t = "neo4j unreachable at "@;
    let x = " (timed out after "@;
    let y = text::dec_text(neo4j::CONNECT_TIMEOUT_SECS as nat);
    let z = "s)"@;
    factory_laws::names_both(t, uri, x, y, z);
    assert(t + uri + (x + y + z) == t + uri + x + y + z) by {
        assert(t + uri + (x + y + z) =~= t + uri + x + y + z);
    }
}

/// A message without the password in it stays as it is.
pub proof fn harmless_messages_are_kept(msg: Seq<char>, pass: Seq<char>)
    requires
        pass.len() == 0 || !text::occurs_in(msg, pass),
    ensures
        neo4j::redacted(msg, pass) == msg,
{
    if pass.len() > 0 {
        nothing_to_replace(msg, pass, "***"@);
    }
}

proof fn nothing_to_replace(s: Seq<char>, pat: Seq<char>, rep: Seq<char>)
    requires
        pat.len() > 0,
        !text::occurs_in(s, pat),
    ensures
        text::replaced(s, pat, rep) == s,
    decreases s.len(),
{
    assert(s.skip(0) =~= s);
    if s.len() > 0 {
        let rest = s.skip(1);
        assert forall|i: int| 0 <= i <= rest.len() implies !#[trigger] text::begins_with(
            rest.skip(i),
            pat,
        ) by {
            assert(rest.skip(i) =~= s.skip(i + 1));
        }
        nothing_to_replace(rest, pat, rep);
        assert(s =~= seq![s[0]] + rest);
    }
}

} // verus!
