//! What holds of one sync after another.

use crate::cache;
use crate::execution;
use crate::execution::ExecutionView;
use crate::graph;
use crate::graph::ActionSpecView;
use crate::plan;
use crate::plan::{ChangeReasonView, PlanView, ProbeView};
use crate::plan_laws;
use crate::types::BuildEventView;
use vstd::prelude::*;

verus! {

/// The event is a success on these inputs.
pub open spec fn succeeded_on(e: BuildEventView, input: Seq<u8>) -> bool {
    e matches BuildEventView::Success { input: i, .. } && i == input
}

/// Where nothing is forced, every record is a success on the current inputs and
/// every artifact is present, nothing is stale.
pub proof fn unchanged_is_up_to_date(
    g: Seq<ActionSpecView>,
    answers: Map<Seq<char>, ProbeView>,
    p: PlanView,
)
    requires
        plan::is_plan(g, Set::empty(), answers, p),
        forall|id: Seq<char>| #[trigger]
            graph::has_id(g, id) ==> {
                &&& answers[id].present
                &&& answers[id].last matches Some(e) && succeeded_on(e, p.hashes[id])
            },
    ensures
        p.reasons == Map::<Seq<char>, ChangeReasonView>::empty(),
{
    assert forall|id: Seq<char>| !p.reasons.contains_key(id) by {
        if p.reasons.contains_key(id) {
            assert(graph::has_id(g, id));
            assert(graph::settled(g, p.layers.len(), id));
            fresh_upto(g, answers, p, p.layers.len(), id);
        }
    }
    assert(p.reasons =~= Map::<Seq<char>, ChangeReasonView>::empty());
}

proof fn fresh_upto(
    g: Seq<ActionSpecView>,
    answers: Map<Seq<char>, ProbeView>,
    p: PlanView,
    n: nat,
    id: Seq<char>,
)
    requires
        plan::is_plan(g, Set::empty(), answers, p),
        forall|id: Seq<char>| #[trigger]
            graph::has_id(g, id) ==> {
                &&& answers[id].present
                &&& answers[id].last matches Some(e) && succeeded_on(e, p.hashes[id])
            },
        graph::settled(g, n, id),
    ensures
        !p.reasons.contains_key(id),
    decreases n,
{
    let deps = plan::deps_of(g, id);
    assert(graph::has_id(g, id));
    assert forall|j: int| 0 <= j < deps.len() implies !p.reasons.contains_key(#[trigger] deps[j]) by {
        plan::deps_of_depends(g, id, j);
        fresh_upto(g, answers, p, (n - 1) as nat, deps[j]);
    }
    plan_laws::up_to_date_means(g, Set::empty(), answers, p, id);
}

proof fn stale_jobs_are(p: PlanView, layer: Seq<Seq<char>>)
    ensures
        forall|j: int|
            0 <= j < plan::stale_jobs(p, layer).len() ==> {
                let job = #[trigger] plan::stale_jobs(p, layer)[j];
                p.reasons.contains_key(job.0) && job.1 == p.hashes[job.0]
            },
        forall|i: int|
            0 <= i < layer.len() && p.reasons.contains_key(#[trigger] layer[i])
                ==> plan::stale_jobs(p, layer).contains((layer[i], p.hashes[layer[i]])),
    decreases layer.len(),
{
    if layer.len() > 0 {
        let rest = layer.drop_last();
        stale_jobs_are(p, rest);
        let s = plan::stale_jobs(p, layer);
        let r = plan::stale_jobs(p, rest);
        assert forall|i: int|
            0 <= i < layer.len() && p.reasons.contains_key(#[trigger] layer[i]) implies s.contains(
            (layer[i], p.hashes[layer[i]]),
        ) by {
            let x = (layer[i], p.hashes[layer[i]]);
            if i < rest.len() {
                assert(rest[i] == layer[i]);
                assert(r.contains(x));
                let k = choose|k: int| 0 <= k < r.len() && r[k] == x;
                assert(s[k] == x);
            } else {
                assert(s[s.len() - 1] == x);
            }
        }
    }
}

/// Every event of the layers that are done is in the list of all events, and
/// nothing else is.
proof fn events_come_from_layers(settled: Seq<Seq<BuildEventView>>)
    ensures
        forall|l: int, k: int|
            0 <= l < settled.len() && 0 <= k < settled[l].len() ==> execution::all_events(
                settled,
            ).contains(#[trigger] settled[l][k]),
        forall|i: int|
            0 <= i < execution::all_events(settled).len() ==> exists|l: int|
                0 <= l < settled.len() && (#[trigger] settled[l]).contains(
                    #[trigger] execution::all_events(settled)[i],
                ),
    decreases settled.len(),
{
    if settled.len() > 0 {
        let rest = settled.drop_last();
        events_come_from_layers(rest);
        let a = execution::all_events(settled);
        let r = execution::all_events(rest);
        assert forall|l: int, k: int|
            0 <= l < settled.len() && 0 <= k < settled[l].len() implies a.contains(
            #[trigger] settled[l][k],
        ) by {
            if l < rest.len() {
                assert(rest[l] == settled[l]);
                assert(r.contains(rest[l][k]));
                let i = choose|i: int| 0 <= i < r.len() && r[i] == rest[l][k];
                assert(a[i] == settled[l][k]);
            } else {
                assert(a[r.len() + k] == settled[l][k]);
            }
        }
        assert forall|i: int| 0 <= i < a.len() implies exists|l: int|
            0 <= l < settled.len() && (#[trigger] settled[l]).contains(#[trigger] a[i]) by {
            if i < r.len() {
                let l = choose|l: int|
                    0 <= l < rest.len() && (#[trigger] rest[l]).contains(#[trigger] r[i]);
                assert(settled[l].contains(a[i]));
            } else {
                assert(settled.last()[i - r.len()] == a[i]);
                assert(settled[settled.len() - 1].contains(a[i]));
            }
        }
    }
}

/// What recording a list of events leaves under an id that all of them which are
/// about it agree on.
proof fn recorded_last(
    contents: Map<Seq<char>, BuildEventView>,
    events: Seq<BuildEventView>,
    n: int,
    id: Seq<char>,
    input: Seq<u8>,
)
    requires
        0 <= n <= events.len(),
        forall|i: int|
            0 <= i < n && (#[trigger] events[i]).id() == id ==> succeeded_on(events[i], input),
    ensures
        (exists|i: int| 0 <= i < n && (#[trigger] events[i]).id() == id) ==> {
            &&& cache::recorded(contents, events, n).contains_key(id)
            &&& succeeded_on(cache::recorded(contents, events, n)[id], input)
        },
        !(exists|i: int| 0 <= i < n && (#[trigger] events[i]).id() == id) ==> plan::lookup(
            cache::recorded(contents, events, n),
            id,
        ) == plan::lookup(contents, id),
    decreases n,
{
    if n > 0 {
        recorded_last(contents, events, n - 1, id, input);
        if events[n - 1].id() != id {
            if exists|i: int| 0 <= i < n && (#[trigger] events[i]).id() == id {
                let i = choose|i: int| 0 <= i < n && (#[trigger] events[i]).id() == id;
                assert(0 <= i < n - 1 && events[i].id() == id);
            }
        }
    }
}

/// The second sync is a no-op: once a run came to its end without a failure and
/// its events were recorded, a plan made from the same inputs, with the artifacts
/// present and nothing forced, has nothing stale.
pub proof fn second_sync_is_a_no_op(
    g: Seq<ActionSpecView>,
    forced: Set<Seq<char>>,
    first: Map<Seq<char>, ProbeView>,
    p: PlanView,
    run: ExecutionView,
    contents: Map<Seq<char>, BuildEventView>,
    second: Map<Seq<char>, ProbeView>,
    q: PlanView,
)
    requires
        plan::is_plan(g, forced, first, p),
        forall|id: Seq<char>| #[trigger]
            graph::has_id(g, id) ==> first[id].last == plan::lookup(contents, id),
        run.valid(),
        run.jobs == plan::plan_jobs(p),
        run.phase is Idle,
        run.settled.len() == run.jobs.len(),
        plan::is_plan(g, Set::empty(), second, q),
        forall|id: Seq<char>| #[trigger]
            graph::has_id(g, id) ==> {
                let events = execution::all_events(run.settled);
                &&& second[id].hash == first[id].hash
                &&& second[id].present
                &&& second[id].last == plan::lookup(
                    cache::recorded(contents, events, events.len() as int),
                    id,
                )
            },
    ensures
        q.reasons == Map::<Seq<char>, ChangeReasonView>::empty(),
{
    let events = execution::all_events(run.settled);
    let n = events.len() as int;
    events_come_from_layers(run.settled);
    assert forall|i: int| 0 <= i < n implies p.reasons.contains_key((#[trigger] events[i]).id())
        && succeeded_on(events[i], p.hashes[events[i].id()]) by {
        let l = choose|l: int|
            0 <= l < run.settled.len() && (#[trigger] run.settled[l]).contains(
                #[trigger] execution::all_events(run.settled)[i],
            );
        let s = run.settled[l];
        let k = choose|k: int| 0 <= k < s.len() && s[k] == events[i];
        execution::finished_run_succeeded(run, l);
        assert(execution::belongs(s[k], run.jobs[l]));
        let j = choose|j: int|
            0 <= j < run.jobs[l].len() && execution::about(s[k], #[trigger] run.jobs[l][j]);
        stale_jobs_are(p, p.layers[l]);
        assert(run.jobs[l] == plan::stale_jobs(p, p.layers[l]));
        assert(s[k] is Success);
    }
    assert forall|id: Seq<char>| #[trigger] graph::has_id(g, id) implies second[id].present && (
    second[id].last matches Some(e) && succeeded_on(e, q.hashes[id])) by {
        assert(q.hashes[id] == p.hashes[id]);
        recorded_last(contents, events, n, id, p.hashes[id]);
        if p.reasons.contains_key(id) {
            job_is_answered(g, p, run, id);
        } else {
            assert forall|i: int| 0 <= i < n implies (#[trigger] events[i]).id() != id by {}
            plan_laws::up_to_date_means(g, forced, first, p, id);
        }
    }
    unchanged_is_up_to_date(g, second, q);
}

proof fn job_is_answered(
    g: Seq<ActionSpecView>,
    p: PlanView,
    run: ExecutionView,
    id: Seq<char>,
)
    requires
        graph::is_layering(g, p.layers),
        graph::has_id(g, id),
        p.reasons.contains_key(id),
        run.valid(),
        run.jobs == plan::plan_jobs(p),
        run.phase is Idle,
        run.settled.len() == run.jobs.len(),
    ensures
        exists|i: int|
            0 <= i < execution::all_events(run.settled).len() && (
            #[trigger] execution::all_events(run.settled)[i]).id() == id,
{
    plan::layers_are_settled(g, p.layers, p.layers.len(), id);
    let l = choose|l: int| 0 <= l < p.layers.len() && #[trigger] p.layers[l].contains(id);
    let layer = p.layers[l];
    let i = choose|i: int| 0 <= i < layer.len() && layer[i] == id;
    stale_jobs_are(p, layer);
    let jobs = plan::stale_jobs(p, layer);
    assert(run.jobs[l] == jobs);
    assert(jobs.contains((layer[i], p.hashes[layer[i]])));
    let j = choose|j: int| 0 <= j < jobs.len() && jobs[j] == (id, p.hashes[id]);
    assert(execution::covers(run.jobs[l], run.settled[l]));
    assert(execution::answered(run.settled[l], jobs[j]));
    let k = choose|k: int|
        0 <= k < run.settled[l].len() && #[trigger] execution::about(run.settled[l][k], jobs[j]);
    events_come_from_layers(run.settled);
    let all = execution::all_events(run.settled);
    assert(all.contains(run.settled[l][k]));
    let m = choose|m: int| 0 <= m < all.len() && all[m] == run.settled[l][k];
    assert(all[m].id() == id);
}

} // verus!
