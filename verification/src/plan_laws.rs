//! What holds of every layering and of every plan.

use crate::graph;
use crate::graph::ActionSpecView;
use crate::order;
use crate::plan;
use crate::plan::{ChangeReasonView, PlanView, ProbeView};
use crate::types::BuildEventView;
use vstd::prelude::*;

verus! {

/// Every dependency of an action lies in an earlier layer.
pub proof fn dependencies_come_first(
    g: Seq<ActionSpecView>,
    layers: Seq<Seq<Seq<char>>>,
    k: int,
    id: Seq<char>,
    dep: Seq<char>,
)
    requires
        graph::is_layering(g, layers),
        0 <= k < layers.len(),
        layers[k].contains(id),
        graph::depends(g, id, dep),
    ensures
        exists|m: int| 0 <= m < k && #[trigger] layers[m].contains(dep),
{
    assert(graph::settled(g, k as nat, dep));
    plan::layers_are_settled(g, layers, k as nat, dep);
    let m = choose|m: int| 0 <= m < k && m < layers.len() && #[trigger] layers[m].contains(dep);
    assert(0 <= m < k && layers[m].contains(dep));
}

/// Actions of one layer do not depend on each other.
pub proof fn layer_is_independent(
    g: Seq<ActionSpecView>,
    layers: Seq<Seq<Seq<char>>>,
    k: int,
    a: Seq<char>,
    b: Seq<char>,
)
    requires
        graph::is_layering(g, layers),
        0 <= k < layers.len(),
        layers[k].contains(a),
        layers[k].contains(b),
    ensures
        !graph::depends(g, a, b),
{
    if graph::depends(g, a, b) {
        dependencies_come_first(g, layers, k, a, b);
        let m = choose|m: int| 0 <= m < k && #[trigger] layers[m].contains(b);
        graph::settled_monotone(g, (m + 1) as nat, k as nat, b);
    }
}

/// Every action is in exactly one layer, and nothing else is in any.
pub proof fn in_exactly_one_layer(
    g: Seq<ActionSpecView>,
    layers: Seq<Seq<Seq<char>>>,
    id: Seq<char>,
)
    requires
        graph::is_layering(g, layers),
    ensures
        graph::has_id(g, id) <==> exists|k: int|
            0 <= k < layers.len() && #[trigger] layers[k].contains(id),
        forall|j: int, k: int|
            0 <= j < layers.len() && 0 <= k < layers.len() && #[trigger] layers[j].contains(id)
                && #[trigger] layers[k].contains(id) ==> j == k,
{
    plan::layers_are_settled(g, layers, layers.len(), id);
    assert forall|j: int, k: int|
        0 <= j < layers.len() && 0 <= k < layers.len() && #[trigger] layers[j].contains(id)
            && #[trigger] layers[k].contains(id) implies j == k by {
        if j < k {
            graph::settled_monotone(g, (j + 1) as nat, k as nat, id);
        } else if k < j {
            graph::settled_monotone(g, (k + 1) as nat, j as nat, id);
        }
    }
    if exists|k: int| 0 <= k < layers.len() && #[trigger] layers[k].contains(id) {
        let k = choose|k: int| 0 <= k < layers.len() && #[trigger] layers[k].contains(id);
        assert(graph::settled(g, (k + 1) as nat, id));
    }
}

/// A graph has at most one layering.
pub proof fn layering_is_unique(
    g: Seq<ActionSpecView>,
    a: Seq<Seq<Seq<char>>>,
    b: Seq<Seq<Seq<char>>>,
)
    requires
        graph::is_layering(g, a),
        graph::is_layering(g, b),
    ensures
        a == b,
{
    layering_not_longer(g, a, b);
    layering_not_longer(g, b, a);
    assert forall|k: int| 0 <= k < a.len() implies a[k] == b[k] by {
        assert forall|id: Seq<char>| a[k].to_set().contains(id) <==> b[k].to_set().contains(id) by {
            assert(a[k].contains(id) <==> b[k].contains(id));
        }
        assert(a[k].to_set() =~= b[k].to_set());
        order::strictly_sorted_unique(order::char_key(), a[k], b[k]);
    }
    assert(a =~= b);
}

proof fn layering_not_longer(
    g: Seq<ActionSpecView>,
    a: Seq<Seq<Seq<char>>>,
    b: Seq<Seq<Seq<char>>>,
)
    requires
        graph::is_layering(g, a),
        graph::is_layering(g, b),
    ensures
        b.len() <= a.len(),
{
    if a.len() < b.len() {
        let k = a.len() as int;
        assert(b[k].len() > 0);
        let id = b[k][0];
        assert(b[k].contains(id));
        assert(graph::settled(g, (k + 1) as nat, id));
        assert(graph::has_id(g, id));
    }
}

/// A graph that can be layered has no action that never becomes runnable, so
/// success and a cycle report exclude each other.
pub proof fn layering_excludes_cycles(
    g: Seq<ActionSpecView>,
    layers: Seq<Seq<Seq<char>>>,
    ids: Seq<Seq<char>>,
)
    requires
        graph::is_layering(g, layers),
    ensures
        !graph::is_cycle_report(g, ids),
{
    if graph::is_cycle_report(g, ids) {
        assert(ids.contains(ids[0]));
        assert(graph::stuck(g, ids[0]));
        assert(graph::settled(g, layers.len(), ids[0]));
    }
}

/// Where every dependency is registered, an action that never becomes runnable
/// depends on another such action.
pub proof fn stuck_depends_on_stuck(g: Seq<ActionSpecView>, id: Seq<char>)
    requires
        graph::complete(g),
        graph::stuck(g, id),
    ensures
        exists|d: Seq<char>| #[trigger] graph::depends(g, id, d) && graph::stuck(g, d),
{
    if forall|d: Seq<char>| #[trigger] graph::depends(g, id, d) ==> !graph::stuck(g, d) {
        let n = settled_bound(g, id, g.len() as int);
        assert(graph::settled(g, n + 1, id));
    }
}

/// A number of rounds within which all dependencies of `id` declared by the
/// first `upto` actions become runnable.
proof fn settled_bound(g: Seq<ActionSpecView>, id: Seq<char>, upto: int) -> (n: nat)
    requires
        graph::complete(g),
        0 <= upto <= g.len(),
        graph::has_id(g, id),
        forall|d: Seq<char>| #[trigger] graph::depends(g, id, d) ==> !graph::stuck(g, d),
    ensures
        forall|a: int, b: int|
            0 <= a < upto && g[a].id == id && 0 <= b < g[a].deps.len() ==> graph::settled(
                g,
                n,
                #[trigger] g[a].deps[b],
            ),
        upto == g.len() ==> forall|d: Seq<char>| #[trigger]
            graph::depends(g, id, d) ==> graph::settled(g, n, d),
    decreases upto,
{
    if upto == 0 {
        0
    } else {
        let n0 = settled_bound(g, id, upto - 1);
        let n1 = if g[upto - 1].id == id {
            settled_bound_deps(g, id, upto - 1, g[upto - 1].deps.len() as int)
        } else {
            0
        };
        let n = n0 + n1;
        assert forall|a: int, b: int|
            0 <= a < upto && g[a].id == id && 0 <= b < g[a].deps.len() implies graph::settled(
            g,
            n,
            #[trigger] g[a].deps[b],
        ) by {
            if a < upto - 1 {
                graph::settled_monotone(g, n0, n, g[a].deps[b]);
            } else {
                graph::settled_monotone(g, n1, n, g[a].deps[b]);
            }
        }
        n
    }
}

proof fn settled_bound_deps(g: Seq<ActionSpecView>, id: Seq<char>, a: int, upto: int) -> (n: nat)
    requires
        graph::complete(g),
        0 <= a < g.len(),
        g[a].id == id,
        0 <= upto <= g[a].deps.len(),
        forall|d: Seq<char>| #[trigger] graph::depends(g, id, d) ==> !graph::stuck(g, d),
    ensures
        forall|b: int| 0 <= b < upto ==> graph::settled(g, n, #[trigger] g[a].deps[b]),
    decreases upto,
{
    if upto == 0 {
        0
    } else {
        let n0 = settled_bound_deps(g, id, a, upto - 1);
        let d = g[a].deps[upto - 1];
        assert(graph::depends(g, id, d));
        assert(!graph::missing_at(g, a, upto - 1));
        assert(graph::has_id(g, d));
        let n1 = choose|m: nat| #[trigger] graph::settled(g, m, d);
        let n = n0 + n1;
        assert forall|b: int| 0 <= b < upto implies graph::settled(
            g,
            n,
            #[trigger] g[a].deps[b],
        ) by {
            if b < upto - 1 {
                graph::settled_monotone(g, n0, n, g[a].deps[b]);
            } else {
                graph::settled_monotone(g, n1, n, d);
            }
        }
        n
    }
}

/// Actions of which each depends on one of them never become runnable: a
/// dependency cycle is always reported in full.
pub proof fn cycles_are_stuck(g: Seq<ActionSpecView>, ring: Set<Seq<char>>, id: Seq<char>)
    requires
        forall|x: Seq<char>| #[trigger] ring.contains(x) ==> graph::has_id(g, x),
        forall|x: Seq<char>| #[trigger]
            ring.contains(x) ==> exists|d: Seq<char>| #[trigger] graph::depends(g, x, d) && ring.contains(d),
        ring.contains(id),
    ensures
        graph::stuck(g, id),
{
    assert forall|n: nat| !#[trigger] graph::settled(g, n, id) by {
        ring_never_settles(g, ring, id, n);
    }
}

proof fn ring_never_settles(g: Seq<ActionSpecView>, ring: Set<Seq<char>>, id: Seq<char>, n: nat)
    requires
        forall|x: Seq<char>| #[trigger]
            ring.contains(x) ==> exists|d: Seq<char>| #[trigger] graph::depends(g, x, d) && ring.contains(d),
        ring.contains(id),
    ensures
        !graph::settled(g, n, id),
    decreases n,
{
    if n > 0 {
        let d = choose|d: Seq<char>| #[trigger] graph::depends(g, id, d) && ring.contains(d);
        ring_never_settles(g, ring, d, (n - 1) as nat);
    }
}

/// The first stale dependency is found whenever there is one.
pub proof fn first_stale_finds(deps: Seq<Seq<char>>, stale: Set<Seq<char>>)
    ensures
        plan::first_stale(deps, stale) is Some <==> exists|j: int|
            0 <= j < deps.len() && stale.contains(#[trigger] deps[j]),
        plan::first_stale(deps, stale) matches Some(d) ==> deps.contains(d) && stale.contains(d),
    decreases deps.len(),
{
    if deps.len() > 0 {
        let rest = deps.drop_first();
        first_stale_finds(rest, stale);
        if exists|j: int| 0 <= j < deps.len() && stale.contains(#[trigger] deps[j]) {
            let j = choose|j: int| 0 <= j < deps.len() && stale.contains(#[trigger] deps[j]);
            if j > 0 {
                assert(rest[j - 1] == deps[j]);
            }
        }
        if plan::first_stale(deps, stale) is Some {
            if stale.contains(deps[0]) {
                assert(deps.contains(deps[0]));
            } else {
                let d = plan::first_stale(rest, stale)->0;
                let j = choose|j: int| 0 <= j < rest.len() && rest[j] == d;
                assert(deps[j + 1] == d);
                let i = choose|i: int| 0 <= i < rest.len() && stale.contains(#[trigger] rest[i]);
                assert(stale.contains(deps[i + 1]));
            }
        }
    }
}

/// Staleness cascades: an action that depends on a stale one is stale.
pub proof fn staleness_cascades(
    g: Seq<ActionSpecView>,
    forced: Set<Seq<char>>,
    answers: Map<Seq<char>, ProbeView>,
    p: PlanView,
    id: Seq<char>,
    dep: Seq<char>,
)
    requires
        plan::is_plan(g, forced, answers, p),
        graph::has_id(g, id),
        plan::deps_of(g, id).contains(dep),
        p.reasons.contains_key(dep),
    ensures
        p.reasons.contains_key(id),
{
    first_stale_finds(plan::deps_of(g, id), p.reasons.dom());
    let j = choose|j: int| 0 <= j < plan::deps_of(g, id).len() && plan::deps_of(g, id)[j] == dep;
    assert(p.reasons.dom().contains(plan::deps_of(g, id)[j]));
    assert(plan::reason_agrees(g, forced, answers, p.reasons, id));
}

/// A forced action is stale, and its reason says so whatever else holds of it.
pub proof fn forced_is_stale(
    g: Seq<ActionSpecView>,
    forced: Set<Seq<char>>,
    answers: Map<Seq<char>, ProbeView>,
    p: PlanView,
    id: Seq<char>,
)
    requires
        plan::is_plan(g, forced, answers, p),
        graph::has_id(g, id),
    ensures
        forced.contains(id) <==> plan::lookup(p.reasons, id) == Some(ChangeReasonView::Forced),
{
    assert(plan::reason_agrees(g, forced, answers, p.reasons, id));
}

/// An action is up to date exactly when it is not forced, its last run
/// succeeded on the same inputs, its artifact is present and none of its
/// dependencies is stale.
pub proof fn up_to_date_means(
    g: Seq<ActionSpecView>,
    forced: Set<Seq<char>>,
    answers: Map<Seq<char>, ProbeView>,
    p: PlanView,
    id: Seq<char>,
)
    requires
        plan::is_plan(g, forced, answers, p),
        graph::has_id(g, id),
    ensures
        !p.reasons.contains_key(id) <==> {
            &&& !forced.contains(id)
            &&& answers[id].last matches Some(BuildEventView::Success { input, .. })
            &&& input == p.hashes[id]
            &&& answers[id].present
            &&& forall|j: int|
                0 <= j < plan::deps_of(g, id).len() ==> !p.reasons.contains_key(
                    #[trigger] plan::deps_of(g, id)[j],
                )
        },
{
    first_stale_finds(plan::deps_of(g, id), p.reasons.dom());
    assert(plan::reason_agrees(g, forced, answers, p.reasons, id));
    assert forall|j: int| 0 <= j < plan::deps_of(g, id).len() implies (p.reasons.dom().contains(
        #[trigger] plan::deps_of(g, id)[j],
    ) <==> p.reasons.contains_key(plan::deps_of(g, id)[j])) by {}
}

/// An action that was never built, or whose last run failed, always runs again.
pub proof fn failures_rerun(
    g: Seq<ActionSpecView>,
    forced: Set<Seq<char>>,
    answers: Map<Seq<char>, ProbeView>,
    p: PlanView,
    id: Seq<char>,
)
    requires
        plan::is_plan(g, forced, answers, p),
        graph::has_id(g, id),
        !(answers[id].last matches Some(BuildEventView::Success { .. })),
    ensures
        p.reasons.contains_key(id),
{
    assert(plan::reason_agrees(g, forced, answers, p.reasons, id));
}

/// The graph, the forced ids and the answers determine the plan.
pub proof fn plan_is_unique(
    g: Seq<ActionSpecView>,
    forced: Set<Seq<char>>,
    answers: Map<Seq<char>, ProbeView>,
    a: PlanView,
    b: PlanView,
)
    requires
        plan::is_plan(g, forced, answers, a),
        plan::is_plan(g, forced, answers, b),
    ensures
        a == b,
{
    layering_is_unique(g, a.layers, b.layers);
    let n = a.layers.len();
    assert forall|id: Seq<char>| graph::has_id(g, id) implies plan::lookup(a.reasons, id)
        == plan::lookup(b.reasons, id) by {
        reasons_equal_upto(g, forced, answers, a, b, n, id);
    }
    assert forall|id: Seq<char>| a.reasons.contains_key(id) <==> b.reasons.contains_key(id) by {
        assert(graph::has_id(g, id) ==> plan::lookup(a.reasons, id) == plan::lookup(b.reasons, id));
    }
    assert forall|id: Seq<char>| #[trigger] a.reasons.contains_key(id) implies a.reasons[id]
        == b.reasons[id] by {
        assert(plan::lookup(a.reasons, id) == plan::lookup(b.reasons, id));
    }
    assert(a.reasons =~= b.reasons);
    assert forall|id: Seq<char>| #[trigger] a.hashes.contains_key(id) implies a.hashes[id]
        == b.hashes[id] by {
        assert(graph::has_id(g, id));
    }
    assert forall|id: Seq<char>| a.hashes.contains_key(id) <==> b.hashes.contains_key(id) by {
        assert(a.hashes.contains_key(id) <==> graph::has_id(g, id));
        assert(b.hashes.contains_key(id) <==> graph::has_id(g, id));
    }
    assert(a.hashes =~= b.hashes);
}

proof fn reasons_equal_upto(
    g: Seq<ActionSpecView>,
    forced: Set<Seq<char>>,
    answers: Map<Seq<char>, ProbeView>,
    a: PlanView,
    b: PlanView,
    n: nat,
    id: Seq<char>,
)
    requires
        plan::is_plan(g, forced, answers, a),
        plan::is_plan(g, forced, answers, b),
        graph::settled(g, n, id),
    ensures
        plan::lookup(a.reasons, id) == plan::lookup(b.reasons, id),
    decreases n,
{
    let deps = plan::deps_of(g, id);
    assert forall|j: int| 0 <= j < deps.len() implies (a.reasons.dom().contains(#[trigger] deps[j])
        <==> b.reasons.dom().contains(deps[j])) by {
        plan::deps_of_depends(g, id, j);
        reasons_equal_upto(g, forced, answers, a, b, (n - 1) as nat, deps[j]);
    }
    plan::first_stale_same(deps, a.reasons.dom(), b.reasons.dom());
    assert(graph::has_id(g, id));
    assert(plan::reason_agrees(g, forced, answers, a.reasons, id));
    assert(plan::reason_agrees(g, forced, answers, b.reasons, id));
}

/// Forcing more actions never makes a stale action fresh.
pub proof fn forcing_only_adds(
    g: Seq<ActionSpecView>,
    less: Set<Seq<char>>,
    more: Set<Seq<char>>,
    answers: Map<Seq<char>, ProbeView>,
    p: PlanView,
    q: PlanView,
    id: Seq<char>,
)
    requires
        plan::is_plan(g, less, answers, p),
        plan::is_plan(g, more, answers, q),
        less.subset_of(more),
        p.reasons.contains_key(id),
    ensures
        q.reasons.contains_key(id),
{
    assert(graph::has_id(g, id));
    assert(graph::settled(g, p.layers.len(), id));
    more_forced_more_stale_upto(g, less, more, answers, p, q, p.layers.len(), id);
}

proof fn more_forced_more_stale_upto(
    g: Seq<ActionSpecView>,
    less: Set<Seq<char>>,
    more: Set<Seq<char>>,
    answers: Map<Seq<char>, ProbeView>,
    p: PlanView,
    q: PlanView,
    n: nat,
    id: Seq<char>,
)
    requires
        plan::is_plan(g, less, answers, p),
        plan::is_plan(g, more, answers, q),
        less.subset_of(more),
        graph::settled(g, n, id),
    ensures
        p.reasons.contains_key(id) ==> q.reasons.contains_key(id),
    decreases n,
{
    let deps = plan::deps_of(g, id);
    first_stale_finds(deps, p.reasons.dom());
    first_stale_finds(deps, q.reasons.dom());
    assert(graph::has_id(g, id));
    assert(plan::reason_agrees(g, less, answers, p.reasons, id));
    assert(plan::reason_agrees(g, more, answers, q.reasons, id));
    if p.reasons.contains_key(id) && plan::first_stale(deps, p.reasons.dom()) is Some {
        let j = choose|j: int| 0 <= j < deps.len() && p.reasons.dom().contains(#[trigger] deps[j]);
        plan::deps_of_depends(g, id, j);
        more_forced_more_stale_upto(g, less, more, answers, p, q, (n - 1) as nat, deps[j]);
        assert(q.reasons.dom().contains(deps[j]));
    }
}

} // verus!
