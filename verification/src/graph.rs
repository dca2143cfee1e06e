//! The action graph and its topological layers.

use crate::order;
use crate::plan::PlanError;
use crate::types;
use crate::types::ActionId;
use vstd::prelude::*;

verus! {

/// An action as the planner sees it: its id and the ids it depends on.
#[derive(Debug)]
pub struct ActionSpec {
    /// The id of the action.
    pub id: ActionId,
    /// The ids it depends on, in declaration order.
    pub deps: Vec<ActionId>,
}

/// What an [`ActionSpec`] holds.
#[verifier::ext_equal]
pub struct ActionSpecView {
    /// The id of the action.
    pub id: Seq<char>,
    /// The ids it depends on.
    pub deps: Seq<Seq<char>>,
}

impl View for ActionSpec {
    type V = ActionSpecView;

    open spec fn view(&self) -> ActionSpecView {
        ActionSpecView { id: self.id@, deps: types::id_views(self.deps@) }
    }
}

/// What a list of actions holds.
pub open spec fn graph_view(actions: Seq<ActionSpec>) -> Seq<ActionSpecView> {
    actions.map_values(|a: ActionSpec| a@)
}

/// Some action of the graph has this id.
pub open spec fn has_id(g: Seq<ActionSpecView>, id: Seq<char>) -> bool {
    exists|i: int| 0 <= i < g.len() && #[trigger] g[i].id == id
}

/// Some action with id `from` declares a dependency on `to`.
pub open spec fn depends(g: Seq<ActionSpecView>, from: Seq<char>, to: Seq<char>) -> bool {
    exists|i: int, j: int|
        0 <= i < g.len() && g[i].id == from && 0 <= j < g[i].deps.len()
            && #[trigger] g[i].deps[j] == to
}

/// The `j`-th dependency of the `i`-th action is not an id of the graph.
pub open spec fn missing_at(g: Seq<ActionSpecView>, i: int, j: int) -> bool {
    0 <= i < g.len() && 0 <= j < g[i].deps.len() && !has_id(g, g[i].deps[j])
}

/// `(i, j)` is the first place, in declaration order, with a missing dependency.
pub open spec fn first_missing(g: Seq<ActionSpecView>, i: int, j: int) -> bool {
    &&& missing_at(g, i, j)
    &&& forall|a: int, b: int|
        (a < i || (a == i && b < j)) ==> !#[trigger] missing_at(g, a, b)
}

/// Every declared dependency is an id of the graph.
pub open spec fn complete(g: Seq<ActionSpecView>) -> bool {
    forall|i: int, j: int| !#[trigger] missing_at(g, i, j)
}

/// The action can be run within the first `n` rounds, where a round runs every
/// action whose dependencies all ran in earlier rounds.
pub open spec fn settled(g: Seq<ActionSpecView>, n: nat, id: Seq<char>) -> bool
    decreases n,
{
    n > 0 && has_id(g, id) && forall|d: Seq<char>| #[trigger]
        depends(g, id, d) ==> settled(g, (n - 1) as nat, d)
}

/// The action never becomes runnable.
pub open spec fn stuck(g: Seq<ActionSpecView>, id: Seq<char>) -> bool {
    has_id(g, id) && forall|n: nat| !#[trigger] settled(g, n, id)
}

/// Layer `k` holds, in text order, exactly the actions that become runnable in
/// round `k`; no layer is empty and every action is in one.
pub open spec fn is_layering(g: Seq<ActionSpecView>, layers: Seq<Seq<Seq<char>>>) -> bool {
    &&& forall|k: int|
        0 <= k < layers.len() ==> #[trigger] layers[k].len() > 0 && order::sorted_texts(layers[k])
    &&& forall|k: int, id: Seq<char>|
        0 <= k < layers.len() ==> (#[trigger] layers[k].contains(id) <==> settled(
            g,
            (k + 1) as nat,
            id,
        ) && !settled(g, k as nat, id))
    &&& forall|id: Seq<char>| #[trigger] has_id(g, id) ==> settled(g, layers.len(), id)
}

/// The ids in text order of the actions that never become runnable.
pub open spec fn is_cycle_report(g: Seq<ActionSpecView>, ids: Seq<Seq<char>>) -> bool {
    &&& ids.len() > 0
    &&& order::sorted_texts(ids)
    &&& forall|id: Seq<char>| #[trigger] ids.contains(id) <==> stuck(g, id)
}

/// The views of layers of identifiers.
pub open spec fn layer_views(layers: Seq<Vec<ActionId>>) -> Seq<Seq<Seq<char>>> {
    layers.map_values(|l: Vec<ActionId>| types::id_views(l@))
}

/// What is runnable within some rounds is runnable within one more.
pub proof fn settled_grows(g: Seq<ActionSpecView>, n: nat, id: Seq<char>)
    requires
        settled(g, n, id),
    ensures
        settled(g, n + 1, id),
    decreases n,
{
    assert forall|d: Seq<char>| #[trigger] depends(g, id, d) implies settled(g, n, d) by {
        settled_grows(g, (n - 1) as nat, d);
    }
}

/// What is runnable within some rounds is runnable within any greater number.
pub proof fn settled_monotone(g: Seq<ActionSpecView>, n: nat, m: nat, id: Seq<char>)
    requires
        settled(g, n, id),
        n <= m,
    ensures
        settled(g, m, id),
    decreases m - n,
{
    if n < m {
        settled_grows(g, n, id);
        settled_monotone(g, n + 1, m, id);
    }
}

/// Once a round adds nothing, no later round adds anything.
proof fn settled_fixpoint(g: Seq<ActionSpecView>, k: nat, m: nat, id: Seq<char>)
    requires
        forall|x: Seq<char>| settled(g, k + 1, x) ==> #[trigger] settled(g, k, x),
        settled(g, m, id),
    ensures
        settled(g, k, id),
    decreases m,
{
    if m <= k {
        settled_monotone(g, m, k, id);
    } else {
        assert forall|d: Seq<char>| #[trigger] depends(g, id, d) implies settled(g, k, d) by {
            settled_fixpoint(g, k, (m - 1) as nat, d);
        }
        assert(settled(g, k + 1, id));
    }
}

/// How many entries are still false.
spec fn undone(done: Seq<bool>) -> nat
    decreases done.len(),
{
    if done.len() == 0 {
        0
    } else {
        undone(done.drop_last()) + if done.last() {
            0nat
        } else {
            1nat
        }
    }
}

proof fn undone_update(done: Seq<bool>, i: int)
    requires
        0 <= i < done.len(),
        !done[i],
    ensures
        undone(done.update(i, true)) + 1 == undone(done),
    decreases done.len(),
{
    let u = done.update(i, true);
    if i == done.len() - 1 {
        assert(u.drop_last() =~= done.drop_last());
    } else {
        assert(u.drop_last() =~= done.drop_last().update(i, true));
        undone_update(done.drop_last(), i);
    }
}

/// The distinct ids of the actions in text order.
fn sorted_ids(actions: &Vec<ActionSpec>) -> (names: Vec<String>)
    ensures
        order::sorted_texts(order::text_views(names@)),
        forall|id: Seq<char>| #[trigger]
            order::text_views(names@).contains(id) <==> has_id(graph_view(actions@), id),
{
    let ghost g = graph_view(actions@);
    let mut names: Vec<String> = Vec::new();
    let mut i: usize = 0;
    while i < actions.len()
        invariant
            i <= actions.len(),
            g == graph_view(actions@),
            order::sorted_texts(order::text_views(names@)),
            forall|id: Seq<char>| #[trigger]
                order::text_views(names@).contains(id) <==> exists|k: int|
                    0 <= k < i && #[trigger] g[k].id == id,
        decreases actions.len() - i,
    {
        let ghost before = order::text_views(names@);
        order::insert_text(&mut names, &actions[i].id.0);
        let ghost after = order::text_views(names@);
        assert(g[i as int].id == actions@[i as int].id.0@);
        assert forall|id: Seq<char>| #[trigger] after.contains(id) <==> exists|k: int|
            0 <= k < i + 1 && #[trigger] g[k].id == id by {
            if after.contains(id) {
                if before.contains(id) {
                    let k = choose|k: int| 0 <= k < i && #[trigger] g[k].id == id;
                    assert(0 <= k < i + 1 && g[k].id == id);
                } else {
                    assert(g[i as int].id == id);
                }
            }
            if exists|k: int| 0 <= k < i + 1 && #[trigger] g[k].id == id {
                let k = choose|k: int| 0 <= k < i + 1 && #[trigger] g[k].id == id;
                if k < i {
                    assert(before.contains(id));
                }
            }
        }
        i = i + 1;
    }
    names
}

/// Some edge leads from the position of `from` to the position of `to`.
spec fn has_edge(
    names: Seq<Seq<char>>,
    edges: Seq<(usize, usize)>,
    from: Seq<char>,
    to: Seq<char>,
) -> bool {
    exists|e: int|
        0 <= e < edges.len() && names[(#[trigger] edges[e]).0 as int] == from
            && names[edges[e].1 as int] == to
}

/// The edges found so far stand for exactly the dependencies declared before `(i, j)`.
spec fn edges_until(
    g: Seq<ActionSpecView>,
    names: Seq<Seq<char>>,
    edges: Seq<(usize, usize)>,
    i: int,
    j: int,
) -> bool {
    &&& forall|e: int|
        0 <= e < edges.len() ==> (#[trigger] edges[e]).0 < names.len() && edges[e].1 < names.len()
            && depends(g, names[edges[e].0 as int], names[edges[e].1 as int])
    &&& forall|a: int, b: int|
        0 <= a < g.len() && 0 <= b < g[a].deps.len() && (a < i || (a == i && b < j)) ==> has_edge(
            names,
            edges,
            g[a].id,
            #[trigger] g[a].deps[b],
        )
}

/// Every declared dependency as a pair of positions in `names`, or the first
/// one that names no action.
fn edges_of(actions: &Vec<ActionSpec>, names: &Vec<String>) -> (r: Result<
    Vec<(usize, usize)>,
    PlanError,
>)
    requires
        order::sorted_texts(order::text_views(names@)),
        forall|id: Seq<char>| #[trigger]
            order::text_views(names@).contains(id) <==> has_id(graph_view(actions@), id),
    ensures
        r matches Ok(edges) ==> complete(graph_view(actions@)) && edges_until(
            graph_view(actions@),
            order::text_views(names@),
            edges@,
            actions.len() as int,
            0,
        ),
        r matches Err(e) ==> (e matches PlanError::MissingDep { from, to } && exists|
            i: int,
            j: int,
        |
            #[trigger] first_missing(graph_view(actions@), i, j) && graph_view(actions@)[i].id
                == from@ && graph_view(actions@)[i].deps[j] == to@),
{
    let ghost g = graph_view(actions@);
    let ghost nv = order::text_views(names@);
    let mut edges: Vec<(usize, usize)> = Vec::new();
    let mut i: usize = 0;
    while i < actions.len()
        invariant
            i <= actions.len(),
            g == graph_view(actions@),
            nv == order::text_views(names@),
            order::sorted_texts(nv),
            forall|id: Seq<char>| #[trigger] nv.contains(id) <==> has_id(g, id),
            edges_until(g, nv, edges@, i as int, 0),
            forall|a: int, b: int| a < i ==> !#[trigger] missing_at(g, a, b),
        decreases actions.len() - i,
    {
        assert(g[i as int].id == actions@[i as int].id.0@);
        assert(has_id(g, g[i as int].id));
        let from = order::find_text(names, &actions[i].id.0);
        let p: usize = match from {
            Some(p) => p,
            None => 0,
        };
        let deps = &actions[i].deps;
        let mut j: usize = 0;
        while j < deps.len()
            invariant
                i < actions.len(),
                j <= deps.len(),
                deps@ == actions@[i as int].deps@,
                g == graph_view(actions@),
                nv == order::text_views(names@),
                order::sorted_texts(nv),
                forall|id: Seq<char>| #[trigger] nv.contains(id) <==> has_id(g, id),
                p < names.len(),
                nv[p as int] == g[i as int].id,
                edges_until(g, nv, edges@, i as int, j as int),
                forall|a: int, b: int|
                    (a < i || (a == i && b < j)) ==> !#[trigger] missing_at(g, a, b),
            decreases deps.len() - j,
        {
            assert(g[i as int].deps[j as int] == deps@[j as int].0@);
            match order::find_text(names, &deps[j].0) {
                None => {
                    proof {
                        assert(!has_id(g, deps@[j as int].0@));
                        assert(missing_at(g, i as int, j as int));
                        assert(first_missing(g, i as int, j as int));
                    }
                    return Err(
                        PlanError::MissingDep { from: actions[i].id.clone(), to: deps[j].clone() },
                    );
                },
                Some(q) => {
                    let ghost before = edges@;
                    edges.push((p, q));
                    proof {
                        assert(has_id(g, deps@[j as int].0@));
                        assert(!missing_at(g, i as int, j as int));
                        assert(nv[q as int] == g[i as int].deps[j as int]);
                        assert(depends(g, nv[p as int], nv[q as int]));
                        assert(edges@[edges@.len() - 1] == (p, q));
                        assert forall|a: int, b: int|
                            0 <= a < g.len() && 0 <= b < g[a].deps.len() && (a < i || (a == i && b
                                < j + 1)) implies has_edge(
                            nv,
                            edges@,
                            g[a].id,
                            #[trigger] g[a].deps[b],
                        ) by {
                            if a < i || b < j {
                                assert(has_edge(nv, before, g[a].id, g[a].deps[b]));
                                let e = choose|e: int|
                                    0 <= e < before.len() && nv[(#[trigger] before[e]).0 as int]
                                        == g[a].id && nv[before[e].1 as int] == g[a].deps[b];
                                assert(edges@[e] == before[e]);
                            }
                        }
                    }
                },
            }
            j = j + 1;
        }
        assert(g[i as int].deps.len() == deps@.len());
        i = i + 1;
    }
    Ok(edges)
}

/// With all edges known and `done` marking what is runnable within `k` rounds,
/// an action is runnable within one more exactly when no edge of it leads to
/// an unmarked one.
proof fn round_is_exact(
    g: Seq<ActionSpecView>,
    names: Seq<Seq<char>>,
    edges: Seq<(usize, usize)>,
    done: Seq<bool>,
    k: nat,
    p: int,
)
    requires
        order::sorted_texts(names),
        forall|id: Seq<char>| #[trigger] names.contains(id) <==> has_id(g, id),
        edges_until(g, names, edges, g.len() as int, 0),
        done.len() == names.len(),
        forall|q: int| 0 <= q < names.len() ==> (#[trigger] done[q] <==> settled(g, k, names[q])),
        0 <= p < names.len(),
    ensures
        settled(g, k + 1, names[p]) <==> forall|e: int|
            0 <= e < edges.len() && (#[trigger] edges[e]).0 == p ==> done[edges[e].1 as int],
{
    assert(names.contains(names[p]));
    order::strictly_sorted_no_duplicates(order::char_key(), names);
    if settled(g, k + 1, names[p]) {
        assert forall|e: int| 0 <= e < edges.len() && (#[trigger] edges[e]).0 == p implies done[
            edges[e].1 as int] by {
            assert(depends(g, names[p], names[edges[e].1 as int]));
        }
    }
    if forall|e: int|
        0 <= e < edges.len() && (#[trigger] edges[e]).0 == p ==> done[edges[e].1 as int] {
        assert forall|d: Seq<char>| #[trigger] depends(g, names[p], d) implies settled(g, k, d) by {
            let (a, b) = choose|a: int, b: int|
                0 <= a < g.len() && g[a].id == names[p] && 0 <= b < g[a].deps.len()
                    && #[trigger] g[a].deps[b] == d;
            assert(has_edge(names, edges, g[a].id, g[a].deps[b]));
            let e = choose|e: int|
                0 <= e < edges.len() && names[(#[trigger] edges[e]).0 as int] == g[a].id
                    && names[edges[e].1 as int] == g[a].deps[b];
            assert(edges[e].0 == p);
            assert(done[edges[e].1 as int]);
        }
    }
}

/// Which positions still wait for an unmarked dependency.
fn blocked_by(edges: &Vec<(usize, usize)>, done: &Vec<bool>) -> (blocked: Vec<bool>)
    requires
        forall|e: int|
            0 <= e < edges.len() ==> (#[trigger] edges@[e]).0 < done.len() && edges@[e].1
                < done.len(),
    ensures
        blocked.len() == done.len(),
        forall|p: int|
            0 <= p < done.len() ==> (#[trigger] blocked@[p] <==> exists|e: int|
                0 <= e < edges.len() && (#[trigger] edges@[e]).0 == p && !done@[edges@[e].1 as int]),
{
    let mut blocked: Vec<bool> = Vec::new();
    let mut i: usize = 0;
    while i < done.len()
        invariant
            i <= done.len(),
            blocked.len() == i,
            forall|p: int| 0 <= p < i ==> !#[trigger] blocked@[p],
        decreases done.len() - i,
    {
        blocked.push(false);
        i = i + 1;
    }
    let mut e: usize = 0;
    while e < edges.len()
        invariant
            e <= edges.len(),
            blocked.len() == done.len(),
            forall|x: int|
                0 <= x < edges.len() ==> (#[trigger] edges@[x]).0 < done.len() && edges@[x].1
                    < done.len(),
            forall|p: int|
                0 <= p < done.len() ==> (#[trigger] blocked@[p] <==> exists|x: int|
                    0 <= x < e && (#[trigger] edges@[x]).0 == p && !done@[edges@[x].1 as int]),
        decreases edges.len() - e,
    {
        let ghost before = blocked@;
        let (p, q) = edges[e];
        assert(edges@[e as int] == (p, q));
        if !done[q] {
            blocked.set(p, true);
        }
        assert forall|c: int| 0 <= c < done.len() implies (#[trigger] blocked@[c] <==> exists|x: int|
            0 <= x < e + 1 && (#[trigger] edges@[x]).0 == c && !done@[edges@[x].1 as int]) by {
            if blocked@[c] {
                if before[c] {
                    let x = choose|x: int|
                        0 <= x < e && (#[trigger] edges@[x]).0 == c && !done@[edges@[x].1 as int];
                    assert(0 <= x < e + 1 && edges@[x].0 == c && !done@[edges@[x].1 as int]);
                } else {
                    assert(edges@[e as int].0 == c && !done@[edges@[e as int].1 as int]);
                }
            }
            if exists|x: int|
                0 <= x < e + 1 && (#[trigger] edges@[x]).0 == c && !done@[edges@[x].1 as int] {
                let x = choose|x: int|
                    0 <= x < e + 1 && (#[trigger] edges@[x]).0 == c && !done@[edges@[x].1 as int];
                if x < e {
                    assert(before[c]);
                }
            }
        }
        e = e + 1;
    }
    blocked
}

/// The ids at the positions where exactly one of two marks is set, in order.
spec fn picked(names: Seq<Seq<char>>, marks: Seq<bool>, n: int) -> Seq<Seq<char>>
    decreases n,
{
    if n <= 0 {
        Seq::empty()
    } else if marks[n - 1] {
        picked(names, marks, n - 1).push(names[n - 1])
    } else {
        picked(names, marks, n - 1)
    }
}

proof fn picked_facts(names: Seq<Seq<char>>, marks: Seq<bool>, n: int)
    requires
        order::sorted_texts(names),
        0 <= n <= names.len(),
        n <= marks.len(),
    ensures
        order::sorted_texts(picked(names, marks, n)),
        forall|id: Seq<char>| #[trigger]
            picked(names, marks, n).contains(id) <==> exists|p: int|
                0 <= p < n && #[trigger] marks[p] && names[p] == id,
    decreases n,
{
    let s = picked(names, marks, n);
    if n > 0 {
        picked_facts(names, marks, n - 1);
        let s1 = picked(names, marks, n - 1);
        if marks[n - 1] {
            assert forall|i: int, j: int| 0 <= i < j < s.len() implies order::lex_lt(
                order::char_key(),
                #[trigger] s[i],
                #[trigger] s[j],
            ) by {
                if j < s1.len() {
                    assert(s[i] == s1[i] && s[j] == s1[j]);
                } else {
                    assert(s1.contains(s1[i]));
                    let p = choose|p: int| 0 <= p < n - 1 && #[trigger] marks[p] && names[p] == s1[i];
                    assert(order::lex_lt(order::char_key(), names[p], names[n - 1]));
                }
            }
        }
        assert forall|id: Seq<char>| #[trigger] s.contains(id) <==> exists|p: int|
            0 <= p < n && #[trigger] marks[p] && names[p] == id by {
            if s.contains(id) {
                let i = choose|i: int| 0 <= i < s.len() && s[i] == id;
                if i < s1.len() {
                    assert(s1[i] == id);
                    assert(s1.contains(id));
                    let p = choose|p: int| 0 <= p < n - 1 && #[trigger] marks[p] && names[p] == id;
                    assert(0 <= p < n && marks[p] && names[p] == id);
                } else {
                    assert(marks[n - 1] && names[n - 1] == id);
                }
            }
            if exists|p: int| 0 <= p < n && #[trigger] marks[p] && names[p] == id {
                let p = choose|p: int| 0 <= p < n && #[trigger] marks[p] && names[p] == id;
                if p < n - 1 {
                    assert(s1.contains(id));
                    let i = choose|i: int| 0 <= i < s1.len() && s1[i] == id;
                    assert(s[i] == id);
                } else {
                    assert(s[s1.len() as int] == id);
                }
            }
        }
    }
}

/// The ids at the marked positions.
fn pick(names: &Vec<String>, marks: &Vec<bool>) -> (r: Vec<ActionId>)
    requires
        marks.len() == names.len(),
    ensures
        types::id_views(r@) == picked(order::text_views(names@), marks@, names.len() as int),
{
    let ghost nv = order::text_views(names@);
    let mut r: Vec<ActionId> = Vec::new();
    let mut i: usize = 0;
    while i < names.len()
        invariant
            i <= names.len(),
            marks.len() == names.len(),
            nv == order::text_views(names@),
            types::id_views(r@) == picked(nv, marks@, i as int),
        decreases names.len() - i,
    {
        if marks[i] {
            let ghost before = r@;
            r.push(ActionId(names[i].clone()));
            assert(types::id_views(r@) =~= types::id_views(before).push(nv[i as int]));
        }
        i = i + 1;
    }
    r
}

/// Splits the action graph into layers such that the dependencies of every
/// action lie in earlier layers.
///
/// A dependency that names no action is reported first; otherwise, if not
/// every action can be placed, the ones that cannot.
#[verifier::spinoff_prover]
pub fn layer_graph(actions: &Vec<ActionSpec>) -> (r: Result<Vec<Vec<ActionId>>, PlanError>)
    ensures
        r matches Ok(layers) ==> complete(graph_view(actions@)) && is_layering(
            graph_view(actions@),
            layer_views(layers@),
        ),
        r matches Err(PlanError::MissingDep { from, to }) ==> exists|i: int, j: int|
            #[trigger] first_missing(graph_view(actions@), i, j) && graph_view(actions@)[i].id
                == from@ && graph_view(actions@)[i].deps[j] == to@,
        r matches Err(PlanError::Cycle(ids)) ==> complete(graph_view(actions@)) && is_cycle_report(
            graph_view(actions@),
            types::id_views(ids@),
        ),
        !(r matches Err(PlanError::Build(_))),
{
    let ghost g = graph_view(actions@);
    let names = sorted_ids(actions);
    let ghost nv = order::text_views(names@);
    let edges = match edges_of(actions, &names) {
        Ok(edges) => edges,
        Err(e) => {
            return Err(e);
        },
    };
    let n: usize = names.len();
    let mut done: Vec<bool> = Vec::new();
    let mut i: usize = 0;
    while i < n
        invariant
            i <= n,
            done.len() == i,
            forall|p: int| 0 <= p < i ==> !#[trigger] done@[p],
        decreases n - i,
    {
        done.push(false);
        i = i + 1;
    }
    let mut layers: Vec<Vec<ActionId>> = Vec::new();
    loop
        invariant
            n == names.len(),
            done.len() == n,
            g == graph_view(actions@),
            g.len() == actions.len(),
            nv == order::text_views(names@),
            order::sorted_texts(nv),
            complete(g),
            forall|id: Seq<char>| #[trigger] nv.contains(id) <==> has_id(g, id),
            edges_until(g, nv, edges@, g.len() as int, 0),
            forall|q: int|
                0 <= q < nv.len() ==> (#[trigger] done@[q] <==> settled(
                    g,
                    layers@.len(),
                    nv[q],
                )),
            forall|k: int|
                0 <= k < layers@.len() ==> #[trigger] layer_views(layers@)[k].len() > 0
                    && order::sorted_texts(layer_views(layers@)[k]),
            forall|k: int, id: Seq<char>|
                0 <= k < layers@.len() ==> (#[trigger] layer_views(layers@)[k].contains(id)
                    <==> settled(g, (k + 1) as nat, id) && !settled(g, k as nat, id)),
        ensures
            forall|x: Seq<char>| settled(g, layers@.len() + 1, x) ==> #[trigger] settled(
                g,
                layers@.len(),
                x,
            ),
        decreases undone(done@),
    {
        let ghost k = layers@.len();
        let ghost done0 = done@;
        let blocked = blocked_by(&edges, &done);
        let mut ready: Vec<bool> = Vec::new();
        let mut any: bool = false;
        let mut p: usize = 0;
        while p < n
            invariant
                p <= n,
                n == names.len(),
                done.len() == n,
                blocked.len() == n,
                ready.len() == p,
                done0.len() == n,
                g == graph_view(actions@),
                nv == order::text_views(names@),
                order::sorted_texts(nv),
                forall|id: Seq<char>| #[trigger] nv.contains(id) <==> has_id(g, id),
                edges_until(g, nv, edges@, g.len() as int, 0),
                forall|q: int| 0 <= q < n ==> (#[trigger] done0[q] <==> settled(g, k, nv[q])),
                forall|q: int|
                    0 <= q < n ==> (#[trigger] blocked@[q] <==> exists|e: int|
                        0 <= e < edges.len() && (#[trigger] edges@[e]).0 == q
                            && !done0[edges@[e].1 as int]),
                forall|q: int|
                    0 <= q < p ==> (#[trigger] done@[q] <==> settled(g, k + 1, nv[q])),
                forall|q: int| p <= q < n ==> #[trigger] done@[q] == done0[q],
                forall|q: int| 0 <= q < p ==> (#[trigger] ready@[q] <==> done@[q] && !done0[q]),
                any <==> exists|q: int| 0 <= q < p && #[trigger] ready@[q],
                undone(done@) <= undone(done0),
                any ==> undone(done@) < undone(done0),
            decreases n - p,
        {
            proof {
                round_is_exact(g, nv, edges@, done0, k, p as int);
                if settled(g, k, nv[p as int]) {
                    settled_grows(g, k, nv[p as int]);
                }
            }
            let now: bool = !done[p] && !blocked[p];
            let ghost ready0 = ready@;
            ready.push(now);
            if now {
                proof {
                    undone_update(done@, p as int);
                }
                done.set(p, true);
                any = true;
                assert(ready@[p as int]);
            }
            proof {
                assert forall|q: int| 0 <= q < p implies #[trigger] ready@[q] == ready0[q] by {}
                if any && !now {
                    let q = choose|q: int| 0 <= q < p && #[trigger] ready0[q];
                    assert(ready@[q]);
                }
            }
            p = p + 1;
        }
        if !any {
            assert forall|x: Seq<char>| settled(g, k + 1, x) implies #[trigger] settled(
                g,
                k,
                x,
            ) by {
                assert(nv.contains(x));
                let q = choose|q: int| 0 <= q < nv.len() && nv[q] == x;
                assert(done@[q]);
                assert(!ready@[q]);
            }
            assert forall|q: int| 0 <= q < nv.len() implies (#[trigger] done@[q] <==> settled(
                g,
                k,
                nv[q],
            )) by {
                assert(!ready@[q]);
                if settled(g, k, nv[q]) {
                    settled_grows(g, k, nv[q]);
                }
            }
            break ;
        }
        let layer = pick(&names, &ready);
        proof {
            let lv = types::id_views(layer@);
            picked_facts(nv, ready@, n as int);
            let q = choose|q: int| 0 <= q < n && #[trigger] ready@[q];
            assert(lv.contains(nv[q]));
            let before = layer_views(layers@);
            let after = layer_views(layers@.push(layer));
            assert(after =~= before.push(lv));
            assert forall|id: Seq<char>| #[trigger] lv.contains(id) <==> settled(g, k + 1, id)
                && !settled(g, k, id) by {
                if lv.contains(id) {
                    let r = choose|r: int| 0 <= r < n && #[trigger] ready@[r] && nv[r] == id;
                    assert(done@[r] && !done0[r]);
                }
                if settled(g, k + 1, id) && !settled(g, k, id) {
                    assert(nv.contains(id));
                    let r = choose|r: int| 0 <= r < nv.len() && nv[r] == id;
                    assert(done@[r] && !done0[r]);
                    assert(ready@[r]);
                }
            }
        }
        layers.push(layer);
    }
    let mut left: Vec<bool> = Vec::new();
    let mut stuck_any: bool = false;
    let mut q: usize = 0;
    while q < n
        invariant
            q <= n,
            done.len() == n,
            left.len() == q,
            forall|c: int| 0 <= c < q ==> #[trigger] left@[c] == !done@[c],
            stuck_any <==> exists|c: int| 0 <= c < q && #[trigger] left@[c],
        decreases n - q,
    {
        let ghost left0 = left@;
        left.push(!done[q]);
        proof {
            assert forall|c: int| 0 <= c < q implies #[trigger] left@[c] == left0[c] by {}
            assert(left@[q as int] == !done@[q as int]);
            if stuck_any {
                let c = choose|c: int| 0 <= c < q && #[trigger] left0[c];
                assert(left@[c]);
            }
        }
        if !done[q] {
            stuck_any = true;
        }
        q = q + 1;
    }
    if stuck_any {
        let ids = pick(&names, &left);
        proof {
            let iv = types::id_views(ids@);
            picked_facts(nv, left@, n as int);
            let c = choose|c: int| 0 <= c < n && #[trigger] left@[c];
            assert(iv.contains(nv[c]));
            assert forall|id: Seq<char>| #[trigger] iv.contains(id) <==> stuck(g, id) by {
                if iv.contains(id) {
                    let r = choose|r: int| 0 <= r < n && #[trigger] left@[r] && nv[r] == id;
                    assert(!done@[r]);
                    assert(nv.contains(id));
                    assert forall|m: nat| !#[trigger] settled(g, m, id) by {
                        if settled(g, m, id) {
                            settled_fixpoint(g, layers@.len(), m, id);
                        }
                    }
                }
                if stuck(g, id) {
                    assert(nv.contains(id));
                    let r = choose|r: int| 0 <= r < nv.len() && nv[r] == id;
                    assert(!settled(g, layers@.len(), id));
                    assert(!done@[r]);
                    assert(left@[r]);
                }
            }
        }
        return Err(PlanError::Cycle(ids));
    }
    proof {
        assert forall|id: Seq<char>| #[trigger] has_id(g, id) implies settled(
            g,
            layers@.len(),
            id,
        ) by {
            assert(nv.contains(id));
            let r = choose|r: int| 0 <= r < nv.len() && nv[r] == id;
            assert(!left@[r]);
        }
        assert(layer_views(layers@).len() == layers@.len());
    }
    Ok(layers)
}

} // verus!
