//! Build plan: an immutable snapshot of the layered graph with staleness reasons.
//!
//! The graph is split into topological layers; then, layer by layer, every
//! action is probed and compared with its last recorded build. Staleness
//! cascades: an action whose own inputs did not change but which depends on a
//! stale one is stale as well.

use crate::graph;
use crate::graph::{ActionSpec, ActionSpecView};
use crate::idmap::IdMap;
use crate::text;
use crate::types;
use crate::types::{
    ActionId, BuildError, BuildErrorView, BuildEvent, BuildEventView, Sha256,
};
use vstd::prelude::*;

verus! {

/// Why an action is considered stale and needs to run again.
#[derive(Debug, PartialEq, Eq)]
pub enum ChangeReason {
    /// The cache has no prior build event for this action.
    NoCachedBuild,
    /// The action was previously built, but its current input hash differs.
    InputHashChanged {
        /// Hash recorded in the last successful build.
        from: Sha256,
        /// Hash computed for the current run.
        to: Sha256,
    },
    /// The action's own hash is unchanged, but a dependency is stale.
    UpstreamMoved {
        /// First stale dependency in declaration order.
        dep: ActionId,
    },
    /// Inputs are unchanged and the cache holds a success, but the artifact it
    /// describes is gone from this machine.
    OutputMissing,
    /// The last recorded run of this action failed.
    PreviousFailure {
        /// The rendered error, as recorded in the cache.
        error: String,
    },
    /// The caller asked for this action to run regardless of cache state.
    Forced,
}

/// What a [`ChangeReason`] holds.
#[verifier::ext_equal]
pub enum ChangeReasonView {
    /// See [`ChangeReason::NoCachedBuild`].
    NoCachedBuild,
    /// See [`ChangeReason::InputHashChanged`].
    InputHashChanged {
        /// Hash recorded in the last successful build.
        from: Seq<u8>,
        /// Hash computed for the current run.
        to: Seq<u8>,
    },
    /// See [`ChangeReason::UpstreamMoved`].
    UpstreamMoved {
        /// First stale dependency.
        dep: Seq<char>,
    },
    /// See [`ChangeReason::OutputMissing`].
    OutputMissing,
    /// See [`ChangeReason::PreviousFailure`].
    PreviousFailure {
        /// The rendered error.
        error: Seq<char>,
    },
    /// See [`ChangeReason::Forced`].
    Forced,
}

impl View for ChangeReason {
    type V = ChangeReasonView;

    open spec fn view(&self) -> ChangeReasonView {
        match *self {
            ChangeReason::NoCachedBuild => ChangeReasonView::NoCachedBuild,
            ChangeReason::InputHashChanged { from, to } => ChangeReasonView::InputHashChanged {
                from: from@,
                to: to@,
            },
            ChangeReason::UpstreamMoved { dep } => ChangeReasonView::UpstreamMoved { dep: dep@ },
            ChangeReason::OutputMissing => ChangeReasonView::OutputMissing,
            ChangeReason::PreviousFailure { error } => ChangeReasonView::PreviousFailure {
                error: error@,
            },
            ChangeReason::Forced => ChangeReasonView::Forced,
        }
    }
}

impl Clone for ChangeReason {
    fn clone(&self) -> (r: Self)
        ensures
            r == *self,
    {
        match self {
            ChangeReason::NoCachedBuild => ChangeReason::NoCachedBuild,
            ChangeReason::InputHashChanged { from, to } => ChangeReason::InputHashChanged {
                from: *from,
                to: *to,
            },
            ChangeReason::UpstreamMoved { dep } => ChangeReason::UpstreamMoved {
                dep: dep.clone(),
            },
            ChangeReason::OutputMissing => ChangeReason::OutputMissing,
            ChangeReason::PreviousFailure { error } => ChangeReason::PreviousFailure {
                error: error.clone(),
            },
            ChangeReason::Forced => ChangeReason::Forced,
        }
    }
}

/// How many characters of a failure fit into one line of a reason.
pub const FAILURE_WIDTH: usize = 72;

/// One short line per reason, suitable for a table cell.
pub open spec fn reason_text(r: ChangeReasonView) -> Seq<char> {
    match r {
        ChangeReasonView::NoCachedBuild => "never built"@,
        ChangeReasonView::Forced => "forced"@,
        ChangeReasonView::InputHashChanged { from, to } => "inputs changed ("@
            + crate::digest::hex_text(from).take(8) + " -> "@ + crate::digest::hex_text(to).take(8)
            + ")"@,
        ChangeReasonView::UpstreamMoved { dep } => "upstream "@ + dep + " is stale"@,
        ChangeReasonView::OutputMissing => "artifact missing"@,
        ChangeReasonView::PreviousFailure { error } => "previous run failed: "@ + text::clipped(
            text::first_line_of(error),
            FAILURE_WIDTH as int,
            "..."@,
        ),
    }
}

/// The name of a reason.
pub open spec fn reason_name(r: ChangeReasonView) -> Seq<char> {
    match r {
        ChangeReasonView::NoCachedBuild => "NoCachedBuild"@,
        ChangeReasonView::Forced => "Forced"@,
        ChangeReasonView::InputHashChanged { .. } => "InputHashChanged"@,
        ChangeReasonView::UpstreamMoved { .. } => "UpstreamMoved"@,
        ChangeReasonView::OutputMissing => "OutputMissing"@,
        ChangeReasonView::PreviousFailure { .. } => "PreviousFailure"@,
    }
}

impl ChangeReason {
    /// The name of the reason, without what it carries.
    pub fn name(&self) -> (r: &'static str)
        ensures
            r@ == reason_name(self@),
    {
        match self {
            ChangeReason::NoCachedBuild => "NoCachedBuild",
            ChangeReason::Forced => "Forced",
            ChangeReason::InputHashChanged { .. } => "InputHashChanged",
            ChangeReason::UpstreamMoved { .. } => "UpstreamMoved",
            ChangeReason::OutputMissing => "OutputMissing",
            ChangeReason::PreviousFailure { .. } => "PreviousFailure",
        }
    }

    /// Renders the reason on one line.
    pub fn to_string(&self) -> (r: String)
        ensures
            r@ == reason_text(self@),
    {
        match self {
            ChangeReason::NoCachedBuild => "never built".to_owned(),
            ChangeReason::Forced => "forced".to_owned(),
            ChangeReason::InputHashChanged { from, to } => {
                let mut r = "inputs changed (".to_owned();
                r.append(&from.short());
                r.append(" -> ");
                r.append(&to.short());
                r.append(")");
                r
            },
            ChangeReason::UpstreamMoved { dep } => {
                let mut r = "upstream ".to_owned();
                r.append(&dep.0);
                r.append(" is stale");
                r
            },
            ChangeReason::OutputMissing => "artifact missing".to_owned(),
            ChangeReason::PreviousFailure { error } => {
                let mut r = "previous run failed: ".to_owned();
                r.append(&text::clip(&text::first_line(error), FAILURE_WIDTH, "..."));
                r
            },
        }
    }
}

/// Errors raised while computing a plan.
#[derive(Debug)]
pub enum PlanError {
    /// The action graph contains a cycle. Carries the unsettled ids.
    Cycle(Vec<ActionId>),
    /// An action declares a dependency on an id not present in the action set.
    MissingDep {
        /// The action that declared the missing dependency.
        from: ActionId,
        /// The id that was not found.
        to: ActionId,
    },
    /// Computing an input hash failed, or the run was cancelled.
    Build(BuildError),
}

/// A list of ids as `Debug` renders it, from position `i` on.
pub open spec fn id_list_text(ids: Seq<Seq<char>>, i: int) -> Seq<char>
    decreases ids.len() - i,
{
    if i >= ids.len() {
        "]"@
    } else {
        (if i == 0 {
            ""@
        } else {
            ", "@
        }) + "ActionId("@ + text::debug_text(ids[i]) + ")"@ + id_list_text(ids, i + 1)
    }
}

/// What a [`PlanError`] holds.
#[verifier::ext_equal]
pub enum PlanErrorView {
    /// See [`PlanError::Cycle`].
    Cycle(Seq<Seq<char>>),
    /// See [`PlanError::MissingDep`].
    MissingDep {
        /// The action that declared the missing dependency.
        from: Seq<char>,
        /// The id that was not found.
        to: Seq<char>,
    },
    /// See [`PlanError::Build`].
    Build(BuildErrorView),
}

impl View for PlanError {
    type V = PlanErrorView;

    open spec fn view(&self) -> PlanErrorView {
        match *self {
            PlanError::Cycle(ids) => PlanErrorView::Cycle(types::id_views(ids@)),
            PlanError::MissingDep { from, to } => PlanErrorView::MissingDep {
                from: from@,
                to: to@,
            },
            PlanError::Build(e) => PlanErrorView::Build(e@),
        }
    }
}

/// The one-line rendering of a planning error.
pub open spec fn plan_error_text(e: PlanErrorView) -> Seq<char> {
    match e {
        PlanErrorView::Cycle(ids) => "cycle detected: ["@ + id_list_text(ids, 0),
        PlanErrorView::MissingDep { from, to } => "action "@ + from + " depends on "@ + to
            + ", which is not registered"@,
        PlanErrorView::Build(e) => types::build_error_text(e),
    }
}

fn id_list(ids: &Vec<ActionId>) -> (r: String)
    ensures
        r@ == id_list_text(types::id_views(ids@), 0),
{
    let ghost iv = types::id_views(ids@);
    let mut r = String::new();
    let mut i: usize = 0;
    assert(r@ + id_list_text(iv, 0) =~= id_list_text(iv, 0));
    while i < ids.len()
        invariant
            i <= ids.len(),
            iv == types::id_views(ids@),
            r@ + id_list_text(iv, i as int) == id_list_text(iv, 0),
        decreases ids.len() - i,
    {
        let ghost r0 = r@;
        r.append(
            if i == 0 {
                ""
            } else {
                ", "
            },
        );
        r.append("ActionId(");
        r.append(&text::debug_string(&ids[i].0));
        r.append(")");
        assert(iv[i as int] == ids@[i as int].0@);
        assert(r@ + id_list_text(iv, i + 1) =~= r0 + id_list_text(iv, i as int));
        i = i + 1;
    }
    r.append("]");
    r
}

impl PlanError {
    /// Renders the error.
    pub fn to_string(&self) -> (r: String)
        ensures
            r@ == plan_error_text(self@),
    {
        match self {
            PlanError::Cycle(ids) => {
                let mut r = "cycle detected: [".to_owned();
                r.append(&id_list(ids));
                r
            },
            PlanError::MissingDep { from, to } => {
                let mut r = "action ".to_owned();
                r.append(&from.0);
                r.append(" depends on ");
                r.append(&to.0);
                r.append(", which is not registered");
                r
            },
            PlanError::Build(e) => e.to_string(),
        }
    }
}

/// What probing one action found out.
#[derive(Debug)]
pub struct Probe {
    /// The current input hash, or why it could not be computed.
    pub hash: Result<Sha256, BuildError>,
    /// The last recorded build.
    pub last: Option<BuildEvent>,
    /// Whether the artifact is on this machine.
    pub present: bool,
}

/// What a [`Probe`] holds.
#[verifier::ext_equal]
pub struct ProbeView {
    /// The current input hash, or why it could not be computed.
    pub hash: Result<Seq<u8>, BuildErrorView>,
    /// The last recorded build.
    pub last: Option<BuildEventView>,
    /// Whether the artifact is on this machine.
    pub present: bool,
}

/// What an optional event holds.
pub open spec fn event_view(e: Option<BuildEvent>) -> Option<BuildEventView> {
    match e {
        Some(e) => Some(e@),
        None => None,
    }
}

impl View for Probe {
    type V = ProbeView;

    open spec fn view(&self) -> ProbeView {
        ProbeView {
            hash: match self.hash {
                Ok(h) => Ok(h@),
                Err(e) => Err(e@),
            },
            last: event_view(self.last),
            present: self.present,
        }
    }
}

/// The first listed dependency that is stale.
pub open spec fn first_stale(deps: Seq<Seq<char>>, stale: Set<Seq<char>>) -> Option<Seq<char>>
    decreases deps.len(),
{
    if deps.len() == 0 {
        None
    } else if stale.contains(deps[0]) {
        Some(deps[0])
    } else {
        first_stale(deps.drop_first(), stale)
    }
}

/// Why an action is stale, if it is: an explicit request outranks every reason
/// that the cache gives, and a stale dependency counts only when the action's
/// own record is in order.
pub open spec fn classified(
    deps: Seq<Seq<char>>,
    now: Seq<u8>,
    last: Option<BuildEventView>,
    stale: Set<Seq<char>>,
    present: bool,
    forced: bool,
) -> Option<ChangeReasonView> {
    if forced {
        Some(ChangeReasonView::Forced)
    } else {
        match last {
            None => Some(ChangeReasonView::NoCachedBuild),
            Some(BuildEventView::Failed { error, .. }) => Some(
                ChangeReasonView::PreviousFailure { error: types::build_error_text(error) },
            ),
            Some(BuildEventView::Success { input, .. }) => if input != now {
                Some(ChangeReasonView::InputHashChanged { from: input, to: now })
            } else if !present {
                Some(ChangeReasonView::OutputMissing)
            } else {
                match first_stale(deps, stale) {
                    Some(dep) => Some(ChangeReasonView::UpstreamMoved { dep }),
                    None => None,
                }
            },
        }
    }
}

/// What an optional reason holds.
pub open spec fn opt_reason(r: Option<ChangeReason>) -> Option<ChangeReasonView> {
    match r {
        Some(r) => Some(r@),
        None => None,
    }
}

/// The first listed dependency that already has a reason.
fn find_stale(deps: &Vec<ActionId>, reasons: &IdMap<ChangeReason>) -> (r: Option<ActionId>)
    requires
        reasons.wf(),
    ensures
        match r {
            Some(dep) => first_stale(types::id_views(deps@), reasons@.dom()) == Some(dep@),
            None => first_stale(types::id_views(deps@), reasons@.dom()) is None,
        },
{
    let ghost dv = types::id_views(deps@);
    let ghost stale = reasons@.dom();
    assert(dv.skip(0) =~= dv);
    let mut i: usize = 0;
    while i < deps.len()
        invariant
            i <= deps.len(),
            reasons.wf(),
            dv == types::id_views(deps@),
            stale == reasons@.dom(),
            first_stale(dv, stale) == first_stale(dv.skip(i as int), stale),
        decreases deps.len() - i,
    {
        assert(dv.skip(i as int)[0] == deps@[i as int]@);
        if reasons.contains_key(&deps[i]) {
            return Some(deps[i].clone());
        }
        assert(dv.skip(i as int).drop_first() =~= dv.skip(i + 1));
        i = i + 1;
    }
    None
}

/// Decides whether an action is stale, given its dependencies, its current
/// input hash, its last recorded event and the reasons found so far.
pub fn classify(
    deps: &Vec<ActionId>,
    now: Sha256,
    last: &Option<BuildEvent>,
    reasons: &IdMap<ChangeReason>,
    present: bool,
    forced: bool,
) -> (r: Option<ChangeReason>)
    requires
        reasons.wf(),
    ensures
        opt_reason(r) == classified(
            types::id_views(deps@),
            now@,
            event_view(*last),
            reasons@.dom(),
            present,
            forced,
        ),
{
    if forced {
        return Some(ChangeReason::Forced);
    }
    match last {
        None => Some(ChangeReason::NoCachedBuild),
        Some(BuildEvent::Failed { error, .. }) => Some(
            ChangeReason::PreviousFailure { error: error.to_string() },
        ),
        Some(BuildEvent::Success { input, .. }) => {
            if !input.same(&now) {
                return Some(ChangeReason::InputHashChanged { from: *input, to: now });
            }
            if !present {
                return Some(ChangeReason::OutputMissing);
            }
            match find_stale(deps, reasons) {
                Some(dep) => Some(ChangeReason::UpstreamMoved { dep }),
                None => None,
            }
        },
    }
}

/// The dependencies of the last action with this id.
pub open spec fn deps_of(g: Seq<ActionSpecView>, id: Seq<char>) -> Seq<Seq<char>>
    decreases g.len(),
{
    if g.len() == 0 {
        Seq::empty()
    } else if g.last().id == id {
        g.last().deps
    } else {
        deps_of(g.drop_last(), id)
    }
}

/// Every listed dependency of an action is an edge of the graph.
pub proof fn deps_of_depends(g: Seq<ActionSpecView>, id: Seq<char>, j: int)
    requires
        0 <= j < deps_of(g, id).len(),
    ensures
        graph::depends(g, id, deps_of(g, id)[j]),
    decreases g.len(),
{
    if g.len() > 0 {
        if g.last().id == id {
            assert(g[g.len() - 1].deps[j] == deps_of(g, id)[j]);
        } else {
            let d = g.drop_last();
            deps_of_depends(d, id, j);
            let to = deps_of(g, id)[j];
            let (a, b) = choose|a: int, b: int|
                0 <= a < d.len() && d[a].id == id && 0 <= b < d[a].deps.len()
                    && #[trigger] d[a].deps[b] == to;
            assert(g[a].deps[b] == to);
        }
    }
}

/// The dependencies of the last action with this id; none where there is no such action.
fn find_deps<'a>(actions: &'a Vec<ActionSpec>, id: &ActionId) -> (r: Option<&'a Vec<ActionId>>)
    ensures
        r is Some <==> graph::has_id(graph::graph_view(actions@), id@),
        r matches Some(deps) ==> types::id_views(deps@) == deps_of(
            graph::graph_view(actions@),
            id@,
        ),
{
    let ghost g = graph::graph_view(actions@);
    let mut i: usize = actions.len();
    proof {
        assert(g.take(g.len() as int) =~= g);
    }
    while i > 0
        invariant
            i <= actions.len(),
            g == graph::graph_view(actions@),
            deps_of(g, id@) == deps_of(g.take(i as int), id@),
            forall|k: int| i <= k < g.len() ==> (#[trigger] g[k]).id != id@,
        decreases i,
    {
        i = i - 1;
        assert(g[i as int].id == actions@[i as int].id@);
        assert(g.take(i + 1).last() == g[i as int]);
        if actions[i].id.same(id) {
            assert(g[i as int].id == id@);
            return Some(&actions[i].deps);
        }
        assert(g.take(i + 1).drop_last() =~= g.take(i as int));
    }
    None
}

/// Whether an id is in a list.
pub fn contains_id(ids: &Vec<ActionId>, id: &ActionId) -> (r: bool)
    ensures
        r == types::id_views(ids@).contains(id@),
{
    let ghost v = types::id_views(ids@);
    let mut i: usize = 0;
    while i < ids.len()
        invariant
            i <= ids.len(),
            v == types::id_views(ids@),
            forall|k: int| 0 <= k < i ==> #[trigger] v[k] != id@,
        decreases ids.len() - i,
    {
        assert(v[i as int] == ids@[i as int]@);
        if ids[i].same(id) {
            assert(v.contains(id@));
            return true;
        }
        i = i + 1;
    }
    false
}

/// What a [`Plan`] holds.
#[verifier::ext_equal]
pub struct PlanView {
    /// The topological layers.
    pub layers: Seq<Seq<Seq<char>>>,
    /// Why each stale action is stale.
    pub reasons: Map<Seq<char>, ChangeReasonView>,
    /// The input hash of every action.
    pub hashes: Map<Seq<char>, Seq<u8>>,
}

/// The entry of a map, if it has one.
pub open spec fn lookup<V>(m: Map<Seq<char>, V>, id: Seq<char>) -> Option<V> {
    if m.contains_key(id) {
        Some(m[id])
    } else {
        None
    }
}

/// The reason recorded for `id` is what classification gives for it.
pub open spec fn reason_agrees(
    g: Seq<ActionSpecView>,
    forced: Set<Seq<char>>,
    answers: Map<Seq<char>, ProbeView>,
    reasons: Map<Seq<char>, ChangeReasonView>,
    id: Seq<char>,
) -> bool {
    &&& answers[id].hash is Ok
    &&& lookup(reasons, id) == classified(
        deps_of(g, id),
        answers[id].hash->Ok_0,
        answers[id].last,
        reasons.dom(),
        answers[id].present,
        forced.contains(id),
    )
}

/// `p` is the plan for graph `g` under the given probe answers.
pub open spec fn is_plan(
    g: Seq<ActionSpecView>,
    forced: Set<Seq<char>>,
    answers: Map<Seq<char>, ProbeView>,
    p: PlanView,
) -> bool {
    &&& graph::is_layering(g, p.layers)
    &&& forall|id: Seq<char>| #[trigger] p.hashes.contains_key(id) <==> graph::has_id(g, id)
    &&& forall|id: Seq<char>| #[trigger] p.reasons.contains_key(id) ==> graph::has_id(g, id)
    &&& forall|id: Seq<char>| #[trigger]
        graph::has_id(g, id) ==> answers[id].hash == Ok::<Seq<u8>, BuildErrorView>(p.hashes[id])
            && reason_agrees(g, forced, answers, p.reasons, id)
}

/// Immutable, topologically layered execution plan.
#[derive(Debug)]
pub struct Plan {
    layers: Vec<Vec<ActionId>>,
    reasons: IdMap<ChangeReason>,
    input_hashes: IdMap<Sha256>,
}

/// The views of the reasons in a map.
pub open spec fn reason_views(m: Map<Seq<char>, ChangeReason>) -> Map<Seq<char>, ChangeReasonView> {
    m.map_values(|r: ChangeReason| r@)
}

/// The views of the hashes in a map.
pub open spec fn hash_views(m: Map<Seq<char>, Sha256>) -> Map<Seq<char>, Seq<u8>> {
    m.map_values(|h: Sha256| h@)
}

/// The views of the probes in a map.
pub open spec fn probe_views(m: Map<Seq<char>, Probe>) -> Map<Seq<char>, ProbeView> {
    m.map_values(|p: Probe| p@)
}

impl View for Plan {
    type V = PlanView;

    closed spec fn view(&self) -> PlanView {
        PlanView {
            layers: graph::layer_views(self.layers@),
            reasons: reason_views(self.reasons@),
            hashes: hash_views(self.input_hashes@),
        }
    }
}

/// The actions of the first `n` layers.
pub open spec fn in_layers(layers: Seq<Seq<Seq<char>>>, n: int, id: Seq<char>) -> bool {
    exists|k: int| 0 <= k < n && k < layers.len() && #[trigger] layers[k].contains(id)
}

/// Whether two sets agree on the listed dependencies, the first stale one is the same.
pub proof fn first_stale_same(deps: Seq<Seq<char>>, a: Set<Seq<char>>, b: Set<Seq<char>>)
    requires
        forall|j: int| 0 <= j < deps.len() ==> (a.contains(#[trigger] deps[j]) <==> b.contains(deps[j])),
    ensures
        first_stale(deps, a) == first_stale(deps, b),
    decreases deps.len(),
{
    if deps.len() > 0 {
        let d = deps.drop_first();
        assert(a.contains(deps[0]) <==> b.contains(deps[0]));
        assert forall|j: int| 0 <= j < d.len() implies (a.contains(#[trigger] d[j]) <==> b.contains(
            d[j],
        )) by {
            assert(d[j] == deps[j + 1]);
        }
        first_stale_same(d, a, b);
    }
}

/// In a layering, what becomes runnable within `n` rounds is what the first `n` layers hold.
pub proof fn layers_are_settled(
    g: Seq<ActionSpecView>,
    layers: Seq<Seq<Seq<char>>>,
    n: nat,
    id: Seq<char>,
)
    requires
        graph::is_layering(g, layers),
        n <= layers.len(),
    ensures
        in_layers(layers, n as int, id) <==> graph::settled(g, n, id),
    decreases n,
{
    if n > 0 {
        layers_are_settled(g, layers, (n - 1) as nat, id);
        if in_layers(layers, n as int, id) {
            let k = choose|k: int|
                0 <= k < n && k < layers.len() && #[trigger] layers[k].contains(id);
            graph::settled_monotone(g, (k + 1) as nat, n, id);
        }
        if graph::settled(g, n, id) {
            if graph::settled(g, (n - 1) as nat, id) {
                let k = choose|k: int|
                    0 <= k < n - 1 && k < layers.len() && #[trigger] layers[k].contains(id);
                assert(0 <= k < n && layers[k].contains(id));
            } else {
                assert(layers[n - 1].contains(id));
            }
        }
    }
}

/// Planning in progress: the layers are known, and the actions of the first
/// few of them have been probed and classified.
pub struct Planner {
    actions: Vec<ActionSpec>,
    forced: Vec<ActionId>,
    layers: Vec<Vec<ActionId>>,
    next: usize,
    reasons: IdMap<ChangeReason>,
    input_hashes: IdMap<Sha256>,
    answers: Ghost<Map<Seq<char>, ProbeView>>,
}

/// What one layer's probes add to the answers.
pub open spec fn with_answers(
    answers: Map<Seq<char>, ProbeView>,
    layer: Seq<Seq<char>>,
    probes: Seq<ProbeView>,
) -> Map<Seq<char>, ProbeView>
    decreases layer.len(),
{
    if layer.len() == 0 {
        answers
    } else {
        with_answers(answers, layer.drop_last(), probes).insert(
            layer.last(),
            probes[layer.len() - 1],
        )
    }
}

/// The views of a list of probes.
pub open spec fn probe_list(probes: Seq<Probe>) -> Seq<ProbeView> {
    probes.map_values(|p: Probe| p@)
}

/// The error of the first probe that could not compute its hash.
pub open spec fn first_error(probes: Seq<ProbeView>) -> Option<BuildErrorView>
    decreases probes.len(),
{
    if probes.len() == 0 {
        None
    } else {
        match probes[0].hash {
            Err(e) => Some(e),
            Ok(_) => first_error(probes.drop_first()),
        }
    }
}

/// Without an error, every probe has its hash.
proof fn no_error_all_ok(probes: Seq<ProbeView>, i: int)
    requires
        first_error(probes) is None,
        0 <= i < probes.len(),
    ensures
        probes[i].hash is Ok,
    decreases probes.len(),
{
    if i > 0 {
        no_error_all_ok(probes.drop_first(), i - 1);
    }
}

/// The first probe that could not compute its hash.
fn find_error(probes: &Vec<Probe>) -> (r: Option<BuildError>)
    ensures
        match r {
            Some(e) => first_error(probe_list(probes@)) == Some(e@),
            None => first_error(probe_list(probes@)) is None,
        },
{
    let ghost pv = probe_list(probes@);
    assert(pv.skip(0) =~= pv);
    let mut i: usize = 0;
    while i < probes.len()
        invariant
            i <= probes.len(),
            pv == probe_list(probes@),
            first_error(pv) == first_error(pv.skip(i as int)),
        decreases probes.len() - i,
    {
        assert(pv.skip(i as int)[0] == probes@[i as int]@);
        match &probes[i].hash {
            Err(e) => {
                return Some(e.clone());
            },
            Ok(_) => {},
        }
        assert(pv.skip(i as int).drop_first() =~= pv.skip(i + 1));
        i = i + 1;
    }
    None
}

/// The answers hold what the probe of each action of the layer found.
pub proof fn with_answers_facts(
    answers: Map<Seq<char>, ProbeView>,
    layer: Seq<Seq<char>>,
    probes: Seq<ProbeView>,
)
    requires
        layer.no_duplicates(),
        layer.len() <= probes.len(),
    ensures
        forall|i: int| 0 <= i < layer.len() ==> with_answers(answers, layer, probes)[#[trigger] layer[i]]
            == probes[i],
        forall|id: Seq<char>|
            !layer.contains(id) ==> #[trigger] with_answers(answers, layer, probes)[id] == answers[id],
    decreases layer.len(),
{
    if layer.len() > 0 {
        let d = layer.drop_last();
        with_answers_facts(answers, d, probes);
        let m = with_answers(answers, layer, probes);
        assert forall|i: int| 0 <= i < layer.len() implies m[#[trigger] layer[i]] == probes[i] by {
            if i < d.len() {
                assert(layer[i] == d[i]);
                assert(layer[i] != layer[layer.len() - 1]);
            }
        }
        assert forall|id: Seq<char>| !layer.contains(id) implies #[trigger] m[id] == answers[id] by {
            assert(layer[layer.len() - 1] != id);
            if d.contains(id) {
                let i = choose|i: int| 0 <= i < d.len() && d[i] == id;
                assert(layer[i] == id);
            }
            assert(with_answers(answers, d, probes)[id] == answers[id]);
        }
    }
}

impl Planner {
    /// The graph being planned.
    pub closed spec fn graph(&self) -> Seq<ActionSpecView> {
        graph::graph_view(self.actions@)
    }

    /// The actions that run regardless of the cache.
    pub closed spec fn forced_set(&self) -> Set<Seq<char>> {
        types::id_views(self.forced@).to_set()
    }

    /// The layers of the graph.
    pub closed spec fn layers_view(&self) -> Seq<Seq<Seq<char>>> {
        graph::layer_views(self.layers@)
    }

    /// How many layers have been classified.
    pub closed spec fn done(&self) -> nat {
        self.next as nat
    }

    /// Every probe answer received so far.
    pub closed spec fn answers(&self) -> Map<Seq<char>, ProbeView> {
        self.answers@
    }

    /// The classification so far agrees with the answers received.
    pub closed spec fn wf(&self) -> bool {
        &&& self.reasons.wf()
        &&& self.input_hashes.wf()
        &&& self.next <= self.layers.len()
        &&& graph::complete(self.graph())
        &&& graph::is_layering(self.graph(), self.layers_view())
        &&& partly_planned(
            self.graph(),
            self.forced_set(),
            self.answers@,
            reason_views(self.reasons@),
            hash_views(self.input_hashes@),
            Set::new(|id: Seq<char>| in_layers(self.layers_view(), self.next as int, id)),
        )
    }

    /// Lays out the graph; nothing has been probed yet.
    pub fn start(actions: Vec<ActionSpec>, forced: Vec<ActionId>) -> (r: Result<Planner, PlanError>)
        ensures
            r matches Ok(p) ==> p.wf() && p.graph() == graph::graph_view(actions@)
                && p.forced_set() == types::id_views(forced@).to_set() && p.done() == 0
                && graph::complete(graph::graph_view(actions@)) && graph::is_layering(
                graph::graph_view(actions@),
                p.layers_view(),
            ),
            r matches Err(PlanError::MissingDep { from, to }) ==> exists|i: int, j: int|
                #[trigger] graph::first_missing(graph::graph_view(actions@), i, j)
                    && graph::graph_view(actions@)[i].id == from@
                    && graph::graph_view(actions@)[i].deps[j] == to@,
            r matches Err(PlanError::Cycle(ids)) ==> graph::complete(graph::graph_view(actions@))
                && graph::is_cycle_report(graph::graph_view(actions@), types::id_views(ids@)),
            !(r matches Err(PlanError::Build(_))),
    {
        match graph::layer_graph(&actions) {
            Err(e) => Err(e),
            Ok(layers) => {
                let p = Planner {
                    actions,
                    forced,
                    layers,
                    next: 0,
                    reasons: IdMap::new(),
                    input_hashes: IdMap::new(),
                    answers: Ghost(Map::empty()),
                };
                Ok(p)
            },
        }
    }

    /// The layer whose actions are to be probed next.
    pub fn pending(&self) -> (r: Option<&Vec<ActionId>>)
        requires
            self.wf(),
        ensures
            r is Some <==> self.done() < self.layers_view().len(),
            r matches Some(layer) ==> types::id_views(layer@) == self.layers_view()[self.done() as int],
    {
        if self.next < self.layers.len() {
            Some(&self.layers[self.next])
        } else {
            None
        }
    }

    /// Classifies the pending layer by what its probes found, one probe per
    /// action in the order of the layer.
    ///
    /// A cancelled run ends the planning, and so does the first probe that
    /// could not compute its hash.
    #[verifier::spinoff_prover]
    #[verifier::rlimit(40)]
    pub fn settle(self, cancelled: bool, probes: &Vec<Probe>) -> (r: Result<Planner, PlanError>)
        requires
            self.wf(),
            self.done() < self.layers_view().len(),
            cancelled || probes.len() == self.layers_view()[self.done() as int].len(),
        ensures
            cancelled ==> (r matches Err(PlanError::Build(e)) && e@ == BuildErrorView::Cancelled),
            !cancelled ==> match first_error(probe_list(probes@)) {
                Some(e) => (r matches Err(PlanError::Build(x)) && x@ == e),
                None => r is Ok,
            },
            r matches Ok(p) ==> p.wf() && p.graph() == self.graph() && p.forced_set()
                == self.forced_set() && p.layers_view() == self.layers_view() && p.done()
                == self.done() + 1 && p.answers() == with_answers(
                self.answers(),
                self.layers_view()[self.done() as int],
                probe_list(probes@),
            ),
    {
        if cancelled {
            return Err(PlanError::Build(BuildError::Cancelled));
        }
        match find_error(probes) {
            Some(e) => {
                return Err(PlanError::Build(e));
            },
            None => {},
        }
        let ghost g = self.graph();
        let ghost fs = self.forced_set();
        let ghost lv = self.layers_view();
        let ghost old_answers = self.answers@;
        let ghost pv = probe_list(probes@);
        let Planner { actions, forced, layers, next, mut reasons, mut input_hashes, answers } = self;
        let layer = &layers[next];
        let ghost av = types::id_views(layer@);
        let ghost answers1 = with_answers(old_answers, av, pv);
        proof {
            assert(lv[next as int] == av);
            order_no_dup(av);
            with_answers_facts(old_answers, av, pv);
            planned_extends_answers(
                g,
                fs,
                old_answers,
                answers1,
                reason_views(reasons@),
                hash_views(input_hashes@),
                Set::new(|id: Seq<char>| in_layers(lv, next as int, id)),
                lv,
                next as int,
            );
        }
        let mut i: usize = 0;
        while i < layer.len()
            invariant
                i <= layer.len(),
                next < layers.len(),
                layer@ == layers@[next as int]@,
                lv == graph::layer_views(layers@),
                av == types::id_views(layer@),
                av == lv[next as int],
                av.no_duplicates(),
                pv == probe_list(probes@),
                probes.len() == layer.len(),
                first_error(pv) is None,
                reasons.wf(),
                input_hashes.wf(),
                g == graph::graph_view(actions@),
                fs == types::id_views(forced@).to_set(),
                graph::complete(g),
                graph::is_layering(g, lv),
                forall|k: int| 0 <= k < av.len() ==> answers1[#[trigger] av[k]] == pv[k],
                partly_planned(
                    g,
                    fs,
                    answers1,
                    reason_views(reasons@),
                    hash_views(input_hashes@),
                    Set::new(
                        |id: Seq<char>|
                            in_layers(lv, next as int, id) || av.take(i as int).contains(id),
                    ),
                ),
            decreases layer.len() - i,
        {
            let id = &layer[i];
            let ghost seen = Set::new(
                |x: Seq<char>| in_layers(lv, next as int, x) || av.take(i as int).contains(x),
            );
            assert(av[i as int] == id@);
            assert(pv[i as int] == probes@[i as int]@);
            proof {
                no_error_all_ok(pv, i as int);
                layer_member(g, lv, next as int, id@);
            }
            let now: Sha256 = match &probes[i].hash {
                Ok(h) => *h,
                Err(_) => Sha256([0u8; 32]),
            };
            let reason = match find_deps(&actions, id) {
                Some(deps) => classify(
                    deps,
                    now,
                    &probes[i].last,
                    &reasons,
                    probes[i].present,
                    contains_id(&forced, id),
                ),
                None => None,
            };
            let ghost r0 = reason_views(reasons@);
            let ghost h0 = hash_views(input_hashes@);
            let ghost rv = opt_reason(reason);
            assert(r0.dom() =~= reasons@.dom());
            assert(answers1[id@] == probes@[i as int]@);
            input_hashes.insert(id.clone(), now);
            match reason {
                Some(reason) => {
                    reasons.insert(id.clone(), reason);
                },
                None => {},
            }
            proof {
                let r1 = reason_views(reasons@);
                let h1 = hash_views(input_hashes@);
                assert(h1 =~= h0.insert(id@, now@));
                match rv {
                    Some(x) => {
                        assert(r1 =~= r0.insert(id@, x));
                    },
                    None => {
                        assert(r1 =~= r0);
                    },
                }
                assert(!seen.contains(id@)) by {
                    if in_layers(lv, next as int, id@) {
                        layers_are_settled(g, lv, next as nat, id@);
                    }
                    if av.take(i as int).contains(id@) {
                        let k = choose|k: int| 0 <= k < i && av.take(i as int)[k] == id@;
                        assert(av[k] == av[i as int]);
                    }
                }
                planned_extends(g, fs, answers1, r0, h0, seen, id@, rv, now@, lv, next as int);
                let seen1 = Set::new(
                    |x: Seq<char>|
                        in_layers(lv, next as int, x) || av.take(i + 1).contains(x),
                );
                assert forall|x: Seq<char>| #[trigger] seen1.contains(x) <==> seen.insert(
                    id@,
                ).contains(x) by {
                    let t0 = av.take(i as int);
                    let t1 = av.take(i + 1);
                    assert(t1 =~= t0.push(av[i as int]));
                    if t1.contains(x) {
                        let k = choose|k: int| 0 <= k < t1.len() && t1[k] == x;
                        if k < i {
                            assert(t0[k] == x);
                        }
                    }
                    if t0.contains(x) {
                        let k = choose|k: int| 0 <= k < t0.len() && t0[k] == x;
                        assert(t1[k] == x);
                    }
                    assert(t1[i as int] == id@);
                }
                assert(seen1 =~= seen.insert(id@));
            }
            i = i + 1;
        }
        proof {
            assert(av.take(av.len() as int) =~= av);
            let a = Set::new(
                |x: Seq<char>| in_layers(lv, next as int, x) || av.take(i as int).contains(x),
            );
            let b = Set::new(|x: Seq<char>| in_layers(lv, next + 1, x));
            assert forall|x: Seq<char>| #[trigger] a.contains(x) <==> b.contains(x) by {
                if in_layers(lv, next as int, x) {
                    let k = choose|k: int|
                        0 <= k < next && k < lv.len() && #[trigger] lv[k].contains(x);
                    assert(0 <= k < next + 1 && lv[k].contains(x));
                }
                if in_layers(lv, next + 1, x) {
                    let k = choose|k: int|
                        0 <= k < next + 1 && k < lv.len() && #[trigger] lv[k].contains(x);
                    if k < next {
                        assert(in_layers(lv, next as int, x));
                    }
                }
                if av.contains(x) {
                    assert(lv[next as int].contains(x));
                }
            }
            assert(a =~= b);
        }
        Ok(
            Planner {
                actions,
                forced,
                layers,
                next: next + 1,
                reasons,
                input_hashes,
                answers: Ghost(answers1),
            },
        )
    }

    /// The plan, once every layer has been classified.
    pub fn finish(self) -> (r: Plan)
        requires
            self.wf(),
            self.done() == self.layers_view().len(),
        ensures
            is_plan(self.graph(), self.forced_set(), self.answers(), r@),
            r@.layers == self.layers_view(),
    {
        proof {
            let g = self.graph();
            let lv = self.layers_view();
            let all = Set::new(|id: Seq<char>| in_layers(lv, self.next as int, id));
            assert forall|id: Seq<char>| all.contains(id) <==> graph::has_id(g, id) by {
                layers_are_settled(g, lv, lv.len(), id);
            }
            assert forall|id: Seq<char>| #[trigger] self.reasons@.contains_key(id) implies
                self.input_hashes@.contains_key(id) by {
                assert(reason_views(self.reasons@).contains_key(id));
                assert(hash_views(self.input_hashes@).contains_key(id));
            }
        }
        Plan { layers: self.layers, reasons: self.reasons, input_hashes: self.input_hashes }
    }
}

proof fn order_no_dup(layer: Seq<Seq<char>>)
    requires
        crate::order::sorted_texts(layer),
    ensures
        layer.no_duplicates(),
{
    crate::order::strictly_sorted_no_duplicates(crate::order::char_key(), layer);
}

/// A member of layer `n` is an action; it is in no earlier layer, and its
/// dependencies are.
proof fn layer_member(g: Seq<ActionSpecView>, layers: Seq<Seq<Seq<char>>>, n: int, id: Seq<char>)
    requires
        graph::is_layering(g, layers),
        0 <= n < layers.len(),
        layers[n].contains(id),
    ensures
        graph::has_id(g, id),
        !in_layers(layers, n, id),
        forall|d: Seq<char>| #[trigger] graph::depends(g, id, d) ==> in_layers(layers, n, d),
{
    layers_are_settled(g, layers, n as nat, id);
    assert forall|d: Seq<char>| #[trigger] graph::depends(g, id, d) implies in_layers(
        layers,
        n,
        d,
    ) by {
        layers_are_settled(g, layers, n as nat, d);
    }
}

/// The actions in `seen`, and no others, have been classified.
pub open spec fn partly_planned(
    g: Seq<ActionSpecView>,
    forced: Set<Seq<char>>,
    answers: Map<Seq<char>, ProbeView>,
    reasons: Map<Seq<char>, ChangeReasonView>,
    hashes: Map<Seq<char>, Seq<u8>>,
    seen: Set<Seq<char>>,
) -> bool {
    &&& forall|id: Seq<char>| #[trigger] hashes.contains_key(id) <==> seen.contains(id)
    &&& forall|id: Seq<char>| #[trigger] reasons.contains_key(id) ==> seen.contains(id)
    &&& forall|id: Seq<char>| #[trigger]
        seen.contains(id) ==> answers[id].hash == Ok::<Seq<u8>, BuildErrorView>(hashes[id])
            && reason_agrees(g, forced, answers, reasons, id)
}

/// New answers about other actions leave what was classified as it is.
proof fn planned_extends_answers(
    g: Seq<ActionSpecView>,
    forced: Set<Seq<char>>,
    answers0: Map<Seq<char>, ProbeView>,
    answers1: Map<Seq<char>, ProbeView>,
    reasons: Map<Seq<char>, ChangeReasonView>,
    hashes: Map<Seq<char>, Seq<u8>>,
    seen: Set<Seq<char>>,
    layers: Seq<Seq<Seq<char>>>,
    n: int,
)
    requires
        graph::is_layering(g, layers),
        0 <= n < layers.len(),
        seen == Set::new(|id: Seq<char>| in_layers(layers, n, id)),
        partly_planned(g, forced, answers0, reasons, hashes, seen),
        forall|id: Seq<char>| !layers[n].contains(id) ==> #[trigger] answers1[id] == answers0[id],
    ensures
        partly_planned(
            g,
            forced,
            answers1,
            reasons,
            hashes,
            Set::new(
                |id: Seq<char>| in_layers(layers, n, id) || layers[n].take(0).contains(id),
            ),
        ),
{
    let seen1 = Set::new(
        |id: Seq<char>| in_layers(layers, n, id) || layers[n].take(0).contains(id),
    );
    assert(seen1 =~= seen);
    assert forall|id: Seq<char>| #[trigger] seen.contains(id) implies answers1[id]
        == answers0[id] by {
        if layers[n].contains(id) {
            layer_member(g, layers, n, id);
        }
    }
}

/// Classifying one more action, all of whose dependencies are classified,
/// leaves the others as they are.
proof fn planned_extends(
    g: Seq<ActionSpecView>,
    forced: Set<Seq<char>>,
    answers: Map<Seq<char>, ProbeView>,
    reasons: Map<Seq<char>, ChangeReasonView>,
    hashes: Map<Seq<char>, Seq<u8>>,
    seen: Set<Seq<char>>,
    id: Seq<char>,
    reason: Option<ChangeReasonView>,
    now: Seq<u8>,
    layers: Seq<Seq<Seq<char>>>,
    n: int,
)
    requires
        graph::is_layering(g, layers),
        0 <= n < layers.len(),
        layers[n].contains(id),
        forall|x: Seq<char>| #[trigger]
            seen.contains(x) ==> in_layers(layers, n, x) || layers[n].contains(x),
        forall|x: Seq<char>| in_layers(layers, n, x) ==> #[trigger] seen.contains(x),
        partly_planned(g, forced, answers, reasons, hashes, seen),
        !seen.contains(id),
        answers[id].hash == Ok::<Seq<u8>, BuildErrorView>(now),
        reason == classified(
            deps_of(g, id),
            now,
            answers[id].last,
            reasons.dom(),
            answers[id].present,
            forced.contains(id),
        ),
    ensures
        partly_planned(
            g,
            forced,
            answers,
            match reason {
                Some(r) => reasons.insert(id, r),
                None => reasons,
            },
            hashes.insert(id, now),
            seen.insert(id),
        ),
{
    let reasons1 = match reason {
        Some(r) => reasons.insert(id, r),
        None => reasons,
    };
    assert forall|x: Seq<char>| #[trigger] seen.insert(id).contains(x) implies reason_agrees(
        g,
        forced,
        answers,
        reasons1,
        x,
    ) by {
        // No dependency of `x` is `id`: it lies in a layer before that of `x`.
        let dx = deps_of(g, x);
        assert forall|j: int| 0 <= j < dx.len() implies (reasons.dom().contains(#[trigger] dx[j])
            <==> reasons1.dom().contains(dx[j])) by {
            deps_of_depends(g, x, j);
            if layers[n].contains(x) {
                layer_member(g, layers, n, x);
                assert(in_layers(layers, n, dx[j]));
            } else {
                assert(in_layers(layers, n, x));
                let k = choose|k: int|
                    0 <= k < n && k < layers.len() && #[trigger] layers[k].contains(x);
                layer_member(g, layers, k, x);
                let m = choose|m: int|
                    0 <= m < k && m < layers.len() && #[trigger] layers[m].contains(dx[j]);
                assert(in_layers(layers, n, dx[j]));
            }
            assert(seen.contains(dx[j]));
        }
        first_stale_same(dx, reasons.dom(), reasons1.dom());
        if x != id {
            assert(seen.contains(x));
            assert(lookup(reasons1, x) == lookup(reasons, x));
        }
    }
}

/// The layers one after the other.
pub open spec fn flattened(layers: Seq<Seq<Seq<char>>>) -> Seq<Seq<char>>
    decreases layers.len(),
{
    if layers.len() == 0 {
        Seq::empty()
    } else {
        flattened(layers.drop_last()) + layers.last()
    }
}

/// A stale action and the input hash it runs with.
#[derive(Debug)]
pub struct Job {
    /// The action.
    pub id: ActionId,
    /// Its input hash, captured while planning.
    pub input: Sha256,
}

/// The views of a list of jobs: id and input hash of each.
pub open spec fn job_views(jobs: Seq<Job>) -> Seq<(Seq<char>, Seq<u8>)> {
    jobs.map_values(|j: Job| (j.id@, j.input@))
}

/// The views of layers of jobs.
pub open spec fn job_layers(layers: Seq<Vec<Job>>) -> Seq<Seq<(Seq<char>, Seq<u8>)>> {
    layers.map_values(|l: Vec<Job>| job_views(l@))
}

/// The stale actions among the listed ones, in order, with their input hashes.
pub open spec fn stale_jobs(p: PlanView, layer: Seq<Seq<char>>) -> Seq<(Seq<char>, Seq<u8>)>
    decreases layer.len(),
{
    if layer.len() == 0 {
        Seq::empty()
    } else if p.reasons.contains_key(layer.last()) {
        stale_jobs(p, layer.drop_last()).push((layer.last(), p.hashes[layer.last()]))
    } else {
        stale_jobs(p, layer.drop_last())
    }
}

/// What is left to run of every layer.
pub open spec fn plan_jobs(p: PlanView) -> Seq<Seq<(Seq<char>, Seq<u8>)>> {
    p.layers.map_values(|layer: Seq<Seq<char>>| stale_jobs(p, layer))
}

/// What the probes of one layer found.
pub open spec fn layer_answers(
    layer: Seq<Seq<char>>,
    answers: Map<Seq<char>, ProbeView>,
) -> Seq<ProbeView> {
    layer.map_values(|id: Seq<char>| answers[id])
}

/// What ends the planning from layer `k` on: a cancellation seen before a
/// layer is probed, or the first hash in layer order that could not be computed.
pub open spec fn planning_failure(
    layers: Seq<Seq<Seq<char>>>,
    answers: Map<Seq<char>, ProbeView>,
    cancel_at: Option<usize>,
    k: int,
) -> Option<BuildErrorView>
    decreases layers.len() - k,
{
    if k >= layers.len() {
        None
    } else if cancel_at is Some && cancel_at->0 <= k {
        Some(BuildErrorView::Cancelled)
    } else {
        match first_error(layer_answers(layers[k], answers)) {
            Some(e) => Some(e),
            None => planning_failure(layers, answers, cancel_at, k + 1),
        }
    }
}

impl Clone for Probe {
    fn clone(&self) -> (r: Self)
        ensures
            r@ == self@,
    {
        Probe {
            hash: match &self.hash {
                Ok(h) => Ok(*h),
                Err(e) => Err(e.clone()),
            },
            last: match &self.last {
                Some(e) => Some(e.clone()),
                None => None,
            },
            present: self.present,
        }
    }
}

/// The probes of a layer, in its order.
fn collect_probes(layer: &Vec<ActionId>, probes: &IdMap<Probe>) -> (r: Vec<Probe>)
    requires
        probes.wf(),
        forall|i: int|
            0 <= i < layer.len() ==> probes@.contains_key((#[trigger] layer@[i])@),
    ensures
        probe_list(r@) == layer_answers(types::id_views(layer@), probe_views(probes@)),
{
    let ghost answers = probe_views(probes@);
    let ghost lv = types::id_views(layer@);
    let mut r: Vec<Probe> = Vec::new();
    let mut i: usize = 0;
    while i < layer.len()
        invariant
            i <= layer.len(),
            probes.wf(),
            answers == probe_views(probes@),
            lv == types::id_views(layer@),
            forall|k: int|
                0 <= k < layer.len() ==> probes@.contains_key((#[trigger] layer@[k])@),
            r.len() == i,
            forall|k: int| 0 <= k < i ==> (#[trigger] r@[k])@ == answers[lv[k]],
        decreases layer.len() - i,
    {
        assert(lv[i as int] == layer@[i as int]@);
        match probes.get(&layer[i]) {
            Some(p) => {
                r.push(p.clone());
            },
            None => {},
        }
        i = i + 1;
    }
    assert(probe_list(r@) =~= layer_answers(lv, answers));
    r
}

/// A plan depends only on the answers about its own actions.
proof fn plan_answers_agree(
    g: Seq<ActionSpecView>,
    forced: Set<Seq<char>>,
    a: Map<Seq<char>, ProbeView>,
    b: Map<Seq<char>, ProbeView>,
    p: PlanView,
)
    requires
        is_plan(g, forced, a, p),
        forall|id: Seq<char>| #[trigger] graph::has_id(g, id) ==> a[id] == b[id],
    ensures
        is_plan(g, forced, b, p),
{
    assert forall|id: Seq<char>| #[trigger] graph::has_id(g, id) implies reason_agrees(
        g,
        forced,
        b,
        p.reasons,
        id,
    ) by {
        assert(reason_agrees(g, forced, a, p.reasons, id));
    }
}

impl Plan {
    /// The stored maps hold each id once, and every stale action has its hash.
    #[verifier::type_invariant]
    spec fn wf(self) -> bool {
        &&& self.reasons.wf()
        &&& self.input_hashes.wf()
        &&& forall|id: Seq<char>| #[trigger]
            self.reasons@.contains_key(id) ==> self.input_hashes@.contains_key(id)
    }

    /// The stale actions of every layer with their input hashes: what is left
    /// to run.
    pub fn jobs(&self) -> (r: Vec<Vec<Job>>)
        ensures
            job_layers(r@) == plan_jobs(self@),
    {
        proof {
            use_type_invariant(self);
        }
        let ghost lv = graph::layer_views(self.layers@);
        let mut r: Vec<Vec<Job>> = Vec::new();
        let mut k: usize = 0;
        while k < self.layers.len()
            invariant
                k <= self.layers.len(),
                self.wf(),
                lv == graph::layer_views(self.layers@),
                lv == self@.layers,
                job_layers(r@) == plan_jobs(self@).take(k as int),
                plan_jobs(self@).len() == lv.len(),
            decreases self.layers.len() - k,
        {
            let layer = &self.layers[k];
            let ghost av = types::id_views(layer@);
            let mut jobs: Vec<Job> = Vec::new();
            let mut i: usize = 0;
            while i < layer.len()
                invariant
                    i <= layer.len(),
                    self.wf(),
                    av == types::id_views(layer@),
                    job_views(jobs@) == stale_jobs(self@, av.take(i as int)),
                decreases layer.len() - i,
            {
                let id = &layer[i];
                let ghost before = job_views(jobs@);
                proof {
                    assert(av.take(i + 1).drop_last() =~= av.take(i as int));
                    assert(av.take(i + 1).last() == id@);
                }
                if self.reasons.contains_key(id) {
                    match self.input_hashes.get(id) {
                        Some(input) => {
                            jobs.push(Job { id: id.clone(), input: *input });
                        },
                        None => {},
                    }
                    assert(job_views(jobs@) =~= before.push((id@, self@.hashes[id@])));
                }
                i = i + 1;
            }
            assert(av.take(av.len() as int) =~= av);
            let ghost before = job_layers(r@);
            let ghost jv = job_views(jobs@);
            r.push(jobs);
            assert(job_layers(r@) =~= before.push(jv));
            assert(plan_jobs(self@)[k as int] == stale_jobs(self@, lv[k as int]));
            k = k + 1;
            assert(job_layers(r@) =~= plan_jobs(self@).take(k as int));
        }
        assert(plan_jobs(self@).take(lv.len() as int) =~= plan_jobs(self@));
        r
    }

    /// Topological layers, each layer's actions independent of each other.
    pub fn layers(&self) -> (r: &Vec<Vec<ActionId>>)
        ensures
            graph::layer_views(r@) == self@.layers,
    {
        &self.layers
    }

    /// Map of stale action id to reason. Actions absent from the map are up to date.
    pub fn reasons(&self) -> (r: &IdMap<ChangeReason>)
        ensures
            r.wf(),
            reason_views(r@) == self@.reasons,
    {
        proof {
            use_type_invariant(self);
        }
        &self.reasons
    }

    /// The ids of all stale actions, each once.
    pub fn stale(&self) -> (r: Vec<ActionId>)
        ensures
            types::id_views(r@).no_duplicates(),
            types::id_views(r@).to_set() == self@.reasons.dom(),
    {
        proof {
            use_type_invariant(self);
            assert(self@.reasons.dom() =~= self.reasons@.dom());
        }
        self.reasons.keys()
    }

    /// All action ids in topological order, the layers one after the other.
    pub fn flat_topo(&self) -> (r: Vec<ActionId>)
        ensures
            types::id_views(r@) == flattened(self@.layers),
    {
        let ghost lv = graph::layer_views(self.layers@);
        let mut r: Vec<ActionId> = Vec::new();
        let mut k: usize = 0;
        while k < self.layers.len()
            invariant
                k <= self.layers.len(),
                lv == graph::layer_views(self.layers@),
                types::id_views(r@) == flattened(lv.take(k as int)),
            decreases self.layers.len() - k,
        {
            let layer = &self.layers[k];
            let ghost av = types::id_views(layer@);
            let ghost before = types::id_views(r@);
            let mut i: usize = 0;
            assert(before + av.take(0) =~= before);
            while i < layer.len()
                invariant
                    i <= layer.len(),
                    av == types::id_views(layer@),
                    types::id_views(r@) == before + av.take(i as int),
                decreases layer.len() - i,
            {
                let ghost r0 = types::id_views(r@);
                r.push(layer[i].clone());
                i = i + 1;
                assert(types::id_views(r@) =~= r0.push(av[i - 1]));
                assert(types::id_views(r@) =~= before + av.take(i as int));
            }
            assert(av.take(av.len() as int) =~= av);
            k = k + 1;
            assert(lv.take(k as int).drop_last() =~= lv.take(k - 1));
            assert(lv.take(k as int).last() == av);
        }
        assert(lv.take(lv.len() as int) =~= lv);
        r
    }

    /// The input hash of `id` captured while planning; `None` for an id that is
    /// not in the plan.
    pub fn input_hash(&self, id: &ActionId) -> (r: Option<Sha256>)
        ensures
            match r {
                Some(h) => lookup(self@.hashes, id@) == Some(h@),
                None => lookup(self@.hashes, id@) is None,
            },
    {
        proof {
            use_type_invariant(self);
        }
        match self.input_hashes.get(id) {
            Some(h) => Some(*h),
            None => None,
        }
    }

    /// Builds a plan from a set of actions and what probing them found.
    ///
    /// See [`Plan::compute_with_forced`]; here no action is forced.
    pub fn compute(
        actions: Vec<ActionSpec>,
        probes: &IdMap<Probe>,
        cancel_at: Option<usize>,
    ) -> (r: Result<Plan, PlanError>)
        requires
            probes.wf(),
            forall|id: Seq<char>| #[trigger]
                graph::has_id(graph::graph_view(actions@), id) ==> probes@.contains_key(id),
        ensures
            r matches Ok(p) ==> graph::complete(graph::graph_view(actions@)) && is_plan(
                graph::graph_view(actions@),
                Set::empty(),
                probe_views(probes@),
                p@,
            ) && planning_failure(p@.layers, probe_views(probes@), cancel_at, 0) is None,
            r matches Err(PlanError::MissingDep { from, to }) ==> exists|i: int, j: int|
                #[trigger] graph::first_missing(graph::graph_view(actions@), i, j)
                    && graph::graph_view(actions@)[i].id == from@
                    && graph::graph_view(actions@)[i].deps[j] == to@,
            r matches Err(PlanError::Cycle(ids)) ==> graph::complete(graph::graph_view(actions@))
                && graph::is_cycle_report(graph::graph_view(actions@), types::id_views(ids@)),
            r matches Err(PlanError::Build(e)) ==> graph::complete(graph::graph_view(actions@))
                && exists|layers: Seq<Seq<Seq<char>>>| #[trigger]
                graph::is_layering(graph::graph_view(actions@), layers) && planning_failure(
                    layers,
                    probe_views(probes@),
                    cancel_at,
                    0,
                ) == Some(e@),
    {
        let none: Vec<ActionId> = Vec::new();
        assert(types::id_views(none@).to_set() =~= Set::<Seq<char>>::empty());
        Plan::compute_with_forced(actions, probes, cancel_at, none)
    }

    /// Builds a plan in which every id in `forced` is stale regardless of what
    /// the cache says; the cascade to dependents is the same as always.
    ///
    /// `cancel_at` is the first layer before which the run was found to be
    /// cancelled.
    #[verifier::spinoff_prover]
    #[verifier::loop_isolation(false)]
    pub fn compute_with_forced(
        actions: Vec<ActionSpec>,
        probes: &IdMap<Probe>,
        cancel_at: Option<usize>,
        forced: Vec<ActionId>,
    ) -> (r: Result<Plan, PlanError>)
        requires
            probes.wf(),
            forall|id: Seq<char>| #[trigger]
                graph::has_id(graph::graph_view(actions@), id) ==> probes@.contains_key(id),
        ensures
            r matches Ok(p) ==> graph::complete(graph::graph_view(actions@)) && is_plan(
                graph::graph_view(actions@),
                types::id_views(forced@).to_set(),
                probe_views(probes@),
                p@,
            ) && planning_failure(p@.layers, probe_views(probes@), cancel_at, 0) is None,
            r matches Err(PlanError::MissingDep { from, to }) ==> exists|i: int, j: int|
                #[trigger] graph::first_missing(graph::graph_view(actions@), i, j)
                    && graph::graph_view(actions@)[i].id == from@
                    && graph::graph_view(actions@)[i].deps[j] == to@,
            r matches Err(PlanError::Cycle(ids)) ==> graph::complete(graph::graph_view(actions@))
                && graph::is_cycle_report(graph::graph_view(actions@), types::id_views(ids@)),
            r matches Err(PlanError::Build(e)) ==> graph::complete(graph::graph_view(actions@))
                && exists|layers: Seq<Seq<Seq<char>>>| #[trigger]
                graph::is_layering(graph::graph_view(actions@), layers) && planning_failure(
                    layers,
                    probe_views(probes@),
                    cancel_at,
                    0,
                ) == Some(e@),
    {
        let ghost g = graph::graph_view(actions@);
        let ghost fs = types::id_views(forced@).to_set();
        let ghost answers = probe_views(probes@);
        let mut planner = match Planner::start(actions, forced) {
            Ok(p) => p,
            Err(e) => {
                return Err(e);
            },
        };
        let ghost lv = planner.layers_view();
        let mut k: usize = 0;
        loop
            invariant
                probes.wf(),
                planner.wf(),
                planner.graph() == g,
                planner.forced_set() == fs,
                planner.layers_view() == lv,
                planner.done() == k,
                k <= lv.len(),
                answers == probe_views(probes@),
                graph::complete(g),
                graph::is_layering(g, lv),
                forall|id: Seq<char>| #[trigger] graph::has_id(g, id) ==> probes@.contains_key(id),
                forall|id: Seq<char>|
                    in_layers(lv, k as int, id) ==> #[trigger] planner.answers()[id] == answers[id],
                planning_failure(lv, answers, cancel_at, 0) == planning_failure(
                    lv,
                    answers,
                    cancel_at,
                    k as int,
                ),
            decreases lv.len() - k,
        {
            let layer_probes = match planner.pending() {
                None => {
                    break ;
                },
                Some(layer) => {
                    assert forall|i: int| 0 <= i < layer.len() implies probes@.contains_key(
                        (#[trigger] layer@[i])@,
                    ) by {
                        let av = types::id_views(layer@);
                        assert(av[i] == layer@[i]@);
                        assert(lv[k as int].contains(layer@[i]@));
                        layer_member(g, lv, k as int, layer@[i]@);
                    }
                    collect_probes(layer, probes)
                },
            };
            let cancelled: bool = match cancel_at {
                Some(c) => c <= k,
                None => false,
            };
            let ghost before = planner.answers();
            let ghost av = lv[k as int];
            assert(probe_list(layer_probes@) == layer_answers(av, answers));
            assert(probe_list(layer_probes@).len() == av.len());
            match planner.settle(cancelled, &layer_probes) {
                Err(e) => {
                    return Err(e);
                },
                Ok(p) => {
                    planner = p;
                },
            }
            proof {
                order_no_dup(av);
                with_answers_facts(before, av, probe_list(layer_probes@));
                assert forall|id: Seq<char>| in_layers(lv, k + 1, id) implies #[trigger]
                    planner.answers()[id] == answers[id] by {
                    if av.contains(id) {
                        let i = choose|i: int| 0 <= i < av.len() && av[i] == id;
                        assert(layer_answers(av, answers)[i] == answers[id]);
                    } else {
                        let m = choose|m: int|
                            0 <= m < k + 1 && m < lv.len() && #[trigger] lv[m].contains(id);
                        assert(m < k);
                        assert(in_layers(lv, k as int, id));
                        assert(before[id] == answers[id]);
                    }
                }
            }
            k = k + 1;
        }
        proof {
            assert forall|id: Seq<char>| #[trigger] graph::has_id(g, id) implies planner.answers()[id]
                == answers[id] by {
                layers_are_settled(g, lv, lv.len(), id);
            }
        }
        let ghost got = planner.answers();
        let plan = planner.finish();
        proof {
            plan_answers_agree(g, fs, got, answers, plan@);
        }
        Ok(plan)
    }
}

} // verus!
