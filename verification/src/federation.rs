//! The `repolith` action: runs the manifest of a child stack as a nested plan.
//!
//! Every nested run carries the manifests of its ancestors. A manifest that is
//! already among them is refused with the cycle it closes, and so is one nested
//! too deeply.

use crate::closure_walk;
use crate::command;
use crate::command::CmdOutput;
use crate::digest;
use crate::digest::Hasher;
use crate::docker;
use crate::git_clone;
use crate::order;
use crate::paths;
use crate::steps;
use crate::steps::{Answer, Request, RequestView, Step, StepView};
use crate::text;
use crate::types;
use crate::types::{
    ActionId,
    BuildError,
    BuildErrorView,
    BuildEvent,
    BuildEventView,
    BuildOutput,
    ExecMode,
    Sha256,
};
use vstd::prelude::*;

verus! {

/// The greatest number of nested stacks.
pub const MAX_FEDERATION_DEPTH: usize = 8;

/// Action that syncs the child stack found in a node's checkout.
#[derive(Debug)]
pub struct RepolithSync {
    /// Action identifier for the plan.
    pub id: ActionId,
    /// The node's checkout, which the manifest may not leave.
    pub node_path: String,
    /// Child manifest relative to the checkout; `repolith.toml` when absent.
    pub manifest_rel: Option<String>,
    /// Canonical manifest paths of every ancestor, the outermost first.
    pub chain: Vec<String>,
    /// How the child run treats failures.
    pub mode: ExecMode,
    /// Ids of actions that must complete before this one runs.
    pub deps: Vec<ActionId>,
}

/// The child manifest relative to the checkout.
pub open spec fn manifest_of(a: RepolithSync) -> Seq<char> {
    match a.manifest_rel {
        Some(m) => m@,
        None => "repolith.toml"@,
    }
}

/// Position of the first ancestor with this path; the number of ancestors if
/// there is none.
pub open spec fn ancestor(chain: Seq<Seq<char>>, manifest: Seq<char>) -> nat
    decreases chain.len(),
{
    if chain.len() == 0 {
        0
    } else if paths::same(chain[0], manifest) {
        0
    } else {
        1 + ancestor(chain.drop_first(), manifest)
    }
}

/// What the guard makes of a manifest below a chain of ancestors.
pub open spec fn guarded(chain: Seq<Seq<char>>, manifest: Seq<char>) -> Result<
    Seq<char>,
    BuildErrorView,
> {
    if paths::listed(chain, manifest) {
        let cycle = chain.skip(ancestor(chain, manifest) as int).push(manifest);
        Err(BuildErrorView::Io("federation cycle: "@ + text::joined(cycle, " -> "@)))
    } else if chain.len() >= MAX_FEDERATION_DEPTH {
        Err(
            BuildErrorView::Io(
                "federation depth "@ + text::dec_text((chain.len() + 1) as nat)
                    + " exceeds the maximum of "@ + text::dec_text(MAX_FEDERATION_DEPTH as nat)
                    + " (chain: "@ + text::joined(chain, " -> "@) + ")"@,
            ),
        )
    } else {
        Ok(manifest)
    }
}

/// What resolving the child manifest comes to.
pub open spec fn resolved(
    chain: Seq<Seq<char>>,
    contained: Result<Seq<char>, BuildErrorView>,
) -> Result<Seq<char>, BuildErrorView> {
    match contained {
        Err(e) => Err(e),
        Ok(m) => guarded(chain, m),
    }
}

proof fn ancestor_facts(chain: Seq<Seq<char>>, manifest: Seq<char>)
    ensures
        ancestor(chain, manifest) <= chain.len(),
        paths::listed(chain, manifest) <==> ancestor(chain, manifest) < chain.len(),
        ancestor(chain, manifest) < chain.len() ==> paths::same(
            chain[ancestor(chain, manifest) as int],
            manifest,
        ),
        forall|k: int|
            0 <= k < ancestor(chain, manifest) ==> !paths::same(#[trigger] chain[k], manifest),
    decreases chain.len(),
{
    if chain.len() > 0 && !paths::same(chain[0], manifest) {
        let rest = chain.drop_first();
        ancestor_facts(rest, manifest);
        assert forall|k: int| 0 <= k < ancestor(chain, manifest) implies !paths::same(
            #[trigger] chain[k],
            manifest,
        ) by {
            if k > 0 {
                assert(rest[k - 1] == chain[k]);
            }
        }
        if paths::listed(chain, manifest) {
            let i = choose|i: int| 0 <= i < chain.len() && paths::same(#[trigger] chain[i], manifest);
            assert(rest[i - 1] == chain[i]);
        }
    }
}

/// A manifest is accepted below a chain exactly when none of its ancestors is
/// the same and there is room for one more. So no chain ever holds a manifest
/// twice, nor more than [`MAX_FEDERATION_DEPTH`].
pub proof fn chains_stay_simple(chain: Seq<Seq<char>>, manifest: Seq<char>)
    ensures
        guarded(chain, manifest) is Ok <==> !paths::listed(chain, manifest) && chain.len()
            < MAX_FEDERATION_DEPTH,
        closure_walk::no_path_twice(chain) && guarded(chain, manifest) is Ok ==> {
            &&& closure_walk::no_path_twice(chain.push(manifest))
            &&& chain.push(manifest).len() <= MAX_FEDERATION_DEPTH
        },
{
    let c = chain.push(manifest);
    if closure_walk::no_path_twice(chain) && guarded(chain, manifest) is Ok {
        assert forall|i: int, j: int| 0 <= i < j < c.len() implies !paths::same(
            #[trigger] c[i],
            #[trigger] c[j],
        ) by {
            assert(c[i] == chain[i]);
            if j < chain.len() {
                assert(c[j] == chain[j]);
            }
        }
    }
}

/// A cycle report begins and ends with the same manifest.
pub proof fn cycle_report_closes(chain: Seq<Seq<char>>, manifest: Seq<char>)
    requires
        paths::listed(chain, manifest),
    ensures
        ({
            let cycle = chain.skip(ancestor(chain, manifest) as int).push(manifest);
            paths::same(cycle.first(), manifest) && cycle.last() == manifest && cycle.len() >= 2
        }),
{
    ancestor_facts(chain, manifest);
}

/// The preimage of the input hash for a manifest and a checkout.
pub open spec fn sync_preimage(manifest: Seq<u8>, head: CmdOutput) -> Seq<u8> {
    text::utf8("repolith:manifest:"@) + manifest + docker::checkout_bytes(head)
}

/// The preimage of the input hash while there is no checkout yet.
pub open spec fn pre_clone_preimage() -> Seq<u8> {
    text::utf8("repolith:manifest:"@) + text::utf8("pre-clone"@)
}

/// What reading a child manifest's state comes to.
pub open spec fn sync_hash(
    resolved: Result<Seq<char>, BuildErrorView>,
    exists_on_disk: bool,
    content: Result<Vec<u8>, String>,
    head: CmdOutput,
) -> Result<Seq<u8>, BuildErrorView> {
    match resolved {
        Ok(m) => match content {
            Ok(bytes) => Ok(digest::sha256_of(sync_preimage(bytes@, head))),
            Err(e) => Err(BuildErrorView::Io("read manifest "@ + m + ": "@ + e@)),
        },
        Err(e) => if exists_on_disk {
            Err(e)
        } else {
            Ok(digest::sha256_of(pre_clone_preimage()))
        },
    }
}

/// The next step where the child manifest could not be resolved, with the answers
/// from position `k` on: that is an error only if there is a checkout.
pub open spec fn unresolved_step(
    a: RepolithSync,
    e: BuildErrorView,
    answers: Seq<Answer>,
    k: int,
) -> StepView<Seq<u8>> {
    if answers.len() <= k {
        StepView::Ask(RequestView::Exists(a.node_path@))
    } else {
        match answers[k] {
            Answer::Flag(found) => if found {
                steps::failed(e)
            } else {
                StepView::Done(Ok(digest::sha256_of(pre_clone_preimage())))
            },
            _ => steps::no_answer(),
        }
    }
}

/// The next step once the child manifest is known, with the answers from position
/// 2 on: read it, ask for the commit, then hash.
pub open spec fn manifest_step(a: RepolithSync, manifest: Seq<char>, answers: Seq<Answer>) -> StepView<
    Seq<u8>,
> {
    if answers.len() <= 2 {
        StepView::Ask(RequestView::Read(manifest))
    } else {
        match answers[2] {
            Answer::Bytes(Err(e)) => steps::failed(
                BuildErrorView::Io(step_text(ChildStep::Read, manifest, e@)),
            ),
            Answer::Bytes(Ok(bytes)) => if answers.len() == 3 {
                StepView::Ask(RequestView::Run("git"@, git_clone::head_arguments(a.node_path@)))
            } else {
                match answers[3] {
                    Answer::Output(Ok(head)) => StepView::Done(
                        sync_hash(Ok(manifest), true, Ok(bytes), head),
                    ),
                    Answer::Output(Err(e)) => steps::failed(e@),
                    _ => steps::no_answer(),
                }
            },
            _ => steps::no_answer(),
        }
    }
}

/// What the answers about the checkout and the manifest below it come to.
pub open spec fn resolved_by(
    a: RepolithSync,
    base: Result<String, String>,
    canon: Result<String, String>,
) -> Result<Seq<char>, BuildErrorView> {
    resolved(
        order::text_views(a.chain@),
        paths::containment(
            a.node_path@,
            paths::answer_view(base),
            manifest_of(a),
            paths::answer_view(canon),
        ),
    )
}

/// The next step towards the input hash: resolve the child manifest, and read its
/// state if that worked.
pub open spec fn sync_hash_step(a: RepolithSync, answers: Seq<Answer>) -> StepView<Seq<u8>> {
    if answers.len() == 0 {
        StepView::Ask(RequestView::Canonicalize(a.node_path@))
    } else {
        match answers[0] {
            Answer::Path(Err(e)) => unresolved_step(
                a,
                resolved_by(a, Err(e), Err(e))->Err_0,
                answers,
                1,
            ),
            Answer::Path(Ok(base)) => if answers.len() == 1 {
                StepView::Ask(
                    RequestView::Canonicalize(paths::joined_path(base@, manifest_of(a))),
                )
            } else {
                match answers[1] {
                    Answer::Path(canon) => match resolved_by(a, Ok(base), canon) {
                        Err(e) => unresolved_step(a, e, answers, 2),
                        Ok(m) => manifest_step(a, m, answers),
                    },
                    _ => steps::no_answer(),
                }
            },
            _ => steps::no_answer(),
        }
    }
}

/// The digest of what happened in a child run: its successes in order.
pub open spec fn events_digest(events: Seq<BuildEventView>) -> Seq<u8> {
    let sorted = choose|sorted: Seq<PairView>| pair_order(success_pairs(events), sorted);
    digest::sha256_of(events_preimage(sorted))
}

/// What the action says of a child run.
pub open spec fn stack_text(dir: Seq<char>, events: Seq<BuildEventView>) -> Seq<char> {
    "child stack "@ + dir + " synced — "@ + text::dec_text(success_pairs(events).len())
        + " action(s)"@
}

/// The next step once the child manifest is known, with the answers from position
/// 2 on: run the child stack.
pub open spec fn stack_step(a: RepolithSync, manifest: Seq<char>, answers: Seq<Answer>) -> StepView<
    (Seq<u8>, Seq<char>),
> {
    match paths::parent_of(manifest) {
        None => steps::failed(BuildErrorView::Io("manifest "@ + manifest + " has no parent"@)),
        Some(dir) => if answers.len() <= 2 {
            StepView::Ask(
                RequestView::SyncStack {
                    manifest,
                    dir,
                    chain: order::text_views(a.chain@).push(manifest),
                    mode: a.mode,
                },
            )
        } else {
            match answers[2] {
                Answer::Events(Ok(events)) => {
                    let ev = types::event_views(events@);
                    StepView::Done(Ok((events_digest(ev), stack_text(dir, ev))))
                },
                Answer::Events(Err(e)) => steps::failed(e@),
                _ => steps::no_answer(),
            }
        },
    }
}

/// The next step of the action: resolve the child manifest, then run its stack.
/// The checkout must exist by now.
pub open spec fn sync_run_step(a: RepolithSync, answers: Seq<Answer>) -> StepView<
    (Seq<u8>, Seq<char>),
> {
    if answers.len() == 0 {
        StepView::Ask(RequestView::Canonicalize(a.node_path@))
    } else {
        match answers[0] {
            Answer::Path(Err(e)) => steps::failed(resolved_by(a, Err(e), Err(e))->Err_0),
            Answer::Path(Ok(base)) => if answers.len() == 1 {
                StepView::Ask(
                    RequestView::Canonicalize(paths::joined_path(base@, manifest_of(a))),
                )
            } else {
                match answers[1] {
                    Answer::Path(canon) => match resolved_by(a, Ok(base), canon) {
                        Err(e) => steps::failed(e),
                        Ok(m) => stack_step(a, m, answers),
                    },
                    _ => steps::no_answer(),
                }
            },
            _ => steps::no_answer(),
        }
    }
}

/// A step of the child run that can fail.
#[derive(Clone, Copy, Debug, PartialEq, Eq)]
pub enum ChildStep {
    /// Reading the manifest.
    Read,
    /// Parsing it.
    Parse,
    /// Setting up the orchestrator.
    Setup,
    /// Planning.
    Plan,
    /// Running the plan.
    Sync,
}

/// The message for a failed step.
pub open spec fn step_text(step: ChildStep, manifest: Seq<char>, cause: Seq<char>) -> Seq<char> {
    match step {
        ChildStep::Read => "read manifest "@ + manifest + ": "@ + cause,
        ChildStep::Parse => "child manifest "@ + manifest + ": "@ + cause,
        ChildStep::Setup => "child orchestrator: "@ + cause,
        ChildStep::Plan => "child plan ("@ + manifest + "): "@ + cause,
        ChildStep::Sync => "child sync ("@ + manifest + "): "@ + cause,
    }
}

/// The error for a failed step of the child run.
pub fn child_failure(step: ChildStep, manifest: &str, cause: &str) -> (r: BuildError)
    ensures
        r@ == BuildErrorView::Io(step_text(step, manifest@, cause@)),
{
    let mut s = match step {
        ChildStep::Read => "read manifest ".to_owned(),
        ChildStep::Parse => "child manifest ".to_owned(),
        ChildStep::Setup => "child orchestrator: ".to_owned(),
        ChildStep::Plan => "child plan (".to_owned(),
        ChildStep::Sync => "child sync (".to_owned(),
    };
    match step {
        ChildStep::Read | ChildStep::Parse => {
            s.append(manifest);
            s.append(": ");
        },
        ChildStep::Setup => {},
        ChildStep::Plan | ChildStep::Sync => {
            s.append(manifest);
            s.append("): ");
        },
    }
    s.append(cause);
    BuildError::Io(s)
}

/// An id and an output hash.
pub type PairView = (Seq<char>, Seq<u8>);

/// The ids and output hashes of the actions that succeeded.
pub open spec fn success_pairs(events: Seq<BuildEventView>) -> Seq<PairView>
    decreases events.len(),
{
    if events.len() == 0 {
        Seq::empty()
    } else {
        match events.last() {
            BuildEventView::Success { id, output, .. } => success_pairs(events.drop_last()).push(
                (id, output),
            ),
            BuildEventView::Failed { .. } => success_pairs(events.drop_last()),
        }
    }
}

/// The order of pairs: by id, then by hash.
pub open spec fn pair_before(a: PairView, b: PairView) -> bool {
    order::text_lt(a.0, b.0) || (a.0 == b.0 && order::bytes_lt(a.1, b.1))
}

/// No pair comes before an earlier one.
pub open spec fn pairs_sorted(s: Seq<PairView>) -> bool {
    forall|i: int, j: int|
        0 <= i < j < s.len() ==> !pair_before(#[trigger] s[j], #[trigger] s[i])
}

/// `sorted` holds the given pairs, each as often, in order.
pub open spec fn pair_order(given: Seq<PairView>, sorted: Seq<PairView>) -> bool {
    sorted.to_multiset() == given.to_multiset() && pairs_sorted(sorted)
}

/// What a list of pairs adds to the preimage.
pub open spec fn pair_bytes(s: Seq<PairView>) -> Seq<u8>
    decreases s.len(),
{
    if s.len() == 0 {
        Seq::empty()
    } else {
        pair_bytes(s.drop_last()) + text::utf8(s.last().0) + text::utf8("="@) + s.last().1
    }
}

/// The preimage of the output hash over pairs in order.
pub open spec fn events_preimage(s: Seq<PairView>) -> Seq<u8> {
    text::utf8("repolith:events:"@) + pair_bytes(s)
}

/// Of two pairs, one comes before the other unless they are the same.
pub proof fn pair_total(a: PairView, b: PairView)
    ensures
        a == b || pair_before(a, b) || pair_before(b, a),
        !(pair_before(a, b) && pair_before(b, a)),
        !pair_before(a, a),
{
    order::char_key_injective();
    order::byte_key_injective();
    order::lex_irreflexive(order::char_key(), a.0);
    order::lex_irreflexive(order::byte_key(), a.1);
    if a.0 != b.0 {
        order::lex_total(order::char_key(), a.0, b.0);
    } else if a.1 != b.1 {
        order::lex_total(order::byte_key(), a.1, b.1);
    }
    if order::text_lt(a.0, b.0) && order::text_lt(b.0, a.0) {
        order::lex_transitive(order::char_key(), a.0, b.0, a.0);
    }
    if order::bytes_lt(a.1, b.1) && order::bytes_lt(b.1, a.1) {
        order::lex_transitive(order::byte_key(), a.1, b.1, a.1);
    }
}

proof fn pair_transitive(a: PairView, b: PairView, c: PairView)
    requires
        pair_before(a, b),
        pair_before(b, c),
    ensures
        pair_before(a, c),
{
    if order::text_lt(a.0, b.0) && order::text_lt(b.0, c.0) {
        order::lex_transitive(order::char_key(), a.0, b.0, c.0);
    }
    if a.0 == b.0 && b.0 == c.0 {
        order::lex_irreflexive(order::char_key(), a.0);
        order::lex_transitive(order::byte_key(), a.1, b.1, c.1);
    }
}

proof fn sorted_unique(a: Seq<PairView>, b: Seq<PairView>)
    requires
        pairs_sorted(a),
        pairs_sorted(b),
        a.to_multiset() == b.to_multiset(),
    ensures
        a == b,
    decreases a.len(),
{
    broadcast use vstd::seq_lib::group_to_multiset_ensures;

    assert(a.len() == a.to_multiset().len());
    assert(b.len() == b.to_multiset().len());
    if a.len() > 0 {
        assert(a.contains(a[0]));
        assert(b.contains(b[0]));
        assert(a.to_multiset().count(a[0]) > 0);
        assert(b.to_multiset().count(b[0]) > 0);
        assert(b.contains(a[0]));
        assert(a.contains(b[0]));
        let j = choose|j: int| 0 <= j < b.len() && b[j] == a[0];
        let i = choose|i: int| 0 <= i < a.len() && a[i] == b[0];
        pair_total(a[0], b[0]);
        assert(a[0] == b[0]) by {
            if j > 0 {
                assert(!pair_before(b[j], b[0]));
            }
            if i > 0 {
                assert(!pair_before(a[i], a[0]));
            }
        }
        let ra = a.remove(0);
        let rb = b.remove(0);
        assert(ra.to_multiset() =~= a.to_multiset().remove(a[0]));
        assert(rb.to_multiset() =~= b.to_multiset().remove(b[0]));
        assert(ra =~= a.drop_first());
        assert(rb =~= b.drop_first());
        assert(pairs_sorted(ra));
        assert(pairs_sorted(rb));
        sorted_unique(ra, rb);
        assert(a =~= seq![a[0]] + ra);
        assert(b =~= seq![b[0]] + rb);
    } else {
        assert(a =~= b);
    }
}

/// The same results give the same output hash, in whatever order they came in.
pub proof fn event_order_is_irrelevant(
    a: Seq<PairView>,
    b: Seq<PairView>,
    sa: Seq<PairView>,
    sb: Seq<PairView>,
)
    requires
        pair_order(a, sa),
        pair_order(b, sb),
        a.to_multiset() == b.to_multiset(),
    ensures
        events_preimage(sa) == events_preimage(sb),
{
    sorted_unique(sa, sb);
}

/// The views of a list of pairs.
pub open spec fn pair_views(s: Seq<(ActionId, Sha256)>) -> Seq<PairView> {
    s.map_values(|p: (ActionId, Sha256)| (p.0@, p.1@))
}

/// Adds a pair to a sorted list.
fn insert_pair(list: &mut Vec<(ActionId, Sha256)>, p: (ActionId, Sha256))
    requires
        pairs_sorted(pair_views(old(list)@)),
    ensures
        pairs_sorted(pair_views(final(list)@)),
        pair_views(final(list)@).to_multiset() == pair_views(old(list)@).to_multiset().insert(
            (p.0@, p.1@),
        ),
{
    let ghost v = pair_views(list@);
    let ghost x = (p.0@, p.1@);
    let mut i: usize = 0;
    while i < list.len() && (order::text_less(&list[i].0.0, &p.0.0) || (text::text_eq(
        &list[i].0.0,
        &p.0.0,
    ) && order::bytes_less(&list[i].1.0, &p.1.0)))
        invariant
            i <= list.len(),
            v == pair_views(list@),
            list@ == old(list)@,
            x == (p.0@, p.1@),
            forall|k: int| 0 <= k < i ==> pair_before(#[trigger] v[k], x),
        decreases list.len() - i,
    {
        assert(v[i as int] == (list@[i as int].0@, list@[i as int].1@));
        i = i + 1;
    }
    let ghost w = v.insert(i as int, x);
    proof {
        if i < list.len() {
            assert(v[i as int] == (list@[i as int].0@, list@[i as int].1@));
        }
        assert forall|a: int, b: int| 0 <= a < b < w.len() implies !pair_before(
            #[trigger] w[b],
            #[trigger] w[a],
        ) by {
            let va = if a < i { v[a] } else { v[a - 1] };
            let vb = if b < i { v[b] } else { v[b - 1] };
            if b == i {
                assert(pair_before(v[a], x));
                pair_total(v[a], x);
            } else if a == i {
                pair_total(v[i as int], x);
                if b - 1 > i {
                    assert(!pair_before(v[b - 1], v[i as int]));
                }
                if pair_before(v[b - 1], x) {
                    pair_total(v[b - 1], v[i as int]);
                    if v[i as int] != x {
                        pair_transitive(v[b - 1], x, v[i as int]);
                    }
                }
            } else {
                assert(w[a] == va && w[b] == vb);
            }
        }
        vstd::seq_lib::to_multiset_insert(v, i as int, x);
    }
    list.insert(i, p);
    assert(pair_views(list@) =~= w);
}

/// The pairs of the actions that succeeded, in order.
fn sorted_pairs(events: &Vec<BuildEvent>) -> (r: Vec<(ActionId, Sha256)>)
    ensures
        pair_order(success_pairs(types::event_views(events@)), pair_views(r@)),
{
    let ghost ev = types::event_views(events@);
    let mut r: Vec<(ActionId, Sha256)> = Vec::new();
    assert(pair_views(r@) =~= success_pairs(ev.take(0)));
    let mut i: usize = 0;
    while i < events.len()
        invariant
            i <= events.len(),
            ev == types::event_views(events@),
            pair_order(success_pairs(ev.take(i as int)), pair_views(r@)),
        decreases events.len() - i,
    {
        proof {
            assert(ev.take(i + 1).drop_last() =~= ev.take(i as int));
            assert(ev.take(i + 1).last() == events@[i as int]@);
        }
        let ghost before = success_pairs(ev.take(i as int));
        match &events[i] {
            BuildEvent::Success { id, output, .. } => {
                insert_pair(&mut r, (id.clone(), *output));
                proof {
                    vstd::seq_lib::to_multiset_build(before, (id@, output@));
                }
            },
            BuildEvent::Failed { .. } => {},
        }
        i = i + 1;
    }
    assert(ev.take(ev.len() as int) =~= ev);
    r
}

/// The output hash and the number of actions that succeeded.
fn digest_events(events: &Vec<BuildEvent>) -> (r: (Sha256, usize))
    ensures
        exists|sorted: Seq<PairView>| #[trigger]
            pair_order(success_pairs(types::event_views(events@)), sorted) && r.0@
                == digest::sha256_of(events_preimage(sorted)),
        r.1 == success_pairs(types::event_views(events@)).len(),
{
    let pairs = sorted_pairs(events);
    let ghost pv = pair_views(pairs@);
    proof {
        broadcast use vstd::seq_lib::group_to_multiset_ensures;

        let given = success_pairs(types::event_views(events@));
        assert(given.len() == given.to_multiset().len());
        assert(pv.len() == pv.to_multiset().len());
    }
    let mut h = Hasher::new();
    h.update_text("repolith:events:");
    let ghost head = text::utf8("repolith:events:"@);
    assert(h@ =~= head);
    assert(head + pair_bytes(pv.take(0)) =~= head);
    let mut i: usize = 0;
    while i < pairs.len()
        invariant
            i <= pairs.len(),
            pv == pair_views(pairs@),
            h@ == head + pair_bytes(pv.take(i as int)),
        decreases pairs.len() - i,
    {
        let ghost before = h@;
        h.update_text(&pairs[i].0.0);
        h.update_text("=");
        h.update(&pairs[i].1.0);
        proof {
            let t = pv.take(i + 1);
            assert(t.drop_last() =~= pv.take(i as int));
            assert(t.last() == (pairs@[i as int].0@, pairs@[i as int].1@));
            assert(h@ =~= head + pair_bytes(t));
        }
        i = i + 1;
    }
    assert(pv.take(pv.len() as int) =~= pv);
    (h.finalize(), pairs.len())
}

/// The input hash while there is no checkout yet: a marker.
fn pre_clone_hash() -> (r: Sha256)
    ensures
        r@ == digest::sha256_of(pre_clone_preimage()),
{
    let mut h = Hasher::new();
    h.update_text("repolith:manifest:");
    h.update_text("pre-clone");
    assert(h@ =~= pre_clone_preimage());
    h.finalize()
}

impl RepolithSync {
    /// The child manifest relative to the checkout.
    pub fn manifest_path(&self) -> (r: String)
        ensures
            r@ == manifest_of(*self),
    {
        match &self.manifest_rel {
            Some(m) => m.clone(),
            None => "repolith.toml".to_owned(),
        }
    }

    /// The canonical child manifest, inside the checkout, no ancestor and not
    /// nested too deeply.
    ///
    /// The answers are what canonicalizing the checkout gave, and the canonical
    /// checkout joined with [`Self::manifest_path`].
    pub fn resolved_manifest(
        &self,
        base_canon: &Result<String, String>,
        canon: &Result<String, String>,
    ) -> (r: Result<String, BuildError>)
        ensures
            paths::path_result(r) == resolved(
                order::text_views(self.chain@),
                paths::containment(
                    self.node_path@,
                    paths::answer_view(*base_canon),
                    manifest_of(*self),
                    paths::answer_view(*canon),
                ),
            ),
    {
        let rel = self.manifest_path();
        let manifest = match paths::contain_within(&self.node_path, base_canon, &rel, canon) {
            Ok(m) => m,
            Err(e) => {
                return Err(e);
            },
        };
        let ghost cv = order::text_views(self.chain@);
        let mut i: usize = 0;
        while i < self.chain.len() && !paths::same_path(&self.chain[i], &manifest)
            invariant
                i <= self.chain.len(),
                cv == order::text_views(self.chain@),
                forall|k: int| 0 <= k < i ==> !paths::same(#[trigger] cv[k], manifest@),
            decreases self.chain.len() - i,
        {
            assert(cv[i as int] == self.chain@[i as int]@);
            i = i + 1;
        }
        proof {
            ancestor_facts(cv, manifest@);
        }
        if i < self.chain.len() {
            assert(cv[i as int] == self.chain@[i as int]@);
            assert(paths::listed(cv, manifest@));
            assert(ancestor(cv, manifest@) == i);
            let cycle = self.cycle(i, &manifest);
            let mut s = "federation cycle: ".to_owned();
            s.append(&text::join(&cycle, " -> "));
            return Err(BuildError::Io(s));
        }
        assert(!paths::listed(cv, manifest@));
        if self.chain.len() >= MAX_FEDERATION_DEPTH {
            let mut s = "federation depth ".to_owned();
            s.append(&text::dec_wide(self.chain.len() as u128 + 1));
            s.append(" exceeds the maximum of ");
            s.append(&text::dec(MAX_FEDERATION_DEPTH as u64));
            s.append(" (chain: ");
            s.append(&text::join(&self.chain, " -> "));
            s.append(")");
            return Err(BuildError::Io(s));
        }
        Ok(manifest)
    }

    /// The ancestors from a position on, and the manifest that closes the cycle.
    fn cycle(&self, from: usize, manifest: &str) -> (r: Vec<String>)
        requires
            from <= self.chain@.len(),
        ensures
            order::text_views(r@) == order::text_views(self.chain@).skip(from as int).push(
                manifest@,
            ),
    {
        let ghost cv = order::text_views(self.chain@);
        let mut r = command::no_args();
        let mut k: usize = from;
        assert(cv.subrange(from as int, from as int) =~= Seq::<Seq<char>>::empty());
        while k < self.chain.len()
            invariant
                from <= k <= self.chain.len(),
                cv == order::text_views(self.chain@),
                order::text_views(r@) == cv.subrange(from as int, k as int),
            decreases self.chain.len() - k,
        {
            command::push_arg(&mut r, &self.chain[k]);
            assert(order::text_views(r@) =~= cv.subrange(from as int, k + 1));
            k = k + 1;
        }
        assert(cv.subrange(from as int, cv.len() as int) =~= cv.skip(from as int));
        command::push_arg(&mut r, manifest);
        r
    }

    /// The ancestors of whatever the child stack nests: this action's and the
    /// child manifest itself.
    pub fn child_chain(&self, manifest: &str) -> (r: Vec<String>)
        ensures
            order::text_views(r@) == order::text_views(self.chain@).push(manifest@),
    {
        let r = self.cycle(0, manifest);
        proof {
            let cv = order::text_views(self.chain@);
            assert(cv.skip(0) =~= cv);
        }
        r
    }

    /// Arguments of the `git` call that names the commit in the checkout.
    pub fn head_args(&self) -> (r: Vec<String>)
        ensures
            order::text_views(r@) == git_clone::head_arguments(self.node_path@),
    {
        let mut a = command::no_args();
        command::push_arg(&mut a, "-C");
        command::push_arg(&mut a, &self.node_path);
        command::push_arg(&mut a, "rev-parse");
        command::push_arg(&mut a, "HEAD");
        assert(order::text_views(a@) =~= seq!["-C"@, self.node_path@, "rev-parse"@, "HEAD"@]);
        a
    }

    /// The input hash, given what [`Self::resolved_manifest`] returned, whether
    /// the checkout exists, what reading the manifest gave, and what git printed
    /// for the checkout's commit. A checkout that a sibling action has yet to
    /// make hashes to a marker.
    pub fn input_hash(
        &self,
        manifest: &Result<String, BuildError>,
        exists_on_disk: bool,
        content: &Result<Vec<u8>, String>,
        head: &CmdOutput,
    ) -> (r: Result<Sha256, BuildError>)
        ensures
            git_clone::hash_result(r) == sync_hash(
                paths::path_result(*manifest),
                exists_on_disk,
                *content,
                *head,
            ),
    {
        let mut h = Hasher::new();
        h.update_text("repolith:manifest:");
        match manifest {
            Ok(m) => match content {
                Ok(bytes) => {
                    h.update(bytes.as_slice());
                    docker::update_checkout(&mut h, head);
                    assert(h@ =~= sync_preimage(bytes@, *head));
                    Ok(h.finalize())
                },
                Err(e) => Err(child_failure(ChildStep::Read, m, e)),
            },
            Err(e) => {
                if exists_on_disk {
                    return Err(e.clone());
                }
                Ok(pre_clone_hash())
            },
        }
    }

    /// The directory of the child stack.
    pub fn stack_dir(&self, manifest: &str) -> (r: Result<String, BuildError>)
        ensures
            paths::path_result(r) == (match paths::parent_of(manifest@) {
                Some(p) => Ok::<Seq<char>, BuildErrorView>(p),
                None => Err::<Seq<char>, BuildErrorView>(
                    BuildErrorView::Io("manifest "@ + manifest@ + " has no parent"@),
                ),
            }),
    {
        match paths::parent(manifest) {
            Some(p) => Ok(p),
            None => {
                let mut s = "manifest ".to_owned();
                s.append(manifest);
                s.append(" has no parent");
                Err(BuildError::Io(s))
            },
        }
    }

    /// The result of the action, given the events of the child run.
    pub fn output(&self, stack_dir: &str, events: &Vec<BuildEvent>) -> (r: BuildOutput)
        ensures
            exists|sorted: Seq<PairView>| #[trigger]
                pair_order(success_pairs(types::event_views(events@)), sorted) && r.output_hash@
                    == digest::sha256_of(events_preimage(sorted)),
            r.output_hash@ == events_digest(types::event_views(events@)),
            r.stdout@ == stack_text(stack_dir@, types::event_views(events@)),
    {
        let (output_hash, n) = digest_events(events);
        proof {
            let given = success_pairs(types::event_views(events@));
            let s = choose|s: Seq<PairView>| #[trigger]
                pair_order(given, s) && output_hash@ == digest::sha256_of(events_preimage(s));
            let t = choose|t: Seq<PairView>| pair_order(given, t);
            event_order_is_irrelevant(given, given, s, t);
        }
        let mut stdout = "child stack ".to_owned();
        stdout.append(stack_dir);
        stdout.append(" synced — ");
        stdout.append(&text::dec(n as u64));
        stdout.append(" action(s)");
        BuildOutput { output_hash, stdout }
    }

    fn next_unresolved(&self, e: BuildError, answers: &Vec<Answer>, k: usize) -> (r: Step<Sha256>)
        ensures
            steps::hash_view(r) == unresolved_step(*self, e@, answers@, k as int),
    {
        if answers.len() <= k {
            return Step::Ask(Request::Exists(self.node_path.clone()));
        }
        match &answers[k] {
            Answer::Flag(found) => {
                if *found {
                    Step::Done(Err(e))
                } else {
                    Step::Done(Ok(pre_clone_hash()))
                }
            },
            _ => Step::Done(Err(BuildError::Cancelled)),
        }
    }

    fn next_manifest(&self, manifest: &String, answers: &Vec<Answer>) -> (r: Step<Sha256>)
        ensures
            steps::hash_view(r) == manifest_step(*self, manifest@, answers@),
    {
        if answers.len() <= 2 {
            return Step::Ask(Request::Read(manifest.clone()));
        }
        let content = match &answers[2] {
            Answer::Bytes(content) => content,
            _ => {
                return Step::Done(Err(BuildError::Cancelled));
            },
        };
        match content {
            Err(e) => {
                return Step::Done(Err(child_failure(ChildStep::Read, manifest, e)));
            },
            Ok(_) => {},
        }
        if answers.len() == 3 {
            return Step::Ask(steps::run("git", self.head_args()));
        }
        match &answers[3] {
            Answer::Output(Ok(head)) => Step::Done(
                self.input_hash(&Ok(manifest.clone()), true, content, head),
            ),
            Answer::Output(Err(e)) => Step::Done(Err(e.clone())),
            _ => Step::Done(Err(BuildError::Cancelled)),
        }
    }

    /// The next step towards the input hash, given the answers so far.
    pub fn hash_step(&self, answers: &Vec<Answer>) -> (r: Step<Sha256>)
        ensures
            steps::hash_view(r) == sync_hash_step(*self, answers@),
    {
        if answers.len() == 0 {
            return Step::Ask(Request::Canonicalize(self.node_path.clone()));
        }
        let base = match &answers[0] {
            Answer::Path(base) => base,
            _ => {
                return Step::Done(Err(BuildError::Cancelled));
            },
        };
        match base {
            Err(_) => match self.resolved_manifest(base, base) {
                Err(e) => self.next_unresolved(e, answers, 1),
                Ok(_) => Step::Done(Err(BuildError::Cancelled)),
            },
            Ok(dir) => {
                if answers.len() == 1 {
                    return Step::Ask(
                        Request::Canonicalize(paths::join_path(dir, &self.manifest_path())),
                    );
                }
                match &answers[1] {
                    Answer::Path(canon) => match self.resolved_manifest(base, canon) {
                        Err(e) => self.next_unresolved(e, answers, 2),
                        Ok(m) => self.next_manifest(&m, answers),
                    },
                    _ => Step::Done(Err(BuildError::Cancelled)),
                }
            },
        }
    }

    fn next_stack(&self, manifest: &String, answers: &Vec<Answer>) -> (r: Step<BuildOutput>)
        ensures
            steps::run_view(r) == stack_step(*self, manifest@, answers@),
    {
        let dir = match self.stack_dir(manifest) {
            Ok(dir) => dir,
            Err(e) => {
                return Step::Done(Err(e));
            },
        };
        if answers.len() <= 2 {
            return Step::Ask(
                Request::SyncStack {
                    manifest: manifest.clone(),
                    dir,
                    chain: self.child_chain(manifest),
                    mode: self.mode,
                },
            );
        }
        match &answers[2] {
            Answer::Events(Ok(events)) => Step::Done(Ok(self.output(&dir, events))),
            Answer::Events(Err(e)) => Step::Done(Err(e.clone())),
            _ => Step::Done(Err(BuildError::Cancelled)),
        }
    }

    /// The next step of the action, given the answers so far.
    pub fn run_step(&self, answers: &Vec<Answer>) -> (r: Step<BuildOutput>)
        ensures
            steps::run_view(r) == sync_run_step(*self, answers@),
    {
        if answers.len() == 0 {
            return Step::Ask(Request::Canonicalize(self.node_path.clone()));
        }
        let base = match &answers[0] {
            Answer::Path(base) => base,
            _ => {
                return Step::Done(Err(BuildError::Cancelled));
            },
        };
        match base {
            Err(_) => match self.resolved_manifest(base, base) {
                Err(e) => Step::Done(Err(e)),
                Ok(_) => Step::Done(Err(BuildError::Cancelled)),
            },
            Ok(dir) => {
                if answers.len() == 1 {
                    return Step::Ask(
                        Request::Canonicalize(paths::join_path(dir, &self.manifest_path())),
                    );
                }
                match &answers[1] {
                    Answer::Path(canon) => match self.resolved_manifest(base, canon) {
                        Err(e) => Step::Done(Err(e)),
                        Ok(m) => self.next_stack(&m, answers),
                    },
                    _ => Step::Done(Err(BuildError::Cancelled)),
                }
            },
        }
    }
}

} // verus!
