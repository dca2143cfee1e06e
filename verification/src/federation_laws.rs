//! What a `repolith-sync` action does with what it was given.

use crate::command::CmdOutput;
use crate::digest;
use crate::docker;
use crate::docker_laws;
use crate::federation;
use crate::federation::{ChildStep, PairView, RepolithSync};
use crate::install_laws;
use crate::order;
use crate::path_laws;
use crate::paths;
use crate::picking;
use crate::steps::{Answer, RequestView, StepView};
use crate::text;
use crate::types;
use crate::types::{BuildErrorView, BuildEvent, BuildEventView};
use vstd::prelude::*;

verus! {

/// The child manifest is the declared one, and `repolith.toml` only where none is
/// declared.
pub proof fn declared_manifest_counts(a: RepolithSync)
    ensures
        a.manifest_rel matches Some(m) ==> federation::manifest_of(a) == m@,
        a.manifest_rel is None ==> federation::manifest_of(a) == "repolith.toml"@,
{
}

/// For the same manifest, preimages are the same only if both checkouts are in the
/// same state: the commit that git printed is the same, or git named none in either.
/// A commit that prints as the marker for a checkout without one is the only
/// exception.
pub proof fn checkouts_are_told_apart(manifest: Seq<u8>, g: CmdOutput, h: CmdOutput)
    requires
        federation::sync_preimage(manifest, g) == federation::sync_preimage(manifest, h),
    ensures
        g.success && h.success ==> g.stdout@ == h.stdout@,
        g.success && !h.success ==> g.stdout@ == text::utf8("no-git"@),
        !g.success && h.success ==> h.stdout@ == text::utf8("no-git"@),
{
    let p = text::utf8("repolith:manifest:"@) + manifest;
    let n = p.len() as int;
    assert(federation::sync_preimage(manifest, g).skip(n) =~= docker::checkout_bytes(g));
    assert(federation::sync_preimage(manifest, h).skip(n) =~= docker::checkout_bytes(h));
    docker_laws::checkouts_are_told_apart(g, h);
    docker_laws::checkouts_are_told_apart(h, g);
}

/// For checkouts in the same state, preimages are the same only if the manifests
/// are.
pub proof fn manifests_are_told_apart(a: Seq<u8>, b: Seq<u8>, g: CmdOutput, h: CmdOutput)
    requires
        g.success == h.success,
        g.success ==> g.stdout@ == h.stdout@,
        federation::sync_preimage(a, g) == federation::sync_preimage(b, h),
    ensures
        a == b,
{
    docker_laws::checkouts_are_told_apart(g, h);
    let p = text::utf8("repolith:manifest:"@);
    let c = docker::checkout_bytes(g);
    let s = federation::sync_preimage(a, g);
    assert(a =~= s.subrange(p.len() as int, s.len() - c.len()));
    assert(b =~= s.subrange(p.len() as int, s.len() - c.len()));
}

/// Only the manifest and the state of the checkout count: what else git left behind
/// does not.
pub proof fn only_manifest_and_checkout_count(manifest: Seq<u8>, g: CmdOutput, h: CmdOutput)
    requires
        g.success == h.success,
        g.success ==> g.stdout@ == h.stdout@,
    ensures
        federation::sync_preimage(manifest, g) == federation::sync_preimage(manifest, h),
        federation::sync_preimage(manifest, g).len() == 18 + manifest.len()
            + docker::checkout_bytes(g).len(),
        install_laws::part_of_bytes(federation::sync_preimage(manifest, g), manifest),
        docker::checkout_bytes(g).is_suffix_of(federation::sync_preimage(manifest, g)),
{
    reveal_strlit("repolith:manifest:");
    vstd::utf8::is_ascii_chars_encode_utf8("repolith:manifest:"@);
    docker_laws::checkouts_are_told_apart(g, h);
    let c = docker::checkout_bytes(g);
    let s = federation::sync_preimage(manifest, g);
    install_laws::put_together(text::utf8("repolith:manifest:"@), manifest, c);
    assert(s.subrange(s.len() - c.len(), s.len() as int) =~= c);
}

/// A checkout that is there never looks like one that is not there yet.
pub proof fn missing_checkout_is_told_apart(manifest: Seq<u8>, g: CmdOutput)
    ensures
        federation::sync_preimage(manifest, g) != federation::pre_clone_preimage(),
{
    reveal_strlit(":checkout:");
    reveal_strlit("pre-clone");
    vstd::utf8::is_ascii_chars_encode_utf8(":checkout:"@);
    vstd::utf8::is_ascii_chars_encode_utf8("pre-clone"@);
    assert(federation::sync_preimage(manifest, g).len()
        > federation::pre_clone_preimage().len());
}

/// The input hash is over what the machine answered: the manifest, as it was
/// resolved below the checkout, and the commit of the checkout.
pub proof fn hash_is_over_the_answers(
    a: RepolithSync,
    base: String,
    manifest: String,
    bytes: Vec<u8>,
    head: CmdOutput,
    e: String,
)
    requires
        paths::within(manifest@, base@),
        !paths::listed(order::text_views(a.chain@), manifest@),
        a.chain@.len() < 8,
    ensures
        ({
            let b = Answer::Path(Ok(base));
            let m = Answer::Path(Ok(manifest));
            let r = Answer::Bytes(Ok(bytes));
            let h = Answer::Output(Ok(head));
            let step = |answers: Seq<Answer>| federation::sync_hash_step(a, answers);
            &&& step(seq![]) == StepView::<Seq<u8>>::Ask(RequestView::Canonicalize(a.node_path@))
            &&& step(seq![b]) == StepView::<Seq<u8>>::Ask(
                RequestView::Canonicalize(paths::joined_path(base@, federation::manifest_of(a))),
            )
            &&& step(seq![b, m]) == StepView::<Seq<u8>>::Ask(RequestView::Read(manifest@))
            &&& step(seq![b, m, r]) == StepView::<Seq<u8>>::Ask(
                RequestView::Run("git"@, seq!["-C"@, a.node_path@, "rev-parse"@, "HEAD"@]),
            )
            &&& step(seq![b, m, r, h]) == StepView::<Seq<u8>>::Done(
                Ok(digest::sha256_of(federation::sync_preimage(bytes@, head))),
            )
            &&& (step(seq![b, m, Answer::Bytes(Err(e))]) matches StepView::Done(x)
                && path_laws::says(x, manifest@) && path_laws::says(x, e@))
        }),
{
    assert(order::text_views(a.chain@).len() == a.chain@.len());
    step_texts_name_the_cause(ChildStep::Read, manifest@, e@);
}

/// Where the manifest cannot be resolved, there is a hash all the same as long as
/// there is no checkout. Once there is one, the reason why is the error.
pub proof fn missing_manifest_counts_only_in_a_checkout(
    a: RepolithSync,
    base: String,
    e: String,
)
    ensures
        ({
            let b = Answer::Path(Ok(base));
            let x = Answer::Path(Err(e));
            let there = Answer::Flag(true);
            let gone = Answer::Flag(false);
            let step = |answers: Seq<Answer>| federation::sync_hash_step(a, answers);
            let asks = StepView::<Seq<u8>>::Ask(RequestView::Exists(a.node_path@));
            let none = StepView::<Seq<u8>>::Done(
                Ok(digest::sha256_of(text::utf8("repolith:manifest:pre-clone"@))),
            );
            &&& step(seq![x]) == asks
            &&& step(seq![x, gone]) == none
            &&& (step(seq![x, there]) matches StepView::Done(r) && path_laws::says(r, a.node_path@)
                && path_laws::says(r, e@))
            &&& step(seq![b, x]) == asks
            &&& step(seq![b, x, gone]) == none
            &&& (step(seq![b, x, there]) matches StepView::Done(r) && path_laws::says(
                r,
                paths::joined_path(base@, federation::manifest_of(a)),
            ) && path_laws::says(r, e@))
        }),
{
    reveal_strlit("repolith:manifest:");
    reveal_strlit("pre-clone");
    reveal_strlit("repolith:manifest:pre-clone");
    text::utf8_concat("repolith:manifest:"@, "pre-clone"@);
    assert("repolith:manifest:"@ + "pre-clone"@ =~= "repolith:manifest:pre-clone"@);
    let n = a.node_path@;
    let m = federation::manifest_of(a);
    let x = Err::<Seq<char>, Seq<char>>(e@);
    path_laws::only_what_lies_inside_is_contained(n, x, m, x);
    path_laws::only_what_lies_inside_is_contained(n, Ok(base@), m, x);
}

/// A sync runs the stack of the resolved manifest in the manifest's directory, below
/// the chain of its ancestors and itself, in the mode of the action.
pub proof fn stack_runs_below_its_chain(
    a: RepolithSync,
    base: String,
    manifest: String,
    events: Vec<BuildEvent>,
)
    requires
        paths::within(manifest@, base@),
        !paths::listed(order::text_views(a.chain@), manifest@),
        a.chain@.len() < 8,
        paths::parent_of(manifest@) is Some,
    ensures
        ({
            let b = Answer::Path(Ok(base));
            let m = Answer::Path(Ok(manifest));
            let step = |answers: Seq<Answer>| federation::sync_run_step(a, answers);
            let dir = paths::parent_of(manifest@)->Some_0;
            &&& step(seq![]) == StepView::<(Seq<u8>, Seq<char>)>::Ask(
                RequestView::Canonicalize(a.node_path@),
            )
            &&& step(seq![b]) == StepView::<(Seq<u8>, Seq<char>)>::Ask(
                RequestView::Canonicalize(paths::joined_path(base@, federation::manifest_of(a))),
            )
            &&& match step(seq![b, m]) {
                StepView::Ask(RequestView::SyncStack { manifest: p, dir: d, chain, mode }) => {
                    &&& p == manifest@
                    &&& d == dir
                    &&& chain.last() == manifest@
                    &&& chain.drop_last() == order::text_views(a.chain@)
                    &&& mode == a.mode
                },
                _ => false,
            }
            &&& match step(seq![b, m, Answer::Events(Ok(events))]) {
                StepView::Done(Ok((hash, said))) => {
                    &&& hash == federation::events_digest(types::event_views(events@))
                    &&& text::occurs_in(said, dir)
                    &&& text::occurs_in(
                        said,
                        text::dec_text(
                            federation::success_pairs(types::event_views(events@)).len(),
                        ),
                    )
                },
                _ => false,
            }
        }),
{
    let chain = order::text_views(a.chain@);
    assert(chain.len() == a.chain@.len());
    assert(chain.push(manifest@).drop_last() =~= chain);
    let dir = paths::parent_of(manifest@)->Some_0;
    let n = text::dec_text(federation::success_pairs(types::event_views(events@)).len());
    let said = "child stack "@ + dir + " synced — "@ + n + " action(s)"@;
    path_laws::part_of("child stack "@, dir, " synced — "@ + n + " action(s)"@);
    assert("child stack "@ + dir + (" synced — "@ + n + " action(s)"@) =~= said);
    path_laws::part_of("child stack "@ + dir + " synced — "@, n, " action(s)"@);
}

/// What is said of a manifest that would close a cycle, or that is nested too deep,
/// names it or the depth.
pub proof fn refused_manifests_are_named(chain: Seq<Seq<char>>, manifest: Seq<char>)
    ensures
        ({
            let r = federation::guarded(chain, manifest);
            &&& r matches Ok(m) ==> m == manifest
            &&& paths::listed(chain, manifest) ==> path_laws::says(r, "cycle"@)
                && path_laws::says(r, manifest)
            &&& !paths::listed(chain, manifest) && chain.len() >= 8 ==> path_laws::says(
                r,
                "federation depth "@ + text::dec_text(chain.len() + 1),
            ) && path_laws::says(r, text::joined(chain, " -> "@))
        }),
{
    reveal_strlit("federation cycle: ");
    reveal_strlit("federation ");
    reveal_strlit("cycle");
    reveal_strlit(": ");
    let arrow = " -> "@;
    if paths::listed(chain, manifest) {
        let k = federation::ancestor(chain, manifest) as int;
        let before = chain.skip(k);
        let cycle = before.push(manifest);
        let told = text::joined(cycle, arrow);
        let t = "federation cycle: "@ + told;
        assert(t =~= "federation "@ + "cycle"@ + (": "@ + told));
        path_laws::part_of("federation "@, "cycle"@, ": "@ + told);
        assert(cycle.drop_last() =~= before);
        last_is_told(cycle, arrow);
        let head = choose|head: Seq<char>| told == #[trigger] (head + cycle.last());
        path_laws::part_of("federation cycle: "@ + head, manifest, Seq::empty());
        assert(t =~= "federation cycle: "@ + head + manifest + Seq::<char>::empty());
    } else if chain.len() >= 8 {
        let d = text::dec_text(chain.len() + 1);
        let rest = " exceeds the maximum of "@ + text::dec_text(8) + " (chain: "@ + text::joined(
            chain,
            arrow,
        ) + ")"@;
        let t = "federation depth "@ + d + " exceeds the maximum of "@ + text::dec_text(8)
            + " (chain: "@ + text::joined(chain, arrow) + ")"@;
        path_laws::part_of(Seq::empty(), "federation depth "@ + d, rest);
        assert(t =~= Seq::<char>::empty() + ("federation depth "@ + d) + rest);
        path_laws::part_of(
            "federation depth "@ + d + " exceeds the maximum of "@ + text::dec_text(8)
                + " (chain: "@,
            text::joined(chain, arrow),
            ")"@,
        );
    }
}

proof fn last_is_told(parts: Seq<Seq<char>>, sep: Seq<char>)
    requires
        parts.len() > 0,
    ensures
        exists|head: Seq<char>| text::joined(parts, sep) == #[trigger] (head + parts.last()),
{
    if parts.len() == 1 {
        assert(text::joined(parts, sep) =~= Seq::<char>::empty() + parts.last());
    } else {
        let first = parts.drop_last();
        assert(text::joined(parts, sep) =~= (text::joined(first, sep) + sep) + parts.last());
    }
}

/// What is said of a failed child run names the cause, and the manifest as soon as
/// one is involved. Different steps are told apart by how it begins.
pub proof fn step_texts_name_the_cause(step: ChildStep, manifest: Seq<char>, cause: Seq<char>)
    ensures
        text::occurs_in(federation::step_text(step, manifest, cause), cause),
        step != ChildStep::Setup ==> text::occurs_in(
            federation::step_text(step, manifest, cause),
            manifest,
        ),
        ({
            let begins = match step {
                ChildStep::Read => "read manifest "@,
                ChildStep::Parse => "child manifest "@,
                ChildStep::Setup => "child orchestrator"@,
                ChildStep::Plan => "child plan"@,
                ChildStep::Sync => "child sync"@,
            };
            begins.is_prefix_of(federation::step_text(step, manifest, cause))
        }),
{
    reveal_strlit("child orchestrator: ");
    reveal_strlit("child orchestrator");
    reveal_strlit("child plan (");
    reveal_strlit("child plan");
    reveal_strlit("child sync (");
    reveal_strlit("child sync");
    let t = federation::step_text(step, manifest, cause);
    let none = Seq::<char>::empty();
    match step {
        ChildStep::Setup => {
            path_laws::part_of("child orchestrator: "@, cause, none);
            assert(t + none =~= t);
        },
        _ => {
            let (begin, mid) = match step {
                ChildStep::Read => ("read manifest "@, ": "@),
                ChildStep::Parse => ("child manifest "@, ": "@),
                ChildStep::Plan => ("child plan ("@, "): "@),
                _ => ("child sync ("@, "): "@),
            };
            path_laws::part_of(begin, manifest, mid + cause);
            assert(begin + manifest + (mid + cause) =~= t);
            path_laws::part_of(begin + manifest + mid, cause, none);
            assert(t + none =~= t);
        },
    }
}

/// Every success counts with its id and output hash, each once and in order; no
/// failure does.
pub proof fn every_success_counts(events: Seq<BuildEventView>) -> (kept: Seq<int>)
    ensures
        picking::picks(kept, events.len(), |i: int| events[i] is Success),
        federation::success_pairs(events).len() == kept.len(),
        forall|k: int|
            #![trigger federation::success_pairs(events)[k]]
            0 <= k < kept.len() ==> {
                let (id, output) = federation::success_pairs(events)[k];
                events[kept[k]] matches BuildEventView::Success { id: i, output: o, .. } && i == id
                    && o == output
            },
    decreases events.len(),
{
    let keep = |i: int| events[i] is Success;
    if events.len() == 0 {
        Seq::empty()
    } else {
        let before = events.drop_last();
        let n = before.len();
        let kept = every_success_counts(before);
        picking::picks_agree(kept, n, |i: int| before[i] is Success, keep);
        picking::picks_grow(kept, n, keep);
        let more = if keep(n as int) {
            kept.push(n as int)
        } else {
            kept
        };
        let all = federation::success_pairs(events);
        assert forall|k: int| #![trigger all[k]] 0 <= k < more.len() implies {
            let (id, output) = all[k];
            events[more[k]] matches BuildEventView::Success { id: i, output: o, .. } && i == id
                && o == output
        } by {
            if k < kept.len() {
                assert(federation::success_pairs(before)[k] == all[k]);
                assert(before[kept[k]] == events[more[k]]);
            }
        }
        more
    }
}

/// The output hash is over the successes of the child run, put in the order of
/// their ids: for any listing of them by id it is the hash of that listing.
pub proof fn successes_are_hashed_by_id(events: Seq<BuildEventView>, sorted: Seq<PairView>)
    requires
        sorted.to_multiset() == federation::success_pairs(events).to_multiset(),
        forall|i: int, j: int|
            0 <= i < j < sorted.len() ==> order::text_lt(
                #[trigger] sorted[i].0,
                #[trigger] sorted[j].0,
            ),
    ensures
        federation::events_digest(events) == digest::sha256_of(
            federation::events_preimage(sorted),
        ),
{
    assert forall|i: int, j: int| 0 <= i < j < sorted.len() implies !federation::pair_before(
        #[trigger] sorted[j],
        #[trigger] sorted[i],
    ) by {
        assert(order::text_lt(sorted[i].0, sorted[j].0));
        federation::pair_total(sorted[i], sorted[j]);
    }
    let given = federation::success_pairs(events);
    assert(federation::pair_order(given, sorted));
    let chosen = choose|s: Seq<PairView>| federation::pair_order(given, s);
    federation::event_order_is_irrelevant(given, given, sorted, chosen);
}

/// Every pair enters the preimage, its hash behind its id, and one list of pairs
/// continues the other.
pub proof fn every_pair_enters_the_hash(s: Seq<PairView>, i: int)
    requires
        0 <= i < s.len(),
    ensures
        install_laws::part_of_bytes(
            federation::events_preimage(s),
            text::utf8(s[i].0) + seq![61u8] + s[i].1,
        ),
        federation::pair_bytes(s).len() == federation::pair_bytes(s.drop_last()).len()
            + text::utf8(s.last().0).len() + 1 + s.last().1.len(),
        federation::pair_bytes(Seq::empty()).len() == 0,
{
    equals_sign();
    pair_is_part(s, i);
    let p = text::utf8(s[i].0) + seq![61u8] + s[i].1;
    let none = Seq::<u8>::empty();
    install_laws::inner_part(
        text::utf8("repolith:events:"@),
        federation::pair_bytes(s),
        none,
        p,
    );
    assert(federation::events_preimage(s) + none =~= federation::events_preimage(s));
    assert(federation::pair_bytes(Seq::empty()) =~= none);
}

proof fn equals_sign()
    ensures
        text::utf8("="@) == seq![61u8],
{
    reveal_strlit("=");
    vstd::utf8::is_ascii_chars_encode_utf8("="@);
    assert(text::utf8("="@) =~= seq![61u8]);
}

proof fn pair_is_part(s: Seq<PairView>, i: int)
    requires
        0 <= i < s.len(),
    ensures
        install_laws::part_of_bytes(
            federation::pair_bytes(s),
            text::utf8(s[i].0) + seq![61u8] + s[i].1,
        ),
    decreases s.len(),
{
    equals_sign();
    let before = federation::pair_bytes(s.drop_last());
    let last = text::utf8(s.last().0) + seq![61u8] + s.last().1;
    let all = federation::pair_bytes(s);
    let none = Seq::<u8>::empty();
    assert(all =~= before + last + none);
    if i == s.len() - 1 {
        install_laws::put_together(before, last, none);
    } else {
        pair_is_part(s.drop_last(), i);
        let p = text::utf8(s[i].0) + seq![61u8] + s[i].1;
        install_laws::inner_part(none, before, last, p);
        assert(all =~= none + before + last);
    }
}

} // verus!
