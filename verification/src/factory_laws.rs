//! What a manifest declares is what its actions do.

use crate::cargo_install;
use crate::cargo_install::CargoInstall;
use crate::docker::DockerBuild;
use crate::factory;
use crate::factory::{
    BuiltAction,
    BuiltView,
    FactoryErrorView,
    FactoryView,
    SourceView,
    WorkView,
};
use crate::federation::RepolithSync;
use crate::manifest;
use crate::manifest::{ActionEntryView, NodeView};
use crate::path_laws;
use crate::paths;
use crate::text;
use vstd::prelude::*;

verus! {

/// The path that a node declares, below the directory of the manifest.
pub open spec fn place(ctx: FactoryView, declared: Seq<char>, home: Option<Seq<char>>) -> Seq<
    char,
> {
    paths::joined_path(ctx.base_dir, paths::tilde_expanded(declared, home))
}

/// An install does what its entry declares: the target, the package, the profile,
/// the features and the root are the declared ones. A default stands only where
/// nothing is declared: the node's id for the target, the directory `.repolith` for
/// the root. The source is the node's path, and its repository only where there is
/// none; without either there is no install.
pub proof fn declared_install_is_built(
    node: NodeView,
    crate_name: Option<Seq<char>>,
    package: Option<Seq<char>>,
    features: Seq<Seq<char>>,
    profile: Option<Seq<char>>,
    install_to: Option<Seq<char>>,
    ctx: FactoryView,
    home: Option<Seq<char>>,
)
    ensures
        ({
            let entry = ActionEntryView::CargoInstall {
                crate_name,
                package,
                features,
                profile,
                install_to,
            };
            match factory::work_of(node, entry, ctx, home) {
                Ok(WorkView::CargoInstall { source: s, crate_name: c, package: p, profile: q, features: f, install_to: d }) => {
                    &&& node.path is Some || node.git is Some
                    &&& node.path matches Some(x) ==> s == SourceView::Path(place(ctx, x, home))
                    &&& node.path is None ==> s == SourceView::Git(node.git->Some_0, None)
                    &&& crate_name matches Some(x) ==> c == Some(x)
                    &&& crate_name is None ==> c == Some(node.id)
                    &&& p == package
                    &&& q == profile
                    &&& f == features
                    &&& install_to matches Some(x) ==> d == paths::tilde_expanded(x, home)
                    &&& install_to is None && home is Some ==> d == paths::joined_path(
                        home->Some_0,
                        ".repolith"@,
                    )
                    &&& install_to is None && home is None ==> d == "./.repolith"@
                },
                Err(e) => {
                    &&& node.path is None && node.git is None
                    &&& e == FactoryErrorView::InstallWithoutSource(node.id)
                },
                _ => false,
            }
        }),
{
    reveal_strlit(".");
    reveal_strlit(".repolith");
    reveal_strlit("./.repolith");
    path_laws::joining_keeps_both("."@, ".repolith"@);
    assert("."@.push('/') + ".repolith"@ =~= "./.repolith"@);
}

/// Installs of one node with different declared targets build different binaries,
/// whatever else they declare.
pub proof fn declared_targets_are_told_apart(
    node: NodeView,
    one: ActionEntryView,
    other: ActionEntryView,
    ctx: FactoryView,
    home: Option<Seq<char>>,
    a: CargoInstall,
    b: CargoInstall,
)
    requires
        one is CargoInstall,
        other is CargoInstall,
        one->crate_name is Some,
        other->crate_name is Some,
        factory::work_of(node, one, ctx, home) == Ok::<WorkView, FactoryErrorView>(
            BuiltAction::CargoInstall(a)@.work,
        ),
        factory::work_of(node, other, ctx, home) == Ok::<WorkView, FactoryErrorView>(
            BuiltAction::CargoInstall(b)@.work,
        ),
    ensures
        cargo_install::resolved_name(a) == one->crate_name->Some_0,
        cargo_install::resolved_name(b) == other->crate_name->Some_0,
        cargo_install::resolved_name(a) == cargo_install::resolved_name(b) <==> one->crate_name
            == other->crate_name,
{
}

/// An install without a declared target builds the binary of the node's name.
pub proof fn undeclared_target_is_the_node(
    node: NodeView,
    entry: ActionEntryView,
    ctx: FactoryView,
    home: Option<Seq<char>>,
    a: CargoInstall,
)
    requires
        entry is CargoInstall,
        entry->crate_name is None,
        factory::work_of(node, entry, ctx, home) == Ok::<WorkView, FactoryErrorView>(
            BuiltAction::CargoInstall(a)@.work,
        ),
    ensures
        cargo_install::resolved_name(a) == node.id,
{
}

/// A clone mirrors the node's repository to its path, or to a directory of the
/// node's name where it has none; without a repository there is no clone.
pub proof fn declared_clone_is_built(node: NodeView, ctx: FactoryView, home: Option<Seq<char>>)
    ensures
        match factory::work_of(node, ActionEntryView::GitClone, ctx, home) {
            Ok(WorkView::GitClone { repo_url, path }) => {
                &&& node.git == Some(repo_url)
                &&& node.path matches Some(x) ==> path == place(ctx, x, home)
                &&& node.path is None ==> path == paths::joined_path(ctx.base_dir, node.id)
            },
            Err(e) => node.git is None && e == FactoryErrorView::CloneWithoutGit(node.id),
            _ => false,
        },
{
}

/// A build has the declared tag, Dockerfile and context, in the node's path; without
/// a path there is no build.
pub proof fn declared_image_is_built(
    node: NodeView,
    tag: Seq<char>,
    dockerfile: Option<Seq<char>>,
    context: Option<Seq<char>>,
    ctx: FactoryView,
    home: Option<Seq<char>>,
)
    ensures
        match factory::work_of(
            node,
            ActionEntryView::Docker { tag, dockerfile, context },
            ctx,
            home,
        ) {
            Ok(WorkView::Docker { tag: t, dockerfile: d, context: c, node_path }) => {
                &&& t == tag
                &&& d == dockerfile
                &&& c == context
                &&& node.path is Some
                &&& node_path == place(ctx, node.path->Some_0, home)
            },
            Err(e) => node.path is None && e == FactoryErrorView::DockerWithoutPath(node.id),
            _ => false,
        },
{
}

/// A sync has the declared manifest in the node's path, below the chain that the
/// stack itself is in, and in its mode; without a path there is no sync.
pub proof fn declared_stack_is_built(
    node: NodeView,
    manifest: Option<Seq<char>>,
    ctx: FactoryView,
    home: Option<Seq<char>>,
)
    ensures
        match factory::work_of(node, ActionEntryView::Repolith { manifest }, ctx, home) {
            Ok(WorkView::Repolith { node_path, manifest_rel, chain, mode }) => {
                &&& manifest_rel == manifest
                &&& chain == ctx.chain
                &&& mode == ctx.mode
                &&& node.path is Some
                &&& node_path == place(ctx, node.path->Some_0, home)
            },
            Err(e) => node.path is None && e == FactoryErrorView::RepolithWithoutPath(node.id),
            _ => false,
        },
{
}

/// An action keeps the id and the dependencies it was given, and does what its entry
/// declares.
pub proof fn id_and_dependencies_are_kept(
    node: NodeView,
    entry: ActionEntryView,
    id: Seq<char>,
    deps: Seq<Seq<char>>,
    ctx: FactoryView,
    home: Option<Seq<char>>,
)
    ensures
        match factory::built_of(node, entry, id, deps, ctx, home) {
            Ok(a) => a.id == id && a.deps == deps && factory::work_of(node, entry, ctx, home) == Ok::<
                WorkView,
                FactoryErrorView,
            >(a.work),
            Err(e) => factory::work_of(node, entry, ctx, home) == Err::<WorkView, FactoryErrorView>(
                e,
            ),
        },
{
}

/// An absolute path of a node is taken as it is; a relative one lies below the
/// directory of the manifest.
pub proof fn node_paths_lie_below_the_manifest(
    base_dir: Seq<char>,
    p: Seq<char>,
    home: Option<Seq<char>>,
)
    ensures
        text::first_is(p, '/') ==> factory::node_path_in(base_dir, p, home) == p,
        !text::first_is(p, '/') && !text::first_is(p, '~') && base_dir.len() > 0
            ==> paths::within(factory::node_path_in(base_dir, p, home), base_dir)
            && p.is_suffix_of(factory::node_path_in(base_dir, p, home)),
        base_dir.len() == 0 ==> factory::node_path_in(base_dir, p, home) == paths::tilde_expanded(
            p,
            home,
        ),
{
    path_laws::tilde_means_home(p, Seq::empty(), home);
    path_laws::joining_keeps_both(base_dir, p);
    path_laws::joining_keeps_both(base_dir, paths::tilde_expanded(p, home));
    if !text::first_is(p, '/') && !text::first_is(p, '~') && base_dir.len() > 0 {
        path_laws::joining_goes_down(base_dir, p);
        let q = factory::node_path_in(base_dir, p, home);
        assert(q.subrange(q.len() - p.len(), q.len() as int) =~= p);
    }
}

/// The number of actions that the first `n` nodes declare.
pub open spec fn declared(nodes: Seq<NodeView>, n: int) -> int
    decreases n,
{
    if n <= 0 {
        0
    } else {
        declared(nodes, n - 1) + nodes[n - 1].actions.len()
    }
}

/// The `i`-th action of a node as it was built: what the entry declares, under its
/// own id, and behind the action before it in the node, if there is one.
pub open spec fn built_as_declared(
    node: NodeView,
    i: int,
    a: BuiltView,
    ctx: FactoryView,
    home: Option<Seq<char>>,
) -> bool {
    &&& factory::work_of(node, node.actions[i], ctx, home) == Ok::<WorkView, FactoryErrorView>(
        a.work,
    )
    &&& a.id == manifest::action_id_text(node, i)
    &&& i == 0 ==> a.deps.len() == 0
    &&& i > 0 ==> a.deps == seq![manifest::action_id_text(node, i - 1)]
}

proof fn node_is_built(node: NodeView, k: int, ctx: FactoryView, home: Option<Seq<char>>)
    requires
        0 <= k <= node.actions.len(),
    ensures
        match factory::built_node(node, k, ctx, home) {
            Ok(s) => s.len() == k && forall|i: int|
                0 <= i < k ==> built_as_declared(node, i, #[trigger] s[i], ctx, home),
            Err(e) => exists|i: int|
                0 <= i < k && factory::work_of(node, #[trigger] node.actions[i], ctx, home) == Err::<
                    WorkView,
                    FactoryErrorView,
                >(e),
        },
    decreases k,
{
    if k > 0 {
        node_is_built(node, k - 1, ctx, home);
        match factory::built_node(node, k, ctx, home) {
            Ok(s) => {
                let t = factory::built_node(node, k - 1, ctx, home)->Ok_0;
                assert forall|i: int| 0 <= i < k implies built_as_declared(
                    node,
                    i,
                    #[trigger] s[i],
                    ctx,
                    home,
                ) by {
                    if i < k - 1 {
                        assert(s[i] == t[i]);
                    }
                }
            },
            Err(e) => {
                if factory::built_node(node, k - 1, ctx, home) is Ok {
                    assert(factory::work_of(node, node.actions[k - 1], ctx, home) == Err::<
                        WorkView,
                        FactoryErrorView,
                    >(e));
                }
            },
        }
    }
}

proof fn fewer_are_declared(nodes: Seq<NodeView>, m: int, n: int)
    requires
        0 <= m < n <= nodes.len(),
    ensures
        0 <= declared(nodes, m),
        declared(nodes, m) + nodes[m].actions.len() <= declared(nodes, n),
    decreases n,
{
    if m < n - 1 {
        fewer_are_declared(nodes, m, n - 1);
    } else if m > 0 {
        fewer_are_declared(nodes, m - 1, m);
    }
}

/// Every entry of every node becomes one action, in the order of the manifest, and
/// does what it declares. If that fails, then because some entry cannot be built,
/// with that entry's error.
pub proof fn every_entry_is_built(
    nodes: Seq<NodeView>,
    n: int,
    ctx: FactoryView,
    home: Option<Seq<char>>,
)
    requires
        0 <= n <= nodes.len(),
    ensures
        match factory::built_nodes(nodes, n, ctx, home) {
            Ok(s) => s.len() == declared(nodes, n) && forall|m: int, i: int|
                0 <= m < n && 0 <= i < nodes[m].actions.len() ==> built_as_declared(
                    nodes[m],
                    i,
                    #[trigger] s[declared(nodes, m) + i],
                    ctx,
                    home,
                ),
            Err(e) => exists|m: int, i: int|
                0 <= m < n && 0 <= i < nodes[m].actions.len() && factory::work_of(
                    nodes[m],
                    #[trigger] nodes[m].actions[i],
                    ctx,
                    home,
                ) == Err::<WorkView, FactoryErrorView>(e),
        },
    decreases n,
{
    if n > 0 {
        every_entry_is_built(nodes, n - 1, ctx, home);
        let node = nodes[n - 1];
        let k = node.actions.len() as int;
        node_is_built(node, k, ctx, home);
        match factory::built_nodes(nodes, n, ctx, home) {
            Ok(s) => {
                let t = factory::built_nodes(nodes, n - 1, ctx, home)->Ok_0;
                let u = factory::built_node(node, k, ctx, home)->Ok_0;
                assert forall|m: int, i: int|
                    0 <= m < n && 0 <= i < nodes[m].actions.len() implies built_as_declared(
                    nodes[m],
                    i,
                    #[trigger] s[declared(nodes, m) + i],
                    ctx,
                    home,
                ) by {
                    if m < n - 1 {
                        fewer_are_declared(nodes, m, n - 1);
                        assert(s[declared(nodes, m) + i] == t[declared(nodes, m) + i]);
                    } else {
                        assert(s[declared(nodes, m) + i] == u[i]);
                    }
                }
            },
            Err(e) => {
                if factory::built_nodes(nodes, n - 1, ctx, home) is Ok {
                    let i = choose|i: int|
                        0 <= i < k && factory::work_of(node, #[trigger] node.actions[i], ctx, home)
                            == Err::<WorkView, FactoryErrorView>(e);
                    assert(factory::work_of(nodes[n - 1], nodes[n - 1].actions[i], ctx, home)
                        == Err::<WorkView, FactoryErrorView>(e));
                }
            },
        }
    }
}

/// What is said of an entry that cannot be built names the node and what it lacks.
pub proof fn missing_sources_are_named(n: Seq<char>)
    ensures
        ({
            let named = |e: FactoryErrorView, lacks: Seq<char>|
                text::occurs_in(factory::factory_error_text(e), n) && text::occurs_in(
                    factory::factory_error_text(e),
                    lacks,
                );
            &&& named(FactoryErrorView::CloneWithoutGit(n), "requires `git`"@)
            &&& named(
                FactoryErrorView::InstallWithoutSource(n),
                "requires either `git` or `path`"@,
            )
            &&& named(FactoryErrorView::DockerWithoutPath(n), "docker action requires `path`"@)
            &&& named(FactoryErrorView::RepolithWithoutPath(n), "repolith action requires `path`"@)
        }),
{
    let head = "node `"@;
    reveal_strlit("`: git-clone action requires `git` URL on the node");
    reveal_strlit("`: git-clone action ");
    reveal_strlit("requires `git`");
    reveal_strlit(" URL on the node");
    assert("`: git-clone action requires `git` URL on the node"@ =~= "`: git-clone action "@
        + "requires `git`"@ + " URL on the node"@);
    names_both(head, n, "`: git-clone action "@, "requires `git`"@, " URL on the node"@);
    reveal_strlit("`: cargo-install action requires either `git` or `path` on the node");
    reveal_strlit("`: cargo-install action ");
    reveal_strlit("requires either `git` or `path`");
    reveal_strlit(" on the node");
    assert("`: cargo-install action requires either `git` or `path` on the node"@
        =~= "`: cargo-install action "@ + "requires either `git` or `path`"@ + " on the node"@);
    names_both(
        head,
        n,
        "`: cargo-install action "@,
        "requires either `git` or `path`"@,
        " on the node"@,
    );
    reveal_strlit("`: docker action requires `path` on the node (build context base)");
    reveal_strlit("`: ");
    reveal_strlit("docker action requires `path`");
    reveal_strlit(" on the node (build context base)");
    assert("`: docker action requires `path` on the node (build context base)"@ =~= "`: "@
        + "docker action requires `path`"@ + " on the node (build context base)"@);
    names_both(
        head,
        n,
        "`: "@,
        "docker action requires `path`"@,
        " on the node (build context base)"@,
    );
    reveal_strlit("`: repolith action requires `path` on the node (child stack root)");
    reveal_strlit("repolith action requires `path`");
    reveal_strlit(" on the node (child stack root)");
    assert("`: repolith action requires `path` on the node (child stack root)"@ =~= "`: "@
        + "repolith action requires `path`"@ + " on the node (child stack root)"@);
    names_both(
        head,
        n,
        "`: "@,
        "repolith action requires `path`"@,
        " on the node (child stack root)"@,
    );
}

/// A text with two parts in it names both.
#[verifier::spinoff_prover]
pub proof fn names_both(a: Seq<char>, x: Seq<char>, b: Seq<char>, y: Seq<char>, c: Seq<char>)
    ensures
        text::occurs_in(a + x + (b + y + c), x),
        text::occurs_in(a + x + (b + y + c), y),
{
    let s = a + x + (b + y + c);
    let i = a.len() as int;
    let j = (a + x + b).len() as int;
    assert(s.skip(i).take(x.len() as int) =~= x);
    assert(text::begins_with(s.skip(i), x));
    assert(s.skip(j).take(y.len() as int) =~= y);
    assert(text::begins_with(s.skip(j), y));
}

/// Only an installed binary is looked for; whatever else an action makes counts as
/// there.
pub proof fn only_binaries_are_looked_for(
    a: BuiltAction,
    host: crate::steps::Host,
    answers: Seq<crate::steps::Answer>,
)
    requires
        !(a is CargoInstall),
    ensures
        factory::present_step_of(a, host, answers) == crate::steps::StepView::<bool>::Done(
            Ok(true),
        ),
{
}

/// Each kind of action takes the steps of its own kind.
pub proof fn actions_take_their_own_steps(
    c: crate::git_clone::GitClone,
    i: CargoInstall,
    d: DockerBuild,
    r: RepolithSync,
    host: crate::steps::Host,
    answers: Seq<crate::steps::Answer>,
)
    ensures
        factory::hash_step_of(BuiltAction::GitClone(c), host, answers)
            == crate::git_clone::clone_hash_step(c, answers),
        factory::run_step_of(BuiltAction::GitClone(c), host, answers)
            == crate::git_clone::clone_run_step(c, answers),
        factory::hash_step_of(BuiltAction::CargoInstall(i), host, answers)
            == cargo_install::install_hash_step(i, host, answers),
        factory::run_step_of(BuiltAction::CargoInstall(i), host, answers)
            == cargo_install::install_run_step(i, host, answers),
        factory::present_step_of(BuiltAction::CargoInstall(i), host, answers)
            == cargo_install::install_present_step(i, host, answers),
        factory::hash_step_of(BuiltAction::Docker(d), host, answers)
            == crate::docker::docker_hash_step(d, answers),
        factory::run_step_of(BuiltAction::Docker(d), host, answers)
            == crate::docker::docker_run_step(d, answers),
        factory::hash_step_of(BuiltAction::Repolith(r), host, answers)
            == crate::federation::sync_hash_step(r, answers),
        factory::run_step_of(BuiltAction::Repolith(r), host, answers)
            == crate::federation::sync_run_step(r, answers),
{
}

} // verus!
