//! From a manifest to the actions that a plan consists of.
//!
//! Each node gives one action per entry, identified as
//! [`crate::manifest::Manifest::action_ids`] does. Within a node an action
//! depends on the one before it; across nodes there are no dependencies.
//! Relative node paths are resolved against the directory of the manifest.

use crate::cargo_install;
use crate::cargo_install::{CargoInstall, CargoSource};
use crate::checks;
use crate::docker;
use crate::docker::DockerBuild;
use crate::federation;
use crate::federation::RepolithSync;
use crate::git_clone;
use crate::git_clone::GitClone;
use crate::graph;
use crate::graph::{ActionSpec, ActionSpecView};
use crate::manifest;
use crate::manifest::{ActionEntry, ActionEntryView, Manifest, ManifestView, NodeEntry, NodeView};
use crate::manifest_laws;
use crate::order;
use crate::paths;
use crate::steps;
use crate::steps::{Answer, Host, Step, StepView};
use crate::types;
use crate::types::{ActionId, BuildOutput, ExecMode, Sha256};
use vstd::prelude::*;

verus! {

/// What the factory needs beyond the manifest.
#[derive(Debug)]
pub struct FactoryCtx {
    /// The directory of the manifest.
    pub base_dir: String,
    /// Canonical manifest paths from the root stack down to the manifest itself.
    pub chain: Vec<String>,
    /// How child stacks treat failures.
    pub mode: ExecMode,
}

/// What a [`FactoryCtx`] holds.
#[verifier::ext_equal]
pub struct FactoryView {
    /// The directory of the manifest.
    pub base_dir: Seq<char>,
    /// The chain of manifests.
    pub chain: Seq<Seq<char>>,
    /// How child stacks treat failures.
    pub mode: ExecMode,
}

impl View for FactoryCtx {
    type V = FactoryView;

    open spec fn view(&self) -> FactoryView {
        FactoryView {
            base_dir: self.base_dir@,
            chain: order::text_views(self.chain@),
            mode: self.mode,
        }
    }
}

/// Why a node cannot have an action.
#[derive(Debug, PartialEq, Eq)]
pub enum FactoryError {
    /// A `git-clone` on a node without a `git` URL.
    CloneWithoutGit(String),
    /// A `cargo-install` on a node with neither `git` nor `path`.
    InstallWithoutSource(String),
    /// A `docker` build on a node without a `path`.
    DockerWithoutPath(String),
    /// A `repolith` sync on a node without a `path`.
    RepolithWithoutPath(String),
}

/// What a [`FactoryError`] holds.
#[verifier::ext_equal]
pub enum FactoryErrorView {
    /// See [`FactoryError::CloneWithoutGit`].
    CloneWithoutGit(Seq<char>),
    /// See [`FactoryError::InstallWithoutSource`].
    InstallWithoutSource(Seq<char>),
    /// See [`FactoryError::DockerWithoutPath`].
    DockerWithoutPath(Seq<char>),
    /// See [`FactoryError::RepolithWithoutPath`].
    RepolithWithoutPath(Seq<char>),
}

impl View for FactoryError {
    type V = FactoryErrorView;

    open spec fn view(&self) -> FactoryErrorView {
        match self {
            FactoryError::CloneWithoutGit(n) => FactoryErrorView::CloneWithoutGit(n@),
            FactoryError::InstallWithoutSource(n) => FactoryErrorView::InstallWithoutSource(n@),
            FactoryError::DockerWithoutPath(n) => FactoryErrorView::DockerWithoutPath(n@),
            FactoryError::RepolithWithoutPath(n) => FactoryErrorView::RepolithWithoutPath(n@),
        }
    }
}

/// The one-line rendering of a factory error.
pub open spec fn factory_error_text(e: FactoryErrorView) -> Seq<char> {
    match e {
        FactoryErrorView::CloneWithoutGit(n) => "node `"@ + n
            + "`: git-clone action requires `git` URL on the node"@,
        FactoryErrorView::InstallWithoutSource(n) => "node `"@ + n
            + "`: cargo-install action requires either `git` or `path` on the node"@,
        FactoryErrorView::DockerWithoutPath(n) => "node `"@ + n
            + "`: docker action requires `path` on the node (build context base)"@,
        FactoryErrorView::RepolithWithoutPath(n) => "node `"@ + n
            + "`: repolith action requires `path` on the node (child stack root)"@,
    }
}

impl FactoryError {
    /// Renders the error.
    pub fn to_string(&self) -> (r: String)
        ensures
            r@ == factory_error_text(self@),
    {
        let mut s = "node `".to_owned();
        match self {
            FactoryError::CloneWithoutGit(n) => {
                s.append(n);
                s.append("`: git-clone action requires `git` URL on the node");
            },
            FactoryError::InstallWithoutSource(n) => {
                s.append(n);
                s.append("`: cargo-install action requires either `git` or `path` on the node");
            },
            FactoryError::DockerWithoutPath(n) => {
                s.append(n);
                s.append("`: docker action requires `path` on the node (build context base)");
            },
            FactoryError::RepolithWithoutPath(n) => {
                s.append(n);
                s.append("`: repolith action requires `path` on the node (child stack root)");
            },
        }
        s
    }
}

/// A concrete action.
#[derive(Debug)]
pub enum BuiltAction {
    /// Mirrors a repository.
    GitClone(GitClone),
    /// Installs a binary crate.
    CargoInstall(CargoInstall),
    /// Builds an image.
    Docker(DockerBuild),
    /// Syncs a child stack.
    Repolith(RepolithSync),
}

/// Where a crate is pulled from.
#[verifier::ext_equal]
pub enum SourceView {
    /// A remote repository and its branch.
    Git(Seq<char>, Option<Seq<char>>),
    /// A local source tree.
    Path(Seq<char>),
}

/// What an action does, beyond its id and its dependencies.
#[verifier::ext_equal]
pub enum WorkView {
    /// Mirrors a repository.
    GitClone {
        /// Remote URL.
        repo_url: Seq<char>,
        /// Destination.
        path: Seq<char>,
    },
    /// Installs a binary crate.
    CargoInstall {
        /// Where the crate comes from.
        source: SourceView,
        /// Binary target.
        crate_name: Option<Seq<char>>,
        /// Package.
        package: Option<Seq<char>>,
        /// Profile.
        profile: Option<Seq<char>>,
        /// Features.
        features: Seq<Seq<char>>,
        /// Install root.
        install_to: Seq<char>,
    },
    /// Builds an image.
    Docker {
        /// Image tag.
        tag: Seq<char>,
        /// Dockerfile.
        dockerfile: Option<Seq<char>>,
        /// Context.
        context: Option<Seq<char>>,
        /// Checkout.
        node_path: Seq<char>,
    },
    /// Syncs a child stack.
    Repolith {
        /// Checkout.
        node_path: Seq<char>,
        /// Child manifest.
        manifest_rel: Option<Seq<char>>,
        /// Ancestors.
        chain: Seq<Seq<char>>,
        /// How the child run treats failures.
        mode: ExecMode,
    },
}

/// What a [`BuiltAction`] holds.
#[verifier::ext_equal]
pub struct BuiltView {
    /// The id of the action.
    pub id: Seq<char>,
    /// The ids it depends on.
    pub deps: Seq<Seq<char>>,
    /// What it does.
    pub work: WorkView,
}

impl View for BuiltAction {
    type V = BuiltView;

    open spec fn view(&self) -> BuiltView {
        match *self {
            BuiltAction::GitClone(a) => BuiltView {
                id: a.id@,
                deps: types::id_views(a.deps@),
                work: WorkView::GitClone { repo_url: a.repo_url@, path: a.path@ },
            },
            BuiltAction::CargoInstall(a) => BuiltView {
                id: a.id@,
                deps: types::id_views(a.deps@),
                work: WorkView::CargoInstall {
                    source: match a.source {
                        CargoSource::Git { url, branch } => SourceView::Git(
                            url@,
                            manifest::opt_text(branch),
                        ),
                        CargoSource::Path { path } => SourceView::Path(path@),
                    },
                    crate_name: manifest::opt_text(a.crate_name),
                    package: manifest::opt_text(a.package),
                    profile: manifest::opt_text(a.profile),
                    features: order::text_views(a.features@),
                    install_to: a.install_to@,
                },
            },
            BuiltAction::Docker(a) => BuiltView {
                id: a.id@,
                deps: types::id_views(a.deps@),
                work: WorkView::Docker {
                    tag: a.tag@,
                    dockerfile: manifest::opt_text(a.dockerfile),
                    context: manifest::opt_text(a.context),
                    node_path: a.node_path@,
                },
            },
            BuiltAction::Repolith(a) => BuiltView {
                id: a.id@,
                deps: types::id_views(a.deps@),
                work: WorkView::Repolith {
                    node_path: a.node_path@,
                    manifest_rel: manifest::opt_text(a.manifest_rel),
                    chain: order::text_views(a.chain@),
                    mode: a.mode,
                },
            },
        }
    }
}

/// The views of a list of actions.
pub open spec fn built_views(s: Seq<BuiltAction>) -> Seq<BuiltView> {
    s.map_values(|a: BuiltAction| a@)
}

/// The default install root: `.repolith` below the home directory, or below the
/// working directory where there is no home.
pub open spec fn default_root(home: Option<Seq<char>>) -> Seq<char> {
    paths::joined_path(
        match home {
            Some(h) => h,
            None => "."@,
        },
        ".repolith"@,
    )
}

/// The default install root for a given home directory.
pub fn default_install_to(home: &Option<String>) -> (r: String)
    ensures
        r@ == default_root(manifest::opt_text(*home)),
{
    match home {
        Some(h) => paths::join_path(h, ".repolith"),
        None => paths::join_path(".", ".repolith"),
    }
}

/// A node's path against the directory of the manifest. The home directory is
/// expanded first, and an absolute path replaces the directory.
pub open spec fn node_path_in(
    base_dir: Seq<char>,
    p: Seq<char>,
    home: Option<Seq<char>>,
) -> Seq<char> {
    paths::joined_path(base_dir, paths::tilde_expanded(p, home))
}

/// Resolves a node's path against the directory of the manifest.
pub fn resolve_node_path(base_dir: &str, p: &str, home: &Option<String>) -> (r: String)
    ensures
        r@ == node_path_in(base_dir@, p@, manifest::opt_text(*home)),
{
    paths::join_path(base_dir, &paths::expand_tilde_in(p, home))
}

/// What an entry of a node does, or why it cannot.
pub open spec fn work_of(
    node: NodeView,
    entry: ActionEntryView,
    ctx: FactoryView,
    home: Option<Seq<char>>,
) -> Result<WorkView, FactoryErrorView> {
    match entry {
        ActionEntryView::GitClone => match node.git {
            None => Err(FactoryErrorView::CloneWithoutGit(node.id)),
            Some(url) => Ok(
                WorkView::GitClone {
                    repo_url: url,
                    path: match node.path {
                        Some(p) => node_path_in(ctx.base_dir, p, home),
                        None => paths::joined_path(ctx.base_dir, node.id),
                    },
                },
            ),
        },
        ActionEntryView::CargoInstall { crate_name, package, features, profile, install_to } => {
            if node.path is None && node.git is None {
                Err(FactoryErrorView::InstallWithoutSource(node.id))
            } else {
                Ok(
                    WorkView::CargoInstall {
                        source: match node.path {
                            Some(p) => SourceView::Path(node_path_in(ctx.base_dir, p, home)),
                            None => SourceView::Git(node.git->Some_0, None),
                        },
                        crate_name: match crate_name {
                            Some(c) => Some(c),
                            None => Some(node.id),
                        },
                        package,
                        profile,
                        features,
                        install_to: match install_to {
                            Some(d) => paths::tilde_expanded(d, home),
                            None => default_root(home),
                        },
                    },
                )
            }
        },
        ActionEntryView::Docker { tag, dockerfile, context } => match node.path {
            None => Err(FactoryErrorView::DockerWithoutPath(node.id)),
            Some(p) => Ok(
                WorkView::Docker {
                    tag,
                    dockerfile,
                    context,
                    node_path: node_path_in(ctx.base_dir, p, home),
                },
            ),
        },
        ActionEntryView::Repolith { manifest } => match node.path {
            None => Err(FactoryErrorView::RepolithWithoutPath(node.id)),
            Some(p) => Ok(
                WorkView::Repolith {
                    node_path: node_path_in(ctx.base_dir, p, home),
                    manifest_rel: manifest,
                    chain: ctx.chain,
                    mode: ctx.mode,
                },
            ),
        },
    }
}

/// The action for an entry of a node, or why there is none.
pub open spec fn built_of(
    node: NodeView,
    entry: ActionEntryView,
    id: Seq<char>,
    deps: Seq<Seq<char>>,
    ctx: FactoryView,
    home: Option<Seq<char>>,
) -> Result<BuiltView, FactoryErrorView> {
    match work_of(node, entry, ctx, home) {
        Err(e) => Err(e),
        Ok(work) => Ok(BuiltView { id, deps, work }),
    }
}

/// What one attempt to build an action holds.
pub open spec fn built_result(r: Result<BuiltAction, FactoryError>) -> Result<
    BuiltView,
    FactoryErrorView,
> {
    match r {
        Ok(a) => Ok(a@),
        Err(e) => Err(e@),
    }
}

/// Copies an optional text.
fn copy_opt(s: &Option<String>) -> (r: Option<String>)
    ensures
        manifest::opt_text(r) == manifest::opt_text(*s),
{
    match s {
        Some(s) => Some(s.clone()),
        None => None,
    }
}

/// One concrete action for one entry of a node.
///
/// `home` is the user's home directory, if it is known.
pub fn action_for_entry(
    node: &NodeEntry,
    entry: &ActionEntry,
    id: ActionId,
    deps: Vec<ActionId>,
    fctx: &FactoryCtx,
    home: &Option<String>,
) -> (r: Result<BuiltAction, FactoryError>)
    ensures
        built_result(r) == built_of(
            node@,
            entry@,
            id@,
            types::id_views(deps@),
            fctx@,
            manifest::opt_text(*home),
        ),
{
    match entry {
        ActionEntry::GitClone => {
            let repo_url = match &node.git {
                Some(url) => url.clone(),
                None => {
                    return Err(FactoryError::CloneWithoutGit(node.id.clone()));
                },
            };
            let path = match &node.path {
                Some(p) => resolve_node_path(&fctx.base_dir, p, home),
                None => paths::join_path(&fctx.base_dir, &node.id),
            };
            Ok(BuiltAction::GitClone(GitClone { id, repo_url, path, deps }))
        },
        ActionEntry::CargoInstall { crate_name, package, features, profile, install_to } => {
            let source = match &node.path {
                Some(p) => CargoSource::Path { path: resolve_node_path(&fctx.base_dir, p, home) },
                None => match &node.git {
                    Some(url) => CargoSource::Git { url: url.clone(), branch: None },
                    None => {
                        return Err(FactoryError::InstallWithoutSource(node.id.clone()));
                    },
                },
            };
            let crate_name = match crate_name {
                Some(c) => Some(c.clone()),
                None => Some(node.id.clone()),
            };
            let install_to = match install_to {
                Some(d) => paths::expand_tilde_in(d, home),
                None => default_install_to(home),
            };
            Ok(
                BuiltAction::CargoInstall(
                    CargoInstall {
                        id,
                        source,
                        crate_name,
                        package: copy_opt(package),
                        profile: copy_opt(profile),
                        features: order::copy_texts(features),
                        install_to,
                        deps,
                    },
                ),
            )
        },
        ActionEntry::Docker { tag, dockerfile, context } => {
            let node_path = match &node.path {
                Some(p) => resolve_node_path(&fctx.base_dir, p, home),
                None => {
                    return Err(FactoryError::DockerWithoutPath(node.id.clone()));
                },
            };
            Ok(
                BuiltAction::Docker(
                    DockerBuild {
                        id,
                        tag: tag.clone(),
                        dockerfile: copy_opt(dockerfile),
                        context: copy_opt(context),
                        node_path,
                        deps,
                    },
                ),
            )
        },
        ActionEntry::Repolith { manifest } => {
            let node_path = match &node.path {
                Some(p) => resolve_node_path(&fctx.base_dir, p, home),
                None => {
                    return Err(FactoryError::RepolithWithoutPath(node.id.clone()));
                },
            };
            Ok(
                BuiltAction::Repolith(
                    RepolithSync {
                        id,
                        node_path,
                        manifest_rel: copy_opt(manifest),
                        chain: order::copy_texts(&fctx.chain),
                        mode: fctx.mode,
                        deps,
                    },
                ),
            )
        },
    }
}

/// The ids that the `i`-th action of a node depends on: the action before it.
pub open spec fn deps_at(node: NodeView, i: int) -> Seq<Seq<char>> {
    if i > 0 {
        seq![manifest::action_id_text(node, i - 1)]
    } else {
        Seq::empty()
    }
}

/// The first `k` actions of a node, or the first error among them.
pub open spec fn built_node(
    node: NodeView,
    k: int,
    ctx: FactoryView,
    home: Option<Seq<char>>,
) -> Result<Seq<BuiltView>, FactoryErrorView>
    decreases k,
{
    if k <= 0 {
        Ok(Seq::empty())
    } else {
        match built_node(node, k - 1, ctx, home) {
            Err(e) => Err(e),
            Ok(s) => match built_of(
                node,
                node.actions[k - 1],
                manifest::action_id_text(node, k - 1),
                deps_at(node, k - 1),
                ctx,
                home,
            ) {
                Err(e) => Err(e),
                Ok(a) => Ok(s.push(a)),
            },
        }
    }
}

/// The actions of the first `n` nodes, or the first error among them.
pub open spec fn built_nodes(
    nodes: Seq<NodeView>,
    n: int,
    ctx: FactoryView,
    home: Option<Seq<char>>,
) -> Result<Seq<BuiltView>, FactoryErrorView>
    decreases n,
{
    if n <= 0 {
        Ok(Seq::empty())
    } else {
        match built_nodes(nodes, n - 1, ctx, home) {
            Err(e) => Err(e),
            Ok(s) => match built_node(nodes[n - 1], nodes[n - 1].actions.len() as int, ctx, home) {
                Err(e) => Err(e),
                Ok(t) => Ok(s + t),
            },
        }
    }
}

/// All actions of a manifest, or the first error.
pub open spec fn built_manifest(
    m: ManifestView,
    ctx: FactoryView,
    home: Option<Seq<char>>,
) -> Result<Seq<BuiltView>, FactoryErrorView> {
    built_nodes(m.nodes, m.nodes.len() as int, ctx, home)
}

/// What an attempt to build all actions holds.
pub open spec fn list_result(r: Result<Vec<BuiltAction>, FactoryError>) -> Result<
    Seq<BuiltView>,
    FactoryErrorView,
> {
    match r {
        Ok(s) => Ok(built_views(s@)),
        Err(e) => Err(e@),
    }
}

proof fn node_error_stays(
    node: NodeView,
    k: int,
    n: int,
    ctx: FactoryView,
    home: Option<Seq<char>>,
)
    requires
        k <= n,
        built_node(node, k, ctx, home) is Err,
    ensures
        built_node(node, n, ctx, home) == built_node(node, k, ctx, home),
    decreases n - k,
{
    if k < n {
        node_error_stays(node, k, n - 1, ctx, home);
    }
}

proof fn nodes_error_stays(
    nodes: Seq<NodeView>,
    k: int,
    n: int,
    ctx: FactoryView,
    home: Option<Seq<char>>,
)
    requires
        k <= n,
        built_nodes(nodes, k, ctx, home) is Err,
    ensures
        built_nodes(nodes, n, ctx, home) == built_nodes(nodes, k, ctx, home),
    decreases n - k,
{
    if k < n {
        nodes_error_stays(nodes, k, n - 1, ctx, home);
    }
}

/// The actions of one node.
fn build_node(node: &NodeEntry, fctx: &FactoryCtx, home: &Option<String>) -> (r: Result<
    Vec<BuiltAction>,
    FactoryError,
>)
    ensures
        list_result(r) == built_node(
            node@,
            node@.actions.len() as int,
            fctx@,
            manifest::opt_text(*home),
        ),
{
    let ghost h = manifest::opt_text(*home);
    let mut out: Vec<BuiltAction> = Vec::new();
    assert(built_views(out@) =~= Seq::<BuiltView>::empty());
    let mut i: usize = 0;
    while i < node.actions.len()
        invariant
            i <= node.actions.len(),
            h == manifest::opt_text(*home),
            built_node(node@, i as int, fctx@, h) == Ok::<Seq<BuiltView>, FactoryErrorView>(
                built_views(out@),
            ),
        decreases node.actions.len() - i,
    {
        let ghost before = built_views(out@);
        let mut deps: Vec<ActionId> = Vec::new();
        if i > 0 {
            deps.push(manifest::action_id(node, i - 1));
        }
        assert(types::id_views(deps@) =~= deps_at(node@, i as int));
        assert(node@.actions[i as int] == node.actions@[i as int]@);
        let id = manifest::action_id(node, i);
        match action_for_entry(node, &node.actions[i], id, deps, fctx, home) {
            Ok(a) => {
                out.push(a);
                assert(built_views(out@) =~= before.push(a@));
            },
            Err(e) => {
                proof {
                    node_error_stays(node@, i + 1, node@.actions.len() as int, fctx@, h);
                }
                return Err(e);
            },
        }
        i = i + 1;
    }
    Ok(out)
}

/// The actions of a manifest in declaration order, for a given home directory.
pub fn build_actions_in(
    manifest: &Manifest,
    fctx: &FactoryCtx,
    home: &Option<String>,
) -> (r: Result<Vec<BuiltAction>, FactoryError>)
    ensures
        list_result(r) == built_manifest(manifest@, fctx@, manifest::opt_text(*home)),
{
    let ghost h = manifest::opt_text(*home);
    let ghost nv = manifest@.nodes;
    let mut out: Vec<BuiltAction> = Vec::new();
    assert(built_views(out@) =~= Seq::<BuiltView>::empty());
    let mut n: usize = 0;
    while n < manifest.nodes.len()
        invariant
            n <= manifest.nodes.len(),
            h == manifest::opt_text(*home),
            nv == manifest@.nodes,
            built_nodes(nv, n as int, fctx@, h) == Ok::<Seq<BuiltView>, FactoryErrorView>(
                built_views(out@),
            ),
        decreases manifest.nodes.len() - n,
    {
        assert(nv[n as int] == manifest.nodes@[n as int]@);
        let ghost before = built_views(out@);
        match build_node(&manifest.nodes[n], fctx, home) {
            Ok(mut list) => {
                let ghost lv = built_views(list@);
                out.append(&mut list);
                assert(built_views(out@) =~= before + lv);
            },
            Err(e) => {
                proof {
                    nodes_error_stays(nv, n + 1, nv.len() as int, fctx@, h);
                }
                return Err(e);
            },
        }
        n = n + 1;
    }
    Ok(out)
}

/// The actions of a manifest in declaration order.
///
/// The home directory that paths are expanded with is the user's, and depends on
/// the environment.
pub fn build_actions_from_manifest(manifest: &Manifest, fctx: &FactoryCtx) -> (r: Result<
    Vec<BuiltAction>,
    FactoryError,
>)
    ensures
        exists|home: Option<Seq<char>>|
            list_result(r) == #[trigger] built_manifest(manifest@, fctx@, home),
{
    let home = paths::home_dir();
    let r = build_actions_in(manifest, fctx, &home);
    assert(list_result(r) == built_manifest(manifest@, fctx@, manifest::opt_text(home)));
    r
}

impl BuiltAction {
    /// The action as the planner sees it.
    pub fn spec(&self) -> (r: ActionSpec)
        ensures
            r@ == planned(self@),
    {
        match self {
            BuiltAction::GitClone(a) => ActionSpec { id: a.id.clone(), deps: types::copy_ids(&a.deps) },
            BuiltAction::CargoInstall(a) => ActionSpec {
                id: a.id.clone(),
                deps: types::copy_ids(&a.deps),
            },
            BuiltAction::Docker(a) => ActionSpec { id: a.id.clone(), deps: types::copy_ids(&a.deps) },
            BuiltAction::Repolith(a) => ActionSpec { id: a.id.clone(), deps: types::copy_ids(&a.deps) },
        }
    }

    /// Whether the action only coordinates others and must not hold a permit:
    /// its children draw from the same pool.
    pub fn is_coordinator(&self) -> (r: bool)
        ensures
            r == (self@.work is Repolith),
    {
        matches!(self, BuiltAction::Repolith(_))
    }

    /// The next step towards the input hash, given the answers so far.
    pub fn hash_step(&self, host: &Host, answers: &Vec<Answer>) -> (r: Step<Sha256>)
        ensures
            steps::hash_view(r) == hash_step_of(*self, *host, answers@),
    {
        match self {
            BuiltAction::GitClone(a) => a.hash_step(answers),
            BuiltAction::CargoInstall(a) => a.hash_step(host, answers),
            BuiltAction::Docker(a) => a.hash_step(answers),
            BuiltAction::Repolith(a) => a.hash_step(answers),
        }
    }

    /// The next step of the action, given the answers so far.
    pub fn run_step(&self, host: &Host, answers: &Vec<Answer>) -> (r: Step<BuildOutput>)
        ensures
            steps::run_view(r) == run_step_of(*self, *host, answers@),
    {
        match self {
            BuiltAction::GitClone(a) => a.run_step(answers),
            BuiltAction::CargoInstall(a) => a.run_step(host, answers),
            BuiltAction::Docker(a) => a.run_step(answers),
            BuiltAction::Repolith(a) => a.run_step(answers),
        }
    }

    /// The next step towards whether what the action produces is on this machine,
    /// given the answers so far. Only an installed binary is looked for.
    pub fn present_step(&self, host: &Host, answers: &Vec<Answer>) -> (r: Step<bool>)
        ensures
            steps::flag_view(r) == present_step_of(*self, *host, answers@),
    {
        match self {
            BuiltAction::CargoInstall(a) => a.present_step(host, answers),
            _ => Step::Done(Ok(true)),
        }
    }
}

/// The next step of an action towards its input hash.
pub open spec fn hash_step_of(a: BuiltAction, host: Host, answers: Seq<Answer>) -> StepView<
    Seq<u8>,
> {
    match a {
        BuiltAction::GitClone(a) => git_clone::clone_hash_step(a, answers),
        BuiltAction::CargoInstall(a) => cargo_install::install_hash_step(a, host, answers),
        BuiltAction::Docker(a) => docker::docker_hash_step(a, answers),
        BuiltAction::Repolith(a) => federation::sync_hash_step(a, answers),
    }
}

/// The next step of an action.
pub open spec fn run_step_of(a: BuiltAction, host: Host, answers: Seq<Answer>) -> StepView<
    (Seq<u8>, Seq<char>),
> {
    match a {
        BuiltAction::GitClone(a) => git_clone::clone_run_step(a, answers),
        BuiltAction::CargoInstall(a) => cargo_install::install_run_step(a, host, answers),
        BuiltAction::Docker(a) => docker::docker_run_step(a, answers),
        BuiltAction::Repolith(a) => federation::sync_run_step(a, answers),
    }
}

/// The next step of an action towards whether what it produces is there.
pub open spec fn present_step_of(a: BuiltAction, host: Host, answers: Seq<Answer>) -> StepView<
    bool,
> {
    match a {
        BuiltAction::CargoInstall(a) => cargo_install::install_present_step(a, host, answers),
        _ => StepView::Done(Ok(true)),
    }
}

/// An action as the planner sees it.
pub open spec fn planned(a: BuiltView) -> ActionSpecView {
    ActionSpecView { id: a.id, deps: a.deps }
}

/// The graph of a list of actions.
pub open spec fn planned_graph(s: Seq<BuiltView>) -> Seq<ActionSpecView> {
    s.map_values(|a: BuiltView| planned(a))
}

/// The ids of a list of actions.
pub open spec fn built_ids(s: Seq<BuiltView>) -> Seq<Seq<char>> {
    s.map_values(|a: BuiltView| a.id)
}

proof fn node_contents(node: NodeView, k: int, ctx: FactoryView, home: Option<Seq<char>>)
    requires
        0 <= k <= node.actions.len(),
        built_node(node, k, ctx, home) is Ok,
    ensures
        ({
            let s = built_node(node, k, ctx, home)->Ok_0;
            &&& s.len() == k
            &&& built_ids(s) == manifest::node_action_ids(node, k)
            &&& forall|i: int| 0 <= i < k ==> (#[trigger] s[i]).deps == deps_at(node, i)
        }),
    decreases k,
{
    let s = built_node(node, k, ctx, home)->Ok_0;
    if k > 0 {
        node_contents(node, k - 1, ctx, home);
        let t = built_node(node, k - 1, ctx, home)->Ok_0;
        assert(built_ids(s) =~= built_ids(t).push(manifest::action_id_text(node, k - 1)));
        assert(manifest::node_action_ids(node, k) =~= manifest::node_action_ids(node, k - 1).push(
            manifest::action_id_text(node, k - 1),
        ));
        assert forall|i: int| 0 <= i < k implies (#[trigger] s[i]).deps == deps_at(node, i) by {
            if i < k - 1 {
                assert(s[i] == t[i]);
            }
        }
    } else {
        assert(built_ids(s) =~= manifest::node_action_ids(node, k));
    }
}

/// The built actions have the ids of the manifest, in the same order.
pub proof fn built_ids_match(m: ManifestView, ctx: FactoryView, home: Option<Seq<char>>)
    requires
        built_manifest(m, ctx, home) is Ok,
    ensures
        built_ids(built_manifest(m, ctx, home)->Ok_0) == manifest::manifest_action_ids(
            m.nodes,
            m.nodes.len() as int,
        ),
{
    nodes_ids_match(m.nodes, m.nodes.len() as int, ctx, home);
}

proof fn nodes_ids_match(nodes: Seq<NodeView>, n: int, ctx: FactoryView, home: Option<Seq<char>>)
    requires
        0 <= n <= nodes.len(),
        built_nodes(nodes, n, ctx, home) is Ok,
    ensures
        built_ids(built_nodes(nodes, n, ctx, home)->Ok_0) == manifest::manifest_action_ids(
            nodes,
            n,
        ),
    decreases n,
{
    let s = built_nodes(nodes, n, ctx, home)->Ok_0;
    if n > 0 {
        nodes_ids_match(nodes, n - 1, ctx, home);
        let node = nodes[n - 1];
        let k = node.actions.len() as int;
        node_contents(node, k, ctx, home);
        let a = built_nodes(nodes, n - 1, ctx, home)->Ok_0;
        let b = built_node(node, k, ctx, home)->Ok_0;
        assert(built_ids(s) =~= built_ids(a) + built_ids(b));
    } else {
        assert(built_ids(s) =~= Seq::<Seq<char>>::empty());
    }
}

/// Every `git-clone` stands on a node with a `git` URL.
pub open spec fn clones_have_urls(nodes: Seq<NodeView>) -> bool {
    forall|n: int, i: int|
        0 <= n < nodes.len() && 0 <= i < nodes[n].actions.len() && (
        #[trigger] nodes[n].actions[i]) is GitClone ==> nodes[n].git is Some
}

proof fn safe_node_builds(node: NodeView, k: int, ctx: FactoryView, home: Option<Seq<char>>)
    requires
        0 <= k <= node.actions.len(),
        manifest_laws::safe_node(node),
        forall|i: int|
            0 <= i < node.actions.len() && (#[trigger] node.actions[i]) is GitClone ==> node.git is Some,
    ensures
        built_node(node, k, ctx, home) is Ok,
    decreases k,
{
    if k > 0 {
        safe_node_builds(node, k - 1, ctx, home);
        assert(manifest_laws::safe_entry(node.actions[k - 1], node.path is Some));
    }
}

proof fn safe_nodes_build(nodes: Seq<NodeView>, n: int, ctx: FactoryView, home: Option<Seq<char>>)
    requires
        0 <= n <= nodes.len(),
        clones_have_urls(nodes),
        forall|k: int| 0 <= k < nodes.len() ==> manifest_laws::safe_node(#[trigger] nodes[k]),
    ensures
        built_nodes(nodes, n, ctx, home) is Ok,
    decreases n,
{
    if n > 0 {
        safe_nodes_build(nodes, n - 1, ctx, home);
        let node = nodes[n - 1];
        assert(manifest_laws::safe_node(node));
        assert forall|i: int|
            0 <= i < node.actions.len() && (#[trigger] node.actions[i]) is GitClone implies node.git is Some by {
            assert(nodes[n - 1].actions[i] is GitClone);
        }
        safe_node_builds(node, node.actions.len() as int, ctx, home);
    }
}

/// A valid manifest can be built, as long as every `git-clone` stands on a node
/// with a `git` URL, which validation leaves open.
pub proof fn valid_manifest_builds(m: ManifestView, ctx: FactoryView, home: Option<Seq<char>>)
    requires
        checks::manifest_error(m) is None,
        clones_have_urls(m.nodes),
    ensures
        built_manifest(m, ctx, home) is Ok,
{
    manifest_laws::accepted_means_safe(m);
    safe_nodes_build(m.nodes, m.nodes.len() as int, ctx, home);
}

/// Each action depends on nothing, or on the action just before it.
pub open spec fn chained(s: Seq<BuiltView>) -> bool {
    forall|p: int|
        0 <= p < s.len() ==> (#[trigger] s[p]).deps.len() == 0 || (p > 0 && s[p].deps == seq![
            s[p - 1].id,
        ])
}

proof fn node_is_chained(node: NodeView, ctx: FactoryView, home: Option<Seq<char>>)
    requires
        built_node(node, node.actions.len() as int, ctx, home) is Ok,
    ensures
        chained(built_node(node, node.actions.len() as int, ctx, home)->Ok_0),
{
    let k = node.actions.len() as int;
    node_contents(node, k, ctx, home);
    let s = built_node(node, k, ctx, home)->Ok_0;
    assert forall|p: int| 0 <= p < s.len() implies (#[trigger] s[p]).deps.len() == 0 || (p > 0
        && s[p].deps == seq![s[p - 1].id]) by {
        if p > 0 {
            assert(built_ids(s)[p - 1] == manifest::node_action_ids(node, k)[p - 1]);
            assert(s[p].deps =~= seq![s[p - 1].id]);
        }
    }
}

proof fn nodes_are_chained(
    nodes: Seq<NodeView>,
    n: int,
    ctx: FactoryView,
    home: Option<Seq<char>>,
)
    requires
        0 <= n <= nodes.len(),
        built_nodes(nodes, n, ctx, home) is Ok,
    ensures
        chained(built_nodes(nodes, n, ctx, home)->Ok_0),
    decreases n,
{
    if n > 0 {
        nodes_are_chained(nodes, n - 1, ctx, home);
        node_is_chained(nodes[n - 1], ctx, home);
        let a = built_nodes(nodes, n - 1, ctx, home)->Ok_0;
        let b = built_node(nodes[n - 1], nodes[n - 1].actions.len() as int, ctx, home)->Ok_0;
        let s = built_nodes(nodes, n, ctx, home)->Ok_0;
        assert(s == a + b);
        assert forall|p: int| 0 <= p < s.len() implies (#[trigger] s[p]).deps.len() == 0 || (p > 0
            && s[p].deps == seq![s[p - 1].id]) by {
            let q = p - a.len();
            if q < 0 {
                assert(s[p] == a[p]);
                if p > 0 {
                    assert(s[p - 1] == a[p - 1]);
                }
            } else {
                assert(s[p] == b[q]);
                if q > 0 {
                    assert(s[p - 1] == b[q - 1]);
                }
            }
        }
    }
}

proof fn chained_settles(s: Seq<BuiltView>, p: int)
    requires
        chained(s),
        built_ids(s).no_duplicates(),
        0 <= p < s.len(),
    ensures
        graph::settled(planned_graph(s), (p + 1) as nat, s[p].id),
    decreases p,
{
    let g = planned_graph(s);
    let id = s[p].id;
    assert(g[p].id == id);
    assert(graph::has_id(g, id));
    if p > 0 {
        chained_settles(s, p - 1);
    }
    assert forall|d: Seq<char>| #[trigger] graph::depends(g, id, d) implies graph::settled(
        g,
        p as nat,
        d,
    ) by {
        let (i, j) = choose|i: int, j: int|
            0 <= i < g.len() && g[i].id == id && 0 <= j < g[i].deps.len()
                && #[trigger] g[i].deps[j] == d;
        assert(g[i].id == s[i].id);
        assert(built_ids(s)[i] == built_ids(s)[p]);
        assert(i == p);
        assert(g[p].deps == s[p].deps);
    }
}

/// What a valid manifest gives can always be planned: every dependency exists,
/// and no action waits for itself.
pub proof fn valid_manifest_plans(m: ManifestView, ctx: FactoryView, home: Option<Seq<char>>)
    requires
        checks::manifest_error(m) is None,
        built_manifest(m, ctx, home) is Ok,
    ensures
        ({
            let g = planned_graph(built_manifest(m, ctx, home)->Ok_0);
            graph::complete(g) && forall|id: Seq<char>| !#[trigger] graph::stuck(g, id)
        }),
{
    let s = built_manifest(m, ctx, home)->Ok_0;
    let g = planned_graph(s);
    built_ids_match(m, ctx, home);
    manifest_laws::action_ids_are_unique(m);
    nodes_are_chained(m.nodes, m.nodes.len() as int, ctx, home);
    assert forall|i: int, j: int| !#[trigger] graph::missing_at(g, i, j) by {
        if 0 <= i < g.len() && 0 <= j < g[i].deps.len() {
            assert(g[i].deps == s[i].deps);
            assert(g[i - 1].id == s[i - 1].id);
        }
    }
    assert forall|id: Seq<char>| !#[trigger] graph::stuck(g, id) by {
        if graph::has_id(g, id) {
            let i = choose|i: int| 0 <= i < g.len() && #[trigger] g[i].id == id;
            assert(g[i].id == s[i].id);
            chained_settles(s, i);
        }
    }
}

} // verus!
