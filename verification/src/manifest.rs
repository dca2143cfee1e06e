//! The manifest: which upstream nodes to track and which actions to run
//! against each.
//!
//! A parsed manifest is accepted only after [`Manifest::validate`]: node ids, URLs,
//! crate and feature names, image tags and paths inside a checkout are checked
//! before they can end up in the argument list of a subprocess. Paths are Unix
//! paths.

use crate::checks;
use crate::text;
use crate::types::ActionId;
use vstd::prelude::*;

verus! {

/// Top-level `[orchestrator]` section.
#[derive(Clone, Debug, PartialEq, Eq)]
pub struct OrchestratorMeta {
    /// Manifest schema version, expected to match `~0.1` (semver tilde range).
    pub schema_version: String,
    /// Human-readable name for the orchestrator instance.
    pub name: String,
}

/// A single `[[node]]` entry: one upstream repository to manage.
///
/// For `git-clone` actions `git` is the source and `path` the destination. For
/// `cargo-install` actions `path`, when set, is the source crate root and wins
/// over `git`.
#[derive(Clone, Debug, PartialEq, Eq)]
pub struct NodeEntry {
    /// Unique identifier for the node within the manifest.
    pub id: String,
    /// Remote git URL.
    pub git: Option<String>,
    /// Local path.
    pub path: Option<String>,
    /// Ordered list of actions to run for this node.
    pub actions: Vec<ActionEntry>,
}

/// Root manifest document.
#[derive(Clone, Debug, PartialEq, Eq)]
pub struct Manifest {
    /// `[orchestrator]` metadata.
    pub orchestrator: OrchestratorMeta,
    /// All `[[node]]` entries declared in the manifest.
    pub nodes: Vec<NodeEntry>,
}

/// One `[[node.action]]`, told apart by its `kind`.
#[derive(Clone, Debug, PartialEq, Eq)]
pub enum ActionEntry {
    /// `kind = "git-clone"`: fetch the node's source.
    GitClone,
    /// `kind = "cargo-install"`: install from the node's source tree.
    CargoInstall {
        /// Crate name. Defaults to the node's `id` when absent.
        crate_name: Option<String>,
        /// Package to pick out of a source with several.
        package: Option<String>,
        /// Cargo features to enable.
        features: Vec<String>,
        /// Cargo profile; cargo's default when absent.
        profile: Option<String>,
        /// Target install directory. Defaults to `~/.repolith/bin` when absent.
        install_to: Option<String>,
    },
    /// `kind = "docker"`: build an image from the node's checkout.
    Docker {
        /// Image tag to apply.
        tag: String,
        /// Dockerfile path relative to the build context.
        dockerfile: Option<String>,
        /// Build context directory relative to the node's `path`.
        context: Option<String>,
    },
    /// `kind = "repolith"`: bring a child stack up to date.
    Repolith {
        /// Manifest of the child stack relative to the node's `path`.
        manifest: Option<String>,
    },
}

/// Errors that can occur while parsing or validating a manifest.
#[derive(Debug, PartialEq, Eq)]
pub enum ManifestError {
    /// The document could not be deserialized.
    Toml(String),
    /// `orchestrator.schema_version` does not satisfy the `~0.1` requirement.
    SchemaMismatch {
        /// The offending version string from the manifest.
        got: String,
    },
    /// Two or more `[[node]]` entries share the same `id`.
    DuplicateNodeId(String),
    /// A `[[node]]` declares neither a `git` URL nor a local `path`.
    NodeMissingSource(String),
    /// A user-supplied URL cannot be handed to `git` or `cargo`.
    InvalidUrl {
        /// Node id that owns the offending URL.
        node: String,
        /// Why the URL was rejected.
        reason: String,
    },
    /// A user-supplied value cannot be handed to a subprocess.
    InvalidArg {
        /// Node id that owns the offending field.
        node: String,
        /// Why the value was rejected.
        reason: String,
    },
}

/// What a [`ManifestError`] holds.
#[verifier::ext_equal]
pub enum ManifestErrorView {
    /// See [`ManifestError::Toml`].
    Toml(Seq<char>),
    /// See [`ManifestError::SchemaMismatch`].
    SchemaMismatch {
        /// The offending version string.
        got: Seq<char>,
    },
    /// See [`ManifestError::DuplicateNodeId`].
    DuplicateNodeId(Seq<char>),
    /// See [`ManifestError::NodeMissingSource`].
    NodeMissingSource(Seq<char>),
    /// See [`ManifestError::InvalidUrl`].
    InvalidUrl {
        /// Node id.
        node: Seq<char>,
        /// Why the URL was rejected.
        reason: Seq<char>,
    },
    /// See [`ManifestError::InvalidArg`].
    InvalidArg {
        /// Node id.
        node: Seq<char>,
        /// Why the value was rejected.
        reason: Seq<char>,
    },
}

impl View for ManifestError {
    type V = ManifestErrorView;

    open spec fn view(&self) -> ManifestErrorView {
        match *self {
            ManifestError::Toml(s) => ManifestErrorView::Toml(s@),
            ManifestError::SchemaMismatch { got } => ManifestErrorView::SchemaMismatch {
                got: got@,
            },
            ManifestError::DuplicateNodeId(s) => ManifestErrorView::DuplicateNodeId(s@),
            ManifestError::NodeMissingSource(s) => ManifestErrorView::NodeMissingSource(s@),
            ManifestError::InvalidUrl { node, reason } => ManifestErrorView::InvalidUrl {
                node: node@,
                reason: reason@,
            },
            ManifestError::InvalidArg { node, reason } => ManifestErrorView::InvalidArg {
                node: node@,
                reason: reason@,
            },
        }
    }
}

/// The one-line rendering of a manifest error.
pub open spec fn manifest_error_text(e: ManifestErrorView) -> Seq<char> {
    match e {
        ManifestErrorView::Toml(s) => "toml parse: "@ + s,
        ManifestErrorView::SchemaMismatch { got } => "schema version "@ + got
            + ": requires ~0.1"@,
        ManifestErrorView::DuplicateNodeId(s) => "duplicate node id: "@ + s,
        ManifestErrorView::NodeMissingSource(s) => "node "@ + s
            + " has neither `git` nor `path`"@,
        ManifestErrorView::InvalidUrl { node, reason } => "invalid URL in node `"@ + node + "`: "@
            + reason,
        ManifestErrorView::InvalidArg { node, reason } => "invalid argument in node `"@ + node
            + "`: "@ + reason,
    }
}

impl ManifestError {
    /// Renders the error.
    pub fn to_string(&self) -> (r: String)
        ensures
            r@ == manifest_error_text(self@),
    {
        match self {
            ManifestError::Toml(s) => {
                let mut r = "toml parse: ".to_owned();
                r.append(s);
                r
            },
            ManifestError::SchemaMismatch { got } => {
                let mut r = "schema version ".to_owned();
                r.append(got);
                r.append(": requires ~0.1");
                r
            },
            ManifestError::DuplicateNodeId(s) => {
                let mut r = "duplicate node id: ".to_owned();
                r.append(s);
                r
            },
            ManifestError::NodeMissingSource(s) => {
                let mut r = "node ".to_owned();
                r.append(s);
                r.append(" has neither `git` nor `path`");
                r
            },
            ManifestError::InvalidUrl { node, reason } => {
                let mut r = "invalid URL in node `".to_owned();
                r.append(node);
                r.append("`: ");
                r.append(reason);
                r
            },
            ManifestError::InvalidArg { node, reason } => {
                let mut r = "invalid argument in node `".to_owned();
                r.append(node);
                r.append("`: ");
                r.append(reason);
                r
            },
        }
    }
}

/// What an optional text holds.
pub open spec fn opt_text(s: Option<String>) -> Option<Seq<char>> {
    match s {
        Some(s) => Some(s@),
        None => None,
    }
}

/// What an [`ActionEntry`] holds.
#[verifier::ext_equal]
pub enum ActionEntryView {
    /// See [`ActionEntry::GitClone`].
    GitClone,
    /// See [`ActionEntry::CargoInstall`].
    CargoInstall {
        /// Crate name.
        crate_name: Option<Seq<char>>,
        /// Package.
        package: Option<Seq<char>>,
        /// Features.
        features: Seq<Seq<char>>,
        /// Profile.
        profile: Option<Seq<char>>,
        /// Install directory.
        install_to: Option<Seq<char>>,
    },
    /// See [`ActionEntry::Docker`].
    Docker {
        /// Image tag.
        tag: Seq<char>,
        /// Dockerfile path.
        dockerfile: Option<Seq<char>>,
        /// Build context.
        context: Option<Seq<char>>,
    },
    /// See [`ActionEntry::Repolith`].
    Repolith {
        /// Child manifest.
        manifest: Option<Seq<char>>,
    },
}

impl View for ActionEntry {
    type V = ActionEntryView;

    open spec fn view(&self) -> ActionEntryView {
        match *self {
            ActionEntry::GitClone => ActionEntryView::GitClone,
            ActionEntry::CargoInstall { crate_name, package, features, profile, install_to } =>
                ActionEntryView::CargoInstall {
                crate_name: opt_text(crate_name),
                package: opt_text(package),
                features: crate::order::text_views(features@),
                profile: opt_text(profile),
                install_to: opt_text(install_to),
            },
            ActionEntry::Docker { tag, dockerfile, context } => ActionEntryView::Docker {
                tag: tag@,
                dockerfile: opt_text(dockerfile),
                context: opt_text(context),
            },
            ActionEntry::Repolith { manifest } => ActionEntryView::Repolith {
                manifest: opt_text(manifest),
            },
        }
    }
}

/// What a [`NodeEntry`] holds.
#[verifier::ext_equal]
pub struct NodeView {
    /// Node id.
    pub id: Seq<char>,
    /// Remote URL.
    pub git: Option<Seq<char>>,
    /// Local path.
    pub path: Option<Seq<char>>,
    /// Actions.
    pub actions: Seq<ActionEntryView>,
}

/// The views of a list of action entries.
pub open spec fn entry_views(a: Seq<ActionEntry>) -> Seq<ActionEntryView> {
    a.map_values(|e: ActionEntry| e@)
}

impl View for NodeEntry {
    type V = NodeView;

    open spec fn view(&self) -> NodeView {
        NodeView {
            id: self.id@,
            git: opt_text(self.git),
            path: opt_text(self.path),
            actions: entry_views(self.actions@),
        }
    }
}

/// What a [`Manifest`] holds.
#[verifier::ext_equal]
pub struct ManifestView {
    /// Schema version.
    pub schema_version: Seq<char>,
    /// Instance name.
    pub name: Seq<char>,
    /// Nodes.
    pub nodes: Seq<NodeView>,
}

/// The views of a list of nodes.
pub open spec fn node_views(n: Seq<NodeEntry>) -> Seq<NodeView> {
    n.map_values(|e: NodeEntry| e@)
}

impl View for Manifest {
    type V = ManifestView;

    open spec fn view(&self) -> ManifestView {
        ManifestView {
            schema_version: self.orchestrator.schema_version@,
            name: self.orchestrator.name@,
            nodes: node_views(self.nodes@),
        }
    }
}

/// The `kind` of an action entry.
pub open spec fn kind_text(a: ActionEntryView) -> Seq<char> {
    match a {
        ActionEntryView::GitClone => "git-clone"@,
        ActionEntryView::CargoInstall { .. } => "cargo-install"@,
        ActionEntryView::Docker { .. } => "docker"@,
        ActionEntryView::Repolith { .. } => "repolith"@,
    }
}

/// Kebab-case discriminator of an [`ActionEntry`], matching its `kind` tag.
pub fn action_kind(a: &ActionEntry) -> (r: &'static str)
    ensures
        r@ == kind_text(a@),
{
    match a {
        ActionEntry::GitClone => "git-clone",
        ActionEntry::CargoInstall { .. } => "cargo-install",
        ActionEntry::Docker { .. } => "docker",
        ActionEntry::Repolith { .. } => "repolith",
    }
}

/// The id of the `i`-th action of a node: `{node.id}::{kind}::{i}`.
pub open spec fn action_id_text(node: NodeView, i: int) -> Seq<char> {
    node.id + "::"@ + kind_text(node.actions[i]) + "::"@ + text::dec_text(i as nat)
}

/// The ids of the first `n` actions of a node.
pub open spec fn node_action_ids(node: NodeView, n: int) -> Seq<Seq<char>> {
    Seq::new(n as nat, |i: int| action_id_text(node, i))
}

/// The ids of all actions of the first `n` nodes in declaration order.
pub open spec fn manifest_action_ids(nodes: Seq<NodeView>, n: int) -> Seq<Seq<char>>
    decreases n,
{
    if n <= 0 {
        Seq::empty()
    } else {
        manifest_action_ids(nodes, n - 1) + node_action_ids(
            nodes[n - 1],
            nodes[n - 1].actions.len() as int,
        )
    }
}

/// The id of the `i`-th action of a node.
pub fn action_id(node: &NodeEntry, i: usize) -> (r: ActionId)
    requires
        i < node.actions.len(),
    ensures
        r@ == action_id_text(node@, i as int),
{
    let mut s = node.id.clone();
    s.append("::");
    s.append(action_kind(&node.actions[i]));
    s.append("::");
    s.append(&text::dec(i as u64));
    assert(node@.actions[i as int] == node.actions@[i as int]@);
    ActionId(s)
}

impl Manifest {
    /// Every action across every node as a stable [`ActionId`], in declaration order.
    pub fn action_ids(&self) -> (r: Vec<ActionId>)
        ensures
            crate::types::id_views(r@) == manifest_action_ids(
                self@.nodes,
                self@.nodes.len() as int,
            ),
    {
        let ghost nv = node_views(self.nodes@);
        let mut r: Vec<ActionId> = Vec::new();
        let mut n: usize = 0;
        while n < self.nodes.len()
            invariant
                n <= self.nodes.len(),
                nv == node_views(self.nodes@),
                crate::types::id_views(r@) == manifest_action_ids(nv, n as int),
            decreases self.nodes.len() - n,
        {
            let node = &self.nodes[n];
            let ghost before = crate::types::id_views(r@);
            let mut i: usize = 0;
            assert(before + node_action_ids(node@, 0) =~= before);
            while i < node.actions.len()
                invariant
                    i <= node.actions.len(),
                    crate::types::id_views(r@) == before + node_action_ids(node@, i as int),
                decreases node.actions.len() - i,
            {
                let ghost r0 = crate::types::id_views(r@);
                r.push(action_id(node, i));
                i = i + 1;
                assert(crate::types::id_views(r@) =~= r0.push(action_id_text(node@, i - 1)));
                assert(crate::types::id_views(r@) =~= before + node_action_ids(node@, i as int));
            }
            assert(nv[n as int] == node@);
            n = n + 1;
        }
        r
    }

    /// Checks everything that deserialization cannot: the schema version, the
    /// node ids and their uniqueness, that every node has a source, and the URLs,
    /// crate and feature names, image tags and contained paths.
    ///
    /// The error is the first one in declaration order.
    pub fn validate(&self) -> (r: Result<(), ManifestError>)
        ensures
            match r {
                Ok(_) => checks::manifest_error(self@) is None,
                Err(e) => checks::manifest_error(self@) == Some(e@),
            },
    {
        checks::check_manifest(self)
    }

    /// Accepts what deserialization made of a document: its error, or the
    /// manifest once it is valid.
    pub fn from_parsed(parsed: Result<Manifest, String>) -> (r: Result<Manifest, ManifestError>)
        ensures
            match parsed {
                Err(msg) => r matches Err(e) && e@ == ManifestErrorView::Toml(msg@),
                Ok(m) => match checks::manifest_error(m@) {
                    Some(x) => r matches Err(e) && e@ == x,
                    None => r == Ok::<Manifest, ManifestError>(m),
                },
            },
    {
        match parsed {
            Err(msg) => Err(ManifestError::Toml(msg)),
            Ok(m) => {
                match m.validate() {
                    Ok(_) => Ok(m),
                    Err(e) => Err(e),
                }
            },
        }
    }
}

} // verus!
