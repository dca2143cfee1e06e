//! The walk over a package's local dependencies.
//!
//! The walk decides which directory to ask about next; running `cargo metadata`
//! and resolving paths on disk is left to whoever drives it. Each directory is
//! expanded at most once, so symbolic links and dependency cycles both stop.

use crate::command;
use crate::metadata;
use crate::metadata::{Meta, PackageView};
use crate::order;
use crate::paths;
use vstd::prelude::*;

verus! {

/// What the walk wants to know next.
#[derive(Debug, PartialEq, Eq)]
pub enum ClosureRequest {
    /// What `cargo metadata` tells of the package in this directory.
    Metadata(String),
    /// Where this path really lies.
    Canonicalize(String),
    /// Nothing: everything reachable has been found.
    Finished,
    /// Nothing: the root is no package that can be resolved.
    Unresolved,
}

/// What a [`ClosureRequest`] holds.
#[verifier::ext_equal]
pub enum RequestView {
    /// Metadata of a directory.
    Metadata(Seq<char>),
    /// Resolution of a path.
    Canonicalize(Seq<char>),
    /// Everything has been found.
    Finished,
    /// The root cannot be resolved.
    Unresolved,
}

impl View for ClosureRequest {
    type V = RequestView;

    open spec fn view(&self) -> RequestView {
        match self {
            ClosureRequest::Metadata(s) => RequestView::Metadata(s@),
            ClosureRequest::Canonicalize(s) => RequestView::Canonicalize(s@),
            ClosureRequest::Finished => RequestView::Finished,
            ClosureRequest::Unresolved => RequestView::Unresolved,
        }
    }
}

/// The walk in progress.
pub struct ClosureWalk {
    root: String,
    graph: Vec<(String, Vec<String>)>,
    roots: Vec<String>,
    trees: Vec<String>,
    visited: Vec<String>,
    queue: Vec<String>,
    at: String,
    deps: Vec<String>,
    next: usize,
    wants: bool,
    failed: bool,
    edges: Ghost<Seq<(Seq<char>, Seq<char>)>>,
    gone: Ghost<Seq<Seq<char>>>,
}

/// What a [`ClosureWalk`] holds.
#[verifier::ext_equal]
pub struct WalkView {
    /// The directory that the walk began at.
    pub root: Seq<char>,
    /// The packages heard of, each directory once.
    pub graph: Seq<PackageView>,
    /// The workspace roots met.
    pub roots: Seq<Seq<char>>,
    /// The dependency trees found.
    pub trees: Seq<Seq<char>>,
    /// The directories expanded.
    pub visited: Seq<Seq<char>>,
    /// The directories to look at, the next one last.
    pub queue: Seq<Seq<char>>,
    /// The directory being expanded.
    pub at: Seq<char>,
    /// Its dependencies.
    pub deps: Seq<Seq<char>>,
    /// How many of them have been answered.
    pub next: nat,
    /// Whether its metadata is wanted.
    pub wants: bool,
    /// Whether the root could not be resolved.
    pub failed: bool,
    /// The answers: from a directory, where one of its dependencies really lies,
    /// or its path where that leads nowhere.
    pub edges: Seq<(Seq<char>, Seq<char>)>,
    /// The paths that led nowhere.
    pub gone: Seq<Seq<char>>,
}

/// The list with a path added, unless it is there already.
pub open spec fn add_path(list: Seq<Seq<char>>, p: Seq<char>) -> Seq<Seq<char>> {
    if paths::listed(list, p) {
        list
    } else {
        list.push(p)
    }
}

/// The dependencies that a directory has in the graph.
pub open spec fn entry(graph: Seq<PackageView>, dir: Seq<char>) -> Option<Seq<Seq<char>>>
    decreases graph.len(),
{
    if graph.len() == 0 {
        None
    } else if paths::same(graph.last().0, dir) {
        Some(graph.last().1)
    } else {
        entry(graph.drop_last(), dir)
    }
}

/// The graph with packages added. What a directory has first, it keeps.
pub open spec fn add_packages(graph: Seq<PackageView>, packages: Seq<PackageView>) -> Seq<
    PackageView,
>
    decreases packages.len(),
{
    if packages.len() == 0 {
        graph
    } else {
        let g = add_packages(graph, packages.drop_last());
        if entry(g, packages.last().0) is Some {
            g
        } else {
            g.push(packages.last())
        }
    }
}

/// A list, or the empty one.
pub open spec fn or_empty(deps: Option<Seq<Seq<char>>>) -> Seq<Seq<char>> {
    match deps {
        Some(d) => d,
        None => Seq::empty(),
    }
}

impl WalkView {
    /// The walk as it begins.
    pub open spec fn start(root: Seq<char>) -> WalkView {
        WalkView {
            root,
            graph: Seq::empty(),
            roots: Seq::empty(),
            trees: Seq::empty(),
            visited: Seq::empty(),
            queue: seq![root],
            at: Seq::empty(),
            deps: Seq::empty(),
            next: 0,
            wants: false,
            failed: false,
            edges: Seq::empty(),
            gone: Seq::empty(),
        }
    }

    /// Nothing is left to ask about the directory at hand, and another waits.
    pub open spec fn may_advance(self) -> bool {
        !self.failed && !self.wants && self.next >= self.deps.len() && self.queue.len() > 0
    }

    /// The walk with the next waiting directory taken up: put aside where it has
    /// been expanded before, else at hand.
    pub open spec fn advance(self) -> WalkView {
        let dir = self.queue.last();
        if paths::listed(self.visited, dir) {
            WalkView { queue: self.queue.drop_last(), ..self }
        } else {
            WalkView {
                queue: self.queue.drop_last(),
                visited: self.visited.push(dir),
                at: dir,
                deps: or_empty(entry(self.graph, dir)),
                next: 0,
                wants: entry(self.graph, dir) is None,
                ..self
            }
        }
    }

    /// The walk at its next question, or at its end.
    pub open spec fn settle(self) -> WalkView
        decreases self.queue.len(),
    {
        if self.may_advance() {
            self.advance().settle()
        } else {
            self
        }
    }

    /// The question that a settled walk asks.
    pub open spec fn request(self) -> RequestView {
        if self.failed {
            RequestView::Unresolved
        } else if self.wants {
            RequestView::Metadata(self.at)
        } else if self.next < self.deps.len() {
            RequestView::Canonicalize(self.deps[self.next as int])
        } else {
            RequestView::Finished
        }
    }

    /// The walk after an answer about metadata. Without one the walk fails if it
    /// was about the root; a dependency that cannot be resolved keeps its tree
    /// and only loses its own dependencies.
    pub open spec fn after_metadata(
        self,
        meta: Option<(Seq<char>, Seq<PackageView>)>,
    ) -> WalkView {
        if !self.wants {
            self
        } else {
            match meta {
                Some(m) => {
                    let graph = add_packages(self.graph, m.1);
                    WalkView {
                        graph,
                        roots: add_path(self.roots, m.0),
                        deps: or_empty(entry(graph, self.at)),
                        next: 0,
                        wants: false,
                        ..self
                    }
                },
                None => WalkView {
                    deps: Seq::empty(),
                    next: 0,
                    wants: false,
                    failed: paths::same(self.at, self.root),
                    ..self
                },
            }
        }
    }

    /// The dependency trees with one more. The root is none.
    pub open spec fn with_tree(self, p: Seq<char>) -> Seq<Seq<char>> {
        if paths::same(p, self.root) {
            self.trees
        } else {
            add_path(self.trees, p)
        }
    }

    /// The walk after an answer about a path. A path that leads nowhere is a
    /// dependency tree like any other, so that its loss shows in the digest; it
    /// is only not looked into.
    pub open spec fn after_canonical(self, path: Option<Seq<char>>) -> WalkView {
        if self.next >= self.deps.len() {
            self
        } else {
            match path {
                Some(p) => WalkView {
                    next: self.next + 1,
                    trees: self.with_tree(p),
                    queue: self.queue.push(p),
                    edges: self.edges.push((self.at, p)),
                    ..self
                },
                None => {
                    let p = self.deps[self.next as int];
                    WalkView {
                        next: self.next + 1,
                        trees: self.with_tree(p),
                        edges: self.edges.push((self.at, p)),
                        gone: self.gone.push(p),
                        ..self
                    }
                },
            }
        }
    }

    /// What holds of every walk: nothing is listed twice, the root is no
    /// dependency, all that is listed is reachable by the answers given, and
    /// where an answer leads is expanded, waiting or gone.
    pub open spec fn valid(self) -> bool {
        &&& self.wants ==> self.deps.len() == 0
        &&& self.wants || self.next < self.deps.len() ==> paths::listed(self.visited, self.at)
        &&& no_path_twice(self.visited)
        &&& no_path_twice(self.trees)
        &&& paths::listed(self.visited, self.root) || paths::listed(self.queue, self.root)
        &&& forall|i: int|
            0 <= i < self.trees.len() ==> !paths::same(#[trigger] self.trees[i], self.root)
        &&& all_reachable(self.edges, self.root, self.visited)
        &&& all_reachable(self.edges, self.root, self.queue)
        &&& all_reachable(self.edges, self.root, self.trees)
        &&& all_reachable(self.edges, self.root, self.gone)
        &&& forall|i: int| 0 <= i < self.edges.len() ==> self.edge_covered(#[trigger] self.edges[i])
    }

    /// An answer came from an expanded directory, and where it leads is expanded,
    /// waiting or gone, and found.
    pub open spec fn edge_covered(self, e: (Seq<char>, Seq<char>)) -> bool {
        &&& paths::listed(self.visited, e.0)
        &&& paths::listed(self.visited, e.1) || paths::listed(self.queue, e.1) || paths::listed(
            self.gone,
            e.1,
        )
        &&& paths::same(e.1, self.root) || paths::listed(self.trees, e.1)
    }
}

/// No path is listed twice.
pub open spec fn no_path_twice(list: Seq<Seq<char>>) -> bool {
    forall|i: int, j: int|
        0 <= i < j < list.len() ==> !paths::same(#[trigger] list[i], #[trigger] list[j])
}

/// A directory is reached from the root in `n` steps along the edges.
pub open spec fn reached(
    edges: Seq<(Seq<char>, Seq<char>)>,
    root: Seq<char>,
    n: nat,
    dir: Seq<char>,
) -> bool
    decreases n,
{
    if n == 0 {
        paths::same(dir, root)
    } else {
        exists|i: int|
            0 <= i < edges.len() && paths::same((#[trigger] edges[i]).1, dir) && reached(
                edges,
                root,
                (n - 1) as nat,
                edges[i].0,
            )
    }
}

/// A directory can be reached from the root along the edges.
pub open spec fn reachable(
    edges: Seq<(Seq<char>, Seq<char>)>,
    root: Seq<char>,
    dir: Seq<char>,
) -> bool {
    exists|n: nat| #[trigger] reached(edges, root, n, dir)
}

/// Every listed directory can be reached.
pub open spec fn all_reachable(
    edges: Seq<(Seq<char>, Seq<char>)>,
    root: Seq<char>,
    list: Seq<Seq<char>>,
) -> bool {
    forall|i: int| 0 <= i < list.len() ==> reachable(edges, root, #[trigger] list[i])
}

/// What is reached is reached under every spelling.
pub proof fn reached_respects_same(
    edges: Seq<(Seq<char>, Seq<char>)>,
    root: Seq<char>,
    n: nat,
    a: Seq<char>,
    b: Seq<char>,
)
    requires
        reached(edges, root, n, a),
        paths::same(a, b),
    ensures
        reached(edges, root, n, b),
{
}

proof fn reached_grows(
    edges: Seq<(Seq<char>, Seq<char>)>,
    e: (Seq<char>, Seq<char>),
    root: Seq<char>,
    n: nat,
    dir: Seq<char>,
)
    requires
        reached(edges, root, n, dir),
    ensures
        reached(edges.push(e), root, n, dir),
    decreases n,
{
    if n > 0 {
        let i = choose|i: int|
            0 <= i < edges.len() && paths::same((#[trigger] edges[i]).1, dir) && reached(
                edges,
                root,
                (n - 1) as nat,
                edges[i].0,
            );
        reached_grows(edges, e, root, (n - 1) as nat, edges[i].0);
        assert(edges.push(e)[i] == edges[i]);
    }
}

proof fn all_reachable_grows(
    edges: Seq<(Seq<char>, Seq<char>)>,
    e: (Seq<char>, Seq<char>),
    root: Seq<char>,
    list: Seq<Seq<char>>,
)
    requires
        all_reachable(edges, root, list),
    ensures
        all_reachable(edges.push(e), root, list),
{
    assert forall|i: int| 0 <= i < list.len() implies reachable(
        edges.push(e),
        root,
        #[trigger] list[i],
    ) by {
        assert(reachable(edges, root, list[i]));
        let n = choose|n: nat| #[trigger] reached(edges, root, n, list[i]);
        reached_grows(edges, e, root, n, list[i]);
    }
}

proof fn listed_after_push(list: Seq<Seq<char>>, p: Seq<char>)
    ensures
        paths::listed(list.push(p), p),
        forall|x: Seq<char>| #[trigger]
            paths::listed(list, x) ==> paths::listed(list.push(p), x),
{
    assert(list.push(p)[list.len() as int] == p);
    assert forall|x: Seq<char>| #[trigger] paths::listed(list, x) implies paths::listed(
        list.push(p),
        x,
    ) by {
        let i = choose|i: int| 0 <= i < list.len() && paths::same(#[trigger] list[i], x);
        assert(list.push(p)[i] == list[i]);
    }
}

/// A walk as it begins is valid.
pub proof fn start_is_valid(root: Seq<char>)
    ensures
        WalkView::start(root).valid(),
{
    let v = WalkView::start(root);
    assert(v.queue[0] == root);
    assert(reached(v.edges, root, 0, root));
}

/// Taking up the next directory keeps a walk valid.
pub proof fn advance_keeps_valid(v: WalkView)
    requires
        v.valid(),
        v.may_advance(),
    ensures
        v.advance().valid(),
{
    let w = v.advance();
    let dir = v.queue.last();
    let k = v.queue.len() - 1;
    listed_after_push(v.visited, dir);
    assert forall|x: Seq<char>| #[trigger] paths::listed(v.queue, x) implies paths::listed(
        w.visited,
        x,
    ) || paths::listed(w.queue, x) by {
        let i = choose|i: int| 0 <= i < v.queue.len() && paths::same(#[trigger] v.queue[i], x);
        if i < k {
            assert(w.queue[i] == v.queue[i]);
        } else if paths::listed(v.visited, dir) {
            let j = choose|j: int|
                0 <= j < v.visited.len() && paths::same(#[trigger] v.visited[j], dir);
            assert(paths::same(w.visited[j], x));
        } else {
            assert(paths::same(w.visited[v.visited.len() as int], x));
        }
    }
    assert forall|i: int| 0 <= i < w.queue.len() implies reachable(
        w.edges,
        w.root,
        #[trigger] w.queue[i],
    ) by {
        assert(w.queue[i] == v.queue[i]);
    }
    assert(reachable(v.edges, v.root, v.queue[k]));
    assert forall|i: int| 0 <= i < w.edges.len() implies w.edge_covered(#[trigger] w.edges[i]) by {
        assert(v.edge_covered(v.edges[i]));
    }
    if !paths::listed(v.visited, dir) {
        assert forall|i: int, j: int| 0 <= i < j < w.visited.len() implies !paths::same(
            #[trigger] w.visited[i],
            #[trigger] w.visited[j],
        ) by {
            if j == v.visited.len() {
                assert(w.visited[i] == v.visited[i]);
            }
        }
    }
}

/// Moving on to the next question keeps a walk valid, and leaves none waiting
/// at the end.
pub proof fn settle_keeps_valid(v: WalkView)
    requires
        v.valid(),
    ensures
        v.settle().valid(),
        !v.settle().may_advance(),
    decreases v.queue.len(),
{
    if v.may_advance() {
        advance_keeps_valid(v);
        settle_keeps_valid(v.advance());
    }
}

/// An answer about metadata keeps a walk valid.
pub proof fn metadata_keeps_valid(v: WalkView, meta: Option<(Seq<char>, Seq<PackageView>)>)
    requires
        v.valid(),
    ensures
        v.after_metadata(meta).valid(),
{
    let w = v.after_metadata(meta);
    assert forall|i: int| 0 <= i < w.edges.len() implies w.edge_covered(#[trigger] w.edges[i]) by {
        assert(v.edge_covered(v.edges[i]));
    }
}

/// An answer about a path keeps a walk valid.
pub proof fn canonical_keeps_valid(v: WalkView, path: Option<Seq<char>>)
    requires
        v.valid(),
    ensures
        v.after_canonical(path).valid(),
{
    let w = v.after_canonical(path);
    if v.next < v.deps.len() {
        let p = match path {
            Some(p) => p,
            None => v.deps[v.next as int],
        };
        let e = (v.at, p);
        all_reachable_grows(v.edges, e, v.root, v.visited);
        all_reachable_grows(v.edges, e, v.root, v.queue);
        all_reachable_grows(v.edges, e, v.root, v.trees);
        all_reachable_grows(v.edges, e, v.root, v.gone);
        listed_after_push(v.gone, p);
        listed_after_push(v.queue, p);
        listed_after_push(v.trees, p);
        assert(reachable(w.edges, w.root, p)) by {
            let a = choose|a: int|
                0 <= a < v.visited.len() && paths::same(#[trigger] v.visited[a], v.at);
            assert(reachable(w.edges, w.root, v.visited[a]));
            let n = choose|n: nat| #[trigger] reached(w.edges, w.root, n, v.visited[a]);
            reached_respects_same(w.edges, w.root, n, v.visited[a], v.at);
            assert(w.edges[v.edges.len() as int] == e);
            assert(reached(w.edges, w.root, n + 1, p));
        }
        assert forall|i: int| 0 <= i < w.queue.len() implies reachable(
            w.edges,
            w.root,
            #[trigger] w.queue[i],
        ) by {
            if i < v.queue.len() {
                assert(w.queue[i] == v.queue[i]);
            }
        }
        assert forall|i: int| 0 <= i < w.gone.len() implies reachable(
            w.edges,
            w.root,
            #[trigger] w.gone[i],
        ) by {
            if i < v.gone.len() {
                assert(w.gone[i] == v.gone[i]);
            }
        }
        assert forall|i: int| 0 <= i < w.trees.len() implies reachable(
            w.edges,
            w.root,
            #[trigger] w.trees[i],
        ) && !paths::same(w.trees[i], w.root) by {
            if i < v.trees.len() {
                assert(w.trees[i] == v.trees[i]);
            }
        }
        assert forall|i: int, j: int| 0 <= i < j < w.trees.len() implies !paths::same(
            #[trigger] w.trees[i],
            #[trigger] w.trees[j],
        ) by {
            assert(w.trees[i] == v.trees[i]);
            if j < v.trees.len() {
                assert(w.trees[j] == v.trees[j]);
            }
        }
        assert forall|i: int| 0 <= i < w.edges.len() implies w.edge_covered(
            #[trigger] w.edges[i],
        ) by {
            if i < v.edges.len() {
                assert(w.edges[i] == v.edges[i]);
                assert(v.edge_covered(v.edges[i]));
            }
        }
    } else {
        assert forall|i: int| 0 <= i < w.edges.len() implies w.edge_covered(
            #[trigger] w.edges[i],
        ) by {
            assert(v.edge_covered(v.edges[i]));
        }
    }
}

proof fn reached_is_found(v: WalkView, n: nat, dir: Seq<char>)
    requires
        v.valid(),
        v.queue.len() == 0,
        reached(v.edges, v.root, n, dir),
    ensures
        paths::listed(v.visited, dir) || paths::listed(v.gone, dir),
        paths::same(dir, v.root) || paths::listed(v.trees, dir),
{
    if n == 0 {
        let i = choose|i: int|
            0 <= i < v.visited.len() && paths::same(#[trigger] v.visited[i], v.root);
        assert(paths::same(v.visited[i], dir));
    } else {
        let i = choose|i: int|
            0 <= i < v.edges.len() && paths::same((#[trigger] v.edges[i]).1, dir) && reached(
                v.edges,
                v.root,
                (n - 1) as nat,
                v.edges[i].0,
            );
        let to = v.edges[i].1;
        assert(v.edge_covered(v.edges[i]));
        if paths::listed(v.visited, to) {
            let a = choose|a: int|
                0 <= a < v.visited.len() && paths::same(#[trigger] v.visited[a], to);
            assert(paths::same(v.visited[a], dir));
        } else {
            let a = choose|a: int| 0 <= a < v.gone.len() && paths::same(#[trigger] v.gone[a], to);
            assert(paths::same(v.gone[a], dir));
        }
        if !paths::same(to, v.root) {
            let b = choose|b: int| 0 <= b < v.trees.len() && paths::same(#[trigger] v.trees[b], to);
            assert(paths::same(v.trees[b], dir));
        }
    }
}

/// A finished walk has found exactly what can be reached: a directory other than
/// the root is among the dependency trees if and only if the answers lead there
/// from the root. All of it has been expanded, but for the paths that lead
/// nowhere, and nothing more.
pub proof fn finished_walk_is_complete(v: WalkView, dir: Seq<char>)
    requires
        v.valid(),
        !v.may_advance(),
        v.request() == RequestView::Finished,
    ensures
        paths::listed(v.trees, dir) <==> reachable(v.edges, v.root, dir) && !paths::same(
            dir,
            v.root,
        ),
        paths::listed(v.visited, dir) || paths::listed(v.gone, dir) <==> reachable(
            v.edges,
            v.root,
            dir,
        ),
{
    if reachable(v.edges, v.root, dir) {
        let n = choose|n: nat| #[trigger] reached(v.edges, v.root, n, dir);
        reached_is_found(v, n, dir);
    }
    if paths::listed(v.visited, dir) {
        let i = choose|i: int| 0 <= i < v.visited.len() && paths::same(#[trigger] v.visited[i], dir);
        assert(reachable(v.edges, v.root, v.visited[i]));
        let n = choose|n: nat| #[trigger] reached(v.edges, v.root, n, v.visited[i]);
        reached_respects_same(v.edges, v.root, n, v.visited[i], dir);
    }
    if paths::listed(v.gone, dir) {
        let i = choose|i: int| 0 <= i < v.gone.len() && paths::same(#[trigger] v.gone[i], dir);
        assert(reachable(v.edges, v.root, v.gone[i]));
        let n = choose|n: nat| #[trigger] reached(v.edges, v.root, n, v.gone[i]);
        reached_respects_same(v.edges, v.root, n, v.gone[i], dir);
    }
    if paths::listed(v.trees, dir) {
        let i = choose|i: int| 0 <= i < v.trees.len() && paths::same(#[trigger] v.trees[i], dir);
        assert(reachable(v.edges, v.root, v.trees[i]));
        let n = choose|n: nat| #[trigger] reached(v.edges, v.root, n, v.trees[i]);
        reached_respects_same(v.edges, v.root, n, v.trees[i], dir);
    }
}

impl View for ClosureWalk {
    type V = WalkView;

    closed spec fn view(&self) -> WalkView {
        WalkView {
            root: self.root@,
            graph: metadata::package_views(self.graph@),
            roots: order::text_views(self.roots@),
            trees: order::text_views(self.trees@),
            visited: order::text_views(self.visited@),
            queue: order::text_views(self.queue@),
            at: self.at@,
            deps: order::text_views(self.deps@),
            next: self.next as nat,
            wants: self.wants,
            failed: self.failed,
            edges: self.edges@,
            gone: self.gone@,
        }
    }
}

/// The dependencies that a directory has in the graph.
fn find_entry(graph: &Vec<(String, Vec<String>)>, dir: &str) -> (r: Option<Vec<String>>)
    ensures
        match r {
            Some(d) => entry(metadata::package_views(graph@), dir@) == Some(
                order::text_views(d@),
            ),
            None => entry(metadata::package_views(graph@), dir@) is None,
        },
{
    let ghost gv = metadata::package_views(graph@);
    let mut i: usize = graph.len();
    assert(gv.take(i as int) =~= gv);
    while i > 0
        invariant
            i <= graph.len(),
            gv == metadata::package_views(graph@),
            entry(gv.take(i as int), dir@) == entry(gv, dir@),
        decreases i,
    {
        i = i - 1;
        proof {
            assert(gv.take(i + 1).drop_last() =~= gv.take(i as int));
            assert(gv.take(i + 1).last() == (graph@[i as int].0@, order::text_views(graph@[i as int].1@)));
        }
        if paths::same_path(&graph[i].0, dir) {
            return Some(order::copy_texts(&graph[i].1));
        }
    }
    None
}

fn add_all(graph: &mut Vec<(String, Vec<String>)>, packages: &Vec<(String, Vec<String>)>)
    ensures
        metadata::package_views(final(graph)@) == add_packages(
            metadata::package_views(old(graph)@),
            metadata::package_views(packages@),
        ),
{
    let ghost g0 = metadata::package_views(graph@);
    let ghost pv = metadata::package_views(packages@);
    let mut i: usize = 0;
    assert(add_packages(g0, pv.take(0)) =~= g0);
    while i < packages.len()
        invariant
            i <= packages.len(),
            pv == metadata::package_views(packages@),
            metadata::package_views(graph@) == add_packages(g0, pv.take(i as int)),
        decreases packages.len() - i,
    {
        let p = &packages[i];
        let ghost before = metadata::package_views(graph@);
        let ghost item = (p.0@, order::text_views(p.1@));
        proof {
            assert(pv.take(i + 1).drop_last() =~= pv.take(i as int));
            assert(pv.take(i + 1).last() == item);
        }
        if find_entry(graph, &p.0).is_none() {
            graph.push((p.0.clone(), order::copy_texts(&p.1)));
            assert(metadata::package_views(graph@) =~= before.push(item));
        }
        i = i + 1;
    }
    assert(pv.take(pv.len() as int) =~= pv);
}

fn push_path(list: &mut Vec<String>, p: &str)
    ensures
        order::text_views(final(list)@) == add_path(order::text_views(old(list)@), p@),
{
    let ghost before = order::text_views(list@);
    if !paths::lists_path(list, p) {
        list.push(p.to_owned());
        assert(order::text_views(list@) =~= before.push(p@));
    }
}

impl ClosureWalk {
    /// A walk from a directory given by where it really lies.
    pub fn new(root: &str) -> (r: ClosureWalk)
        ensures
            r@ == WalkView::start(root@),
            r@.valid(),
    {
        let mut queue: Vec<String> = Vec::new();
        queue.push(root.to_owned());
        let r = ClosureWalk {
            root: root.to_owned(),
            graph: Vec::new(),
            roots: Vec::new(),
            trees: Vec::new(),
            visited: Vec::new(),
            queue,
            at: "".to_owned(),
            deps: Vec::new(),
            next: 0,
            wants: false,
            failed: false,
            edges: Ghost(Seq::empty()),
            gone: Ghost(Seq::empty()),
        };
        proof {
            reveal_strlit("");
            assert(r@ =~= WalkView::start(root@));
            start_is_valid(root@);
        }
        r
    }

    /// Moves on to the next question and returns it. Until it is answered the
    /// same question comes back.
    pub fn next(&mut self) -> (r: ClosureRequest)
        requires
            old(self)@.valid(),
        ensures
            final(self)@ == old(self)@.settle(),
            final(self)@.valid(),
            !final(self)@.may_advance(),
            r@ == final(self)@.request(),
    {
        let ghost v0 = self@;
        proof {
            settle_keeps_valid(v0);
        }
        while !self.failed && !self.wants && self.next >= self.deps.len() && self.queue.len() > 0
            invariant
                v0.settle() == self@.settle(),
            decreases self.queue.len(),
        {
            let ghost v = self@;
            assert(v.may_advance());
            match self.queue.pop() {
                Some(dir) => {
                    assert(dir@ == v.queue.last());
                    assert(order::text_views(self.queue@) =~= v.queue.drop_last());
                    if !paths::lists_path(&self.visited, &dir) {
                        match find_entry(&self.graph, &dir) {
                            Some(d) => {
                                self.deps = d;
                                self.wants = false;
                            },
                            None => {
                                self.deps = command::no_args();
                                self.wants = true;
                            },
                        }
                        self.next = 0;
                        self.visited.push(dir.clone());
                        assert(order::text_views(self.visited@) =~= v.visited.push(dir@));
                        self.at = dir;
                    }
                    assert(self@ =~= v.advance());
                },
                None => {
                    assert(false);
                },
            }
        }
        if self.failed {
            ClosureRequest::Unresolved
        } else if self.wants {
            ClosureRequest::Metadata(self.at.clone())
        } else if self.next < self.deps.len() {
            ClosureRequest::Canonicalize(self.deps[self.next].clone())
        } else {
            ClosureRequest::Finished
        }
    }

    /// Takes what `cargo metadata` told of the directory asked about, or that it
    /// told nothing. Ignored where the walk did not ask.
    pub fn metadata(&mut self, meta: Option<Meta>)
        requires
            old(self)@.valid(),
        ensures
            final(self)@ == old(self)@.after_metadata(metadata::meta_view(meta)),
            final(self)@.valid(),
    {
        let ghost v = self@;
        proof {
            metadata_keeps_valid(v, metadata::meta_view(meta));
        }
        if !self.wants {
            return ;
        }
        self.wants = false;
        self.next = 0;
        match &meta {
            Some(m) => {
                push_path(&mut self.roots, &m.workspace_root);
                add_all(&mut self.graph, &m.packages);
                match find_entry(&self.graph, &self.at) {
                    Some(d) => {
                        self.deps = d;
                    },
                    None => {
                        self.deps = command::no_args();
                    },
                }
            },
            None => {
                self.deps = command::no_args();
                self.failed = paths::same_path(&self.at, &self.root);
            },
        }
        assert(self@ =~= v.after_metadata(metadata::meta_view(meta)));
    }

    /// Takes where the path asked about really lies, or that it leads nowhere.
    /// Ignored where the walk did not ask.
    pub fn canonical(&mut self, path: Option<String>)
        requires
            old(self)@.valid(),
        ensures
            final(self)@ == old(self)@.after_canonical(crate::manifest::opt_text(path)),
            final(self)@.valid(),
    {
        let ghost v = self@;
        proof {
            canonical_keeps_valid(v, crate::manifest::opt_text(path));
        }
        if self.next >= self.deps.len() {
            return ;
        }
        match &path {
            Some(p) => {
                if !paths::same_path(p, &self.root) {
                    push_path(&mut self.trees, p);
                }
                self.queue.push(p.clone());
                assert(order::text_views(self.queue@) =~= v.queue.push(p@));
                self.edges = Ghost(v.edges.push((v.at, p@)));
            },
            None => {
                let p = &self.deps[self.next];
                if !paths::same_path(p, &self.root) {
                    push_path(&mut self.trees, p);
                }
                self.edges = Ghost(v.edges.push((v.at, p@)));
                self.gone = Ghost(v.gone.push(p@));
            },
        }
        self.next = self.next + 1;
        assert(self@ =~= v.after_canonical(crate::manifest::opt_text(path)));
    }

    /// The dependency trees found so far.
    pub fn dep_trees(&self) -> (r: &Vec<String>)
        ensures
            order::text_views(r@) == self@.trees,
    {
        &self.trees
    }

    /// The workspace roots met so far.
    pub fn workspace_roots(&self) -> (r: &Vec<String>)
        ensures
            order::text_views(r@) == self@.roots,
    {
        &self.roots
    }
}

/// Arguments of the `cargo` call that describes the package in a directory.
pub fn metadata_args(dir: &str) -> (r: Vec<String>)
    ensures
        order::text_views(r@) == seq![
            "metadata"@,
            "--no-deps"@,
            "--format-version"@,
            "1"@,
            "--manifest-path"@,
            paths::joined_path(dir@, "Cargo.toml"@),
        ],
{
    let mut a = command::no_args();
    command::push_arg(&mut a, "metadata");
    command::push_arg(&mut a, "--no-deps");
    command::push_arg(&mut a, "--format-version");
    command::push_arg(&mut a, "1");
    command::push_arg(&mut a, "--manifest-path");
    let manifest = paths::join_path(dir, "Cargo.toml");
    command::push_arg(&mut a, &manifest);
    assert(order::text_views(a@) =~= seq![
        "metadata"@,
        "--no-deps"@,
        "--format-version"@,
        "1"@,
        "--manifest-path"@,
        paths::joined_path(dir@, "Cargo.toml"@),
    ]);
    a
}

} // verus!
