//! What a closure digest depends on: the trees and workspace roots that can be
//! reached from a package, and nothing else.
//!
//! A [`Disk`] gives the answers that a walk asks for. The walk ends
//! ([`walk_ends`]), what it found by then amounts to the closure of the package
//! ([`walk_finds_the_closure`]), and the preimage of the digest over it is decided
//! by the package's own tree and that closure ([`digest_depends_on_exactly`]).

use crate::closure_walk;
use crate::closure_walk::{RequestView, WalkView};
use crate::metadata;
use crate::metadata::{JsonView, PackageView};
use crate::order;
use crate::paths;
use crate::source_closure;
use crate::text;
use crate::types::BuildErrorView;
use vstd::prelude::*;

verus! {

/// A machine, as far as the walk over a package's dependencies asks about it.
pub struct Disk {
    /// What `cargo metadata` prints about a directory, where it ends well.
    pub metadata: spec_fn(Seq<char>) -> Option<Seq<u8>>,
    /// Where a path really lies, unless it leads nowhere.
    pub real: spec_fn(Seq<char>) -> Option<Seq<char>>,
    /// The content digest of a tree, or why it could not be walked.
    pub tree: spec_fn(Seq<char>) -> Result<Seq<u8>, BuildErrorView>,
    /// The manifest and the lock file of a workspace root, as far as they are there.
    pub files: spec_fn(Seq<char>) -> (Option<Seq<u8>>, Option<Seq<u8>>),
}

/// The local dependencies that a list of packages gives a directory.
pub open spec fn listed_deps(packages: Seq<PackageView>, dir: Seq<char>) -> Option<
    Seq<Seq<char>>,
> {
    closure_walk::entry(closure_walk::add_packages(Seq::empty(), packages), dir)
}

impl Disk {
    /// What cargo tells about a directory: its workspace root, and the packages of
    /// the workspace with their local dependencies, development ones left out.
    pub open spec fn meta(self, dir: Seq<char>) -> Option<(Seq<char>, Seq<PackageView>)> {
        match (self.metadata)(dir) {
            Some(bytes) => metadata::meta_in(bytes),
            None => None,
        }
    }

    /// The local dependencies of the package in a directory.
    pub open spec fn deps(self, dir: Seq<char>) -> Seq<Seq<char>> {
        match self.meta(dir) {
            Some(m) => closure_walk::or_empty(listed_deps(m.1, dir)),
            None => Seq::empty(),
        }
    }

    /// Where a dependency lies, or its path where that leads nowhere.
    pub open spec fn target(self, path: Seq<char>) -> Seq<char> {
        match (self.real)(path) {
            Some(p) => p,
            None => path,
        }
    }

    /// Different spellings of a path lead to the same place.
    pub open spec fn spelling_is_irrelevant(self) -> bool {
        forall|a: Seq<char>, b: Seq<char>| #[trigger]
            paths::same(a, b) ==> (self.metadata)(a) == (self.metadata)(b) && (self.tree)(a) == (
            self.tree)(b) && (self.files)(a) == (self.files)(b)
    }

    /// What is told about a package does not depend on which member of its
    /// workspace was asked.
    pub open spec fn members_agree(self) -> bool {
        forall|dir: Seq<char>, i: int|
            #![trigger self.meta(dir)->Some_0.1[i]]
            self.meta(dir) is Some && 0 <= i < self.meta(dir)->Some_0.1.len() ==> {
                let m = self.meta(dir)->Some_0;
                let member = m.1[i].0;
                &&& self.meta(member) is Some
                &&& paths::same(self.meta(member)->Some_0.0, m.0)
                &&& listed_deps(self.meta(member)->Some_0.1, member) == listed_deps(m.1, member)
            }
    }

    /// Nothing is told about what is not there.
    pub open spec fn absent_is_silent(self) -> bool {
        forall|path: Seq<char>|
            #![trigger (self.real)(path)]
            (self.real)(path) is None ==> self.meta(path) is None
    }

    /// The answers that the machine gives fit together.
    pub open spec fn coherent(self) -> bool {
        self.spelling_is_irrelevant() && self.members_agree() && self.absent_is_silent()
    }

    /// The package in one directory depends on what lies in the other.
    pub open spec fn leads(self, from: Seq<char>, to: Seq<char>) -> bool {
        exists|k: int|
            0 <= k < self.deps(from).len() && paths::same(
                self.target(#[trigger] self.deps(from)[k]),
                to,
            )
    }

    /// A directory is reached from the root in `n` steps over local dependencies.
    pub open spec fn reaches_in(self, root: Seq<char>, n: nat, dir: Seq<char>) -> bool
        decreases n,
    {
        if n == 0 {
            paths::same(dir, root)
        } else {
            exists|mid: Seq<char>|
                self.reaches_in(root, (n - 1) as nat, mid) && #[trigger] self.leads(mid, dir)
        }
    }

    /// A directory is the root or reached from it over local dependencies.
    pub open spec fn reaches(self, root: Seq<char>, dir: Seq<char>) -> bool {
        exists|n: nat| #[trigger] self.reaches_in(root, n, dir)
    }

    /// A digest stands for a directory that the root depends on.
    pub open spec fn tree_counts(self, root: Seq<char>, dir: Seq<char>, x: Seq<u8>) -> bool {
        &&& self.reaches(root, dir)
        &&& !paths::same(dir, root)
        &&& x == source_closure::tree_or_marker((self.tree)(dir))
    }

    /// A digest stands for the manifest or the lock file of the workspace that a
    /// reached directory belongs to.
    pub open spec fn root_counts(self, root: Seq<char>, dir: Seq<char>, x: Seq<u8>) -> bool {
        &&& self.reaches(root, dir)
        &&& self.meta(dir) is Some
        &&& x == source_closure::manifest_ingredient((self.files)(self.meta(dir)->Some_0.0).0) || x
            == source_closure::lock_ingredient((self.files)(self.meta(dir)->Some_0.0).1)
    }

    /// All that the closure digest of a package depends on, beside the package's
    /// own tree: the trees of all directories that it reaches over local
    /// dependencies, one that is gone standing for itself by a marker, and the
    /// manifest and lock file of every workspace that is met.
    pub open spec fn closure(self, root: Seq<char>) -> Set<Seq<u8>> {
        Set::new(
            |x: Seq<u8>|
                (exists|dir: Seq<char>| #[trigger] self.tree_counts(root, dir, x)) || (exists|
                    dir: Seq<char>,
                | #[trigger] self.root_counts(root, dir, x)),
        )
    }

    /// The walk after the machine's answer to its question.
    pub open spec fn answered(self, v: WalkView) -> WalkView {
        match v.request() {
            RequestView::Metadata(dir) => v.after_metadata(self.meta(dir)),
            RequestView::Canonicalize(path) => v.after_canonical((self.real)(path)),
            RequestView::Finished => v,
            RequestView::Unresolved => v,
        }
    }

    /// The walk from a root after `n` answers.
    pub open spec fn walked(self, root: Seq<char>, n: nat) -> WalkView
        decreases n,
    {
        if n == 0 {
            WalkView::start(root).settle()
        } else {
            self.answered(self.walked(root, (n - 1) as nat)).settle()
        }
    }
}

/// A directory with the same components has the same entry.
proof fn entry_respects_same(graph: Seq<PackageView>, a: Seq<char>, b: Seq<char>)
    requires
        paths::same(a, b),
    ensures
        closure_walk::entry(graph, a) == closure_walk::entry(graph, b),
    decreases graph.len(),
{
    if graph.len() > 0 {
        entry_respects_same(graph.drop_last(), a, b);
    }
}

/// A graph keeps what it has, and takes the rest from the packages added.
proof fn entry_after_add(graph: Seq<PackageView>, packages: Seq<PackageView>, dir: Seq<char>)
    ensures
        closure_walk::entry(closure_walk::add_packages(graph, packages), dir) == (
        if closure_walk::entry(graph, dir) is Some {
            closure_walk::entry(graph, dir)
        } else {
            listed_deps(packages, dir)
        }),
    decreases packages.len(),
{
    let none = Seq::<PackageView>::empty();
    if packages.len() > 0 {
        let before = packages.drop_last();
        let p = packages.last();
        let g = closure_walk::add_packages(graph, before);
        let e = closure_walk::add_packages(none, before);
        entry_after_add(graph, before, dir);
        entry_after_add(graph, before, p.0);
        assert(g.push(p).drop_last() =~= g);
        assert(e.push(p).drop_last() =~= e);
        if paths::same(p.0, dir) {
            entry_respects_same(graph, p.0, dir);
            entry_respects_same(g, p.0, dir);
            entry_respects_same(e, p.0, dir);
        }
    }
}

/// What has an entry was listed.
proof fn entry_was_listed(packages: Seq<PackageView>, dir: Seq<char>) -> (i: int)
    requires
        listed_deps(packages, dir) is Some,
    ensures
        0 <= i < packages.len(),
        paths::same(packages[i].0, dir),
    decreases packages.len(),
{
    let none = Seq::<PackageView>::empty();
    assert(packages.len() > 0);
    let before = packages.drop_last();
    let p = packages.last();
    let e = closure_walk::add_packages(none, before);
    assert(e.push(p).drop_last() =~= e);
    if paths::same(p.0, dir) {
        packages.len() - 1
    } else {
        entry_was_listed(before, dir)
    }
}

spec fn has_edge(edges: Seq<(Seq<char>, Seq<char>)>, from: Seq<char>, to: Seq<char>) -> bool {
    exists|i: int| 0 <= i < edges.len() && paths::same((#[trigger] edges[i]).0, from) && edges[i].1 == to
}

impl Disk {
    /// How many dependencies of an expanded directory have been answered.
    spec fn answers(self, v: WalkView, dir: Seq<char>) -> nat {
        if !paths::same(dir, v.at) {
            self.deps(dir).len()
        } else if v.wants {
            0
        } else {
            v.next
        }
    }

    /// What the graph has of a directory is what the machine tells, and the
    /// workspace root has been noted.
    spec fn entry_true(self, v: WalkView, dir: Seq<char>) -> bool {
        &&& closure_walk::entry(v.graph, dir) == Some(self.deps(dir))
        &&& self.meta(dir) is Some
        &&& paths::listed(v.roots, self.meta(dir)->Some_0.0)
    }

    /// The workspace root of a directory that has been told about is noted.
    spec fn root_noted(self, v: WalkView, dir: Seq<char>) -> bool {
        !(v.wants && paths::same(dir, v.at)) && self.meta(dir) is Some ==> paths::listed(
            v.roots,
            self.meta(dir)->Some_0.0,
        )
    }

    /// The answers about a directory are among the edges.
    spec fn edges_noted(self, v: WalkView, dir: Seq<char>) -> bool {
        forall|k: int|
            0 <= k < self.answers(v, dir) ==> has_edge(
                v.edges,
                dir,
                self.target(#[trigger] self.deps(dir)[k]),
            )
    }

    spec fn edge_true(self, e: (Seq<char>, Seq<char>)) -> bool {
        exists|k: int|
            0 <= k < self.deps(e.0).len() && e.1 == self.target(#[trigger] self.deps(e.0)[k])
    }

    spec fn root_met(self, v: WalkView, r: Seq<char>) -> bool {
        exists|a: int|
            0 <= a < v.visited.len() && self.meta(#[trigger] v.visited[a]) is Some && self.meta(
                v.visited[a],
            )->Some_0.0 == r
    }

    /// The directory at hand is as the machine tells.
    spec fn at_true(self, v: WalkView) -> bool {
        if v.visited.len() == 0 {
            !v.wants && v.deps.len() == 0 && v.next == 0
        } else {
            &&& paths::listed(v.visited, v.at)
            &&& v.wants ==> closure_walk::entry(v.graph, v.at) is None && !v.failed
            &&& !v.wants ==> v.deps == self.deps(v.at) && v.next <= v.deps.len()
        }
    }

    /// The walk has failed exactly if the root has been asked about in vain.
    spec fn failure_true(self, v: WalkView) -> bool {
        if !paths::listed(v.visited, v.root) || (v.wants && paths::same(v.at, v.root)) {
            !v.failed
        } else {
            v.failed <==> self.meta(v.root) is None
        }
    }

    /// The walk has come to where it is by the machine's answers.
    spec fn followed(self, v: WalkView) -> bool {
        &&& v.valid()
        &&& self.at_true(v)
        &&& self.failure_true(v)
        &&& forall|dir: Seq<char>| #[trigger]
            closure_walk::entry(v.graph, dir) is Some ==> self.entry_true(v, dir)
        &&& forall|a: int| 0 <= a < v.visited.len() ==> self.root_noted(v, #[trigger] v.visited[a])
        &&& forall|a: int| 0 <= a < v.visited.len() ==> self.edges_noted(v, #[trigger] v.visited[a])
        &&& forall|i: int| 0 <= i < v.edges.len() ==> self.edge_true(#[trigger] v.edges[i])
        &&& forall|i: int| 0 <= i < v.roots.len() ==> self.root_met(v, #[trigger] v.roots[i])
        &&& forall|i: int| 0 <= i < v.gone.len() ==> (self.real)(#[trigger] v.gone[i]) is None
    }
}

proof fn deps_respect_same(disk: Disk, a: Seq<char>, b: Seq<char>)
    requires
        disk.spelling_is_irrelevant(),
        paths::same(a, b),
    ensures
        disk.meta(a) == disk.meta(b),
        disk.deps(a) == disk.deps(b),
{
    if disk.meta(a) is Some {
        let m = disk.meta(a)->Some_0;
        entry_respects_same(
            closure_walk::add_packages(Seq::empty(), m.1),
            a,
            b,
        );
    }
}

proof fn listed_respects_same(list: Seq<Seq<char>>, a: Seq<char>, b: Seq<char>)
    requires
        paths::same(a, b),
        paths::listed(list, a),
    ensures
        paths::listed(list, b),
{
    let i = choose|i: int| 0 <= i < list.len() && paths::same(#[trigger] list[i], a);
    assert(paths::same(list[i], b));
}

proof fn listed_after_add(list: Seq<Seq<char>>, p: Seq<char>)
    ensures
        paths::listed(closure_walk::add_path(list, p), p),
        forall|x: Seq<char>| #[trigger]
            paths::listed(list, x) ==> paths::listed(closure_walk::add_path(list, p), x),
{
    let after = closure_walk::add_path(list, p);
    if !paths::listed(list, p) {
        assert(after[list.len() as int] == p);
        assert(paths::same(after[list.len() as int], p));
        assert forall|x: Seq<char>| #[trigger] paths::listed(list, x) implies paths::listed(
            after,
            x,
        ) by {
            let i = choose|i: int| 0 <= i < list.len() && paths::same(#[trigger] list[i], x);
            assert(after[i] == list[i]);
        }
    }
}

proof fn start_is_followed(disk: Disk, root: Seq<char>)
    ensures
        disk.followed(WalkView::start(root)),
{
    closure_walk::start_is_valid(root);
}

proof fn advance_keeps_followed(disk: Disk, v: WalkView)
    requires
        disk.coherent(),
        disk.followed(v),
        v.may_advance(),
    ensures
        disk.followed(v.advance()),
{
    let w = v.advance();
    let dir = v.queue.last();
    closure_walk::advance_keeps_valid(v);
    if paths::listed(v.visited, dir) {
        assert forall|a: int| 0 <= a < w.visited.len() implies disk.root_noted(
            w,
            #[trigger] w.visited[a],
        ) && disk.edges_noted(w, w.visited[a]) by {
            assert(disk.root_noted(v, v.visited[a]));
            assert(disk.edges_noted(v, v.visited[a]));
        }
        assert forall|i: int| 0 <= i < w.roots.len() implies disk.root_met(
            w,
            #[trigger] w.roots[i],
        ) by {
            assert(disk.root_met(v, v.roots[i]));
        }
        assert forall|d: Seq<char>| #[trigger]
            closure_walk::entry(w.graph, d) is Some implies disk.entry_true(w, d) by {
            assert(disk.entry_true(v, d));
        }
    } else {
        advance_to_new(disk, v);
    }
}

proof fn advance_to_new(disk: Disk, v: WalkView)
    requires
        disk.coherent(),
        disk.followed(v),
        v.may_advance(),
        !paths::listed(v.visited, v.queue.last()),
    ensures
        disk.followed(v.advance()),
{
    let w = v.advance();
    let dir = v.queue.last();
    let n = v.visited.len() as int;
    closure_walk::advance_keeps_valid(v);
    assert(w.visited[n] == dir);
    assert(paths::same(w.visited[n], dir));
    if closure_walk::entry(v.graph, dir) is Some {
        assert(disk.entry_true(v, dir));
    }
    assert forall|d: Seq<char>| #[trigger]
        closure_walk::entry(w.graph, d) is Some implies disk.entry_true(w, d) by {
        assert(disk.entry_true(v, d));
    }
    assert forall|a: int| 0 <= a < w.visited.len() implies disk.root_noted(
        w,
        #[trigger] w.visited[a],
    ) && disk.edges_noted(w, w.visited[a]) by {
        if a < n {
            let d = v.visited[a];
            assert(w.visited[a] == d);
            assert(disk.root_noted(v, d));
            assert(disk.edges_noted(v, d));
            assert(!paths::same(d, dir));
            if paths::same(d, v.at) {
                deps_respect_same(disk, d, v.at);
            }
            assert(disk.answers(w, d) == disk.answers(v, d));
        } else {
            assert(disk.answers(w, dir) == 0);
        }
    }
    assert forall|i: int| 0 <= i < w.roots.len() implies disk.root_met(w, #[trigger] w.roots[i]) by {
        assert(disk.root_met(v, v.roots[i]));
        let a = choose|a: int|
            0 <= a < v.visited.len() && disk.meta(#[trigger] v.visited[a]) is Some && disk.meta(
                v.visited[a],
            )->Some_0.0 == v.roots[i];
        assert(w.visited[a] == v.visited[a]);
    }
    if paths::same(dir, v.root) {
        deps_respect_same(disk, dir, v.root);
        if paths::listed(v.visited, v.root) {
            listed_respects_same(v.visited, v.root, dir);
        }
    } else {
        if paths::listed(w.visited, v.root) {
            let i = choose|i: int|
                0 <= i < w.visited.len() && paths::same(#[trigger] w.visited[i], v.root);
            assert(i < n);
            assert(v.visited[i] == w.visited[i]);
        }
        if paths::listed(v.visited, v.root) {
            let i = choose|i: int|
                0 <= i < v.visited.len() && paths::same(#[trigger] v.visited[i], v.root);
            assert(w.visited[i] == v.visited[i]);
        }
    }
}

proof fn settle_keeps_followed(disk: Disk, v: WalkView)
    requires
        disk.coherent(),
        disk.followed(v),
    ensures
        disk.followed(v.settle()),
        !v.settle().may_advance(),
    decreases v.queue.len(),
{
    if v.may_advance() {
        advance_keeps_followed(disk, v);
        settle_keeps_followed(disk, v.advance());
    }
}

proof fn graph_stays_true(disk: Disk, v: WalkView, dir: Seq<char>)
    requires
        disk.coherent(),
        disk.followed(v),
        v.wants,
        disk.meta(v.at) is Some,
        closure_walk::entry(v.after_metadata(disk.meta(v.at)).graph, dir) is Some,
    ensures
        disk.entry_true(v.after_metadata(disk.meta(v.at)), dir),
{
    let m = disk.meta(v.at)->Some_0;
    let w = v.after_metadata(disk.meta(v.at));
    entry_after_add(v.graph, m.1, dir);
    listed_after_add(v.roots, m.0);
    if closure_walk::entry(v.graph, dir) is Some {
        assert(disk.entry_true(v, dir));
    } else {
        let i = entry_was_listed(m.1, dir);
        let member = m.1[i].0;
        assert(disk.meta(v.at)->Some_0.1[i].0 == member);
        deps_respect_same(disk, member, dir);
        entry_respects_same(closure_walk::add_packages(Seq::empty(), m.1), member, dir);
        entry_respects_same(
            closure_walk::add_packages(Seq::empty(), disk.meta(member)->Some_0.1),
            member,
            dir,
        );
        listed_respects_same(w.roots, m.0, disk.meta(member)->Some_0.0);
    }
}

proof fn metadata_keeps_followed(disk: Disk, v: WalkView)
    requires
        disk.coherent(),
        disk.followed(v),
        v.wants,
    ensures
        disk.followed(v.after_metadata(disk.meta(v.at))),
{
    let w = v.after_metadata(disk.meta(v.at));
    closure_walk::metadata_keeps_valid(v, disk.meta(v.at));
    if disk.meta(v.at) is Some {
        let m = disk.meta(v.at)->Some_0;
        entry_after_add(v.graph, m.1, v.at);
        listed_after_add(v.roots, m.0);
        assert forall|d: Seq<char>| #[trigger]
            closure_walk::entry(w.graph, d) is Some implies disk.entry_true(w, d) by {
            graph_stays_true(disk, v, d);
        }
    } else {
        assert forall|d: Seq<char>| #[trigger]
            closure_walk::entry(w.graph, d) is Some implies disk.entry_true(w, d) by {
            assert(disk.entry_true(v, d));
        }
    }
    assert forall|a: int| 0 <= a < w.visited.len() implies disk.root_noted(
        w,
        #[trigger] w.visited[a],
    ) && disk.edges_noted(w, w.visited[a]) by {
        let d = v.visited[a];
        assert(disk.root_noted(v, d));
        assert(disk.edges_noted(v, d));
        if paths::same(d, v.at) {
            deps_respect_same(disk, d, v.at);
        }
    }
    assert forall|i: int| 0 <= i < w.roots.len() implies disk.root_met(w, #[trigger] w.roots[i]) by {
        if i < v.roots.len() {
            assert(w.roots[i] == v.roots[i]);
            assert(disk.root_met(v, v.roots[i]));
        } else {
            let a = choose|a: int|
                0 <= a < v.visited.len() && paths::same(#[trigger] v.visited[a], v.at);
            deps_respect_same(disk, v.visited[a], v.at);
            assert(disk.meta(w.visited[a])->Some_0.0 == w.roots[i]);
        }
    }
    if paths::same(v.at, v.root) {
        deps_respect_same(disk, v.at, v.root);
        listed_respects_same(v.visited, v.at, v.root);
    }
}

proof fn canonical_keeps_followed(disk: Disk, v: WalkView)
    requires
        disk.coherent(),
        disk.followed(v),
        !v.wants,
        v.next < v.deps.len(),
    ensures
        disk.followed(v.after_canonical((disk.real)(v.deps[v.next as int]))),
{
    let p = v.deps[v.next as int];
    let w = v.after_canonical((disk.real)(p));
    let e = (v.at, disk.target(p));
    closure_walk::canonical_keeps_valid(v, (disk.real)(p));
    assert(w.edges == v.edges.push(e));
    assert(w.edges[v.edges.len() as int] == e);
    assert(disk.edge_true(e)) by {
        assert(disk.deps(v.at)[v.next as int] == p);
    }
    assert forall|i: int| 0 <= i < w.edges.len() implies disk.edge_true(#[trigger] w.edges[i]) by {
        if i < v.edges.len() {
            assert(w.edges[i] == v.edges[i]);
        }
    }
    assert forall|a: int| 0 <= a < w.visited.len() implies disk.root_noted(
        w,
        #[trigger] w.visited[a],
    ) && disk.edges_noted(w, w.visited[a]) by {
        let d = v.visited[a];
        assert(disk.root_noted(v, d));
        assert(disk.edges_noted(v, d));
        if paths::same(d, v.at) {
            deps_respect_same(disk, d, v.at);
        }
        assert forall|k: int| 0 <= k < disk.answers(w, d) implies has_edge(
            w.edges,
            d,
            disk.target(#[trigger] disk.deps(d)[k]),
        ) by {
            let to = disk.target(disk.deps(d)[k]);
            if k < disk.answers(v, d) {
                assert(has_edge(v.edges, d, to));
                let i = choose|i: int|
                    0 <= i < v.edges.len() && paths::same((#[trigger] v.edges[i]).0, d)
                        && v.edges[i].1 == to;
                assert(w.edges[i] == v.edges[i]);
            } else {
                assert(k == v.next && to == e.1);
                assert(paths::same(w.edges[v.edges.len() as int].0, d));
            }
        }
    }
    assert forall|d: Seq<char>| #[trigger]
        closure_walk::entry(w.graph, d) is Some implies disk.entry_true(w, d) by {
        assert(disk.entry_true(v, d));
    }
    assert forall|i: int| 0 <= i < w.roots.len() implies disk.root_met(w, #[trigger] w.roots[i]) by {
        assert(disk.root_met(v, v.roots[i]));
    }
    assert forall|i: int| 0 <= i < w.gone.len() implies (disk.real)(#[trigger] w.gone[i]) is None by {
        if i < v.gone.len() {
            assert(w.gone[i] == v.gone[i]);
        }
    }
}

proof fn walked_is_followed(disk: Disk, root: Seq<char>, n: nat)
    requires
        disk.coherent(),
    ensures
        disk.followed(disk.walked(root, n)),
        !disk.walked(root, n).may_advance(),
        disk.walked(root, n).root == root,
    decreases n,
{
    if n == 0 {
        start_is_followed(disk, root);
        settle_keeps_followed(disk, WalkView::start(root));
        settle_keeps_root(WalkView::start(root));
    } else {
        let v = disk.walked(root, (n - 1) as nat);
        walked_is_followed(disk, root, (n - 1) as nat);
        if v.request() is Metadata {
            metadata_keeps_followed(disk, v);
        } else if v.request() is Canonicalize {
            canonical_keeps_followed(disk, v);
        }
        settle_keeps_followed(disk, disk.answered(v));
        settle_keeps_root(disk.answered(v));
    }
}

proof fn settle_keeps_root(v: WalkView)
    ensures
        v.settle().root == v.root,
    decreases v.queue.len(),
{
    if v.may_advance() {
        settle_keeps_root(v.advance());
    }
}

/// A dependency of a directory that a finished walk found is among its edges.
proof fn edge_of(disk: Disk, v: WalkView, mid: Seq<char>, dir: Seq<char>) -> (i: int)
    requires
        disk.coherent(),
        disk.followed(v),
        v.request() == RequestView::Finished,
        paths::listed(v.visited, mid) || paths::listed(v.gone, mid),
        disk.leads(mid, dir),
    ensures
        0 <= i < v.edges.len(),
        paths::same(mid, v.edges[i].0),
        paths::same(v.edges[i].1, dir),
{
    let k = choose|k: int|
        0 <= k < disk.deps(mid).len() && paths::same(
            disk.target(#[trigger] disk.deps(mid)[k]),
            dir,
        );
    let to = disk.target(disk.deps(mid)[k]);
    if paths::listed(v.visited, mid) {
        let a = choose|a: int| 0 <= a < v.visited.len() && paths::same(#[trigger] v.visited[a], mid);
        let d = v.visited[a];
        deps_respect_same(disk, d, mid);
        assert(disk.edges_noted(v, d));
        if paths::same(d, v.at) {
            deps_respect_same(disk, d, v.at);
        }
        assert(disk.answers(v, d) == disk.deps(d).len());
        assert(has_edge(v.edges, d, disk.target(disk.deps(d)[k])));
        choose|i: int|
            0 <= i < v.edges.len() && paths::same((#[trigger] v.edges[i]).0, d) && v.edges[i].1
                == to
    } else {
        let a = choose|a: int| 0 <= a < v.gone.len() && paths::same(#[trigger] v.gone[a], mid);
        deps_respect_same(disk, v.gone[a], mid);
        assert((disk.real)(v.gone[a]) is None);
        0
    }
}

/// What the machine leads to, the edges of a finished walk lead to.
proof fn reached_by_edges(disk: Disk, v: WalkView, n: nat, dir: Seq<char>)
    requires
        disk.coherent(),
        disk.followed(v),
        !v.may_advance(),
        v.request() == RequestView::Finished,
        disk.reaches_in(v.root, n, dir),
    ensures
        closure_walk::reached(v.edges, v.root, n, dir),
    decreases n,
{
    if n > 0 {
        let mid = choose|mid: Seq<char>|
            disk.reaches_in(v.root, (n - 1) as nat, mid) && #[trigger] disk.leads(mid, dir);
        reached_by_edges(disk, v, (n - 1) as nat, mid);
        assert(closure_walk::reachable(v.edges, v.root, mid));
        closure_walk::finished_walk_is_complete(v, mid);
        let i = edge_of(disk, v, mid, dir);
        closure_walk::reached_respects_same(v.edges, v.root, (n - 1) as nat, mid, v.edges[i].0);
    }
}

/// What the edges of a walk lead to, the machine leads to.
proof fn reached_on_disk(disk: Disk, v: WalkView, n: nat, dir: Seq<char>)
    requires
        disk.followed(v),
        closure_walk::reached(v.edges, v.root, n, dir),
    ensures
        disk.reaches_in(v.root, n, dir),
    decreases n,
{
    if n > 0 {
        let i = choose|i: int|
            0 <= i < v.edges.len() && paths::same((#[trigger] v.edges[i]).1, dir)
                && closure_walk::reached(v.edges, v.root, (n - 1) as nat, v.edges[i].0);
        let from = v.edges[i].0;
        reached_on_disk(disk, v, (n - 1) as nat, from);
        assert(disk.edge_true(v.edges[i]));
        let k = choose|k: int|
            0 <= k < disk.deps(from).len() && v.edges[i].1 == disk.target(
                #[trigger] disk.deps(from)[k],
            );
        assert(paths::same(disk.target(disk.deps(from)[k]), dir));
        assert(disk.leads(from, dir));
    }
}

proof fn reachable_is_reached(disk: Disk, v: WalkView, dir: Seq<char>)
    requires
        disk.coherent(),
        disk.followed(v),
        !v.may_advance(),
        v.request() == RequestView::Finished,
    ensures
        closure_walk::reachable(v.edges, v.root, dir) <==> disk.reaches(v.root, dir),
{
    if closure_walk::reachable(v.edges, v.root, dir) {
        let n = choose|n: nat| #[trigger] closure_walk::reached(v.edges, v.root, n, dir);
        reached_on_disk(disk, v, n, dir);
    }
    if disk.reaches(v.root, dir) {
        let n = choose|n: nat| #[trigger] disk.reaches_in(v.root, n, dir);
        reached_by_edges(disk, v, n, dir);
    }
}

impl Disk {
    /// The digests of the dependency trees that a walk found.
    pub open spec fn found_trees(self, v: WalkView) -> Seq<Result<Seq<u8>, BuildErrorView>> {
        v.trees.map_values(|p: Seq<char>| (self.tree)(p))
    }

    /// The manifests and lock files of the workspace roots that a walk met.
    pub open spec fn found_roots(self, v: WalkView) -> Seq<(Option<Seq<u8>>, Option<Seq<u8>>)> {
        v.roots.map_values(|p: Seq<char>| (self.files)(p))
    }
}

proof fn found_is_closure(disk: Disk, v: WalkView, x: Seq<u8>)
    requires
        disk.coherent(),
        disk.followed(v),
        !v.may_advance(),
        v.request() == RequestView::Finished,
        source_closure::ingredients(disk.found_trees(v), disk.found_roots(v)).contains(x),
    ensures
        disk.closure(v.root).contains(x),
{
    let trees = disk.found_trees(v);
    let roots = disk.found_roots(v);
    if exists|i: int|
        0 <= i < trees.len() && x == source_closure::tree_or_marker(#[trigger] trees[i]) {
        let i = choose|i: int|
            0 <= i < trees.len() && x == source_closure::tree_or_marker(#[trigger] trees[i]);
        let dir = v.trees[i];
        assert(paths::same(v.trees[i], dir));
        assert(paths::listed(v.trees, dir));
        closure_walk::finished_walk_is_complete(v, dir);
        reachable_is_reached(disk, v, dir);
        assert(disk.tree_counts(v.root, dir, x));
    } else {
        let i = choose|i: int|
            0 <= i < roots.len() && (x == source_closure::manifest_ingredient(
                (#[trigger] roots[i]).0,
            ) || x == source_closure::lock_ingredient(roots[i].1));
        assert(disk.root_met(v, v.roots[i]));
        let a = choose|a: int|
            0 <= a < v.visited.len() && disk.meta(#[trigger] v.visited[a]) is Some && disk.meta(
                v.visited[a],
            )->Some_0.0 == v.roots[i];
        let dir = v.visited[a];
        assert(paths::same(v.visited[a], dir));
        assert(paths::listed(v.visited, dir));
        closure_walk::finished_walk_is_complete(v, dir);
        reachable_is_reached(disk, v, dir);
        assert(disk.root_counts(v.root, dir, x));
    }
}

proof fn closure_is_found(disk: Disk, v: WalkView, x: Seq<u8>)
    requires
        disk.coherent(),
        disk.followed(v),
        !v.may_advance(),
        v.request() == RequestView::Finished,
        disk.closure(v.root).contains(x),
    ensures
        source_closure::ingredients(disk.found_trees(v), disk.found_roots(v)).contains(x),
{
    let trees = disk.found_trees(v);
    let roots = disk.found_roots(v);
    if exists|dir: Seq<char>| #[trigger] disk.tree_counts(v.root, dir, x) {
        let dir = choose|dir: Seq<char>| #[trigger] disk.tree_counts(v.root, dir, x);
        reachable_is_reached(disk, v, dir);
        closure_walk::finished_walk_is_complete(v, dir);
        let i = choose|i: int| 0 <= i < v.trees.len() && paths::same(#[trigger] v.trees[i], dir);
        assert(trees[i] == (disk.tree)(dir));
    } else {
        let dir = choose|dir: Seq<char>| #[trigger] disk.root_counts(v.root, dir, x);
        reachable_is_reached(disk, v, dir);
        closure_walk::finished_walk_is_complete(v, dir);
        if paths::listed(v.visited, dir) {
            let a = choose|a: int|
                0 <= a < v.visited.len() && paths::same(#[trigger] v.visited[a], dir);
            deps_respect_same(disk, v.visited[a], dir);
            assert(disk.root_noted(v, v.visited[a]));
            let r = disk.meta(dir)->Some_0.0;
            let i = choose|i: int| 0 <= i < v.roots.len() && paths::same(#[trigger] v.roots[i], r);
            assert(roots[i] == (disk.files)(r));
        } else {
            let a = choose|a: int| 0 <= a < v.gone.len() && paths::same(#[trigger] v.gone[a], dir);
            deps_respect_same(disk, v.gone[a], dir);
            assert((disk.real)(v.gone[a]) is None);
        }
    }
}

/// A walk that has come to its end has found exactly what the digest has to depend
/// on: what it found amounts to the trees of all directories that the root reaches
/// over local dependencies, gone ones by their marker, and the manifests and lock
/// files of all workspaces met, and to nothing else.
pub proof fn walk_finds_the_closure(disk: Disk, root: Seq<char>, n: nat)
    requires
        disk.coherent(),
        disk.walked(root, n).request() == RequestView::Finished,
    ensures
        source_closure::ingredients(
            disk.found_trees(disk.walked(root, n)),
            disk.found_roots(disk.walked(root, n)),
        ) == disk.closure(root),
{
    let v = disk.walked(root, n);
    walked_is_followed(disk, root, n);
    assert forall|x: Seq<u8>|
        source_closure::ingredients(disk.found_trees(v), disk.found_roots(v)).contains(x)
            <==> disk.closure(root).contains(x) by {
        if source_closure::ingredients(disk.found_trees(v), disk.found_roots(v)).contains(x) {
            found_is_closure(disk, v, x);
        }
        if disk.closure(root).contains(x) {
            closure_is_found(disk, v, x);
        }
    }
    assert(source_closure::ingredients(disk.found_trees(v), disk.found_roots(v)) =~= disk.closure(
        root,
    ));
}

/// Paths that are all different and all listed are no more than the list has.
proof fn no_more_than_listed(list: Seq<Seq<char>>, all: Seq<Seq<char>>)
    requires
        closure_walk::no_path_twice(list),
        forall|i: int| 0 <= i < list.len() ==> paths::listed(all, #[trigger] list[i]),
    ensures
        list.len() <= all.len(),
    decreases all.len(),
{
    if all.len() == 0 {
        if list.len() > 0 {
            assert(paths::listed(all, list[0]));
        }
    } else {
        let fewer = all.drop_last();
        let last = all.last();
        if paths::listed(list, last) {
            let i = choose|i: int| 0 <= i < list.len() && paths::same(#[trigger] list[i], last);
            let rest = list.remove(i);
            assert forall|j: int| 0 <= j < rest.len() implies paths::listed(
                fewer,
                #[trigger] rest[j],
            ) by {
                let k = if j < i {
                    j
                } else {
                    j + 1
                };
                assert(rest[j] == list[k]);
                let m = choose|m: int| 0 <= m < all.len() && paths::same(#[trigger] all[m], list[k]);
                if m == all.len() - 1 {
                    if k < i {
                        assert(!paths::same(list[k], list[i]));
                    } else {
                        assert(!paths::same(list[i], list[k]));
                    }
                }
                assert(fewer[m] == all[m]);
            }
            assert forall|j: int, k: int| 0 <= j < k < rest.len() implies !paths::same(
                #[trigger] rest[j],
                #[trigger] rest[k],
            ) by {
                let j2 = if j < i {
                    j
                } else {
                    j + 1
                };
                let k2 = if k < i {
                    k
                } else {
                    k + 1
                };
                assert(rest[j] == list[j2] && rest[k] == list[k2]);
            }
            no_more_than_listed(rest, fewer);
        } else {
            assert forall|j: int| 0 <= j < list.len() implies paths::listed(
                fewer,
                #[trigger] list[j],
            ) by {
                let m = choose|m: int| 0 <= m < all.len() && paths::same(#[trigger] all[m], list[j]);
                if m == all.len() - 1 {
                    assert(paths::same(list[j], last));
                }
                assert(fewer[m] == all[m]);
            }
            no_more_than_listed(list, fewer);
        }
    }
}

/// Every path leads to one of the listed directories, or nowhere.
pub open spec fn leads_only_to(disk: Disk, dirs: Seq<Seq<char>>) -> bool {
    forall|path: Seq<char>|
        #![trigger (disk.real)(path)]
        (disk.real)(path) is Some ==> paths::listed(dirs, (disk.real)(path)->Some_0)
}

/// The walk has only been to listed directories, and goes nowhere else.
spec fn stays_in(v: WalkView, dirs: Seq<Seq<char>>) -> bool {
    &&& forall|i: int| 0 <= i < v.visited.len() ==> paths::listed(dirs, #[trigger] v.visited[i])
    &&& forall|i: int| 0 <= i < v.queue.len() ==> paths::listed(dirs, #[trigger] v.queue[i])
}

proof fn settle_moves_on(v: WalkView, dirs: Seq<Seq<char>>)
    requires
        stays_in(v, dirs),
    ensures
        stays_in(v.settle(), dirs),
        v.settle().visited.len() >= v.visited.len(),
        v.settle().visited.len() == v.visited.len() ==> v.settle().wants == v.wants
            && v.settle().deps == v.deps && v.settle().next == v.next,
    decreases v.queue.len(),
{
    if v.may_advance() {
        let w = v.advance();
        let dir = v.queue.last();
        assert(paths::listed(dirs, v.queue[v.queue.len() - 1]));
        assert forall|i: int| 0 <= i < w.visited.len() implies paths::listed(
            dirs,
            #[trigger] w.visited[i],
        ) by {
            if i < v.visited.len() {
                assert(w.visited[i] == v.visited[i]);
            }
        }
        assert forall|i: int| 0 <= i < w.queue.len() implies paths::listed(
            dirs,
            #[trigger] w.queue[i],
        ) by {
            assert(w.queue[i] == v.queue[i]);
        }
        settle_moves_on(w, dirs);
    }
}

proof fn answer_moves_on(disk: Disk, v: WalkView, dirs: Seq<Seq<char>>)
    requires
        leads_only_to(disk, dirs),
        stays_in(v, dirs),
    ensures
        stays_in(disk.answered(v), dirs),
        disk.answered(v).visited == v.visited,
        v.request() is Metadata ==> !disk.answered(v).wants,
        v.request() is Canonicalize ==> disk.answered(v).wants == v.wants && disk.answered(v).deps
            == v.deps && disk.answered(v).next == v.next + 1,
{
    let w = disk.answered(v);
    assert forall|i: int| 0 <= i < w.queue.len() implies paths::listed(
        dirs,
        #[trigger] w.queue[i],
    ) by {
        if i < v.queue.len() {
            assert(w.queue[i] == v.queue[i]);
        }
    }
}

proof fn walked_stays_in(disk: Disk, root: Seq<char>, n: nat, dirs: Seq<Seq<char>>)
    requires
        leads_only_to(disk, dirs),
        paths::listed(dirs, root),
    ensures
        stays_in(disk.walked(root, n), dirs),
    decreases n,
{
    if n == 0 {
        settle_moves_on(WalkView::start(root), dirs);
    } else {
        let v = disk.walked(root, (n - 1) as nat);
        walked_stays_in(disk, root, (n - 1) as nat, dirs);
        answer_moves_on(disk, v, dirs);
        settle_moves_on(disk.answered(v), dirs);
    }
}

proof fn walk_ends_after(disk: Disk, root: Seq<char>, n: nat, dirs: Seq<Seq<char>>) -> (m: nat)
    requires
        disk.coherent(),
        leads_only_to(disk, dirs),
        paths::listed(dirs, root),
    ensures
        disk.walked(root, m).request() is Finished || disk.walked(root, m).request() is Unresolved,
    decreases
            dirs.len() - disk.walked(root, n).visited.len(),
            if disk.walked(root, n).wants {
                1int
            } else {
                0int
            },
            disk.walked(root, n).deps.len() - disk.walked(root, n).next,
{
    let v = disk.walked(root, n);
    if v.request() is Finished || v.request() is Unresolved {
        n
    } else {
        let w = disk.walked(root, n + 1);
        walked_stays_in(disk, root, n, dirs);
        walked_stays_in(disk, root, n + 1, dirs);
        walked_is_followed(disk, root, n);
        walked_is_followed(disk, root, n + 1);
        no_more_than_listed(v.visited, dirs);
        no_more_than_listed(w.visited, dirs);
        answer_moves_on(disk, v, dirs);
        settle_moves_on(disk.answered(v), dirs);
        walk_ends_after(disk, root, n + 1, dirs)
    }
}

/// The walk comes to an end, whatever cycles and links there are, as long as there
/// are finitely many directories: it finishes if cargo can tell about the root,
/// and gives up otherwise.
pub proof fn walk_ends(disk: Disk, root: Seq<char>, dirs: Seq<Seq<char>>)
    requires
        disk.coherent(),
        leads_only_to(disk, dirs),
    ensures
        exists|n: nat| #[trigger]
            disk.walked(root, n).request() == (if disk.meta(root) is Some {
                RequestView::Finished
            } else {
                RequestView::Unresolved
            }),
{
    let all = dirs.push(root);
    assert(all[dirs.len() as int] == root);
    assert(paths::same(all[dirs.len() as int], root));
    assert forall|path: Seq<char>|
        #![trigger (disk.real)(path)]
        (disk.real)(path) is Some implies paths::listed(all, (disk.real)(path)->Some_0) by {
        let p = (disk.real)(path)->Some_0;
        let i = choose|i: int| 0 <= i < dirs.len() && paths::same(#[trigger] dirs[i], p);
        assert(all[i] == dirs[i]);
    }
    let n = walk_ends_after(disk, root, 0, all);
    let v = disk.walked(root, n);
    walked_is_followed(disk, root, n);
    if v.request() is Finished {
        assert(v.queue.len() == 0);
    }
}

/// Digests have the length of a SHA-256 digest.
pub open spec fn full_length(list: Set<Seq<u8>>) -> bool {
    forall|x: Seq<u8>| #[trigger] list.contains(x) ==> x.len() == 32
}

proof fn ingredients_decide(a: Seq<Seq<u8>>, b: Seq<Seq<u8>>)
    requires
        forall|i: int| 0 <= i < a.len() ==> (#[trigger] a[i]).len() == 32,
        forall|i: int| 0 <= i < b.len() ==> (#[trigger] b[i]).len() == 32,
        source_closure::ingredient_bytes(a) == source_closure::ingredient_bytes(b),
    ensures
        a == b,
    decreases a.len(),
{
    let tag = text::utf8(":in:"@);
    if a.len() == 0 || b.len() == 0 {
        if a.len() > 0 {
            assert(a[a.len() - 1] == a.last());
            assert(source_closure::ingredient_bytes(a).len() >= 32);
        }
        if b.len() > 0 {
            assert(b[b.len() - 1] == b.last());
            assert(source_closure::ingredient_bytes(b).len() >= 32);
        }
        assert(a.len() == 0 && b.len() == 0);
        assert(a =~= b);
    } else {
        let s = source_closure::ingredient_bytes(a);
        let x = source_closure::ingredient_bytes(a.drop_last());
        let y = source_closure::ingredient_bytes(b.drop_last());
        let p = a.last();
        let q = b.last();
        assert(a[a.len() - 1] == p && b[b.len() - 1] == q);
        assert(s == x + tag + p);
        assert(s == y + tag + q);
        assert(p =~= s.skip(s.len() - 32));
        assert(q =~= s.skip(s.len() - 32));
        assert(x =~= s.take(s.len() - 32 - tag.len()));
        assert(y =~= s.take(s.len() - 32 - tag.len()));
        ingredients_decide(a.drop_last(), b.drop_last());
        assert(a =~= a.drop_last().push(p));
        assert(b =~= b.drop_last().push(q));
    }
}

/// The closure digest of a package depends on exactly two things: the digest of
/// its own tree, and its closure. Packages on any machines, wherever they lie,
/// have the same preimage if and only if they agree in both.
pub proof fn digest_depends_on_exactly(
    here: (Disk, Seq<char>),
    own: Seq<u8>,
    sorted: Seq<Seq<u8>>,
    there: (Disk, Seq<char>),
    other: Seq<u8>,
    ordered: Seq<Seq<u8>>,
)
    requires
        order::strictly_sorted(order::byte_key(), sorted),
        order::strictly_sorted(order::byte_key(), ordered),
        sorted.to_set() == here.0.closure(here.1),
        ordered.to_set() == there.0.closure(there.1),
        full_length(here.0.closure(here.1)),
        full_length(there.0.closure(there.1)),
        own.len() == 32,
        other.len() == 32,
    ensures
        source_closure::closure_preimage(own, Some(sorted)) == source_closure::closure_preimage(
            other,
            Some(ordered),
        ) <==> own == other && here.0.closure(here.1) == there.0.closure(there.1),
{
    if own == other && here.0.closure(here.1) == there.0.closure(there.1) {
        order::strictly_sorted_unique(order::byte_key(), sorted, ordered);
    }
    let s = source_closure::closure_preimage(own, Some(sorted));
    if s == source_closure::closure_preimage(other, Some(ordered)) {
        let head = text::utf8("closure:v1:"@);
        let tag = text::utf8("resolved:root:"@);
        let x = source_closure::ingredient_bytes(sorted);
        let y = source_closure::ingredient_bytes(ordered);
        let k = (head.len() + tag.len()) as int;
        assert(s == head + (tag + own + x));
        assert(s == head + (tag + other + y));
        assert(own =~= s.subrange(k, k + 32));
        assert(other =~= s.subrange(k, k + 32));
        assert(x =~= s.skip(k + 32));
        assert(y =~= s.skip(k + 32));
        assert forall|i: int| 0 <= i < sorted.len() implies (#[trigger] sorted[i]).len() == 32 by {
            assert(sorted.contains(sorted[i]));
            assert(sorted.to_set().contains(sorted[i]));
        }
        assert forall|i: int| 0 <= i < ordered.len() implies (#[trigger] ordered[i]).len() == 32 by {
            assert(ordered.contains(ordered[i]));
            assert(ordered.to_set().contains(ordered[i]));
        }
        ingredients_decide(sorted, ordered);
    }
}

/// The content of a workspace file shows, and so does whether it is there:
/// different states have different preimages. A manifest and a lock file never
/// share one.
pub proof fn workspace_files_are_told_apart(c: Option<Seq<u8>>, d: Option<Seq<u8>>)
    ensures
        source_closure::file_preimage("ws-manifest:"@, c) == source_closure::file_preimage(
            "ws-manifest:"@,
            d,
        ) <==> c == d,
        source_closure::file_preimage("ws-lock:"@, c) == source_closure::file_preimage(
            "ws-lock:"@,
            d,
        ) <==> c == d,
        source_closure::file_preimage("ws-manifest:"@, c) != source_closure::file_preimage(
            "ws-lock:"@,
            d,
        ),
{
    if source_closure::file_preimage("ws-manifest:"@, c) == source_closure::file_preimage(
        "ws-manifest:"@,
        d,
    ) {
        contents_decide("ws-manifest:"@, c, d);
    }
    if source_closure::file_preimage("ws-lock:"@, c) == source_closure::file_preimage(
        "ws-lock:"@,
        d,
    ) {
        contents_decide("ws-lock:"@, c, d);
    }
    reveal_strlit("ws-manifest:");
    reveal_strlit("ws-lock:");
    vstd::utf8::is_ascii_chars_encode_utf8("ws-manifest:"@);
    vstd::utf8::is_ascii_chars_encode_utf8("ws-lock:"@);
    let m = text::utf8("ws-manifest:"@);
    let l = text::utf8("ws-lock:"@);
    assert(m[3] == 'm' as u8);
    assert(l[3] == 'l' as u8);
    assert(source_closure::file_preimage("ws-manifest:"@, c)[3] == m[3]);
    assert(source_closure::file_preimage("ws-lock:"@, d)[3] == l[3]);
}

proof fn contents_decide(label: Seq<char>, c: Option<Seq<u8>>, d: Option<Seq<u8>>)
    requires
        source_closure::file_preimage(label, c) == source_closure::file_preimage(label, d),
    ensures
        c == d,
{
    let s = source_closure::file_preimage(label, c);
    let t = source_closure::file_preimage(label, d);
    let n = text::utf8(label).len() as int;
    reveal_strlit("ok:");
    reveal_strlit("absent");
    vstd::utf8::is_ascii_chars_encode_utf8("ok:"@);
    vstd::utf8::is_ascii_chars_encode_utf8("absent"@);
    let ok = text::utf8("ok:"@);
    let absent = text::utf8("absent"@);
    assert(ok[0] == 'o' as u8);
    assert(absent[0] == 'a' as u8);
    match (c, d) {
        (Some(p), Some(q)) => {
            assert(p =~= s.skip(n + 3));
            assert(q =~= t.skip(n + 3));
        },
        (Some(_), None) => {
            assert(s[n] == ok[0]);
            assert(t[n] == absent[0]);
        },
        (None, Some(_)) => {
            assert(s[n] == absent[0]);
            assert(t[n] == ok[0]);
        },
        (None, None) => {},
    }
}

proof fn dep_paths_concat(a: Seq<JsonView>, b: Seq<JsonView>)
    ensures
        metadata::dep_paths(a + b) == metadata::dep_paths(a) + metadata::dep_paths(b),
    decreases b.len(),
{
    if b.len() == 0 {
        assert(a + b =~= a);
        assert(metadata::dep_paths(a) + metadata::dep_paths(b) =~= metadata::dep_paths(a));
    } else {
        dep_paths_concat(a, b.drop_last());
        assert((a + b).drop_last() =~= a + b.drop_last());
        assert((a + b).last() == b.last());
        assert(metadata::dep_paths(a + b) =~= metadata::dep_paths(a) + metadata::dep_paths(b));
    }
}

/// A development dependency is no dependency: among those that cargo lists for a
/// package it can come or go without a change.
pub proof fn development_is_irrelevant(before: Seq<JsonView>, dev: JsonView, after: Seq<JsonView>)
    requires
        metadata::text_member(dev, "kind"@) == Some("dev"@),
    ensures
        metadata::dep_paths(before + seq![dev] + after) == metadata::dep_paths(before + after),
{
    let one = seq![dev];
    dep_paths_concat(before + one, after);
    dep_paths_concat(before, one);
    dep_paths_concat(before, after);
    assert(one.drop_last() =~= Seq::<JsonView>::empty());
    assert(one.last() == dev);
    assert(metadata::dep_paths(Seq::<JsonView>::empty()) =~= Seq::<Seq<char>>::empty());
    assert(metadata::dep_paths(one) =~= Seq::<Seq<char>>::empty());
    assert(metadata::dep_paths(before) + metadata::dep_paths(one) =~= metadata::dep_paths(before));
}

} // verus!
