//! What holds of every manifest that passed its checks.

use crate::checks;
use crate::checks::CharClass;
use crate::manifest;
use crate::manifest::{ActionEntryView, ManifestView, NodeView};
use crate::text;
use vstd::prelude::*;

verus! {

/// No character of the class occurs in the text.
pub open spec fn free_of(s: Seq<char>, class: CharClass) -> bool {
    forall|i: int| 0 <= i < s.len() ==> !checks::in_class(#[trigger] s[i], class)
}

/// An id that names a directory directly inside the workspace.
pub open spec fn safe_id(id: Seq<char>) -> bool {
    &&& id.len() > 0
    &&& free_of(id, CharClass::Separator)
    &&& free_of(id, CharClass::Control)
    &&& id != "."@
    &&& id != ".."@
}

/// A value that no command line tool takes for a flag.
pub open spec fn no_flag(value: Option<Seq<char>>) -> bool {
    value is Some ==> !text::first_is(value->0, '-')
}

/// A relative path without `..` that no command line tool takes for a flag.
pub open spec fn contained(path: Option<Seq<char>>) -> bool {
    path matches Some(p) ==> {
        &&& p.len() > 0
        &&& free_of(p, CharClass::Control)
        &&& !text::first_is(p, '-')
        &&& !text::first_is(p, '/')
        &&& !checks::has_parent_component(p)
    }
}

/// The target, features, tag and paths of the entry are harmless where they
/// reach a subprocess. A package and a profile are taken as they come.
pub open spec fn safe_entry(entry: ActionEntryView, has_path: bool) -> bool {
    match entry {
        ActionEntryView::GitClone => true,
        ActionEntryView::CargoInstall { crate_name, features, .. } => {
            &&& no_flag(crate_name)
            &&& crate_name matches Some(name) ==> !name.contains(',')
            &&& forall|i: int|
                0 <= i < features.len() ==> !text::first_is(#[trigger] features[i], '-')
                    && !features[i].contains(',')
        },
        ActionEntryView::Docker { tag, dockerfile, context } => {
            &&& tag.len() > 0
            &&& !text::first_is(tag, '-')
            &&& free_of(tag, CharClass::OutsideTag)
            &&& contained(dockerfile)
            &&& contained(context)
            &&& has_path
        },
        ActionEntryView::Repolith { manifest } => contained(manifest) && has_path,
    }
}

/// A URL of an allowed scheme of which no part begins with `-`.
pub open spec fn safe_url(url: Seq<char>) -> bool {
    &&& url.len() > 0
    &&& free_of(url, CharClass::Control)
    &&& !text::first_is(url, '-')
    &&& if checks::has_rfc_scheme(url) {
        &&& checks::url_parts(url) matches Ok(parts)
        &&& !text::first_is(parts.0, '-')
        &&& no_flag(parts.1)
        &&& parts.2 matches Some(segments) ==> forall|i: int|
            0 <= i < segments.len() ==> !text::first_is(#[trigger] segments[i], '-')
    } else {
        &&& text::begins_with(url, "git@"@)
        &&& checks::scp_host(url).len() > 0
        &&& !text::first_is(checks::scp_host(url), '-')
        &&& forall|i: int|
            0 <= i < text::split_on(checks::scp_path(url), '/').len() ==> !text::first_is(
                #[trigger] text::split_on(checks::scp_path(url), '/')[i],
                '-',
            )
    }
}

/// A node whose id, source and actions are in order.
pub open spec fn safe_node(node: NodeView) -> bool {
    &&& safe_id(node.id)
    &&& node.git is Some || node.path is Some
    &&& node.git matches Some(url) ==> safe_url(url)
    &&& forall|i: int|
        0 <= i < node.actions.len() ==> safe_entry(#[trigger] node.actions[i], node.path is Some)
}

/// No two nodes share an id.
pub open spec fn distinct_ids(nodes: Seq<NodeView>) -> bool {
    forall|i: int, j: int|
        0 <= i < nodes.len() && 0 <= j < nodes.len() && i != j ==> (#[trigger] nodes[i]).id != (
        #[trigger] nodes[j]).id
}

/// A manifest is accepted exactly when its schema version is, no two nodes
/// share an id, and every node is in order.
pub proof fn accepted_means_safe(m: ManifestView)
    ensures
        checks::manifest_error(m) is None <==> {
            &&& checks::schema_error(m.schema_version) is None
            &&& distinct_ids(m.nodes)
            &&& forall|n: int| 0 <= n < m.nodes.len() ==> safe_node(#[trigger] m.nodes[n])
        },
{
    nodes_accepted(m.nodes, 0);
    if forall|n: int| 0 <= n < m.nodes.len() ==> checks::node_error(m.nodes, n) is None {
        assert forall|i: int, j: int|
            0 <= i < m.nodes.len() && 0 <= j < m.nodes.len() && i != j implies (
        #[trigger] m.nodes[i]).id != (#[trigger] m.nodes[j]).id by {
            let lo = if i < j {
                i
            } else {
                j
            };
            let hi = if i < j {
                j
            } else {
                i
            };
            assert(checks::node_error(m.nodes, hi) is None);
            if m.nodes[lo].id == m.nodes[hi].id {
                assert(checks::seen_before(m.nodes, hi));
            }
        }
        assert forall|n: int| 0 <= n < m.nodes.len() implies safe_node(#[trigger] m.nodes[n]) by {
            node_accepted(m.nodes, n);
        }
    }
    if distinct_ids(m.nodes) && forall|n: int|
        0 <= n < m.nodes.len() ==> safe_node(#[trigger] m.nodes[n]) {
        assert forall|n: int| 0 <= n < m.nodes.len() implies checks::node_error(
            m.nodes,
            n,
        ) is None by {
            assert(safe_node(m.nodes[n]));
            node_accepted(m.nodes, n);
        }
    }
}

proof fn nodes_accepted(nodes: Seq<NodeView>, n: int)
    requires
        0 <= n <= nodes.len(),
    ensures
        checks::nodes_error(nodes, n) is None <==> forall|k: int|
            n <= k < nodes.len() ==> #[trigger] checks::node_error(nodes, k) is None,
    decreases nodes.len() - n,
{
    if n < nodes.len() {
        nodes_accepted(nodes, n + 1);
        assert(checks::nodes_error(nodes, n) == checks::or_else(
            checks::node_error(nodes, n),
            checks::nodes_error(nodes, n + 1),
        ));
    }
}

proof fn node_accepted(nodes: Seq<NodeView>, n: int)
    requires
        0 <= n < nodes.len(),
    ensures
        checks::node_error(nodes, n) is None <==> !checks::seen_before(nodes, n) && safe_node(
            nodes[n],
        ),
{
    let node = nodes[n];
    checks::first_in_class_none(node.id, CharClass::Separator);
    checks::first_in_class_none(node.id, CharClass::Control);
    if node.git is Some {
        url_accepted(node.git->0, node.id);
    }
    entries_accepted(node.actions, node.id, node.path is Some, 0);
}

proof fn url_accepted(url: Seq<char>, node: Seq<char>)
    ensures
        checks::url_error(url, node) is None <==> safe_url(url),
{
    checks::first_in_class_none(url, CharClass::Control);
    checks::first_dashed_none(text::split_on(checks::scp_path(url), '/'));
    match checks::url_parts(url) {
        Ok(parts) => {
            match parts.2 {
                Some(segments) => {
                    checks::first_dashed_none(segments);
                },
                None => {},
            }
        },
        Err(_) => {},
    }
}

proof fn contained_accepted(path: Option<Seq<char>>, node: Seq<char>, field: Seq<char>)
    ensures
        checks::opt_path_error(path, node, field) is None <==> contained(path),
{
    if path is Some {
        checks::first_in_class_none(path->0, CharClass::Control);
    }
}

proof fn features_accepted(features: Seq<Seq<char>>, node: Seq<char>, i: int)
    requires
        0 <= i <= features.len(),
    ensures
        checks::features_error(features, node, i) is None <==> forall|k: int|
            i <= k < features.len() ==> !text::first_is(#[trigger] features[k], '-')
                && !features[k].contains(','),
    decreases features.len() - i,
{
    if i < features.len() {
        features_accepted(features, node, i + 1);
    }
}

proof fn entry_accepted(entry: ActionEntryView, node: Seq<char>, has_path: bool)
    ensures
        checks::entry_error(entry, node, has_path) is None <==> safe_entry(entry, has_path),
{
    match entry {
        ActionEntryView::GitClone => {},
        ActionEntryView::CargoInstall { features, .. } => {
            features_accepted(features, node, 0);
        },
        ActionEntryView::Docker { tag, dockerfile, context } => {
            checks::first_in_class_none(tag, CharClass::OutsideTag);
            contained_accepted(dockerfile, node, "dockerfile"@);
            contained_accepted(context, node, "context"@);
        },
        ActionEntryView::Repolith { manifest } => {
            contained_accepted(manifest, node, "manifest"@);
        },
    }
}

proof fn entries_accepted(
    entries: Seq<ActionEntryView>,
    node: Seq<char>,
    has_path: bool,
    i: int,
)
    requires
        0 <= i <= entries.len(),
    ensures
        checks::entries_error(entries, node, has_path, i) is None <==> forall|k: int|
            i <= k < entries.len() ==> safe_entry(#[trigger] entries[k], has_path),
    decreases entries.len() - i,
{
    if i < entries.len() {
        entries_accepted(entries, node, has_path, i + 1);
        entry_accepted(entries[i], node, has_path);
    }
}

/// Two texts made of a piece without `:`, a double colon and a rest agree only
/// when both pieces and both rests do.
proof fn split_at_colons(a: Seq<char>, b: Seq<char>, x: Seq<char>, y: Seq<char>)
    requires
        !a.contains(':'),
        !b.contains(':'),
        a + "::"@ + x == b + "::"@ + y,
    ensures
        a == b,
        x == y,
{
    reveal_strlit("::");
    let s = a + "::"@ + x;
    let t = b + "::"@ + y;
    assert(s =~= a + ("::"@ + x));
    assert(t =~= b + ("::"@ + y));
    text::find_in_prefix(a, "::"@ + x, ':');
    text::find_in_prefix(b, "::"@ + y, ':');
    assert(a =~= s.take(a.len() as int));
    assert(b =~= t.take(b.len() as int));
    assert(x =~= s.skip(a.len() as int + 2));
    assert(y =~= t.skip(b.len() as int + 2));
}

proof fn kind_without_colon(entry: ActionEntryView)
    ensures
        !manifest::kind_text(entry).contains(':'),
{
    reveal_strlit("git-clone");
    reveal_strlit("cargo-install");
    reveal_strlit("docker");
    reveal_strlit("repolith");
}

/// The id of an action tells its node's id and its position.
pub proof fn action_id_injective(a: NodeView, i: int, b: NodeView, j: int)
    requires
        safe_id(a.id),
        safe_id(b.id),
        0 <= i < a.actions.len(),
        0 <= j < b.actions.len(),
        manifest::action_id_text(a, i) == manifest::action_id_text(b, j),
    ensures
        a.id == b.id,
        i == j,
{
    let ka = manifest::kind_text(a.actions[i]);
    let kb = manifest::kind_text(b.actions[j]);
    let da = text::dec_text(i as nat);
    let db = text::dec_text(j as nat);
    assert(manifest::action_id_text(a, i) =~= a.id + "::"@ + (ka + "::"@ + da));
    assert(manifest::action_id_text(b, j) =~= b.id + "::"@ + (kb + "::"@ + db));
    assert(!a.id.contains(':')) by {
        if a.id.contains(':') {
            let k = choose|k: int| 0 <= k < a.id.len() && a.id[k] == ':';
            assert(checks::in_class(a.id[k], CharClass::Separator));
        }
    }
    assert(!b.id.contains(':')) by {
        if b.id.contains(':') {
            let k = choose|k: int| 0 <= k < b.id.len() && b.id[k] == ':';
            assert(checks::in_class(b.id[k], CharClass::Separator));
        }
    }
    split_at_colons(a.id, b.id, ka + "::"@ + da, kb + "::"@ + db);
    kind_without_colon(a.actions[i]);
    kind_without_colon(b.actions[j]);
    split_at_colons(ka, kb, da, db);
    text::dec_round_trip(i as nat);
    text::dec_round_trip(j as nat);
}

proof fn listed_action_id(nodes: Seq<NodeView>, n: int, id: Seq<char>)
    requires
        0 <= n <= nodes.len(),
        manifest::manifest_action_ids(nodes, n).contains(id),
    ensures
        exists|k: int, i: int|
            0 <= k < n && 0 <= i < nodes[k].actions.len() && id
                == #[trigger] manifest::action_id_text(nodes[k], i),
    decreases n,
{
    if n > 0 {
        let before = manifest::manifest_action_ids(nodes, n - 1);
        let own = manifest::node_action_ids(nodes[n - 1], nodes[n - 1].actions.len() as int);
        let all = manifest::manifest_action_ids(nodes, n);
        let p = choose|p: int| 0 <= p < all.len() && all[p] == id;
        if p < before.len() {
            assert(before[p] == id);
            listed_action_id(nodes, n - 1, id);
            let (k, i) = choose|k: int, i: int|
                0 <= k < n - 1 && 0 <= i < nodes[k].actions.len() && id
                    == #[trigger] manifest::action_id_text(nodes[k], i);
            assert(0 <= k < n && id == manifest::action_id_text(nodes[k], i));
        } else {
            let i = p - before.len();
            assert(own[i] == id);
            assert(id == manifest::action_id_text(nodes[n - 1], i));
        }
    }
}

/// An accepted manifest gives every action an id of its own.
pub proof fn action_ids_are_unique(m: ManifestView)
    requires
        checks::manifest_error(m) is None,
    ensures
        manifest::manifest_action_ids(m.nodes, m.nodes.len() as int).no_duplicates(),
{
    accepted_means_safe(m);
    action_ids_unique_upto(m.nodes, m.nodes.len() as int);
}

proof fn action_ids_unique_upto(nodes: Seq<NodeView>, n: int)
    requires
        0 <= n <= nodes.len(),
        distinct_ids(nodes),
        forall|k: int| 0 <= k < nodes.len() ==> safe_node(#[trigger] nodes[k]),
    ensures
        manifest::manifest_action_ids(nodes, n).no_duplicates(),
    decreases n,
{
    if n > 0 {
        action_ids_unique_upto(nodes, n - 1);
        let before = manifest::manifest_action_ids(nodes, n - 1);
        let own = manifest::node_action_ids(nodes[n - 1], nodes[n - 1].actions.len() as int);
        let all = manifest::manifest_action_ids(nodes, n);
        assert(safe_node(nodes[n - 1]));
        assert forall|p: int, q: int| 0 <= p < q < all.len() implies all[p] != all[q] by {
            if all[p] == all[q] && q >= before.len() {
                let j = q - before.len();
                assert(own[j] == all[q]);
                if p < before.len() {
                    assert(before[p] == all[p]);
                    assert(before.contains(all[p]));
                    listed_action_id(nodes, n - 1, all[p]);
                    let (k, i) = choose|k: int, i: int|
                        0 <= k < n - 1 && 0 <= i < nodes[k].actions.len() && all[p]
                            == #[trigger] manifest::action_id_text(nodes[k], i);
                    assert(safe_node(nodes[k]));
                    action_id_injective(nodes[k], i, nodes[n - 1], j);
                } else {
                    let i = p - before.len();
                    assert(own[i] == all[p]);
                    action_id_injective(nodes[n - 1], i, nodes[n - 1], j);
                }
            } else if all[p] == all[q] {
                assert(before[p] == all[p] && before[q] == all[q]);
            }
        }
        assert forall|p: int, q: int|
            0 <= p < all.len() && 0 <= q < all.len() && p != q implies all[p] != all[q] by {
            if p < q {
                assert(all[p] != all[q]);
            } else {
                assert(all[q] != all[p]);
            }
        }
    }
}

} // verus!
