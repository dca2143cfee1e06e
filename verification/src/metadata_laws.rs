//! What is read out of a `cargo metadata` document: every package and every local
//! dependency that it lists, in its order.

use crate::metadata;
use crate::metadata::JsonView;
use crate::paths;
use crate::picking;
use vstd::prelude::*;

verus! {

/// An object with a string under a key.
pub open spec fn holds_text(v: JsonView, key: Seq<char>, s: Seq<char>) -> bool {
    v matches JsonView::Object(m) && m.contains_key(key) && m[key] == JsonView::Text(s)
}

/// An object with an array under a key.
pub open spec fn holds_list(v: JsonView, key: Seq<char>, a: Seq<JsonView>) -> bool {
    v matches JsonView::Object(m) && m.contains_key(key) && m[key] == JsonView::Array(a)
}

/// A string is found under a key exactly if the object holds it there.
pub proof fn texts_are_found(v: JsonView, key: Seq<char>)
    ensures
        forall|s: Seq<char>| #[trigger]
            holds_text(v, key, s) <==> metadata::text_member(v, key) == Some(s),
{
}

/// A document tells of a workspace exactly if it holds a root and a list of
/// packages, and then it tells that root and those packages.
pub proof fn root_and_packages_are_told(v: JsonView, root: Seq<char>, list: Seq<JsonView>)
    ensures
        holds_text(v, "workspace_root"@, root) && holds_list(v, "packages"@, list)
            ==> metadata::meta_of(v) == Some((root, metadata::packages_of(list))),
        metadata::meta_of(v) is Some ==> exists|r: Seq<char>, l: Seq<JsonView>|
            #![trigger holds_text(v, "workspace_root"@, r), holds_list(v, "packages"@, l)]
            holds_text(v, "workspace_root"@, r) && holds_list(v, "packages"@, l),
{
    if metadata::meta_of(v) is Some {
        let r = metadata::text_member(v, "workspace_root"@)->Some_0;
        let l = metadata::elements(metadata::member(v, "packages"@)->Some_0)->Some_0;
        assert(holds_text(v, "workspace_root"@, r));
        assert(holds_list(v, "packages"@, l));
    }
}

/// A package whose manifest is named and lies in a directory.
pub open spec fn named(p: JsonView) -> bool {
    match metadata::text_member(p, "manifest_path"@) {
        Some(m) => paths::parent_of(m) is Some,
        None => false,
    }
}

/// The dependencies of a package are those that it lists, and none where it lists
/// none.
pub proof fn listed_dependencies_count(p: JsonView, list: Seq<JsonView>)
    ensures
        holds_list(p, "dependencies"@, list) ==> metadata::package_deps(p) == list,
        (forall|l: Seq<JsonView>| !#[trigger] holds_list(p, "dependencies"@, l))
            ==> metadata::package_deps(p).len() == 0,
{
    if forall|l: Seq<JsonView>| !#[trigger] holds_list(p, "dependencies"@, l) {
        match metadata::member(p, "dependencies"@) {
            Some(d) => match metadata::elements(d) {
                Some(a) => {
                    assert(holds_list(p, "dependencies"@, a));
                },
                None => {},
            },
            None => {},
        }
    }
}

/// Every package whose manifest is named and lies in a directory is reported, each
/// once and in the order of the list, with the directory of its manifest and with
/// its local dependencies; no other package is.
pub proof fn every_package_is_reported(list: Seq<JsonView>) -> (kept: Seq<int>)
    ensures
        picking::picks(kept, list.len(), |i: int| named(list[i])),
        metadata::packages_of(list).len() == kept.len(),
        forall|k: int|
            #![trigger metadata::packages_of(list)[k]]
            0 <= k < kept.len() ==> {
                let (dir, deps) = metadata::packages_of(list)[k];
                let p = list[kept[k]];
                &&& Some(dir) == paths::parent_of(
                    metadata::text_member(p, "manifest_path"@)->Some_0,
                )
                &&& deps == metadata::dep_paths(metadata::package_deps(p))
            },
    decreases list.len(),
{
    let keep = |i: int| named(list[i]);
    if list.len() == 0 {
        Seq::empty()
    } else {
        let before = list.drop_last();
        let n = before.len();
        let kept = every_package_is_reported(before);
        picking::picks_agree(kept, n, |i: int| named(before[i]), keep);
        picking::picks_grow(kept, n, keep);
        let more = if keep(n as int) {
            kept.push(n as int)
        } else {
            kept
        };
        let all = metadata::packages_of(list);
        assert forall|k: int| #![trigger all[k]] 0 <= k < more.len() implies {
            let (dir, deps) = all[k];
            let p = list[more[k]];
            &&& Some(dir) == paths::parent_of(metadata::text_member(p, "manifest_path"@)->Some_0)
            &&& deps == metadata::dep_paths(metadata::package_deps(p))
        } by {
            if k < kept.len() {
                assert(metadata::packages_of(before)[k] == all[k]);
                assert(before[kept[k]] == list[more[k]]);
            }
        }
        more
    }
}

/// Where every package names a manifest in a directory, as many packages are
/// reported as are listed, each at its place.
pub proof fn as_many_packages_as_manifests(list: Seq<JsonView>)
    requires
        forall|i: int| 0 <= i < list.len() ==> named(#[trigger] list[i]),
    ensures
        metadata::packages_of(list).len() == list.len(),
        forall|i: int|
            #![trigger metadata::packages_of(list)[i]]
            0 <= i < list.len() ==> Some(metadata::packages_of(list)[i].0) == paths::parent_of(
                metadata::text_member(list[i], "manifest_path"@)->Some_0,
            ),
    decreases list.len(),
{
    if list.len() > 0 {
        let before = list.drop_last();
        assert forall|i: int| 0 <= i < before.len() implies named(#[trigger] before[i]) by {
            assert(before[i] == list[i]);
        }
        as_many_packages_as_manifests(before);
        assert(named(list[list.len() - 1]));
        assert forall|i: int|
            #![trigger metadata::packages_of(list)[i]]
            0 <= i < list.len() implies Some(metadata::packages_of(list)[i].0) == paths::parent_of(
            metadata::text_member(list[i], "manifest_path"@)->Some_0,
        ) by {
            if i < before.len() {
                assert(metadata::packages_of(before)[i] == metadata::packages_of(list)[i]);
            }
        }
    }
}

/// A dependency that is compiled and lies in a local directory.
pub open spec fn local(d: JsonView) -> bool {
    !holds_text(d, "kind"@, "dev"@) && metadata::text_member(d, "path"@) is Some
}

/// Every dependency on a local directory counts, whatever its kind, unless it is
/// one for development; each once and in the order of the list.
pub proof fn every_local_dependency_counts(deps: Seq<JsonView>) -> (kept: Seq<int>)
    ensures
        picking::picks(kept, deps.len(), |i: int| local(deps[i])),
        metadata::dep_paths(deps).len() == kept.len(),
        forall|k: int|
            #![trigger metadata::dep_paths(deps)[k]]
            0 <= k < kept.len() ==> holds_text(
                deps[kept[k]],
                "path"@,
                metadata::dep_paths(deps)[k],
            ),
    decreases deps.len(),
{
    let keep = |i: int| local(deps[i]);
    if deps.len() == 0 {
        Seq::empty()
    } else {
        let before = deps.drop_last();
        let n = before.len();
        let kept = every_local_dependency_counts(before);
        picking::picks_agree(kept, n, |i: int| local(before[i]), keep);
        picking::picks_grow(kept, n, keep);
        let more = if keep(n as int) {
            kept.push(n as int)
        } else {
            kept
        };
        texts_are_found(deps.last(), "kind"@);
        texts_are_found(deps.last(), "path"@);
        let all = metadata::dep_paths(deps);
        assert forall|k: int| #![trigger all[k]] 0 <= k < more.len() implies holds_text(
            deps[more[k]],
            "path"@,
            all[k],
        ) by {
            if k < kept.len() {
                assert(metadata::dep_paths(before)[k] == all[k]);
                assert(before[kept[k]] == deps[more[k]]);
            } else {
                assert(metadata::text_member(deps.last(), "path"@) == Some(all[k]));
            }
        }
        more
    }
}

} // verus!
