//! The local source closure of a cargo package: every tree on this machine
//! whose contents can change the binary that installing it produces.
//!
//! The closure holds the package's own tree, the tree of every local dependency
//! reachable from it, and the manifest and lock file of each workspace root that
//! is met. Trees contribute only their content digests, ordered by value: where
//! they lie does not matter.

use crate::digest;
use crate::digest::Hasher;
use crate::git_clone;
use crate::order;
use crate::paths;
use crate::text;
use crate::types::{BuildError, BuildErrorView, Sha256};
use vstd::prelude::*;

verus! {

/// The digest that stands for a dependency tree that has gone missing.
pub open spec fn tree_or_marker(tree: Result<Seq<u8>, BuildErrorView>) -> Seq<u8> {
    match tree {
        Ok(d) => d,
        Err(_) => digest::sha256_of(text::utf8("absent-dep-tree"@)),
    }
}

/// The digest of a dependency tree. One that has gone missing is a state of its
/// own, and no reason to fail.
pub fn tree_digest_or_marker(tree: &Result<Sha256, BuildError>) -> (r: Sha256)
    ensures
        r@ == tree_or_marker(git_clone::hash_result(*tree)),
{
    match tree {
        Ok(d) => *d,
        Err(_) => {
            let mut h = Hasher::new();
            h.update_text("absent-dep-tree");
            assert(h@ =~= text::utf8("absent-dep-tree"@));
            h.finalize()
        },
    }
}

/// The preimage of the digest of a labelled file.
pub open spec fn file_preimage(label: Seq<char>, content: Option<Seq<u8>>) -> Seq<u8> {
    text::utf8(label) + match content {
        Some(bytes) => text::utf8("ok:"@) + bytes,
        None => text::utf8("absent"@),
    }
}

/// What an optional file content holds.
pub open spec fn opt_bytes(c: Option<Vec<u8>>) -> Option<Seq<u8>> {
    match c {
        Some(b) => Some(b@),
        None => None,
    }
}

/// The content digest of a file that may be absent, tagged so that two
/// different files with the same bytes stay apart.
pub fn file_digest(label: &str, content: &Option<Vec<u8>>) -> (r: Sha256)
    ensures
        r@ == digest::sha256_of(file_preimage(label@, opt_bytes(*content))),
{
    let mut h = Hasher::new();
    h.update_text(label);
    match content {
        Some(bytes) => {
            h.update_text("ok:");
            h.update(bytes.as_slice());
        },
        None => {
            h.update_text("absent");
        },
    }
    assert(h@ =~= file_preimage(label@, opt_bytes(*content)));
    h.finalize()
}

/// The views of a list of hashes.
pub open spec fn hash_list(v: Seq<Sha256>) -> Seq<Seq<u8>> {
    v.map_values(|h: Sha256| h@)
}

/// What the ingredients add to the preimage.
pub open spec fn ingredient_bytes(s: Seq<Seq<u8>>) -> Seq<u8>
    decreases s.len(),
{
    if s.len() == 0 {
        Seq::empty()
    } else {
        ingredient_bytes(s.drop_last()) + text::utf8(":in:"@) + s.last()
    }
}

/// The preimage of a closure digest: the root alone where the closure could not
/// be resolved, else the root and the ingredients in order.
pub open spec fn closure_preimage(root: Seq<u8>, ingredients: Option<Seq<Seq<u8>>>) -> Seq<u8> {
    text::utf8("closure:v1:"@) + match ingredients {
        None => text::utf8("unresolved:"@) + root,
        Some(s) => text::utf8("resolved:root:"@) + root + ingredient_bytes(s),
    }
}

/// `sorted` holds each of the given digests once, in increasing order.
pub open spec fn sorted_set(given: Seq<Seq<u8>>, sorted: Seq<Seq<u8>>) -> bool {
    order::strictly_sorted(order::byte_key(), sorted) && sorted.to_set() == given.to_set()
}

/// Adds a digest to a strictly sorted list, unless it is there already.
fn insert_hash(list: &mut Vec<Sha256>, h: Sha256)
    requires
        order::strictly_sorted(order::byte_key(), hash_list(old(list)@)),
    ensures
        order::strictly_sorted(order::byte_key(), hash_list(final(list)@)),
        forall|x: Seq<u8>| #[trigger]
            hash_list(final(list)@).contains(x) <==> hash_list(old(list)@).contains(x) || x == h@,
{
    let ghost v = hash_list(list@);
    let mut i: usize = 0;
    while i < list.len() && order::bytes_less(&list[i].0, &h.0)
        invariant
            i <= list.len(),
            v == hash_list(list@),
            list@ == old(list)@,
            forall|k: int| 0 <= k < i ==> order::lex_lt(order::byte_key(), #[trigger] v[k], h@),
        decreases list.len() - i,
    {
        assert(v[i as int] == list@[i as int]@);
        i = i + 1;
    }
    if i < list.len() && list[i].same(&h) {
        assert(v[i as int] == h@);
        return ;
    }
    proof {
        if i < list.len() {
            assert(v[i as int] == list@[i as int]@);
            order::byte_key_injective();
            order::lex_total(order::byte_key(), v[i as int], h@);
        }
        order::insert_keeps_sorted(order::byte_key(), v, i as int, h@);
    }
    list.insert(i, h);
    assert(hash_list(list@) =~= v.insert(i as int, h@));
}

/// The content digest of a package's root tree together with everything it is
/// built from.
///
/// `root` is the digest of the root tree, `ingredients` the digests of all else
/// in any order, or nothing where the closure could not be resolved. Fails
/// exactly when the root tree could not be walked.
pub fn source_closure_digest(
    root: &Result<Sha256, BuildError>,
    ingredients: &Option<Vec<Sha256>>,
) -> (r: Result<Sha256, BuildError>)
    ensures
        match (*root, *ingredients) {
            (Err(e), _) => git_clone::hash_result(r) == Err::<Seq<u8>, BuildErrorView>(e@),
            (Ok(d), None) => git_clone::hash_result(r) == Ok::<Seq<u8>, BuildErrorView>(
                digest::sha256_of(closure_preimage(d@, None)),
            ),
            (Ok(d), Some(list)) => exists|sorted: Seq<Seq<u8>>| #[trigger]
                sorted_set(hash_list(list@), sorted) && git_clone::hash_result(r) == Ok::<
                    Seq<u8>,
                    BuildErrorView,
                >(digest::sha256_of(closure_preimage(d@, Some(sorted)))),
        },
{
    let d = match root {
        Err(e) => {
            return Err(e.clone());
        },
        Ok(d) => *d,
    };
    let mut h = Hasher::new();
    h.update_text("closure:v1:");
    match ingredients {
        None => {
            h.update_text("unresolved:");
            h.update(&d.0);
            assert(h@ =~= closure_preimage(d@, None));
            Ok(h.finalize())
        },
        Some(list) => {
            let sorted = sort_hashes(list);
            h.update_text("resolved:root:");
            h.update(&d.0);
            let ghost sv = hash_list(sorted@);
            let ghost head = h@;
            let mut i: usize = 0;
            assert(head + ingredient_bytes(sv.take(0)) =~= head);
            while i < sorted.len()
                invariant
                    i <= sorted.len(),
                    sv == hash_list(sorted@),
                    h@ == head + ingredient_bytes(sv.take(i as int)),
                decreases sorted.len() - i,
            {
                let ghost before = h@;
                h.update_text(":in:");
                h.update(&sorted[i].0);
                proof {
                    let t = sv.take(i + 1);
                    assert(t.drop_last() =~= sv.take(i as int));
                    assert(t.last() == sorted@[i as int]@);
                    assert(h@ =~= head + ingredient_bytes(t));
                }
                i = i + 1;
            }
            assert(sv.take(sv.len() as int) =~= sv);
            assert(h@ =~= closure_preimage(d@, Some(sv)));
            Ok(h.finalize())
        },
    }
}

/// The digests in increasing order, each once.
fn sort_hashes(list: &Vec<Sha256>) -> (r: Vec<Sha256>)
    ensures
        sorted_set(hash_list(list@), hash_list(r@)),
{
    let ghost lv = hash_list(list@);
    let mut r: Vec<Sha256> = Vec::new();
    let mut i: usize = 0;
    while i < list.len()
        invariant
            i <= list.len(),
            lv == hash_list(list@),
            order::strictly_sorted(order::byte_key(), hash_list(r@)),
            forall|x: Seq<u8>| #[trigger] hash_list(r@).contains(x) <==> lv.take(i as int).contains(x),
        decreases list.len() - i,
    {
        insert_hash(&mut r, list[i]);
        proof {
            let t0 = lv.take(i as int);
            let t1 = lv.take(i + 1);
            assert(t1 =~= t0.push(list@[i as int]@));
            assert forall|x: Seq<u8>| #[trigger] hash_list(r@).contains(x) <==> t1.contains(x) by {
                if t1.contains(x) {
                    let k = choose|k: int| 0 <= k < t1.len() && t1[k] == x;
                    if k < t0.len() {
                        assert(t0[k] == x);
                    }
                }
                if t0.contains(x) {
                    let k = choose|k: int| 0 <= k < t0.len() && t0[k] == x;
                    assert(t1[k] == x);
                }
                assert(t1[i as int] == list@[i as int]@);
            }
        }
        i = i + 1;
    }
    proof {
        assert(lv.take(lv.len() as int) =~= lv);
        assert forall|x: Seq<u8>| hash_list(r@).to_set().contains(x) <==> lv.to_set().contains(x) by {
            assert(hash_list(r@).contains(x) <==> lv.contains(x));
        }
        assert(hash_list(r@).to_set() =~= lv.to_set());
    }
    r
}

/// The digests of a list of dependency trees, or why they could not be walked.
pub open spec fn tree_results(v: Seq<Result<Sha256, BuildError>>) -> Seq<
    Result<Seq<u8>, BuildErrorView>,
> {
    v.map_values(|t: Result<Sha256, BuildError>| git_clone::hash_result(t))
}

/// What the manifests and lock files of a list of workspace roots hold.
pub open spec fn root_contents(v: Seq<(Option<Vec<u8>>, Option<Vec<u8>>)>) -> Seq<
    (Option<Seq<u8>>, Option<Seq<u8>>),
> {
    v.map_values(|f: (Option<Vec<u8>>, Option<Vec<u8>>)| (opt_bytes(f.0), opt_bytes(f.1)))
}

/// The digest of the manifest of a workspace root.
pub open spec fn manifest_ingredient(content: Option<Seq<u8>>) -> Seq<u8> {
    digest::sha256_of(file_preimage("ws-manifest:"@, content))
}

/// The digest of the lock file of a workspace root.
pub open spec fn lock_ingredient(content: Option<Seq<u8>>) -> Seq<u8> {
    digest::sha256_of(file_preimage("ws-lock:"@, content))
}

/// What enters a closure digest beside the root tree: one digest or marker for
/// each dependency tree, and one digest for the manifest and one for the lock
/// file of each workspace root.
pub open spec fn ingredients(
    trees: Seq<Result<Seq<u8>, BuildErrorView>>,
    roots: Seq<(Option<Seq<u8>>, Option<Seq<u8>>)>,
) -> Set<Seq<u8>> {
    Set::new(
        |x: Seq<u8>|
            (exists|i: int| 0 <= i < trees.len() && x == tree_or_marker(#[trigger] trees[i])) || (
            exists|i: int|
                0 <= i < roots.len() && (x == manifest_ingredient((#[trigger] roots[i]).0) || x
                    == lock_ingredient(roots[i].1))),
    )
}

/// The files of a workspace root that change what is built from it: its manifest
/// and its lock file.
pub fn workspace_files(root: &str) -> (r: (String, String))
    ensures
        r.0@ == paths::joined_path(root@, "Cargo.toml"@),
        r.1@ == paths::joined_path(root@, "Cargo.lock"@),
{
    (paths::join_path(root, "Cargo.toml"), paths::join_path(root, "Cargo.lock"))
}

/// The content digest of a package's root tree together with everything it is
/// built from.
///
/// `root` is the digest of the root tree. `closure` holds the digest of each
/// dependency tree, or why it could not be walked, and the manifest and lock file
/// of each workspace root, as far as they are there; it is nothing where the
/// closure could not be resolved. Fails exactly when the root tree could not be
/// walked.
pub fn closure_digest(
    root: &Result<Sha256, BuildError>,
    closure: &Option<
        (Vec<Result<Sha256, BuildError>>, Vec<(Option<Vec<u8>>, Option<Vec<u8>>)>),
    >,
) -> (r: Result<Sha256, BuildError>)
    ensures
        match (*root, *closure) {
            (Err(e), _) => git_clone::hash_result(r) == Err::<Seq<u8>, BuildErrorView>(e@),
            (Ok(d), None) => git_clone::hash_result(r) == Ok::<Seq<u8>, BuildErrorView>(
                digest::sha256_of(closure_preimage(d@, None)),
            ),
            (Ok(d), Some(c)) => exists|sorted: Seq<Seq<u8>>| #[trigger]
                order::strictly_sorted(order::byte_key(), sorted) && sorted.to_set() == ingredients(
                    tree_results(c.0@),
                    root_contents(c.1@),
                ) && git_clone::hash_result(r) == Ok::<Seq<u8>, BuildErrorView>(
                    digest::sha256_of(closure_preimage(d@, Some(sorted))),
                ),
        },
{
    match closure {
        None => source_closure_digest(root, &None),
        Some(c) => {
            let list = Some(collect_ingredients(&c.0, &c.1));
            source_closure_digest(root, &list)
        },
    }
}

fn collect_ingredients(
    trees: &Vec<Result<Sha256, BuildError>>,
    roots: &Vec<(Option<Vec<u8>>, Option<Vec<u8>>)>,
) -> (r: Vec<Sha256>)
    ensures
        hash_list(r@).to_set() == ingredients(tree_results(trees@), root_contents(roots@)),
{
    let ghost tv = tree_results(trees@);
    let ghost fv = root_contents(roots@);
    let mut r: Vec<Sha256> = Vec::new();
    let mut i: usize = 0;
    while i < trees.len()
        invariant
            i <= trees.len(),
            tv == tree_results(trees@),
            hash_list(r@) == tree_part(tv.take(i as int)),
        decreases trees.len() - i,
    {
        let ghost before = hash_list(r@);
        let d = tree_digest_or_marker(&trees[i]);
        r.push(d);
        proof {
            assert(tv[i as int] == git_clone::hash_result(trees@[i as int]));
            assert(hash_list(r@) =~= before.push(d@));
            assert(tree_part(tv.take(i + 1)) =~= before.push(d@));
        }
        i = i + 1;
    }
    assert(tv.take(tv.len() as int) =~= tv);
    let mut k: usize = 0;
    assert(tree_part(tv) + root_part(fv.take(0)) =~= tree_part(tv));
    while k < roots.len()
        invariant
            k <= roots.len(),
            fv == root_contents(roots@),
            hash_list(r@) == tree_part(tv) + root_part(fv.take(k as int)),
        decreases roots.len() - k,
    {
        let ghost before = hash_list(r@);
        let m = file_digest("ws-manifest:", &roots[k].0);
        let l = file_digest("ws-lock:", &roots[k].1);
        r.push(m);
        r.push(l);
        proof {
            let t = fv.take(k + 1);
            assert(t.drop_last() =~= fv.take(k as int));
            assert(t.last() == (opt_bytes(roots@[k as int].0), opt_bytes(roots@[k as int].1)));
            assert(hash_list(r@) =~= before.push(m@).push(l@));
            assert(tree_part(tv) + root_part(t) =~= before.push(m@).push(l@));
        }
        k = k + 1;
    }
    proof {
        assert(fv.take(fv.len() as int) =~= fv);
        parts_are_ingredients(tv, fv);
    }
    r
}

spec fn tree_part(trees: Seq<Result<Seq<u8>, BuildErrorView>>) -> Seq<Seq<u8>> {
    trees.map_values(|t: Result<Seq<u8>, BuildErrorView>| tree_or_marker(t))
}

spec fn root_part(roots: Seq<(Option<Seq<u8>>, Option<Seq<u8>>)>) -> Seq<Seq<u8>>
    decreases roots.len(),
{
    if roots.len() == 0 {
        Seq::empty()
    } else {
        root_part(roots.drop_last()).push(manifest_ingredient(roots.last().0)).push(
            lock_ingredient(roots.last().1),
        )
    }
}

proof fn root_part_holds(roots: Seq<(Option<Seq<u8>>, Option<Seq<u8>>)>, x: Seq<u8>)
    ensures
        root_part(roots).contains(x) <==> exists|i: int|
            0 <= i < roots.len() && (x == manifest_ingredient((#[trigger] roots[i]).0) || x
                == lock_ingredient(roots[i].1)),
    decreases roots.len(),
{
    if roots.len() > 0 {
        let p = root_part(roots.drop_last());
        let m = manifest_ingredient(roots.last().0);
        let l = lock_ingredient(roots.last().1);
        let q = p.push(m).push(l);
        root_part_holds(roots.drop_last(), x);
        if q.contains(x) {
            let k = choose|k: int| 0 <= k < q.len() && q[k] == x;
            if k < p.len() {
                assert(p[k] == x);
                let i = choose|i: int|
                    0 <= i < roots.drop_last().len() && (x == manifest_ingredient(
                        (#[trigger] roots.drop_last()[i]).0,
                    ) || x == lock_ingredient(roots.drop_last()[i].1));
                assert(roots[i] == roots.drop_last()[i]);
            } else {
                assert(roots[roots.len() - 1] == roots.last());
            }
        }
        if exists|i: int|
            0 <= i < roots.len() && (x == manifest_ingredient((#[trigger] roots[i]).0) || x
                == lock_ingredient(roots[i].1)) {
            let i = choose|i: int|
                0 <= i < roots.len() && (x == manifest_ingredient((#[trigger] roots[i]).0) || x
                    == lock_ingredient(roots[i].1));
            if i < roots.len() - 1 {
                assert(roots.drop_last()[i] == roots[i]);
                let k = choose|k: int| 0 <= k < p.len() && p[k] == x;
                assert(q[k] == x);
            } else {
                assert(q[p.len() as int] == m);
                assert(q[p.len() as int + 1] == l);
            }
        }
    }
}

proof fn parts_are_ingredients(
    trees: Seq<Result<Seq<u8>, BuildErrorView>>,
    roots: Seq<(Option<Seq<u8>>, Option<Seq<u8>>)>,
)
    ensures
        (tree_part(trees) + root_part(roots)).to_set() == ingredients(trees, roots),
{
    let t = tree_part(trees);
    let f = root_part(roots);
    assert forall|x: Seq<u8>| (t + f).to_set().contains(x) <==> ingredients(trees, roots).contains(
        x,
    ) by {
        root_part_holds(roots, x);
        if (t + f).contains(x) {
            let k = choose|k: int| 0 <= k < (t + f).len() && (t + f)[k] == x;
            if k < t.len() {
                assert(t[k] == tree_or_marker(trees[k]));
            } else {
                assert(f[k - t.len()] == x);
                assert(f.contains(x));
            }
        }
        if exists|i: int| 0 <= i < trees.len() && x == tree_or_marker(#[trigger] trees[i]) {
            let i = choose|i: int| 0 <= i < trees.len() && x == tree_or_marker(#[trigger] trees[i]);
            assert((t + f)[i] == x);
        }
        if f.contains(x) {
            let k = choose|k: int| 0 <= k < f.len() && f[k] == x;
            assert((t + f)[t.len() + k] == x);
        }
    }
    assert((t + f).to_set() =~= ingredients(trees, roots));
}

/// Where the trees lie, and in which order they are found, does not matter:
/// the same set of digests gives the same preimage.
pub proof fn layout_is_irrelevant(
    root: Seq<u8>,
    a: Seq<Seq<u8>>,
    b: Seq<Seq<u8>>,
    sa: Seq<Seq<u8>>,
    sb: Seq<Seq<u8>>,
)
    requires
        sorted_set(a, sa),
        sorted_set(b, sb),
        a.to_set() == b.to_set(),
    ensures
        closure_preimage(root, Some(sa)) == closure_preimage(root, Some(sb)),
{
    order::strictly_sorted_unique(order::byte_key(), sa, sb);
}

/// A resolved and an unresolved package never share a preimage.
pub proof fn fallback_never_collides(r1: Seq<u8>, r2: Seq<u8>, s: Seq<Seq<u8>>)
    ensures
        closure_preimage(r1, None) != closure_preimage(r2, Some(s)),
{
    reveal_strlit("unresolved:");
    reveal_strlit("resolved:root:");
    let head = text::utf8("closure:v1:"@);
    let a = closure_preimage(r1, None);
    let b = closure_preimage(r2, Some(s));
    vstd::utf8::is_ascii_chars_encode_utf8("unresolved:"@);
    vstd::utf8::is_ascii_chars_encode_utf8("resolved:root:"@);
    let k = head.len() as int;
    assert(a[k] == text::utf8("unresolved:"@)[0]);
    assert(b[k] == text::utf8("resolved:root:"@)[0]);
    assert(text::utf8("unresolved:"@)[0] == 'u' as u8);
    assert(text::utf8("resolved:root:"@)[0] == 'r' as u8);
}

} // verus!
