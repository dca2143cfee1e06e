//! How files, digests and packages are named, ordered and looked up.

use crate::clock;
use crate::closure_laws;
use crate::closure_walk;
use crate::closure_walk::WalkView;
use crate::digest;
use crate::install_laws;
use crate::metadata::PackageView;
use crate::order;
use crate::path_laws;
use crate::paths;
use crate::source_closure;
use crate::source_hash;
use crate::source_hash::{TreeFileView, WalkFailure};
use crate::text;
use crate::types::BuildErrorView;
use vstd::prelude::*;

verus! {

/// Two texts are the same up to a position, where the first one ends or has the
/// smaller character.
pub open spec fn smaller_at(a: Seq<char>, b: Seq<char>, k: int) -> bool {
    &&& 0 <= k <= a.len()
    &&& k < b.len()
    &&& forall|i: int| 0 <= i < k ==> #[trigger] a[i] == b[i]
    &&& k == a.len() || a[k] < b[k]
}

/// One text comes before another exactly if it is the beginning of it, or has the
/// smaller character where they first differ.
pub proof fn texts_go_by_their_characters(a: Seq<char>, b: Seq<char>)
    ensures
        order::text_lt(a, b) <==> exists|k: int| smaller_at(a, b, k),
    decreases a.len(),
{
    let key = order::char_key();
    if a.len() > 0 && b.len() > 0 && a[0] == b[0] {
        let x = a.drop_first();
        let y = b.drop_first();
        texts_go_by_their_characters(x, y);
        assert(order::text_lt(a, b) == order::text_lt(x, y));
        if order::text_lt(a, b) {
            let k = choose|k: int| smaller_at(x, y, k);
            assert forall|i: int| 0 <= i < k + 1 implies #[trigger] a[i] == b[i] by {
                if i > 0 {
                    assert(x[i - 1] == y[i - 1]);
                }
            }
            if k < x.len() {
                assert(x[k] == a[k + 1] && y[k] == b[k + 1]);
            }
            assert(smaller_at(a, b, k + 1));
        }
        if exists|k: int| smaller_at(a, b, k) {
            let k = choose|k: int| smaller_at(a, b, k);
            assert(k > 0);
            assert forall|i: int| 0 <= i < k - 1 implies #[trigger] x[i] == y[i] by {
                assert(a[i + 1] == b[i + 1]);
            }
            if k < a.len() {
                assert(x[k - 1] == a[k] && y[k - 1] == b[k]);
            }
            assert(smaller_at(x, y, k - 1));
        }
    } else {
        if a.len() > 0 && b.len() > 0 {
            assert(key(a[0]) == a[0] as int && key(b[0]) == b[0] as int);
        }
        if order::text_lt(a, b) {
            assert(smaller_at(a, b, 0));
        }
        if exists|k: int| smaller_at(a, b, k) {
            let k = choose|k: int| smaller_at(a, b, k);
            if k > 0 {
                assert(a[0] == b[0]);
            }
        }
    }
}

/// Texts in order are listed by their characters, each once.
pub proof fn listings_are_in_order(s: Seq<Seq<char>>)
    ensures
        order::sorted_texts(s) <==> forall|i: int, j: int|
            0 <= i < j < s.len() ==> order::text_lt(#[trigger] s[i], #[trigger] s[j]),
{
}

/// A hash reads as two lowercase hexadecimal digits for each byte, the greater half
/// first.
pub proof fn hashes_read_as_hexadecimal(bytes: Seq<u8>, i: int)
    requires
        0 <= i < bytes.len(),
    ensures
        digest::hex_text(bytes).len() == 2 * bytes.len(),
        digest::hex_text(bytes)[2 * i] == "0123456789abcdef"@[bytes[i] as int / 16],
        digest::hex_text(bytes)[2 * i + 1] == "0123456789abcdef"@[bytes[i] as int % 16],
{
    reveal_strlit("0123456789abcdef");
    let hi = bytes[i] as int / 16;
    let lo = bytes[i] as int % 16;
    digits_are_these(hi);
    digits_are_these(lo);
    assert((2 * i) / 2 == i && (2 * i + 1) / 2 == i);
    assert((2 * i) % 2 == 0 && (2 * i + 1) % 2 == 1);
}

proof fn digits_are_these(v: int)
    requires
        0 <= v < 16,
    ensures
        digest::hex_digit(v) == "0123456789abcdef"@[v],
{
    reveal_strlit("0123456789abcdef");
}

/// A hexadecimal digit has its value in either case; nothing else is one.
pub proof fn digits_have_values(c: char)
    ensures
        digest::hex_value(c) is Some <==> ('0' <= c <= '9') || ('a' <= c <= 'f') || ('A' <= c
            <= 'F'),
        digest::hex_value(c) matches Some(v) ==> 0 <= v < 16 && (digest::hex_digit(v) == c || (
        'A' <= c <= 'F' && digest::hex_digit(v) as u32 == c as u32 + 32)),
{
}

/// A clock that stands before the epoch reads zero, one beyond all bounds the bound,
/// any other what it shows.
pub proof fn clocks_read_what_they_show(m: u128)
    ensures
        clock::reading(None) == 0,
        m <= u64::MAX ==> clock::reading(Some(m)) == m,
        m > u64::MAX ==> clock::reading(Some(m)) == u64::MAX,
{
}

/// The directories that are not part of a source tree.
pub proof fn left_out_directories_are_these(name: Seq<char>)
    ensures
        source_hash::excluded(name) <==> name == ".git"@ || name == "target"@ || name
            == ".repolith"@,
{
}

/// A path is hashed with slashes for backslashes and otherwise as it is.
pub proof fn only_backslashes_change(rel: Seq<char>)
    ensures
        source_hash::normalized(rel).len() == rel.len(),
        forall|i: int|
            0 <= i < rel.len() ==> (#[trigger] source_hash::normalized(rel)[i]) == if rel[i]
                == '\\' {
                '/'
            } else {
                rel[i]
            },
        !rel.contains('\\') ==> source_hash::normalized(rel) == rel,
{
    if !rel.contains('\\') {
        assert forall|i: int| 0 <= i < rel.len() implies #[trigger] source_hash::normalized(rel)[i]
            == rel[i] by {
            assert(rel.contains(rel[i]));
        }
        assert(source_hash::normalized(rel) =~= rel);
    }
}

/// A file enters the preimage with its path, whether it could be read, and what it
/// holds or why it could not; a zero stands behind the path and a line feed behind
/// the rest.
pub proof fn files_enter_with_path_and_content(rel: Seq<char>, bytes: Seq<u8>, kind: Seq<char>)
    ensures
        source_hash::file_bytes(TreeFileView { rel, content: Ok(bytes) }) == text::utf8(
            source_hash::normalized(rel),
        ) + seq![0u8] + text::utf8("ok:"@) + bytes + seq![10u8],
        source_hash::file_bytes(TreeFileView { rel, content: Err(kind) }) == text::utf8(
            source_hash::normalized(rel),
        ) + seq![0u8] + text::utf8("unreadable:"@) + text::utf8(kind) + seq![10u8],
{
    let n = text::utf8(source_hash::normalized(rel)) + seq![0u8];
    let o = text::utf8("ok:"@);
    let u = text::utf8("unreadable:"@);
    let k = text::utf8(kind);
    assert(n + (o + bytes) + seq![10u8] =~= n + o + bytes + seq![10u8]);
    assert(n + (u + k) + seq![10u8] =~= n + u + k + seq![10u8]);
}

/// Every file of a tree enters the preimage, one after the other.
pub proof fn every_file_enters_the_hash(a: Seq<TreeFileView>, b: Seq<TreeFileView>, i: int)
    requires
        0 <= i < a.len(),
    ensures
        source_hash::files_bytes(a + b) == source_hash::files_bytes(a) + source_hash::files_bytes(
            b,
        ),
        install_laws::part_of_bytes(
            source_hash::tree_preimage(a),
            source_hash::file_bytes(a[i]),
        ),
        source_hash::tree_preimage(a).len() == 8 + source_hash::files_bytes(a).len(),
{
    files_compose(a, b);
    let x = a.take(i);
    let y = a.skip(i + 1);
    let one = seq![a[i]];
    assert(a =~= x + one + y);
    files_compose(x + one, y);
    files_compose(x, one);
    let f = source_hash::file_bytes(a[i]);
    assert(one.drop_last() =~= Seq::<TreeFileView>::empty());
    assert(source_hash::files_bytes(one.drop_last()) =~= Seq::<u8>::empty());
    assert(source_hash::files_bytes(one) =~= f);
    reveal_strlit("tree:v1:");
    vstd::utf8::is_ascii_chars_encode_utf8("tree:v1:"@);
    let t = text::utf8("tree:v1:"@);
    let p = source_hash::files_bytes(x);
    let q = source_hash::files_bytes(y);
    install_laws::put_together(t + p, f, q);
    assert(t + p + f + q =~= t + (p + f + q));
}

proof fn files_compose(a: Seq<TreeFileView>, b: Seq<TreeFileView>)
    ensures
        source_hash::files_bytes(a + b) == source_hash::files_bytes(a) + source_hash::files_bytes(
            b,
        ),
    decreases b.len(),
{
    if b.len() == 0 {
        assert(a + b =~= a);
        assert(source_hash::files_bytes(a) + Seq::<u8>::empty() =~= source_hash::files_bytes(a));
    } else {
        files_compose(a, b.drop_last());
        assert((a + b).drop_last() =~= a + b.drop_last());
        assert(source_hash::files_bytes(a + b) =~= source_hash::files_bytes(a)
            + source_hash::files_bytes(b));
    }
}

/// Files are hashed in the order of their paths: for files that are listed in that
/// order already, the preimage is over them as listed.
pub proof fn files_are_hashed_by_path(files: Seq<TreeFileView>, sorted: Seq<TreeFileView>)
    requires
        forall|i: int, j: int|
            0 <= i < j < files.len() ==> order::text_lt(
                source_hash::normalized((#[trigger] files[i]).rel),
                source_hash::normalized((#[trigger] files[j]).rel),
            ),
        source_hash::tree_order(files, sorted),
    ensures
        source_hash::tree_preimage(sorted) == source_hash::tree_preimage(files),
{
    assert forall|i: int, j: int| 0 <= i < j < files.len() implies !source_hash::file_before(
        (#[trigger] files[j]).rel,
        (#[trigger] files[i]).rel,
    ) by {
        assert(source_hash::file_before(files[i].rel, files[j].rel));
        if source_hash::file_before(files[j].rel, files[i].rel) {
            source_hash::file_before_transitive(files[i].rel, files[j].rel, files[i].rel);
            source_hash::file_before_irreflexive(files[i].rel);
        }
    }
    let own = Seq::new(files.len(), |i: int| i);
    assert(order::arranged(files, own) =~= files);
    assert(order::arranges(own, files.len() as int));
    assert(source_hash::tree_order(files, files));
    assert forall|i: int, j: int| 0 <= i < files.len() && 0 <= j < files.len() && i != j implies (
    #[trigger] files[i]).rel != (#[trigger] files[j]).rel by {
        source_hash::file_before_irreflexive(files[i].rel);
        if i < j {
            assert(source_hash::file_before(files[i].rel, files[j].rel));
        } else {
            assert(source_hash::file_before(files[j].rel, files[i].rel));
        }
    }
    source_hash::walk_order_is_irrelevant(files, files, sorted, files);
}

/// A tree that cannot be walked is an error that names it, and says that it is
/// missing or what went wrong.
pub proof fn unwalkable_trees_are_named(path: Seq<char>, e: String)
    ensures
        source_hash::walk_error(path, WalkFailure::Missing) matches BuildErrorView::Io(t)
            && text::occurs_in(t, path),
        source_hash::walk_error(path, WalkFailure::Walk(e)) matches BuildErrorView::Io(t)
            && text::occurs_in(t, path) && text::occurs_in(t, e@),
{
    path_laws::part_of("source tree "@, path, " does not exist"@);
    let m = e@;
    let a = "walk "@;
    let b = ": "@;
    let none = Seq::<char>::empty();
    crate::factory_laws::names_both(a, path, b, m, none);
    assert(a + path + (b + m + none) == a + path + b + m) by {
        assert(a + path + (b + m + none) =~= a + path + b + m);
    }
}

/// A tree counts with its digest; one that cannot be walked counts as absent,
/// whatever the reason.
pub proof fn absent_trees_count_alike(d: Seq<u8>, e: BuildErrorView, f: BuildErrorView)
    ensures
        source_closure::tree_or_marker(Ok(d)) == d,
        source_closure::tree_or_marker(Err(e)) == source_closure::tree_or_marker(Err(f)),
{
}

/// Where the closure could not be resolved, the tree of the package alone decides.
pub proof fn unresolved_closures_go_by_the_tree(a: Seq<u8>, b: Seq<u8>)
    ensures
        source_closure::closure_preimage(a, None) == source_closure::closure_preimage(b, None)
            <==> a == b,
{
    let p = text::utf8("closure:v1:"@);
    let u = text::utf8("unresolved:"@);
    let n = p.len() + u.len();
    assert(source_closure::closure_preimage(a, None).skip(n as int) =~= a);
    assert(source_closure::closure_preimage(b, None).skip(n as int) =~= b);
}

/// Each tree, each workspace manifest and each lock file is an ingredient; nothing
/// else is.
pub proof fn ingredients_are_these(
    trees: Seq<Result<Seq<u8>, BuildErrorView>>,
    roots: Seq<(Option<Seq<u8>>, Option<Seq<u8>>)>,
    i: int,
    j: int,
    x: Seq<u8>,
)
    ensures
        0 <= i < trees.len() ==> source_closure::ingredients(trees, roots).contains(
            source_closure::tree_or_marker(trees[i]),
        ),
        0 <= j < roots.len() ==> source_closure::ingredients(trees, roots).contains(
            source_closure::manifest_ingredient(roots[j].0),
        ) && source_closure::ingredients(trees, roots).contains(
            source_closure::lock_ingredient(roots[j].1),
        ),
        trees.len() == 0 && roots.len() == 0 ==> !source_closure::ingredients(
            trees,
            roots,
        ).contains(x),
{
}

/// A path is added to a list exactly if it is not in it yet, in whatever spelling.
pub proof fn paths_are_listed_once(list: Seq<Seq<char>>, p: Seq<char>)
    ensures
        (exists|i: int| 0 <= i < list.len() && paths::same(#[trigger] list[i], p))
            ==> closure_walk::add_path(list, p) == list,
        (forall|i: int| 0 <= i < list.len() ==> !paths::same(#[trigger] list[i], p))
            ==> closure_walk::add_path(list, p) == list.push(p),
{
}

/// The dependencies of a directory are those of the first package that is listed for
/// it; there are none only if no package is listed for it.
pub proof fn first_package_counts(packages: Seq<PackageView>, dir: Seq<char>)
    ensures
        match closure_laws::listed_deps(packages, dir) {
            Some(d) => exists|i: int|
                0 <= i < packages.len() && paths::same((#[trigger] packages[i]).0, dir)
                    && packages[i].1 == d && forall|j: int|
                    0 <= j < i ==> !paths::same((#[trigger] packages[j]).0, dir),
            None => forall|i: int|
                0 <= i < packages.len() ==> !paths::same((#[trigger] packages[i]).0, dir),
        },
    decreases packages.len(),
{
    let none = Seq::<PackageView>::empty();
    if packages.len() == 0 {
        assert(closure_walk::add_packages(none, packages) =~= none);
    } else {
        let before = packages.drop_last();
        let last = packages.last();
        first_package_counts(before, dir);
        first_package_counts(before, last.0);
        let g = closure_walk::add_packages(none, before);
        let h = closure_walk::add_packages(none, packages);
        if closure_walk::entry(g, last.0) is None {
            assert(h == g.push(last));
            assert(h.drop_last() =~= g);
            assert(h.last() == last);
        }
        if paths::same(last.0, dir) {
            if let Some(d) = closure_walk::entry(g, last.0) {
                let i = choose|i: int|
                    0 <= i < before.len() && paths::same((#[trigger] before[i]).0, last.0)
                        && before[i].1 == d && forall|j: int|
                        0 <= j < i ==> !paths::same((#[trigger] before[j]).0, last.0);
                assert(paths::same(before[i].0, dir));
                assert(closure_walk::entry(g, dir) is Some);
            } else if let Some(d) = closure_walk::entry(g, dir) {
                let i = choose|i: int|
                    0 <= i < before.len() && paths::same((#[trigger] before[i]).0, dir)
                        && before[i].1 == d && forall|j: int|
                        0 <= j < i ==> !paths::same((#[trigger] before[j]).0, dir);
                assert(paths::same(before[i].0, last.0));
            }
        }
        match closure_laws::listed_deps(packages, dir) {
            Some(d) => {
                if let Some(e) = closure_walk::entry(g, dir) {
                    let i = choose|i: int|
                        0 <= i < before.len() && paths::same((#[trigger] before[i]).0, dir)
                            && before[i].1 == e && forall|j: int|
                            0 <= j < i ==> !paths::same((#[trigger] before[j]).0, dir);
                    assert(packages[i] == before[i]);
                    assert(d == e);
                    assert forall|j: int| 0 <= j < i implies !paths::same(
                        (#[trigger] packages[j]).0,
                        dir,
                    ) by {
                        assert(packages[j] == before[j]);
                    }
                } else {
                    assert(packages[packages.len() - 1] == last);
                    assert forall|j: int| 0 <= j < packages.len() - 1 implies !paths::same(
                        (#[trigger] packages[j]).0,
                        dir,
                    ) by {
                        assert(packages[j] == before[j]);
                    }
                }
            },
            None => {
                assert forall|j: int| 0 <= j < packages.len() implies !paths::same(
                    (#[trigger] packages[j]).0,
                    dir,
                ) by {
                    if j < before.len() {
                        assert(packages[j] == before[j]);
                    }
                }
            },
        }
    }
}

/// A walk asks about the package it starts from first.
pub proof fn walks_start_at_the_root(root: Seq<char>)
    ensures
        WalkView::start(root).settle().request() == closure_walk::RequestView::Metadata(root),
        WalkView::start(root).settle().trees.len() == 0,
        WalkView::start(root).settle().roots.len() == 0,
{
    let v = WalkView::start(root);
    assert(v.queue.last() == root);
    assert(v.may_advance());
    assert(!paths::listed(v.visited, root));
    assert(closure_walk::entry(v.graph, root) is None);
    let w = v.advance();
    assert(w.wants);
    assert(!w.may_advance());
    assert(v.settle() == w.settle());
    assert(w.settle() == w);
}

} // verus!
