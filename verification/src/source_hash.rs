//! Ingredients of input hashes: the build platform and the digest of a source tree.
//!
//! A digest depends on content only. Modification times and absolute paths do
//! not enter it, so that two machines with the same sources agree.

use crate::digest;
use crate::digest::Hasher;
use crate::git_clone;
use crate::order;
use crate::order::Ranked;
use crate::text;
use crate::types::{BuildError, BuildErrorView, Sha256};
use vstd::prelude::*;

verus! {

/// What the build platform adds to a preimage.
pub open spec fn platform_bytes(arch: Seq<char>, os: Seq<char>) -> Seq<u8> {
    text::utf8(":arch:"@) + text::utf8(arch) + text::utf8(":os:"@) + text::utf8(os)
}

/// Feeds the build platform into a hasher.
pub fn platform_tag(h: &mut Hasher, arch: &str, os: &str)
    ensures
        final(h)@ == old(h)@ + platform_bytes(arch@, os@),
{
    h.update_text(":arch:");
    h.update_text(arch);
    h.update_text(":os:");
    h.update_text(os);
    assert(h@ =~= old(h)@ + platform_bytes(arch@, os@));
}

/// Names of directories that are never part of the sources: version control
/// internals, build output and this tool's own state.
pub open spec fn excluded(name: Seq<char>) -> bool {
    name == ".git"@ || name == "target"@ || name == ".repolith"@
}

/// Whether an entry of this name is left out of a tree, with all below it.
pub fn is_excluded(name: &str) -> (r: bool)
    ensures
        r == excluded(name@),
{
    text::text_eq(name, ".git") || text::text_eq(name, "target") || text::text_eq(
        name,
        ".repolith",
    )
}

/// A file found in a source tree.
#[derive(Debug)]
pub struct TreeFile {
    /// Path relative to the root of the tree, as found.
    pub rel: String,
    /// Its content, or the kind of error that reading it gave.
    pub content: Result<Vec<u8>, String>,
}

/// What a [`TreeFile`] holds.
#[verifier::ext_equal]
pub struct TreeFileView {
    /// Path relative to the root.
    pub rel: Seq<char>,
    /// Content or error.
    pub content: Result<Seq<u8>, Seq<char>>,
}

impl View for TreeFile {
    type V = TreeFileView;

    open spec fn view(&self) -> TreeFileView {
        TreeFileView {
            rel: self.rel@,
            content: match self.content {
                Ok(bytes) => Ok(bytes@),
                Err(kind) => Err(kind@),
            },
        }
    }
}

/// A relative path with forward slashes.
pub open spec fn normalized(rel: Seq<char>) -> Seq<char> {
    rel.map_values(
        |c: char|
            if c == '\\' {
                '/'
            } else {
                c
            },
    )
}

/// A relative path with forward slashes.
pub fn normalize(rel: &str) -> (r: String)
    ensures
        r@ == normalized(rel@),
{
    let chars = text::chars_of(rel);
    let mut r = String::new();
    let mut i: usize = 0;
    while i < chars.len()
        invariant
            i <= chars.len(),
            chars@ == rel@,
            r@ == normalized(rel@).take(i as int),
        decreases chars.len() - i,
    {
        let c: char = chars[i];
        r.push(
            if c == '\\' {
                '/'
            } else {
                c
            },
        );
        i = i + 1;
        assert(r@ =~= normalized(rel@).take(i as int));
    }
    assert(normalized(rel@).take(rel@.len() as int) =~= normalized(rel@));
    r
}

/// The order of files in a digest: by normalized path, then by path as found.
pub open spec fn file_before(a: Seq<char>, b: Seq<char>) -> bool {
    order::text_lt(normalized(a), normalized(b)) || (normalized(a) == normalized(b)
        && order::text_lt(a, b))
}

/// No file comes before itself.
pub proof fn file_before_irreflexive(a: Seq<char>)
    ensures
        !file_before(a, a),
{
    order::lex_irreflexive(order::char_key(), normalized(a));
    order::lex_irreflexive(order::char_key(), a);
}

/// The order of files is transitive.
pub proof fn file_before_transitive(a: Seq<char>, b: Seq<char>, c: Seq<char>)
    requires
        file_before(a, b),
        file_before(b, c),
    ensures
        file_before(a, c),
{
    let k = order::char_key();
    if order::text_lt(normalized(a), normalized(b)) && order::text_lt(normalized(b), normalized(c)) {
        order::lex_transitive(k, normalized(a), normalized(b), normalized(c));
    }
    if normalized(a) == normalized(b) && normalized(b) == normalized(c) && order::text_lt(a, b)
        && order::text_lt(b, c) {
        order::lex_transitive(k, a, b, c);
    }
}

impl Ranked for TreeFile {
    open spec fn before(self, other: Self) -> bool {
        file_before(self.rel@, other.rel@)
    }

    proof fn before_irreflexive(a: Self) {
        file_before_irreflexive(a.rel@);
    }

    proof fn before_transitive(a: Self, b: Self, c: Self) {
        file_before_transitive(a.rel@, b.rel@, c.rel@);
    }

    fn is_before(&self, other: &Self) -> (r: bool) {
        let a = normalize(&self.rel);
        let b = normalize(&other.rel);
        if order::text_less(&a, &b) {
            return true;
        }
        text::text_eq(&a, &b) && order::text_less(&self.rel, &other.rel)
    }
}

/// What one file adds to the preimage: its normalized path and its content, or
/// the kind of error that reading it gave.
pub open spec fn file_bytes(f: TreeFileView) -> Seq<u8> {
    text::utf8(normalized(f.rel)) + seq![0u8] + (match f.content {
        Ok(bytes) => text::utf8("ok:"@) + bytes,
        Err(kind) => text::utf8("unreadable:"@) + text::utf8(kind),
    }) + seq![10u8]
}

/// What a list of files adds to the preimage.
pub open spec fn files_bytes(files: Seq<TreeFileView>) -> Seq<u8>
    decreases files.len(),
{
    if files.len() == 0 {
        Seq::empty()
    } else {
        files_bytes(files.drop_last()) + file_bytes(files.last())
    }
}

/// The preimage of a tree digest over files in their order.
pub open spec fn tree_preimage(files: Seq<TreeFileView>) -> Seq<u8> {
    text::utf8("tree:v1:"@) + files_bytes(files)
}

/// The views of a list of files.
pub open spec fn file_views(files: Seq<TreeFile>) -> Seq<TreeFileView> {
    files.map_values(|f: TreeFile| f@)
}

/// No file comes before an earlier one.
pub open spec fn files_sorted(files: Seq<TreeFileView>) -> bool {
    forall|a: int, b: int|
        0 <= a < b < files.len() ==> !file_before((#[trigger] files[b]).rel, (#[trigger] files[a]).rel)
}

/// `sorted` holds the files of `found`, each as often, in the order of a digest.
pub open spec fn tree_order(found: Seq<TreeFileView>, sorted: Seq<TreeFileView>) -> bool {
    &&& exists|perm: Seq<int>| #[trigger]
        order::arranges(perm, found.len() as int) && sorted == order::arranged(found, perm)
    &&& files_sorted(sorted)
}

/// The digest of the files found in a tree, in whatever order they were found.
pub fn digest_files(files: &Vec<TreeFile>) -> (r: Sha256)
    ensures
        exists|sorted: Seq<TreeFileView>| #[trigger]
            tree_order(file_views(files@), sorted) && r@ == digest::sha256_of(tree_preimage(sorted)),
{
    let perm = order::sort_positions(files);
    let ghost pv = order::as_ints(perm@);
    let ghost fv = file_views(files@);
    let ghost sorted = order::arranged(fv, pv);
    proof {
        let s = order::arranged(files@, pv);
        assert(sorted =~= file_views(s));
        assert forall|a: int, b: int| 0 <= a < b < sorted.len() implies !file_before(
            (#[trigger] sorted[b]).rel,
            (#[trigger] sorted[a]).rel,
        ) by {
            assert(sorted[a].rel == s[a].rel@ && sorted[b].rel == s[b].rel@);
            assert(!s[b].before(s[a]));
        }
        assert(order::arranges(pv, fv.len() as int) && sorted == order::arranged(fv, pv));
        assert(tree_order(fv, sorted));
    }
    let mut h = Hasher::new();
    h.update_text("tree:v1:");
    let ghost head = text::utf8("tree:v1:"@);
    assert(h@ =~= head);
    let mut i: usize = 0;
    assert(head + files_bytes(sorted.take(0)) =~= head);
    while i < perm.len()
        invariant
            i <= perm.len(),
            pv == order::as_ints(perm@),
            fv == file_views(files@),
            order::arranges(pv, files@.len() as int),
            sorted == order::arranged(fv, pv),
            h@ == head + files_bytes(sorted.take(i as int)),
        decreases perm.len() - i,
    {
        assert(pv[i as int] == perm@[i as int]);
        let f = &files[perm[i]];
        let ghost before = h@;
        assert(sorted[i as int] == f@);
        h.update_text(&normalize(&f.rel));
        h.update(&[0u8]);
        match &f.content {
            Ok(bytes) => {
                h.update_text("ok:");
                h.update(bytes.as_slice());
            },
            Err(kind) => {
                h.update_text("unreadable:");
                h.update_text(kind);
            },
        }
        h.update(&[10u8]);
        proof {
            assert(h@ =~= before + file_bytes(f@));
            let t = sorted.take(i + 1);
            assert(t.drop_last() =~= sorted.take(i as int));
            assert(t.last() == f@);
            assert(h@ =~= head + files_bytes(t));
        }
        i = i + 1;
    }
    assert(sorted.take(sorted.len() as int) =~= sorted);
    h.finalize()
}

/// The digest does not depend on the order in which the files were found.
pub proof fn walk_order_is_irrelevant(
    a: Seq<TreeFileView>,
    b: Seq<TreeFileView>,
    sa: Seq<TreeFileView>,
    sb: Seq<TreeFileView>,
)
    requires
        tree_order(a, sa),
        tree_order(b, sb),
        a.to_set() == b.to_set(),
        forall|i: int, j: int|
            0 <= i < a.len() && 0 <= j < a.len() && i != j ==> (#[trigger] a[i]).rel != (
            #[trigger] a[j]).rel,
        forall|i: int, j: int|
            0 <= i < b.len() && 0 <= j < b.len() && i != j ==> (#[trigger] b[i]).rel != (
            #[trigger] b[j]).rel,
    ensures
        tree_preimage(sa) == tree_preimage(sb),
{
    let lt = |x: TreeFileView, y: TreeFileView| file_before(x.rel, y.rel);
    assert forall|x: TreeFileView| !#[trigger] lt(x, x) by {
        file_before_irreflexive(x.rel);
    }
    assert forall|x: TreeFileView, y: TreeFileView, z: TreeFileView| #[trigger]
        lt(x, y) && #[trigger] lt(y, z) implies lt(x, z) by {
        file_before_transitive(x.rel, y.rel, z.rel);
    }
    tree_order_increasing(a, sa);
    tree_order_increasing(b, sb);
    assert(order::increasing(lt, sa));
    assert(order::increasing(lt, sb));
    assert(sa.to_set() =~= sb.to_set());
    order::increasing_unique(lt, sa, sb);
}

/// Files with different paths stand in a strict order, and none is lost or added.
pub proof fn tree_order_increasing(found: Seq<TreeFileView>, sorted: Seq<TreeFileView>)
    requires
        tree_order(found, sorted),
        forall|i: int, j: int|
            0 <= i < found.len() && 0 <= j < found.len() && i != j ==> (#[trigger] found[i]).rel
                != (#[trigger] found[j]).rel,
    ensures
        forall|i: int, j: int|
            0 <= i < j < sorted.len() ==> file_before(
                (#[trigger] sorted[i]).rel,
                (#[trigger] sorted[j]).rel,
            ),
        sorted.to_set() == found.to_set(),
{
    let perm = choose|perm: Seq<int>| #[trigger]
        order::arranges(perm, found.len() as int) && sorted == order::arranged(found, perm);
    assert forall|i: int, j: int| 0 <= i < j < sorted.len() implies file_before(
        (#[trigger] sorted[i]).rel,
        (#[trigger] sorted[j]).rel,
    ) by {
        assert(perm[i] != perm[j]);
        assert(sorted[i] == found[perm[i]] && sorted[j] == found[perm[j]]);
        assert(!file_before(sorted[j].rel, sorted[i].rel));
        let x = sorted[i].rel;
        let y = sorted[j].rel;
        order::char_key_injective();
        if normalized(x) != normalized(y) {
            order::lex_total(order::char_key(), normalized(x), normalized(y));
        } else {
            order::lex_total(order::char_key(), x, y);
        }
    }
    order::all_positions(perm, found.len() as int);
    assert forall|f: TreeFileView| sorted.to_set().contains(f) <==> found.to_set().contains(f) by {
        if sorted.contains(f) {
            let i = choose|i: int| 0 <= i < sorted.len() && sorted[i] == f;
            assert(found[perm[i]] == f);
        }
        if found.contains(f) {
            let i = choose|i: int| 0 <= i < found.len() && found[i] == f;
            assert(perm.contains(i));
            let k = choose|k: int| 0 <= k < perm.len() && perm[k] == i;
            assert(sorted[k] == f);
        }
    }
    assert(sorted.to_set() =~= found.to_set());
}

/// Why a tree could not be walked.
#[derive(Debug)]
pub enum WalkFailure {
    /// Its root does not exist.
    Missing,
    /// Walking it failed. Carries the message.
    Walk(String),
}

/// The error for a tree that could not be walked.
pub open spec fn walk_error(path: Seq<char>, f: WalkFailure) -> BuildErrorView {
    match f {
        WalkFailure::Missing => BuildErrorView::Io("source tree "@ + path + " does not exist"@),
        WalkFailure::Walk(e) => BuildErrorView::Io("walk "@ + path + ": "@ + e@),
    }
}

/// What becomes of an entry that the walk cannot look into, at a depth below the
/// root as far as it is known. A root that cannot be walked is an error; any other
/// entry is folded in as unreadable, like a file that cannot be read.
pub fn unwalkable_entry(depth: Option<usize>, rel: &str, kind: &str, message: &str) -> (r: Result<
    TreeFile,
    WalkFailure,
>)
    ensures
        match depth {
            Some(d) => d > 0 <==> r is Ok,
            None => r is Err,
        },
        match r {
            Ok(f) => f@ == (TreeFileView { rel: rel@, content: Err(kind@) }),
            Err(WalkFailure::Walk(m)) => m@ == message@,
            Err(WalkFailure::Missing) => false,
        },
{
    match depth {
        Some(d) if d > 0 => Ok(
            TreeFile { rel: rel.to_owned(), content: Err(kind.to_owned()) },
        ),
        _ => Err(WalkFailure::Walk(message.to_owned())),
    }
}

/// Content digest of the source tree rooted at `path`, given the files found in
/// it or why it could not be walked.
///
/// Hashes each file's relative path and its bytes in a stable order. A file that
/// cannot be read is folded in as a marker: it is a state of its own, and no
/// reason to fail.
pub fn tree_digest(path: &str, found: &Result<Vec<TreeFile>, WalkFailure>) -> (r: Result<
    Sha256,
    BuildError,
>)
    ensures
        match *found {
            Err(f) => git_clone::hash_result(r) == Err::<Seq<u8>, BuildErrorView>(
                walk_error(path@, f),
            ),
            Ok(files) => exists|sorted: Seq<TreeFileView>| #[trigger]
                tree_order(file_views(files@), sorted) && git_clone::hash_result(r) == Ok::<
                    Seq<u8>,
                    BuildErrorView,
                >(digest::sha256_of(tree_preimage(sorted))),
        },
{
    match found {
        Err(WalkFailure::Missing) => {
            let mut s = "source tree ".to_owned();
            s.append(path);
            s.append(" does not exist");
            Err(BuildError::Io(s))
        },
        Err(WalkFailure::Walk(e)) => {
            let mut s = "walk ".to_owned();
            s.append(path);
            s.append(": ");
            s.append(e);
            Err(BuildError::Io(s))
        },
        Ok(files) => Ok(digest_files(files)),
    }
}

} // verus!
