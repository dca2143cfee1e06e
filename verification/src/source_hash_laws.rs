//! What the digest of a source tree can be relied on for: no change of a tree
//! that matters goes unnoticed.

use crate::order;
use crate::source_hash;
use crate::source_hash::TreeFileView;
use crate::text;
use vstd::prelude::*;

verus! {

/// The name under which a file enters the digest.
pub open spec fn name_of(f: TreeFileView) -> Seq<char> {
    source_hash::normalized(f.rel)
}

/// A file as it enters the digest: its name and its content.
pub open spec fn entry_of(f: TreeFileView) -> (Seq<char>, Result<Seq<u8>, Seq<char>>) {
    (name_of(f), f.content)
}

/// The files of a tree as they enter the digest.
pub open spec fn entries(files: Seq<TreeFileView>) -> Seq<
    (Seq<char>, Result<Seq<u8>, Seq<char>>),
> {
    files.map_values(|f: TreeFileView| entry_of(f))
}

/// No name holds a NUL, as on every file system.
pub open spec fn names_are_plain(files: Seq<TreeFileView>) -> bool {
    forall|i: int| 0 <= i < files.len() ==> !name_of(#[trigger] files[i]).contains('\0')
}

/// Files of one name in both trees have the same content.
pub open spec fn agree_on_shared(a: Seq<TreeFileView>, b: Seq<TreeFileView>) -> bool {
    forall|i: int, j: int|
        0 <= i < a.len() && 0 <= j < b.len() && name_of(#[trigger] a[i]) == name_of(#[trigger] b[j])
            ==> a[i].content == b[j].content
}

/// No name holds a line break.
pub open spec fn names_are_lines(files: Seq<TreeFileView>) -> bool {
    forall|i: int| 0 <= i < files.len() ==> !name_of(#[trigger] files[i]).contains('\n')
}

/// What a file adds to the preimage between its name and its content.
pub open spec fn tag_of(f: TreeFileView) -> Seq<u8> {
    match f.content {
        Ok(_) => text::utf8("ok:"@),
        Err(_) => text::utf8("unreadable:"@),
    }
}

/// The content of a file, or why it could not be read, as bytes.
pub open spec fn body_of(f: TreeFileView) -> Seq<u8> {
    match f.content {
        Ok(bytes) => bytes,
        Err(kind) => text::utf8(kind),
    }
}

/// The bytes hold `part` at position `k`.
pub open spec fn holds_at(bytes: Seq<u8>, k: int, part: Seq<u8>) -> bool {
    0 <= k <= bytes.len() - part.len() && bytes.subrange(k, k + part.len()) == part
}

/// The bytes hold what looks like the end of one file and the start of another:
/// a line break at position `i`, then a name that ends in a zero at position `k`.
pub open spec fn boundary_at(bytes: Seq<u8>, i: int, k: int) -> bool {
    &&& 0 <= i < k < bytes.len()
    &&& bytes[i] == 10
    &&& bytes[k] == 0
    &&& !bytes.subrange(i + 1, k).contains(0u8)
    &&& !bytes.subrange(i + 1, k).contains(10u8)
    &&& holds_at(bytes, k + 1, text::utf8("ok:"@)) || holds_at(
        bytes,
        k + 1,
        text::utf8("unreadable:"@),
    )
}

/// The bytes can be taken for more than one file.
pub open spec fn imitates_files(bytes: Seq<u8>) -> bool {
    exists|i: int, k: int| #[trigger] boundary_at(bytes, i, k)
}

/// Files of one name in both trees have the same content, or content that cannot
/// be taken for more than one file.
pub open spec fn shared_is_unambiguous(a: Seq<TreeFileView>, b: Seq<TreeFileView>) -> bool {
    forall|i: int, j: int|
        0 <= i < a.len() && 0 <= j < b.len() && name_of(#[trigger] a[i]) == name_of(#[trigger] b[j])
            ==> a[i].content == b[j].content || (!imitates_files(body_of(a[i]))
            && !imitates_files(body_of(b[j])))
}

/// What a file adds to the preimage behind its name.
spec fn content_bytes(f: TreeFileView) -> Seq<u8> {
    tag_of(f) + body_of(f)
}

proof fn files_bytes_concat(a: Seq<TreeFileView>, b: Seq<TreeFileView>)
    ensures
        source_hash::files_bytes(a + b) == source_hash::files_bytes(a) + source_hash::files_bytes(
            b,
        ),
    decreases b.len(),
{
    if b.len() == 0 {
        assert(a + b =~= a);
        assert(source_hash::files_bytes(a) + source_hash::files_bytes(b)
            =~= source_hash::files_bytes(a));
    } else {
        files_bytes_concat(a, b.drop_last());
        assert((a + b).drop_last() =~= a + b.drop_last());
        assert((a + b).last() == b.last());
        assert(source_hash::files_bytes(a + b) =~= source_hash::files_bytes(a)
            + source_hash::files_bytes(b));
    }
}

proof fn files_bytes_single(f: TreeFileView)
    ensures
        source_hash::files_bytes(seq![f]) == source_hash::file_bytes(f),
{
    let s = seq![f];
    assert(source_hash::files_bytes(Seq::empty()) =~= Seq::<u8>::empty());
    assert(s.drop_last() =~= Seq::<TreeFileView>::empty());
    assert(s.last() == f);
    assert(Seq::<u8>::empty() + source_hash::file_bytes(f) =~= source_hash::file_bytes(f));
}

proof fn files_bytes_first(s: Seq<TreeFileView>)
    requires
        s.len() > 0,
    ensures
        source_hash::files_bytes(s) == source_hash::file_bytes(s[0]) + source_hash::files_bytes(
            s.drop_first(),
        ),
{
    files_bytes_concat(seq![s[0]], s.drop_first());
    files_bytes_single(s[0]);
    assert(seq![s[0]] + s.drop_first() =~= s);
}

/// What precedes the first zero is determined.
proof fn first_zero_decides(x: Seq<u8>, p: Seq<u8>, y: Seq<u8>, q: Seq<u8>)
    requires
        !x.contains(0u8),
        !y.contains(0u8),
        x + seq![0u8] + p == y + seq![0u8] + q,
    ensures
        x == y,
        p == q,
{
    let s = x + seq![0u8] + p;
    let t = y + seq![0u8] + q;
    assert(s[x.len() as int] == 0);
    assert(t[y.len() as int] == 0);
    if x.len() < y.len() {
        assert(y[x.len() as int] == t[x.len() as int]);
        assert(y.contains(0u8));
    }
    if y.len() < x.len() {
        assert(x[y.len() as int] == s[y.len() as int]);
        assert(x.contains(0u8));
    }
    assert(x =~= s.take(x.len() as int));
    assert(y =~= t.take(y.len() as int));
    assert(p =~= s.skip(x.len() as int + 1));
    assert(q =~= t.skip(y.len() as int + 1));
}

/// What the first file and the rest add, split behind the name.
proof fn files_bytes_split(s: Seq<TreeFileView>)
    requires
        s.len() > 0,
    ensures
        source_hash::files_bytes(s) == text::utf8(name_of(s[0])) + seq![0u8] + (content_bytes(s[0])
            + seq![10u8] + source_hash::files_bytes(s.drop_first())),
{
    files_bytes_first(s);
    let x = text::utf8(name_of(s[0])) + seq![0u8];
    let c = content_bytes(s[0]);
    let y = source_hash::files_bytes(s.drop_first());
    assert(x + c + seq![10u8] + y =~= x + (c + seq![10u8] + y));
}

proof fn tags()
    ensures
        text::utf8("ok:"@).len() == 3,
        text::utf8("unreadable:"@).len() == 11,
        text::utf8("ok:"@)[0] == 'o' as u8,
        text::utf8("unreadable:"@)[0] == 'u' as u8,
        !text::utf8("ok:"@).contains(10u8),
        !text::utf8("unreadable:"@).contains(10u8),
{
    reveal_strlit("ok:");
    reveal_strlit("unreadable:");
    vstd::utf8::is_ascii_chars_encode_utf8("ok:"@);
    vstd::utf8::is_ascii_chars_encode_utf8("unreadable:"@);
    text::utf8_without("ok:"@, '\n');
    text::utf8_without("unreadable:"@, '\n');
}

/// Content that goes on where other content ends can be taken for more than one
/// file.
proof fn longer_content_imitates(
    x: Seq<u8>,
    y: Seq<u8>,
    name: Seq<u8>,
    tag: Seq<u8>,
    rest: Seq<u8>,
    other: Seq<u8>,
)
    requires
        x.len() < y.len(),
        !name.contains(0u8),
        !name.contains(10u8),
        tag == text::utf8("ok:"@) || tag == text::utf8("unreadable:"@),
        x + seq![10u8] + (name + seq![0u8] + (tag + rest)) == y + seq![10u8] + other,
    ensures
        imitates_files(y),
{
    tags();
    let start = name + seq![0u8] + (tag + rest);
    let w = x + seq![10u8] + start;
    let v = y + seq![10u8] + other;
    let i = x.len() as int;
    let k = i + 1 + name.len();
    let d = y.len() - x.len() - 1;
    assert(w.len() == x.len() + 1 + start.len());
    assert(v.len() == y.len() + 1 + other.len());
    assert(0 <= d < start.len());
    assert(v[y.len() as int] == 10);
    assert(w[y.len() as int] == start[d]);
    if d < name.len() {
        assert(start[d] == name[d]);
        assert(name.contains(name[d]));
    } else if d == name.len() {
        assert(start[d] == 0);
    } else if d < name.len() + 1 + tag.len() {
        assert(start[d] == tag[d - name.len() - 1]);
        assert(tag.contains(tag[d - name.len() - 1]));
    }
    assert forall|j: int| 0 <= j < y.len() implies y[j] == w[j] by {
        assert(v[j] == y[j]);
    }
    assert(y.subrange(i + 1, k) =~= name);
    assert(y.subrange(k + 1, k + 1 + tag.len()) =~= tag) by {
        assert forall|j: int| 0 <= j < tag.len() implies y[k + 1 + j] == tag[j] by {
            assert(w[k + 1 + j] == start[name.len() + 1 + j]);
        }
    }
    assert(w[k] == start[name.len() as int]);
    assert(boundary_at(y, i, k));
}

/// What is left of a tree starts like a file, or there is nothing left.
proof fn longer_body_imitates(x: Seq<u8>, a: Seq<TreeFileView>, y: Seq<u8>, other: Seq<u8>)
    requires
        x.len() < y.len(),
        names_are_plain(a),
        names_are_lines(a),
        x + seq![10u8] + source_hash::files_bytes(a) == y + seq![10u8] + other,
    ensures
        imitates_files(y),
{
    let w = x + seq![10u8] + source_hash::files_bytes(a);
    let v = y + seq![10u8] + other;
    assert(w.len() == v.len());
    if a.len() > 0 {
        files_bytes_split(a);
        let name = name_of(a[0]);
        text::utf8_without(name, '\0');
        text::utf8_without(name, '\n');
        let rest = body_of(a[0]) + seq![10u8] + source_hash::files_bytes(a.drop_first());
        assert(content_bytes(a[0]) + seq![10u8] + source_hash::files_bytes(a.drop_first())
            =~= tag_of(a[0]) + rest);
        longer_content_imitates(x, y, text::utf8(name), tag_of(a[0]), rest, other);
    }
}

/// The first file and the rest are determined by what they add behind the name.
proof fn first_content_same(a: Seq<TreeFileView>, b: Seq<TreeFileView>)
    requires
        a.len() > 0,
        b.len() > 0,
        names_are_plain(a),
        names_are_plain(b),
        names_are_lines(a),
        names_are_lines(b),
        !imitates_files(body_of(a[0])),
        !imitates_files(body_of(b[0])),
        content_bytes(a[0]) + seq![10u8] + source_hash::files_bytes(a.drop_first())
            == content_bytes(b[0]) + seq![10u8] + source_hash::files_bytes(b.drop_first()),
    ensures
        a[0].content == b[0].content,
{
    let y = source_hash::files_bytes(a.drop_first());
    let z = source_hash::files_bytes(b.drop_first());
    let p = body_of(a[0]);
    let q = body_of(b[0]);
    tags();
    assert((content_bytes(a[0]) + seq![10u8] + y)[0] == tag_of(a[0])[0]);
    assert((content_bytes(b[0]) + seq![10u8] + z)[0] == tag_of(b[0])[0]);
    assert(tag_of(a[0]) == tag_of(b[0]));
    let n = tag_of(a[0]).len() as int;
    let s = p + seq![10u8] + y;
    let t = q + seq![10u8] + z;
    assert(s =~= (content_bytes(a[0]) + seq![10u8] + y).skip(n));
    assert(t =~= (content_bytes(b[0]) + seq![10u8] + z).skip(n));
    rest_keeps(a);
    rest_keeps(b);
    if p.len() < q.len() {
        longer_body_imitates(p, a.drop_first(), q, z);
    }
    if q.len() < p.len() {
        longer_body_imitates(q, b.drop_first(), p, y);
    }
    assert(p =~= s.take(p.len() as int));
    assert(q =~= t.take(q.len() as int));
    if a[0].content is Err {
        text::utf8_injective(a[0].content->Err_0, b[0].content->Err_0);
    }
}

/// The names of a tree without its first file are as those of the tree.
proof fn rest_keeps(a: Seq<TreeFileView>)
    requires
        a.len() > 0,
        names_are_plain(a),
    ensures
        names_are_plain(a.drop_first()),
        names_are_lines(a) ==> names_are_lines(a.drop_first()),
{
    let a1 = a.drop_first();
    assert forall|i: int| 0 <= i < a1.len() implies !name_of(#[trigger] a1[i]).contains('\0') && (
    names_are_lines(a) ==> !name_of(a1[i]).contains('\n')) by {
        assert(a1[i] == a[i + 1]);
    }
}

/// Trees can be told apart by what they add to a preimage: they share content,
/// or nothing in them can be taken for more than it is.
spec fn comparable(a: Seq<TreeFileView>, b: Seq<TreeFileView>) -> bool {
    &&& names_are_plain(a)
    &&& names_are_plain(b)
    &&& agree_on_shared(a, b) || (names_are_lines(a) && names_are_lines(b)
        && shared_is_unambiguous(a, b))
}

proof fn rest_is_comparable(a: Seq<TreeFileView>, b: Seq<TreeFileView>)
    requires
        a.len() > 0,
        b.len() > 0,
        comparable(a, b),
    ensures
        comparable(a.drop_first(), b.drop_first()),
{
    let a1 = a.drop_first();
    let b1 = b.drop_first();
    rest_keeps(a);
    rest_keeps(b);
    assert forall|i: int, j: int|
        0 <= i < a1.len() && 0 <= j < b1.len() && name_of(#[trigger] a1[i]) == name_of(
            #[trigger] b1[j],
        ) implies (agree_on_shared(a, b) ==> a1[i].content == b1[j].content) && (
    shared_is_unambiguous(a, b) ==> a1[i].content == b1[j].content || (!imitates_files(
        body_of(a1[i]),
    ) && !imitates_files(body_of(b1[j])))) by {
        assert(a1[i] == a[i + 1] && b1[j] == b[j + 1]);
    }
}

proof fn first_files_same(a: Seq<TreeFileView>, b: Seq<TreeFileView>)
    requires
        a.len() > 0,
        b.len() > 0,
        comparable(a, b),
        source_hash::files_bytes(a) == source_hash::files_bytes(b),
    ensures
        entry_of(a[0]) == entry_of(b[0]),
        source_hash::files_bytes(a.drop_first()) == source_hash::files_bytes(b.drop_first()),
{
    files_bytes_split(a);
    files_bytes_split(b);
    let y = source_hash::files_bytes(a.drop_first());
    let z = source_hash::files_bytes(b.drop_first());
    let c = content_bytes(a[0]) + seq![10u8];
    let d = content_bytes(b[0]) + seq![10u8];
    text::utf8_without(name_of(a[0]), '\0');
    text::utf8_without(name_of(b[0]), '\0');
    first_zero_decides(text::utf8(name_of(a[0])), c + y, text::utf8(name_of(b[0])), d + z);
    text::utf8_injective(name_of(a[0]), name_of(b[0]));
    if a[0].content != b[0].content {
        first_content_same(a, b);
    }
    assert(c == d);
    assert(y =~= (c + y).skip(c.len() as int));
    assert(z =~= (d + z).skip(d.len() as int));
}

proof fn same_bytes_same_entries(a: Seq<TreeFileView>, b: Seq<TreeFileView>)
    requires
        comparable(a, b),
        source_hash::files_bytes(a) == source_hash::files_bytes(b),
    ensures
        entries(a) == entries(b),
    decreases a.len(),
{
    if a.len() == 0 || b.len() == 0 {
        if a.len() > 0 {
            files_bytes_split(a);
        }
        if b.len() > 0 {
            files_bytes_split(b);
        }
        assert(a.len() == 0 && b.len() == 0);
        assert(entries(a) =~= entries(b));
    } else {
        let a1 = a.drop_first();
        let b1 = b.drop_first();
        first_files_same(a, b);
        rest_is_comparable(a, b);
        same_bytes_same_entries(a1, b1);
        assert(entries(a) =~= seq![entry_of(a[0])] + entries(a1));
        assert(entries(b) =~= seq![entry_of(b[0])] + entries(b1));
    }
}

/// Where the files of a tree went: each is found again, and nothing else is.
proof fn order_keeps_entries(found: Seq<TreeFileView>, sorted: Seq<TreeFileView>) -> (perm: Seq<
    int,
>)
    requires
        source_hash::tree_order(found, sorted),
    ensures
        sorted.len() == found.len(),
        perm.len() == found.len(),
        entries(sorted).to_set() == entries(found).to_set(),
        forall|k: int|
            0 <= k < perm.len() ==> 0 <= #[trigger] perm[k] < found.len() && sorted[k]
                == found[perm[k]],
        forall|i: int| 0 <= i < found.len() ==> #[trigger] perm.contains(i),
{
    let perm = choose|perm: Seq<int>| #[trigger]
        order::arranges(perm, found.len() as int) && sorted == order::arranged(found, perm);
    order::all_positions(perm, found.len() as int);
    let s = entries(sorted);
    let f = entries(found);
    assert forall|e: (Seq<char>, Result<Seq<u8>, Seq<char>>)|
        s.to_set().contains(e) <==> f.to_set().contains(e) by {
        if s.contains(e) {
            let k = choose|k: int| 0 <= k < s.len() && s[k] == e;
            assert(f[perm[k]] == e);
        }
        if f.contains(e) {
            let i = choose|i: int| 0 <= i < f.len() && f[i] == e;
            assert(perm.contains(i));
            let k = choose|k: int| 0 <= k < perm.len() && perm[k] == i;
            assert(s[k] == e);
        }
    }
    assert(s.to_set() =~= f.to_set());
    perm
}

proof fn same_preimage_same_entries(
    a: Seq<TreeFileView>,
    b: Seq<TreeFileView>,
    sa: Seq<TreeFileView>,
    sb: Seq<TreeFileView>,
)
    requires
        source_hash::tree_order(a, sa),
        source_hash::tree_order(b, sb),
        comparable(a, b),
        source_hash::tree_preimage(sa) == source_hash::tree_preimage(sb),
    ensures
        entries(a).to_set() == entries(b).to_set(),
        a.len() == b.len(),
{
    let pa = order_keeps_entries(a, sa);
    let pb = order_keeps_entries(b, sb);
    let head = text::utf8("tree:v1:"@);
    assert(source_hash::files_bytes(sa) =~= source_hash::tree_preimage(sa).skip(
        head.len() as int,
    ));
    assert(source_hash::files_bytes(sb) =~= source_hash::tree_preimage(sb).skip(
        head.len() as int,
    ));
    assert forall|i: int, j: int|
        0 <= i < sa.len() && 0 <= j < sb.len() && name_of(#[trigger] sa[i]) == name_of(
            #[trigger] sb[j],
        ) implies (agree_on_shared(a, b) ==> sa[i].content == sb[j].content) && (
    shared_is_unambiguous(a, b) ==> sa[i].content == sb[j].content || (!imitates_files(
        body_of(sa[i]),
    ) && !imitates_files(body_of(sb[j])))) by {
        assert(sa[i] == a[pa[i]] && sb[j] == b[pb[j]]);
    }
    assert forall|i: int| 0 <= i < sa.len() implies !name_of(#[trigger] sa[i]).contains('\0') && (
    names_are_lines(a) ==> !name_of(sa[i]).contains('\n')) by {
        assert(sa[i] == a[pa[i]]);
    }
    assert forall|i: int| 0 <= i < sb.len() implies !name_of(#[trigger] sb[i]).contains('\0') && (
    names_are_lines(b) ==> !name_of(sb[i]).contains('\n')) by {
        assert(sb[i] == b[pb[i]]);
    }
    same_bytes_same_entries(sa, sb);
    assert(entries(sa).len() == sa.len());
    assert(entries(sb).len() == sb.len());
}

/// Files that come, go or change their name are noticed: trees that agree on the
/// content of the files they share have the same preimage only if they hold the
/// same files.
pub proof fn files_are_noticed(
    a: Seq<TreeFileView>,
    b: Seq<TreeFileView>,
    sa: Seq<TreeFileView>,
    sb: Seq<TreeFileView>,
)
    requires
        source_hash::tree_order(a, sa),
        source_hash::tree_order(b, sb),
        names_are_plain(a),
        names_are_plain(b),
        agree_on_shared(a, b),
        source_hash::tree_preimage(sa) == source_hash::tree_preimage(sb),
    ensures
        entries(a).to_set() == entries(b).to_set(),
        a.len() == b.len(),
{
    same_preimage_same_entries(a, b, sa, sb);
}

/// Changes of every kind are noticed, also several at once: trees have the same
/// preimage only if they hold the same files with the same content. Names hold
/// no line break, and content that changed under a kept name cannot be taken for
/// more than one file.
pub proof fn changes_are_noticed(
    a: Seq<TreeFileView>,
    b: Seq<TreeFileView>,
    sa: Seq<TreeFileView>,
    sb: Seq<TreeFileView>,
)
    requires
        source_hash::tree_order(a, sa),
        source_hash::tree_order(b, sb),
        names_are_plain(a),
        names_are_plain(b),
        names_are_lines(a),
        names_are_lines(b),
        shared_is_unambiguous(a, b),
        source_hash::tree_preimage(sa) == source_hash::tree_preimage(sb),
    ensures
        entries(a).to_set() == entries(b).to_set(),
        a.len() == b.len(),
{
    same_preimage_same_entries(a, b, sa, sb);
}

/// Content without a zero byte cannot be taken for more than one file.
pub proof fn zero_free_is_unambiguous(bytes: Seq<u8>)
    requires
        !bytes.contains(0u8),
    ensures
        !imitates_files(bytes),
{
    if imitates_files(bytes) {
        let (i, k) = choose|i: int, k: int| #[trigger] boundary_at(bytes, i, k);
        assert(bytes.contains(bytes[k]));
    }
}

/// Trees of the same paths are put into the same order.
proof fn same_order(
    a: Seq<TreeFileView>,
    b: Seq<TreeFileView>,
    sa: Seq<TreeFileView>,
    sb: Seq<TreeFileView>,
) -> (perm: Seq<int>)
    requires
        source_hash::tree_order(a, sa),
        source_hash::tree_order(b, sb),
        a.len() == b.len(),
        forall|j: int| 0 <= j < a.len() ==> (#[trigger] a[j]).rel == b[j].rel,
        forall|i: int, j: int|
            0 <= i < a.len() && 0 <= j < a.len() && i != j ==> (#[trigger] a[i]).rel != (
            #[trigger] a[j]).rel,
    ensures
        sa.len() == a.len(),
        sb.len() == a.len(),
        perm.len() == a.len(),
        forall|k: int|
            0 <= k < perm.len() ==> 0 <= #[trigger] perm[k] < a.len() && sa[k] == a[perm[k]]
                && sb[k] == b[perm[k]],
        forall|i: int| 0 <= i < a.len() ==> #[trigger] perm.contains(i),
{
    let pa = order_keeps_entries(a, sa);
    let pb = order_keeps_entries(b, sb);
    assert forall|i: int, j: int| 0 <= i < b.len() && 0 <= j < b.len() && i != j implies (
    #[trigger] b[i]).rel != (#[trigger] b[j]).rel by {
        assert(a[i].rel != a[j].rel);
    }
    source_hash::tree_order_increasing(a, sa);
    source_hash::tree_order_increasing(b, sb);
    let lt = |x: Seq<char>, y: Seq<char>| source_hash::file_before(x, y);
    let rel = |f: TreeFileView| f.rel;
    let ra = sa.map_values(rel);
    let rb = sb.map_values(rel);
    assert forall|x: Seq<char>| !#[trigger] lt(x, x) by {
        source_hash::file_before_irreflexive(x);
    }
    assert forall|x: Seq<char>, y: Seq<char>, z: Seq<char>| #[trigger]
        lt(x, y) && #[trigger] lt(y, z) implies lt(x, z) by {
        source_hash::file_before_transitive(x, y, z);
    }
    assert forall|i: int, j: int| 0 <= i < j < ra.len() implies lt(
        #[trigger] ra[i],
        #[trigger] ra[j],
    ) by {
        assert(source_hash::file_before(sa[i].rel, sa[j].rel));
    }
    assert forall|i: int, j: int| 0 <= i < j < rb.len() implies lt(
        #[trigger] rb[i],
        #[trigger] rb[j],
    ) by {
        assert(source_hash::file_before(sb[i].rel, sb[j].rel));
    }
    assert forall|r: Seq<char>| ra.to_set().contains(r) <==> rb.to_set().contains(r) by {
        if ra.contains(r) {
            let k = choose|k: int| 0 <= k < ra.len() && ra[k] == r;
            assert(sa[k] == a[pa[k]]);
            assert(pb.contains(pa[k]));
            let m = choose|m: int| 0 <= m < pb.len() && pb[m] == pa[k];
            assert(rb[m] == b[pb[m]].rel);
            assert(rb.contains(r));
        }
        if rb.contains(r) {
            let k = choose|k: int| 0 <= k < rb.len() && rb[k] == r;
            assert(sb[k] == b[pb[k]]);
            assert(pa.contains(pb[k]));
            let m = choose|m: int| 0 <= m < pa.len() && pa[m] == pb[k];
            assert(ra[m] == a[pa[m]].rel);
            assert(ra.contains(r));
        }
    }
    assert(ra.to_set() =~= rb.to_set());
    order::increasing_unique(lt, ra, rb);
    assert forall|k: int| 0 <= k < pa.len() implies 0 <= #[trigger] pa[k] < a.len() && sa[k]
        == a[pa[k]] && sb[k] == b[pa[k]] by {
        assert(ra[k] == sa[k].rel && rb[k] == sb[k].rel);
        assert(sb[k] == b[pb[k]]);
        assert(a[pa[k]].rel == a[pb[k]].rel);
    }
    pa
}

proof fn same_file_bytes(f: TreeFileView, g: TreeFileView)
    requires
        f.rel == g.rel,
        source_hash::file_bytes(f) == source_hash::file_bytes(g),
    ensures
        f.content == g.content,
{
    let x = text::utf8(name_of(f)) + seq![0u8];
    text::middle_decides(x, content_bytes(f), content_bytes(g), seq![10u8]);
    let ok = text::utf8("ok:"@);
    let bad = text::utf8("unreadable:"@);
    let none = Seq::<u8>::empty();
    reveal_strlit("ok:");
    reveal_strlit("unreadable:");
    vstd::utf8::is_ascii_chars_encode_utf8("ok:"@);
    vstd::utf8::is_ascii_chars_encode_utf8("unreadable:"@);
    assert(ok[0] == 'o' as u8);
    assert(bad[0] == 'u' as u8);
    match (f.content, g.content) {
        (Ok(p), Ok(q)) => {
            assert(ok + p + none =~= ok + p);
            assert(ok + q + none =~= ok + q);
            text::middle_decides(ok, p, q, none);
        },
        (Err(p), Err(q)) => {
            assert(bad + text::utf8(p) + none =~= bad + text::utf8(p));
            assert(bad + text::utf8(q) + none =~= bad + text::utf8(q));
            text::middle_decides(bad, text::utf8(p), text::utf8(q), none);
            text::utf8_injective(p, q);
        },
        (Ok(_), Err(_)) => {
            assert(content_bytes(f)[0] == ok[0]);
            assert(content_bytes(g)[0] == bad[0]);
        },
        (Err(_), Ok(_)) => {
            assert(content_bytes(f)[0] == bad[0]);
            assert(content_bytes(g)[0] == ok[0]);
        },
    }
}

/// An edit is noticed: trees that differ only in the content of one file, or in
/// whether it can be read, have different preimages.
pub proof fn edits_are_noticed(
    a: Seq<TreeFileView>,
    b: Seq<TreeFileView>,
    sa: Seq<TreeFileView>,
    sb: Seq<TreeFileView>,
    i: int,
)
    requires
        source_hash::tree_order(a, sa),
        source_hash::tree_order(b, sb),
        forall|m: int, n: int|
            0 <= m < a.len() && 0 <= n < a.len() && m != n ==> (#[trigger] a[m]).rel != (
            #[trigger] a[n]).rel,
        0 <= i < a.len(),
        a.len() == b.len(),
        a[i].rel == b[i].rel,
        forall|j: int| 0 <= j < a.len() && j != i ==> #[trigger] a[j] == b[j],
        source_hash::tree_preimage(sa) == source_hash::tree_preimage(sb),
    ensures
        a[i].content == b[i].content,
{
    assert forall|j: int| 0 <= j < a.len() implies (#[trigger] a[j]).rel == b[j].rel by {}
    let perm = same_order(a, b, sa, sb);
    source_hash::tree_order_increasing(a, sa);
    assert(perm.contains(i));
    let k = choose|k: int| 0 <= k < perm.len() && perm[k] == i;
    assert forall|n: int| 0 <= n < sa.len() && n != k implies sa[n] == sb[n] by {
        assert(sa[n] == a[perm[n]]);
        if perm[n] == i {
            source_hash::file_before_irreflexive(a[i].rel);
            if n < k {
                assert(source_hash::file_before(sa[n].rel, sa[k].rel));
            } else {
                assert(source_hash::file_before(sa[k].rel, sa[n].rel));
            }
        }
    }
    let before = sa.take(k);
    let after = sa.skip(k + 1);
    assert(sa =~= before + seq![sa[k]] + after);
    assert(sb =~= before + seq![sb[k]] + after);
    files_bytes_concat(before + seq![sa[k]], after);
    files_bytes_concat(before, seq![sa[k]]);
    files_bytes_single(sa[k]);
    files_bytes_concat(before + seq![sb[k]], after);
    files_bytes_concat(before, seq![sb[k]]);
    files_bytes_single(sb[k]);
    let head = text::utf8("tree:v1:"@);
    assert(source_hash::files_bytes(sa) =~= source_hash::tree_preimage(sa).skip(
        head.len() as int,
    ));
    assert(source_hash::files_bytes(sb) =~= source_hash::tree_preimage(sb).skip(
        head.len() as int,
    ));
    text::middle_decides(
        source_hash::files_bytes(before),
        source_hash::file_bytes(sa[k]),
        source_hash::file_bytes(sb[k]),
        source_hash::files_bytes(after),
    );
    same_file_bytes(sa[k], sb[k]);
}

/// Platforms are told apart: different ones add different bytes to a preimage.
/// The name of an architecture holds no colon.
pub proof fn platforms_are_told_apart(
    arch: Seq<char>,
    os: Seq<char>,
    arch2: Seq<char>,
    os2: Seq<char>,
)
    requires
        !arch.contains(':'),
        !arch2.contains(':'),
        source_hash::platform_bytes(arch, os) == source_hash::platform_bytes(arch2, os2),
    ensures
        arch == arch2,
        os == os2,
{
    let s = ":arch:"@ + arch + ":os:"@ + os;
    let t = ":arch:"@ + arch2 + ":os:"@ + os2;
    text::utf8_concat(":arch:"@, arch);
    text::utf8_concat(":arch:"@ + arch, ":os:"@);
    text::utf8_concat(":arch:"@ + arch + ":os:"@, os);
    text::utf8_concat(":arch:"@, arch2);
    text::utf8_concat(":arch:"@ + arch2, ":os:"@);
    text::utf8_concat(":arch:"@ + arch2 + ":os:"@, os2);
    text::utf8_injective(s, t);
    reveal_strlit(":arch:");
    reveal_strlit(":os:");
    assert(s[6 + arch.len() as int] == ':');
    assert(t[6 + arch2.len() as int] == ':');
    if arch.len() < arch2.len() {
        assert(arch2[arch.len() as int] == t[6 + arch.len() as int]);
        assert(arch2.contains(':'));
    }
    if arch2.len() < arch.len() {
        assert(arch[arch2.len() as int] == s[6 + arch2.len() as int]);
        assert(arch.contains(':'));
    }
    assert(arch =~= s.subrange(6, 6 + arch.len() as int));
    assert(arch2 =~= t.subrange(6, 6 + arch2.len() as int));
    assert(os =~= s.skip(10 + arch.len() as int));
    assert(os2 =~= t.skip(10 + arch2.len() as int));
}

} // verus!
