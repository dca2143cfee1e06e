//! What the operations on paths are for.

use crate::paths;
use crate::picking;
use crate::text;
use crate::text_laws;
use crate::types::BuildErrorView;
use vstd::prelude::*;

verus! {

/// A segment that names something.
pub open spec fn plain_name(name: Seq<char>) -> bool {
    name.len() > 0 && name != "."@ && !name.contains('/')
}

/// Segments that all name something.
pub open spec fn plain_names(names: Seq<Seq<char>>) -> bool {
    forall|i: int| 0 <= i < names.len() ==> plain_name(#[trigger] names[i])
}

/// Names with a slash between any two of them.
pub open spec fn slashed(names: Seq<Seq<char>>) -> Seq<char> {
    text::joined(names, seq!['/'])
}

/// Of the segments of a path those count that are neither empty nor a single dot,
/// in order.
pub proof fn empty_segments_do_not_count(segments: Seq<Seq<char>>) -> (kept: Seq<int>)
    ensures
        picking::picks(
            kept,
            segments.len(),
            |i: int| segments[i].len() > 0 && segments[i] != seq!['.'],
        ),
        paths::named_segments(segments).len() == kept.len(),
        forall|k: int|
            0 <= k < kept.len() ==> #[trigger] paths::named_segments(segments)[k]
                == segments[kept[k]],
    decreases segments.len(),
{
    reveal_strlit(".");
    assert("."@ =~= seq!['.']);
    let keep = |i: int| segments[i].len() > 0 && segments[i] != seq!['.'];
    if segments.len() == 0 {
        Seq::empty()
    } else {
        let before = segments.drop_last();
        let n = before.len();
        let kept = empty_segments_do_not_count(before);
        picking::picks_agree(
            kept,
            n,
            |i: int| before[i].len() > 0 && before[i] != seq!['.'],
            keep,
        );
        picking::picks_grow(kept, n, keep);
        let more = if keep(n as int) {
            kept.push(n as int)
        } else {
            kept
        };
        assert forall|k: int| 0 <= k < more.len() implies #[trigger] paths::named_segments(
            segments,
        )[k] == segments[more[k]] by {
            if k < kept.len() {
                assert(paths::named_segments(before)[k] == before[kept[k]]);
            }
        }
        more
    }
}

proof fn named_concat(a: Seq<Seq<char>>, b: Seq<Seq<char>>)
    ensures
        paths::named_segments(a + b) == paths::named_segments(a) + paths::named_segments(b),
    decreases b.len(),
{
    if b.len() == 0 {
        assert(a + b =~= a);
        assert(paths::named_segments(a) + paths::named_segments(b) =~= paths::named_segments(a));
    } else {
        named_concat(a, b.drop_last());
        assert((a + b).drop_last() =~= a + b.drop_last());
        assert((a + b).last() == b.last());
        assert(paths::named_segments(a + b) =~= paths::named_segments(a) + paths::named_segments(b));
    }
}

proof fn named_plain(names: Seq<Seq<char>>)
    requires
        plain_names(names),
    ensures
        paths::named_segments(names) == names,
    decreases names.len(),
{
    if names.len() > 0 {
        assert(plain_name(names[names.len() - 1]));
        assert forall|i: int| 0 <= i < names.drop_last().len() implies plain_name(
            #[trigger] names.drop_last()[i],
        ) by {
            assert(names[i] == names.drop_last()[i]);
        }
        named_plain(names.drop_last());
        assert(names =~= names.drop_last().push(names.last()));
    } else {
        assert(names =~= Seq::<Seq<char>>::empty());
    }
}

proof fn unnamed(x: Seq<char>)
    requires
        x.len() == 0 || x == "."@,
    ensures
        paths::named_segments(seq![x]) == Seq::<Seq<char>>::empty(),
{
    let one = seq![x];
    assert(one.last() == x);
    assert(one.drop_last() =~= Seq::<Seq<char>>::empty());
    assert(paths::named_segments(Seq::<Seq<char>>::empty()) =~= Seq::<Seq<char>>::empty());
}

/// The pieces on both sides of a separator are the pieces of the whole.
pub proof fn pieces_of_both_sides(a: Seq<char>, b: Seq<char>, c: char)
    ensures
        text::split_on(a + seq![c] + b, c) == text::split_on(a, c) + text::split_on(b, c),
{
    let x = text::split_on(a, c);
    let y = text::split_on(b, c);
    text_laws::pieces_join_back(a, c);
    text_laws::pieces_join_back(b, c);
    text_laws::joins_compose(x, y, a, seq![c]);
    assert forall|i: int| 0 <= i < (x + y).len() implies !(#[trigger] (x + y)[i]).contains(c) by {
        if i < x.len() {
            assert((x + y)[i] == x[i]);
        } else {
            assert((x + y)[i] == y[i - x.len()]);
        }
    }
    text_laws::joins_split_back(x + y, c);
}

/// The components of a path made of names are these names, behind the root where
/// it is absolute.
pub proof fn components_are_the_names(names: Seq<Seq<char>>)
    requires
        names.len() > 0,
        plain_names(names),
    ensures
        paths::components(slashed(names)) == names,
        paths::components(seq!['/'] + slashed(names)) == seq![seq!['/']] + names,
{
    let p = slashed(names);
    let q = seq!['/'] + p;
    reveal_strlit("/");
    reveal_strlit(".");
    assert("/"@ =~= seq!['/']);
    assert forall|i: int| 0 <= i < names.len() implies !(#[trigger] names[i]).contains('/') by {
        assert(plain_name(names[i]));
    }
    text_laws::joins_split_back(names, '/');
    named_plain(names);
    assert(plain_name(names[0]));
    if text::first_is(p, '/') {
        slashed_begins(names);
    }
    assert(Seq::<Seq<char>>::empty() + names =~= names);
    let none = Seq::<char>::empty();
    pieces_of_both_sides(none, p, '/');
    assert(none + seq!['/'] + p =~= q);
    text_laws::pieces_join_back(none, '/');
    text_laws::joins_compose(Seq::empty(), Seq::empty(), none, seq!['/']);
    assert(text::split_on(none, '/') =~= seq![none]);
    named_concat(seq![none], names);
    unnamed(none);
    assert(Seq::<Seq<char>>::empty() + names =~= names);
    assert(q[0] == '/');
}

proof fn slashed_begins(names: Seq<Seq<char>>)
    requires
        names.len() > 0,
        plain_names(names),
    ensures
        slashed(names).len() > 0,
        slashed(names)[0] == names[0][0],
        names[0][0] != '/',
{
    let head = names[0];
    assert(plain_name(head));
    assert(head.contains(head[0]));
    let more = names.drop_first();
    text_laws::joins_compose(seq![head], more, head, seq!['/']);
    assert(seq![head] + more =~= names);
    if names.len() == 1 {
        assert(names =~= seq![head]);
    }
}

/// Repeated and trailing slashes, and single dots behind a slash, change no
/// component.
pub proof fn spelling_does_not_matter(a: Seq<char>, b: Seq<char>)
    requires
        a.len() > 0,
    ensures
        paths::same(a + seq!['/'], a),
        paths::same(a + seq!['/', '/'] + b, a + seq!['/'] + b),
        paths::same(a + seq!['/', '.', '/'] + b, a + seq!['/'] + b),
{
    reveal_strlit(".");
    let none = Seq::<char>::empty();
    let dot = seq!['.'];
    assert("."@ =~= dot);
    let x = text::split_on(a, '/');
    let y = text::split_on(b, '/');
    text::split_nonempty(a, '/');
    single_piece(none);
    single_piece(dot);
    pieces_of_both_sides(a, none, '/');
    assert(a + seq!['/'] + none =~= a + seq!['/']);
    pieces_of_both_sides(a, b, '/');
    let a1 = a + seq!['/'];
    pieces_of_both_sides(a1, b, '/');
    assert(a1 + seq!['/'] + b =~= a + seq!['/', '/'] + b);
    pieces_of_both_sides(a, dot, '/');
    let a2 = a + seq!['/'] + dot;
    pieces_of_both_sides(a2, b, '/');
    assert(a2 + seq!['/'] + b =~= a + seq!['/', '.', '/'] + b);
    named_concat(x, seq![none]);
    named_concat(x, seq![dot]);
    named_concat(x, y);
    named_concat(x + seq![none], y);
    named_concat(x + seq![dot], y);
    unnamed(none);
    unnamed(dot);
    assert(paths::named_segments(x) + Seq::<Seq<char>>::empty() =~= paths::named_segments(x));
    assert((x + seq![none])[0] == x[0]);
    assert((x + y)[0] == x[0]);
    assert((x + seq![none] + y)[0] == x[0]);
    assert((x + seq![dot] + y)[0] == x[0]);
}

proof fn single_piece(s: Seq<char>)
    requires
        !s.contains('/'),
    ensures
        text::split_on(s, '/') == seq![s],
{
    let one = seq![s];
    text_laws::joins_split_back(one, '/');
    text_laws::joins_compose(Seq::empty(), Seq::empty(), s, seq!['/']);
}

/// An absolute path replaces what it is joined to. A relative one follows it, with
/// one slash between them, and nothing is lost of either.
pub proof fn joining_keeps_both(base: Seq<char>, rel: Seq<char>)
    ensures
        text::first_is(rel, '/') || base.len() == 0 ==> paths::joined_path(base, rel) == rel,
        !text::first_is(rel, '/') && base.len() > 0 ==> paths::joined_path(base, rel) == (
        if base.last() == '/' {
            base
        } else {
            base.push('/')
        }) + rel,
{
    reveal_strlit("/");
    assert("/"@ =~= seq!['/']);
    assert(base + "/"@ =~= base.push('/'));
}

/// Different relative paths below one directory are different paths.
pub proof fn joining_tells_apart(base: Seq<char>, a: Seq<char>, b: Seq<char>)
    requires
        !text::first_is(a, '/'),
        !text::first_is(b, '/'),
        paths::joined_path(base, a) == paths::joined_path(base, b),
    ensures
        a == b,
{
    joining_keeps_both(base, a);
    joining_keeps_both(base, b);
    if base.len() > 0 {
        let head = if base.last() == '/' {
            base
        } else {
            base.push('/')
        };
        assert(a =~= (head + a).skip(head.len() as int));
        assert(b =~= (head + b).skip(head.len() as int));
    }
}

/// A relative path continues the components of the directory it is joined to, so
/// the result lies inside that directory.
pub proof fn joining_goes_down(base: Seq<char>, rel: Seq<char>)
    requires
        base.len() > 0,
        !text::first_is(rel, '/'),
    ensures
        paths::components(paths::joined_path(base, rel)) == paths::components(base)
            + paths::named_segments(text::split_on(rel, '/')),
        paths::within(paths::joined_path(base, rel), base),
{
    let none = Seq::<char>::empty();
    let p = paths::joined_path(base, rel);
    joining_keeps_both(base, rel);
    let x = text::split_on(base, '/');
    let y = text::split_on(rel, '/');
    text::split_nonempty(base, '/');
    if base.last() == '/' {
        let b = base.drop_last();
        assert(base =~= b + seq!['/'] + none);
        pieces_of_both_sides(b, none, '/');
        pieces_of_both_sides(b, rel, '/');
        assert(b + seq!['/'] + rel =~= base + rel);
        single_piece(none);
        let z = text::split_on(b, '/');
        text::split_nonempty(b, '/');
        named_concat(z, seq![none]);
        named_concat(z, y);
        unnamed(none);
        assert(paths::named_segments(z) + Seq::<Seq<char>>::empty() =~= paths::named_segments(z));
        assert((z + seq![none])[0] == z[0]);
        assert((z + y)[0] == z[0]);
    } else {
        assert(base + seq!['/'] + rel =~= base.push('/') + rel);
        pieces_of_both_sides(base, rel, '/');
        named_concat(x, y);
        assert((x + y)[0] == x[0]);
    }
    assert(p[0] == base[0]);
    let c = paths::components(base);
    let d = paths::named_segments(y);
    assert(paths::components(p) =~= c + d);
    assert((c + d).subrange(0, c.len() as int) =~= c);
}

/// Every directory lies in itself, and what lies in a directory inside another
/// lies in that one. Two that lie in each other are the same.
pub proof fn inside_is_an_order(a: Seq<char>, b: Seq<char>, c: Seq<char>)
    ensures
        paths::within(a, a),
        paths::within(a, b) && paths::within(b, c) ==> paths::within(a, c),
        paths::within(a, b) && paths::within(b, a) <==> paths::same(a, b),
{
    let x = paths::components(a);
    let y = paths::components(b);
    let z = paths::components(c);
    assert(x.subrange(0, x.len() as int) =~= x);
    if paths::within(a, b) && paths::within(b, c) {
        assert(x.subrange(0, z.len() as int) =~= z) by {
            assert forall|i: int| 0 <= i < z.len() implies x[i] == z[i] by {
                assert(y.subrange(0, z.len() as int)[i] == z[i]);
                assert(x.subrange(0, y.len() as int)[i] == y[i]);
            }
        }
    }
    if paths::within(a, b) && paths::within(b, a) {
        assert(x.subrange(0, y.len() as int) =~= y);
        assert(y.subrange(0, x.len() as int) =~= x);
        assert(x =~= y);
    }
}

/// A path lies inside a directory exactly if the directory's components come
/// first, one for one: a name that only begins like another is another.
pub proof fn inside_goes_by_components(inner: Seq<char>, outer: Seq<char>)
    ensures
        paths::within(inner, outer) <==> paths::components(outer).len() <= paths::components(
            inner,
        ).len() && forall|i: int|
            0 <= i < paths::components(outer).len() ==> #[trigger] paths::components(outer)[i]
                == paths::components(inner)[i],
{
    let a = paths::components(inner);
    let b = paths::components(outer);
    if b.len() <= a.len() && forall|i: int| 0 <= i < b.len() ==> #[trigger] b[i] == a[i] {
        assert(a.subrange(0, b.len() as int) =~= b);
    }
    if paths::within(inner, outer) {
        assert forall|i: int| 0 <= i < b.len() implies #[trigger] b[i] == a[i] by {
            assert(a.subrange(0, b.len() as int)[i] == b[i]);
        }
    }
}

/// The home directory takes the place of a leading `~`, alone or before a slash,
/// and of nothing else.
pub proof fn tilde_means_home(rest: Seq<char>, home: Seq<char>, other: Option<Seq<char>>)
    ensures
        paths::tilde_expanded(seq!['~', '/'] + rest, Some(home)) == paths::joined_path(home, rest),
        paths::tilde_expanded(seq!['~'], Some(home)) == home,
        paths::tilde_expanded(rest, None) == rest,
        !text::first_is(rest, '~') ==> paths::tilde_expanded(rest, other) == rest,
        rest.len() > 1 && rest[0] == '~' && rest[1] != '/' ==> paths::tilde_expanded(rest, other)
            == rest,
{
    reveal_strlit("~/");
    reveal_strlit("~");
    let p = seq!['~', '/'] + rest;
    assert("~/"@ =~= seq!['~', '/']);
    assert("~"@ =~= seq!['~']);
    assert(p.take(2) =~= seq!['~', '/']);
    assert(p.skip(2) =~= rest);
    if text::begins_with(rest, "~/"@) {
        assert(rest.take(2)[0] == '~' && rest.take(2)[1] == '/');
        assert(rest[0] == '~' && rest[1] == '/');
    }
}

proof fn segment_starts(p: Seq<char>, from: int, n: int, k: int)
    requires
        0 <= from <= k <= n <= p.len(),
        k == from || p[k - 1] == '/',
        forall|i: int| k <= i < n ==> #[trigger] p[i] != '/',
    ensures
        paths::segment_start(p, from, n) == k,
    decreases n,
{
    if n > k {
        assert(p[n - 1] != '/');
        segment_starts(p, from, n - 1, k);
    }
}

/// The path of a plain name behind a directory ends there.
proof fn plain_end(p: Seq<char>, from: int, k: int, n: int)
    requires
        0 <= from <= k < n <= p.len(),
        k == from || p[k - 1] == '/',
        plain_name(p.subrange(k, n)),
    ensures
        paths::segment_start(p, from, n) == k,
        paths::trimmed_end(p, from, n) == n,
{
    let name = p.subrange(k, n);
    reveal_strlit(".");
    assert("."@ =~= seq!['.']);
    assert forall|i: int| k <= i < n implies #[trigger] p[i] != '/' by {
        assert(name[i - k] == p[i]);
        assert(name.contains(name[i - k]));
    }
    segment_starts(p, from, n, k);
    if k + 1 == n && p[k] == '.' {
        assert(name =~= seq!['.']);
    }
}

/// The parent of a path made of names is the path without the last of them. A
/// single name has the empty path above it, and in the root the root.
pub proof fn parent_drops_the_last_name(names: Seq<Seq<char>>, last: Seq<char>)
    requires
        plain_names(names),
        plain_name(last),
    ensures
        paths::parent_of(slashed(names.push(last))) == Some(slashed(names)),
        paths::parent_of(seq!['/'] + slashed(names.push(last))) == Some(
            seq!['/'] + slashed(names),
        ),
{
    parent_behind(Seq::empty(), names, last);
    parent_behind(seq!['/'], names, last);
    let all = names.push(last);
    assert(Seq::<char>::empty() + slashed(all) =~= slashed(all));
    assert(Seq::<char>::empty() + slashed(names) =~= slashed(names));
}

proof fn parent_of_two(p: Seq<char>, from: int, j: int, m: int)
    requires
        paths::head_len(p) == from,
        0 <= from <= j < m,
        m + 1 < p.len(),
        j == from || p[j - 1] == '/',
        plain_name(p.subrange(j, m)),
        p[m] == '/',
        plain_name(p.subrange(m + 1, p.len() as int)),
    ensures
        paths::parent_of(p) == Some(p.take(m)),
{
    plain_end(p, from, m + 1, p.len() as int);
    plain_end(p, from, j, m);
}

proof fn slashed_push(names: Seq<Seq<char>>, last: Seq<char>)
    ensures
        slashed(names.push(last)) == (if names.len() == 0 {
            last
        } else {
            slashed(names) + seq!['/'] + last
        }),
{
    text_laws::joins_compose(names, seq![last], last, seq!['/']);
    assert(names + seq![last] =~= names.push(last));
    if names.len() == 0 {
        assert(names.push(last) =~= seq![last]);
    }
}

proof fn head_behind(head: Seq<char>, names: Seq<Seq<char>>)
    requires
        names.len() > 0,
        plain_names(names),
        head.len() == 0 || head == seq!['/'],
    ensures
        paths::head_len(head + slashed(names)) == head.len(),
{
    if head.len() == 0 {
        no_leading_dot(names);
        assert(head + slashed(names) =~= slashed(names));
    } else {
        assert((head + slashed(names))[0] == '/');
    }
}

proof fn parent_behind(head: Seq<char>, names: Seq<Seq<char>>, last: Seq<char>)
    requires
        plain_names(names),
        plain_name(last),
        head.len() == 0 || head == seq!['/'],
    ensures
        paths::parent_of(head + slashed(names.push(last))) == Some(head + slashed(names)),
{
    let all = names.push(last);
    let p = head + slashed(all);
    let from = head.len() as int;
    assert forall|i: int| 0 <= i < all.len() implies plain_name(#[trigger] all[i]) by {
        if i < names.len() {
            assert(all[i] == names[i]);
        }
    }
    head_behind(head, all);
    slashed_push(names, last);
    if names.len() == 0 {
        assert(p.subrange(from, p.len() as int) =~= last);
        plain_end(p, from, from, p.len() as int);
        assert(slashed(names) =~= Seq::<char>::empty());
        assert(p.take(from) =~= head + slashed(names));
    } else {
        let before = names.drop_last();
        let x = names.last();
        assert(plain_name(names[names.len() - 1]));
        slashed_push(before, x);
        assert(before.push(x) =~= names);
        let s = slashed(names);
        let m = from + s.len();
        let j = m - x.len();
        assert(p =~= head + s + seq!['/'] + last);
        assert(s.subrange(s.len() - x.len(), s.len() as int) =~= x);
        assert(p.subrange(j, m) =~= x);
        assert(p.subrange(m + 1, p.len() as int) =~= last);
        if before.len() > 0 {
            assert(s[s.len() - x.len() - 1] == '/');
            assert(p[j - 1] == s[s.len() - x.len() - 1]);
        }
        parent_of_two(p, from, j, m);
        assert(p.take(m) =~= head + s);
    }
}

/// A path of plain names does not begin with a dot that stands alone.
proof fn no_leading_dot(names: Seq<Seq<char>>)
    requires
        names.len() > 0,
        plain_names(names),
    ensures
        paths::head_len(slashed(names)) == 0,
{
    let p = slashed(names);
    let head = names[0];
    reveal_strlit(".");
    assert("."@ =~= seq!['.']);
    slashed_begins(names);
    assert(plain_name(head));
    if text::first_is(p, '.') && (p.len() == 1 || p[1] == '/') {
        let more = names.drop_first();
        text_laws::joins_compose(seq![head], more, head, seq!['/']);
        assert(seq![head] + more =~= names);
        if head.len() > 1 {
            if names.len() == 1 {
                assert(names =~= seq![head]);
            }
            assert(p[1] == head[1]);
            assert(head.contains(head[1]));
        } else {
            assert(head =~= seq!['.']);
        }
    }
}

/// There is nothing above a root, nor above the empty path.
pub proof fn roots_have_no_parent()
    ensures
        paths::parent_of(Seq::<char>::empty()) is None,
        paths::parent_of(seq!['/']) is None,
{
}

/// A `.` at the beginning of a relative path is a component of its own, and only there.
pub proof fn leading_dot_counts(rest: Seq<char>)
    ensures
        paths::components(seq!['.']) == seq![seq!['.']],
        paths::components(seq!['.', '/'] + rest) == seq![seq!['.']] + paths::named_segments(
            text::split_on(rest, '/'),
        ),
        !text::first_is(rest, '/') && text::split_on(rest, '/')[0] != seq!['.']
            ==> paths::components(rest) == paths::named_segments(text::split_on(rest, '/')),
{
    reveal_strlit(".");
    let dot = seq!['.'];
    assert("."@ =~= dot);
    let none = Seq::<Seq<char>>::empty();
    assert(!dot.contains('/'));
    single_piece(dot);
    unnamed(dot);
    assert(seq![dot] + none =~= seq![dot]);
    pieces_of_both_sides(dot, rest, '/');
    assert(dot + seq!['/'] + rest =~= seq!['.', '/'] + rest);
    let x = text::split_on(rest, '/');
    named_concat(seq![dot], x);
    assert(none + paths::named_segments(x) =~= paths::named_segments(x));
    assert((seq![dot] + x)[0] == dot);
}

/// Above a name behind a leading `.` is that `.`, and above that is the empty path.
pub proof fn leading_dot_is_a_parent(name: Seq<char>, last: Seq<char>)
    requires
        plain_name(name),
        plain_name(last),
    ensures
        paths::parent_of(seq!['.']) == Some(Seq::<char>::empty()),
        paths::parent_of(seq!['.', '/'] + last) == Some(seq!['.']),
        paths::parent_of(seq!['.', '/'] + name + seq!['/'] + last) == Some(
            seq!['.', '/'] + name,
        ),
{
    let p = seq!['.', '/'] + last;
    assert(p.subrange(2, p.len() as int) =~= last);
    plain_end(p, 1, 2, p.len() as int);
    assert(p.take(1) =~= seq!['.']);
    let q = seq!['.', '/'] + name + seq!['/'] + last;
    let m = (2 + name.len()) as int;
    assert(q.subrange(2, m) =~= name);
    assert(q.subrange(m + 1, q.len() as int) =~= last);
    parent_of_two(q, 1, 2, m);
    assert(q.take(m) =~= seq!['.', '/'] + name);
}

/// The result is an error whose message holds the text.
pub open spec fn says<T>(r: Result<T, BuildErrorView>, p: Seq<char>) -> bool {
    r matches Err(BuildErrorView::Io(t)) && text::occurs_in(t, p)
}

/// A path is accepted as contained exactly if both it and the directory can be
/// resolved and it lies inside; it is then the resolved path itself.
pub proof fn only_what_lies_inside_is_contained(
    base: Seq<char>,
    base_canon: Result<Seq<char>, Seq<char>>,
    relative: Seq<char>,
    canon: Result<Seq<char>, Seq<char>>,
)
    ensures
        paths::containment(base, base_canon, relative, canon) is Ok <==> base_canon is Ok
            && canon is Ok && paths::within(canon->Ok_0, base_canon->Ok_0),
        paths::containment(base, base_canon, relative, canon) matches Ok(p) ==> canon == Ok::<
            Seq<char>,
            Seq<char>,
        >(p),
        paths::containment(base, base_canon, relative, canon) matches Err(e) ==> e is Io,
        ({
            let r = paths::containment(base, base_canon, relative, canon);
            match (base_canon, canon) {
                (Err(m), _) => says(r, base) && says(r, m),
                (Ok(b), Err(m)) => says(r, paths::joined_path(b, relative)) && says(r, m),
                (Ok(b), Ok(c)) => !paths::within(c, b) ==> says(r, b) && says(r, c) && says(
                    r,
                    "escapes"@,
                ),
            }
        }),
{
    match base_canon {
        Err(m) => {
            part_of("canonicalize base "@, base, ": "@ + m);
            part_of("canonicalize base "@ + base + ": "@, m, Seq::empty());
            let t = "canonicalize base "@ + base + ": "@ + m;
            assert("canonicalize base "@ + base + (": "@ + m) =~= t);
            assert("canonicalize base "@ + base + ": "@ + m + Seq::<char>::empty() =~= t);
        },
        Ok(b) => match canon {
            Err(m) => {
                let j = paths::joined_path(b, relative);
                part_of("canonicalize "@, j, ": "@ + m);
                part_of("canonicalize "@ + j + ": "@, m, Seq::empty());
                let t = "canonicalize "@ + j + ": "@ + m;
                assert("canonicalize "@ + j + (": "@ + m) =~= t);
                assert("canonicalize "@ + j + ": "@ + m + Seq::<char>::empty() =~= t);
            },
            Ok(c) => {
                let esc = " escapes the node checkout "@;
                let end = " (symlink traversal?)"@;
                let t = "path "@ + c + esc + b + end;
                part_of("path "@, c, esc + b + end);
                assert("path "@ + c + (esc + b + end) =~= t);
                part_of("path "@ + c + esc, b, end);
                reveal_strlit(" escapes the node checkout ");
                reveal_strlit("escapes");
                let rest = esc.skip(8);
                assert(esc =~= seq![' '] + "escapes"@ + rest);
                part_of("path "@ + c + seq![' '], "escapes"@, rest + b + end);
                assert("path "@ + c + seq![' '] + "escapes"@ + (rest + b + end) =~= t);
            },
        },
    }
}

/// A part of a text occurs in it.
#[verifier::spinoff_prover]
pub proof fn part_of(a: Seq<char>, p: Seq<char>, b: Seq<char>)
    ensures
        text::occurs_in(a + p + b, p),
{
    let s = a + p + b;
    let i = a.len() as int;
    assert(s.skip(i).take(p.len() as int) =~= p);
    assert(text::begins_with(s.skip(i), p));
}

} // verus!
