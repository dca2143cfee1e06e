//! Unix paths as text: their components, joining, parents, and the check that a
//! resolved path stays inside a directory.

use crate::order;
use crate::text;
use crate::types::{BuildError, BuildErrorView};
use vstd::prelude::*;

verus! {

/// The segments that name something: neither empty nor `.`.
pub open spec fn named_segments(segments: Seq<Seq<char>>) -> Seq<Seq<char>>
    decreases segments.len(),
{
    if segments.len() == 0 {
        Seq::empty()
    } else if segments.last().len() == 0 || segments.last() == "."@ {
        named_segments(segments.drop_last())
    } else {
        named_segments(segments.drop_last()).push(segments.last())
    }
}

/// The components of a path: `/` for the root of an absolute path, or `.` where
/// a relative path begins with it, and then the segments that name something.
pub open spec fn components(path: Seq<char>) -> Seq<Seq<char>> {
    let segments = text::split_on(path, '/');
    (if text::first_is(path, '/') {
        seq!["/"@]
    } else if segments[0] == "."@ {
        seq!["."@]
    } else {
        Seq::empty()
    }) + named_segments(segments)
}

/// Path `inner` is `outer` or lies below it: its components begin with those of `outer`.
pub open spec fn within(inner: Seq<char>, outer: Seq<char>) -> bool {
    components(outer).is_prefix_of(components(inner))
}

/// The components of a path.
pub fn path_components(path: &str) -> (r: Vec<String>)
    ensures
        order::text_views(r@) == components(path@),
{
    let segments = text::split_char(path, '/');
    let ghost sv = order::text_views(segments@);
    proof {
        text::split_nonempty(path@, '/');
        assert(sv[0] == segments@[0]@);
    }
    let mut r: Vec<String> = Vec::new();
    if text::starts_with_char(path, '/') {
        r.push("/".to_owned());
        assert(order::text_views(r@) =~= seq!["/"@]);
    } else if text::text_eq(&segments[0], ".") {
        r.push(".".to_owned());
        assert(order::text_views(r@) =~= seq!["."@]);
    } else {
        assert(order::text_views(r@) =~= Seq::<Seq<char>>::empty());
    }
    let ghost head = order::text_views(r@);
    let mut i: usize = 0;
    assert(head + named_segments(sv.take(0)) =~= head);
    while i < segments.len()
        invariant
            i <= segments.len(),
            sv == order::text_views(segments@),
            order::text_views(r@) == head + named_segments(sv.take(i as int)),
        decreases segments.len() - i,
    {
        let ghost before = order::text_views(r@);
        proof {
            assert(sv.take(i + 1).drop_last() =~= sv.take(i as int));
            assert(sv.take(i + 1).last() == segments@[i as int]@);
        }
        if !(segments[i].as_str().is_empty() || text::text_eq(&segments[i], ".")) {
            r.push(segments[i].clone());
            assert(order::text_views(r@) =~= before.push(segments@[i as int]@));
            assert(order::text_views(r@) =~= head + named_segments(sv.take(i + 1)));
        }
        i = i + 1;
    }
    assert(sv.take(sv.len() as int) =~= sv);
    r
}

/// Whether `inner` is `outer` or lies below it.
pub fn is_within(inner: &str, outer: &str) -> (r: bool)
    ensures
        r == within(inner@, outer@),
{
    let a = path_components(inner);
    let b = path_components(outer);
    let ghost av = order::text_views(a@);
    let ghost bv = order::text_views(b@);
    if b.len() > a.len() {
        return false;
    }
    let mut i: usize = 0;
    while i < b.len()
        invariant
            i <= b.len() <= a.len(),
            av == order::text_views(a@),
            bv == order::text_views(b@),
            av == components(inner@),
            bv == components(outer@),
            forall|k: int| 0 <= k < i ==> av[k] == bv[k],
        decreases b.len() - i,
    {
        assert(av[i as int] == a@[i as int]@);
        assert(bv[i as int] == b@[i as int]@);
        if !text::text_eq(&a[i], &b[i]) {
            assert(av.subrange(0, bv.len() as int)[i as int] != bv[i as int]);
            return false;
        }
        i = i + 1;
    }
    assert(av.subrange(0, bv.len() as int) =~= bv);
    true
}

/// Two paths with the same components.
pub open spec fn same(a: Seq<char>, b: Seq<char>) -> bool {
    components(a) == components(b)
}

/// Whether two paths have the same components.
pub fn same_path(a: &str, b: &str) -> (r: bool)
    ensures
        r == same(a@, b@),
{
    let r: bool = is_within(a, b) && is_within(b, a);
    proof {
        let x = components(a@);
        let y = components(b@);
        if r {
            assert(x.subrange(0, y.len() as int) =~= y);
            assert(y.subrange(0, x.len() as int) =~= x);
            assert(x =~= y);
        }
        if x == y {
            assert(x.subrange(0, x.len() as int) =~= x);
        }
    }
    r
}

/// The path occurs in the list.
pub open spec fn listed(list: Seq<Seq<char>>, p: Seq<char>) -> bool {
    exists|i: int| 0 <= i < list.len() && same(#[trigger] list[i], p)
}

/// Whether the path occurs in the list.
pub fn lists_path(list: &Vec<String>, p: &str) -> (r: bool)
    ensures
        r == listed(order::text_views(list@), p@),
{
    let ghost lv = order::text_views(list@);
    let mut i: usize = 0;
    while i < list.len()
        invariant
            i <= list.len(),
            lv == order::text_views(list@),
            forall|k: int| 0 <= k < i ==> !same(#[trigger] lv[k], p@),
        decreases list.len() - i,
    {
        assert(lv[i as int] == list@[i as int]@);
        if same_path(&list[i], p) {
            return true;
        }
        i = i + 1;
    }
    false
}

/// A path continued by another: an absolute one replaces it.
pub open spec fn joined_path(base: Seq<char>, rel: Seq<char>) -> Seq<char> {
    if text::first_is(rel, '/') || base.len() == 0 {
        rel
    } else if base.last() == '/' {
        base + rel
    } else {
        base + "/"@ + rel
    }
}

/// A path continued by another.
pub fn join_path(base: &str, rel: &str) -> (r: String)
    ensures
        r@ == joined_path(base@, rel@),
{
    if text::starts_with_char(rel, '/') || base.is_empty() {
        return rel.to_owned();
    }
    let chars = text::chars_of(base);
    let mut r = base.to_owned();
    if chars[chars.len() - 1] != '/' {
        r.append("/");
    }
    r.append(rel);
    r
}

/// Where the last segment of `path` between `from` and `n` begins.
pub open spec fn segment_start(path: Seq<char>, from: int, n: int) -> int
    decreases n - from,
{
    if n <= from {
        from
    } else if path[n - 1] == '/' {
        n
    } else {
        segment_start(path, from, n - 1)
    }
}

/// The end of `path` before `n` without the separators and `.` segments there.
pub open spec fn trimmed_end(path: Seq<char>, from: int, n: int) -> int
    decreases n - from,
{
    if n <= from {
        from
    } else {
        let s = segment_start(path, from, n);
        if s == n || (s + 1 == n && path[s] == '.') {
            if from < s <= n {
                trimmed_end(path, from, s - 1)
            } else {
                from
            }
        } else {
            n
        }
    }
}

/// The length of what precedes the named segments: a root, or a leading `.`.
pub open spec fn head_len(path: Seq<char>) -> int {
    if text::first_is(path, '/') || (text::first_is(path, '.') && (path.len() == 1 || path[1]
        == '/')) {
        1
    } else {
        0
    }
}

/// The path without its last component; nothing for a root or an empty path.
pub open spec fn parent_of(path: Seq<char>) -> Option<Seq<char>> {
    let from = head_len(path);
    let n = trimmed_end(path, from, path.len() as int);
    if n <= from {
        if text::first_is(path, '.') {
            Some(Seq::empty())
        } else {
            None
        }
    } else {
        let s = segment_start(path, from, n);
        Some(
            path.take(
                trimmed_end(
                    path,
                    from,
                    if s > from {
                        s - 1
                    } else {
                        from
                    },
                ),
            ),
        )
    }
}

fn find_segment_start(chars: &Vec<char>, from: usize, n: usize) -> (r: usize)
    requires
        from <= n <= chars.len(),
    ensures
        r == segment_start(chars@, from as int, n as int),
        from <= r <= n,
{
    let mut i: usize = n;
    while i > from
        invariant
            from <= i <= n <= chars.len(),
            segment_start(chars@, from as int, n as int) == segment_start(
                chars@,
                from as int,
                i as int,
            ),
        decreases i,
    {
        if chars[i - 1] == '/' {
            return i;
        }
        i = i - 1;
    }
    i
}

fn find_trimmed_end(chars: &Vec<char>, from: usize, n: usize) -> (r: usize)
    requires
        from <= n <= chars.len(),
    ensures
        r == trimmed_end(chars@, from as int, n as int),
        from <= r <= n,
    decreases n,
{
    if n <= from {
        return from;
    }
    let s: usize = find_segment_start(chars, from, n);
    if s == n || (s + 1 == n && chars[s] == '.') {
        if s > from {
            find_trimmed_end(chars, from, s - 1)
        } else {
            from
        }
    } else {
        n
    }
}

/// The path without its last component; nothing for a root or an empty path.
pub fn parent(path: &str) -> (r: Option<String>)
    ensures
        match r {
            Some(p) => parent_of(path@) == Some(p@),
            None => parent_of(path@) is None,
        },
{
    let chars = text::chars_of(path);
    let from: usize = if chars.len() > 0 && (chars[0] == '/' || (chars[0] == '.' && (chars.len()
        == 1 || chars[1] == '/'))) {
        1
    } else {
        0
    };
    let n: usize = find_trimmed_end(&chars, from, chars.len());
    if n <= from {
        if text::starts_with_char(path, '.') {
            let r = String::new();
            assert(r@ =~= Seq::<char>::empty());
            Some(r)
        } else {
            None
        }
    } else {
        let s: usize = find_segment_start(&chars, from, n);
        let m: usize = find_trimmed_end(
            &chars,
            from,
            if s > from {
                s - 1
            } else {
                from
            },
        );
        let r = text::slice_text(&chars, 0, m);
        assert(path@.subrange(0, m as int) =~= path@.take(m as int));
        Some(r)
    }
}

/// What resolving `relative` against a base directory comes to, given what the
/// file system makes of the base and of the two joined: the canonical path, if
/// it lies inside the canonical base.
pub open spec fn containment(
    base: Seq<char>,
    base_canon: Result<Seq<char>, Seq<char>>,
    relative: Seq<char>,
    canon: Result<Seq<char>, Seq<char>>,
) -> Result<Seq<char>, BuildErrorView> {
    match base_canon {
        Err(e) => Err(BuildErrorView::Io("canonicalize base "@ + base + ": "@ + e)),
        Ok(b) => match canon {
            Err(e) => Err(
                BuildErrorView::Io("canonicalize "@ + joined_path(b, relative) + ": "@ + e),
            ),
            Ok(c) => if within(c, b) {
                Ok(c)
            } else {
                Err(
                    BuildErrorView::Io(
                        "path "@ + c + " escapes the node checkout "@ + b
                            + " (symlink traversal?)"@,
                    ),
                )
            },
        },
    }
}

/// What a result of resolving a path holds.
pub open spec fn path_result(r: Result<String, BuildError>) -> Result<Seq<char>, BuildErrorView> {
    match r {
        Ok(p) => Ok(p@),
        Err(e) => Err(e@),
    }
}

/// What a file system answer holds.
pub open spec fn answer_view(r: Result<String, String>) -> Result<Seq<char>, Seq<char>> {
    match r {
        Ok(p) => Ok(p@),
        Err(e) => Err(e@),
    }
}

/// Requires the canonical form of `relative`, resolved against `base`, to stay
/// inside the canonical form of `base`.
///
/// `base_canon` is what canonicalizing `base` gave, `canon` what canonicalizing
/// the canonical base joined with `relative` gave; an error carries its message.
pub fn contain_within(
    base: &str,
    base_canon: &Result<String, String>,
    relative: &str,
    canon: &Result<String, String>,
) -> (r: Result<String, BuildError>)
    ensures
        path_result(r) == containment(
            base@,
            answer_view(*base_canon),
            relative@,
            answer_view(*canon),
        ),
        r matches Ok(p) ==> base_canon matches Ok(b) && within(p@, b@),
{
    match base_canon {
        Err(e) => {
            let mut s = "canonicalize base ".to_owned();
            s.append(base);
            s.append(": ");
            s.append(e);
            Err(BuildError::Io(s))
        },
        Ok(b) => match canon {
            Err(e) => {
                let mut s = "canonicalize ".to_owned();
                s.append(&join_path(b, relative));
                s.append(": ");
                s.append(e);
                Err(BuildError::Io(s))
            },
            Ok(c) => {
                if is_within(c, b) {
                    return Ok(c.clone());
                }
                let mut s = "path ".to_owned();
                s.append(c);
                s.append(" escapes the node checkout ");
                s.append(b);
                s.append(" (symlink traversal?)");
                Err(BuildError::Io(s))
            },
        },
    }
}

/// Calls `dirs::home_dir`. The answer depends on the user and the environment;
/// nothing is claimed of it.
#[verifier::external_body]
pub(crate) fn home_dir() -> (r: Option<String>) {
    dirs::home_dir().map(|p| p.to_string_lossy().into_owned())
}

/// A path with a leading `~/`, or a bare `~`, replaced by the home directory
/// where there is one. Any other path is left as it is.
pub open spec fn tilde_expanded(p: Seq<char>, home: Option<Seq<char>>) -> Seq<char> {
    match home {
        None => p,
        Some(h) => if text::begins_with(p, "~/"@) {
            joined_path(h, p.skip(2))
        } else if p == "~"@ {
            h
        } else {
            p
        },
    }
}

/// Expands a leading `~/` or a bare `~` to a given home directory.
pub fn expand_tilde_in(p: &str, home: &Option<String>) -> (r: String)
    ensures
        r@ == tilde_expanded(p@, crate::manifest::opt_text(*home)),
{
    match home {
        None => p.to_owned(),
        Some(h) => {
            if text::starts_with(p, "~/") {
                let chars = text::chars_of(p);
                proof {
                    reveal_strlit("~/");
                    assert(p@.subrange(2, p@.len() as int) =~= p@.skip(2));
                }
                join_path(h, &text::slice_text(&chars, 2, chars.len()))
            } else if text::text_eq(p, "~") {
                h.clone()
            } else {
                p.to_owned()
            }
        },
    }
}

/// A path that tilde expansion changes.
pub open spec fn has_tilde(p: Seq<char>) -> bool {
    text::begins_with(p, "~/"@) || p == "~"@
}

/// Expands a leading `~/` or a bare `~` to the user's home directory.
///
/// Other paths are returned unchanged, as is every path where the home
/// directory is not known.
pub fn expand_tilde(p: &str) -> (r: String)
    ensures
        !has_tilde(p@) ==> r@ == p@,
        exists|home: Option<Seq<char>>| r@ == #[trigger] tilde_expanded(p@, home),
{
    let home = home_dir();
    let r = expand_tilde_in(p, &home);
    assert(r@ == tilde_expanded(p@, crate::manifest::opt_text(home)));
    r
}

} // verus!
