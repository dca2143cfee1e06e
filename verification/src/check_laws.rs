//! What each check of a manifest refuses, and what it says about it.

use crate::checks;
use crate::checks::CharClass;
use crate::factory_laws;
use crate::manifest;
use crate::manifest::{ActionEntryView, ManifestErrorView, ManifestView, NodeView};
use crate::path_laws;
use crate::text;
use crate::text_laws;
use vstd::prelude::*;

verus! {

/// The classes of characters. Tags are made of ASCII letters and digits and the
/// characters `.`, `_`, `:`, `/` and `-`.
pub proof fn classes_are_these(c: char)
    ensures
        checks::in_class(c, CharClass::Separator) <==> seq!['/', '\\', ':'].contains(c),
        checks::in_class(c, CharClass::Control) <==> c as u32 <= 0x1f || 0x7f <= c as u32 <= 0x9f,
        checks::in_class(c, CharClass::OutsideTag) <==> !(('0' <= c <= '9') || ('a' <= c <= 'z')
            || ('A' <= c <= 'Z') || seq!['.', '_', ':', '/', '-'].contains(c)),
{
    let s = seq!['/', '\\', ':'];
    assert(s[0] == '/' && s[1] == '\\' && s[2] == ':');
    let t = seq!['.', '_', ':', '/', '-'];
    assert(t[0] == '.' && t[1] == '_' && t[2] == ':' && t[3] == '/' && t[4] == '-');
}

/// The first character of a class is one that the text holds, with none of the class
/// before it.
pub proof fn first_of_a_class_is_first(s: Seq<char>, class: CharClass)
    ensures
        checks::first_in_class(s, class) matches Some(c) ==> exists|i: int|
            0 <= i < s.len() && #[trigger] s[i] == c && checks::in_class(c, class) && forall|j: int|
                0 <= j < i ==> !checks::in_class(#[trigger] s[j], class),
        checks::first_in_class(s, class) is None ==> forall|j: int|
            0 <= j < s.len() ==> !checks::in_class(#[trigger] s[j], class),
    decreases s.len(),
{
    checks::first_in_class_none(s, class);
    if s.len() > 0 && !checks::in_class(s[0], class) {
        let rest = s.drop_first();
        first_of_a_class_is_first(rest, class);
        if let Some(c) = checks::first_in_class(s, class) {
            let i = choose|i: int|
                0 <= i < rest.len() && #[trigger] rest[i] == c && checks::in_class(c, class)
                    && forall|j: int| 0 <= j < i ==> !checks::in_class(#[trigger] rest[j], class);
            assert(s[i + 1] == c);
            assert forall|j: int| 0 <= j < i + 1 implies !checks::in_class(
                #[trigger] s[j],
                class,
            ) by {
                if j > 0 {
                    assert(rest[j - 1] == s[j]);
                }
            }
        }
    }
}

/// The path is `..` with `a` before it and `b` behind it, both ending at a slash.
pub open spec fn two_dots_between(path: Seq<char>, a: Seq<char>, b: Seq<char>) -> bool {
    &&& path == a + seq!['.', '.'] + b
    &&& a.len() == 0 || a.last() == '/'
    &&& b.len() == 0 || b[0] == '/'
}

/// A path leads upwards exactly if `..` stands between slashes or ends of the path.
#[verifier::rlimit(40)]
pub proof fn upward_paths_hold_two_dots(path: Seq<char>)
    ensures
        checks::has_parent_component(path) <==> exists|a: Seq<char>, b: Seq<char>|
            two_dots_between(path, a, b),
{
    reveal_strlit("..");
    let dots = seq!['.', '.'];
    assert(".."@ =~= dots);
    let pieces = text::split_on(path, '/');
    let sep = seq!['/'];
    text_laws::pieces_join_back(path, '/');
    if checks::has_parent_component(path) {
        let k = choose|k: int| 0 <= k < pieces.len() && pieces[k] == ".."@;
        let x = pieces.take(k);
        let y = pieces.skip(k + 1);
        let one = seq![dots];
        assert(pieces =~= x + (one + y));
        text_laws::joins_compose(x, one + y, dots, sep);
        text_laws::joins_compose(one, y, dots, sep);
        let a = if k > 0 {
            text::joined(x, sep) + sep
        } else {
            Seq::empty()
        };
        let b = if y.len() > 0 {
            sep + text::joined(y, sep)
        } else {
            Seq::empty()
        };
        if y.len() == 0 {
            assert(one + y =~= one);
        }
        if k == 0 {
            assert(x + (one + y) =~= one + y);
        }
        assert(text::joined(one + y, sep) =~= dots + b);
        assert(path =~= a + dots + b);
        assert(two_dots_between(path, a, b));
    }
    if exists|a: Seq<char>, b: Seq<char>| two_dots_between(path, a, b) {
        let (a, b) = choose|a: Seq<char>, b: Seq<char>| two_dots_between(path, a, b);
        assert(!dots.contains('/'));
        let one = seq![dots];
        text_laws::joins_split_back(one, '/');
        text_laws::joins_compose(Seq::empty(), Seq::empty(), dots, sep);
        let tail = dots + b;
        if b.len() > 0 {
            let r = b.skip(1);
            assert(tail =~= dots + sep + r);
            path_laws::pieces_of_both_sides(dots, r, '/');
        } else {
            assert(tail =~= dots);
        }
        assert(text::split_on(tail, '/')[0] == dots);
        let n: int = if a.len() > 0 {
            let h = a.drop_last();
            assert(path =~= h + sep + tail);
            path_laws::pieces_of_both_sides(h, tail, '/');
            text::split_on(h, '/').len() as int
        } else {
            assert(path =~= tail);
            0
        };
        assert(pieces[n] == dots);
    }
}

/// The host and the path of a short address are what stands before and behind its
/// first colon; without a colon all of it is the host.
pub proof fn short_addresses_split_at_the_colon(host: Seq<char>, path: Seq<char>)
    requires
        !host.contains(':'),
    ensures
        checks::scp_host("git@"@ + host + seq![':'] + path) == host,
        checks::scp_path("git@"@ + host + seq![':'] + path) == path,
        checks::scp_host("git@"@ + host) == host,
        checks::scp_path("git@"@ + host).len() == 0,
{
    reveal_strlit("git@");
    let url = "git@"@ + host + seq![':'] + path;
    let after = url.skip(4);
    assert(after =~= host + seq![':'] + path);
    text::find_from_facts(after, ':', 0);
    let k = text::find(after, ':');
    let n = host.len() as int;
    assert(after[n] == ':');
    if k < n {
        assert(host[k] == after[k]);
        assert(host.contains(':'));
    }
    assert(k == n);
    assert(after.take(n) =~= host);
    assert(after.skip(n + 1) =~= path);
    let short = "git@"@ + host;
    assert(short.skip(4) =~= host);
    text::find_from_facts(host, ':', 0);
    assert(host.take(host.len() as int) =~= host);
}

/// The schemes that are accepted.
pub proof fn schemes_are_these(url: Seq<char>)
    ensures
        checks::has_rfc_scheme(url) <==> {
            ||| "https://"@.is_prefix_of(url)
            ||| "http://"@.is_prefix_of(url)
            ||| "ssh://"@.is_prefix_of(url)
            ||| "file://"@.is_prefix_of(url)
        },
{
    prefix_is_beginning(url, "https://"@);
    prefix_is_beginning(url, "http://"@);
    prefix_is_beginning(url, "ssh://"@);
    prefix_is_beginning(url, "file://"@);
}

proof fn prefix_is_beginning(s: Seq<char>, p: Seq<char>)
    ensures
        text::begins_with(s, p) <==> p.is_prefix_of(s),
{
    if p.len() <= s.len() {
        assert(s.take(p.len() as int) =~= s.subrange(0, p.len() as int));
    }
}

/// A URL is only ever accepted if it is one of the accepted forms, holds no control
/// character and does not begin with `-`.
pub proof fn accepted_urls_have_a_known_form(url: Seq<char>, node: Seq<char>)
    requires
        checks::url_error(url, node) is None,
    ensures
        url.len() > 0,
        url[0] != '-',
        forall|i: int| 0 <= i < url.len() ==> !(#[trigger] url[i] as u32 <= 0x1f),
        checks::has_rfc_scheme(url) ==> checks::url_parts(url) is Ok,
        !checks::has_rfc_scheme(url) ==> "git@"@.is_prefix_of(url),
{
    checks::first_in_class_none(url, CharClass::Control);
    prefix_is_beginning(url, "git@"@);
    assert forall|i: int| 0 <= i < url.len() implies !(#[trigger] url[i] as u32 <= 0x1f) by {
        assert(!checks::in_class(url[i], CharClass::Control));
    }
}

/// A schema version is accepted exactly if it is `0.1`, with or without a patch
/// number, and no pre-release.
pub proof fn schema_is_zero_one(version: Seq<char>)
    ensures
        checks::schema_error(version) is None <==> match checks::semver_version(version) {
            Some((major, minor, _, pre)) => major == 0 && minor == 1 && pre.len() == 0,
            None => match checks::semver_version(version + ".0"@) {
                Some((major, minor, _, pre)) => major == 0 && minor == 1 && pre.len() == 0,
                None => false,
            },
        },
        checks::schema_error(version) matches Some(e) ==> e == (
            ManifestErrorView::SchemaMismatch { got: version }),
{
}

/// An error about a node, with a part of what it says.
pub open spec fn about(e: Option<ManifestErrorView>, node: Seq<char>, part: Seq<char>) -> bool {
    match e {
        Some(ManifestErrorView::InvalidUrl { node: n, reason }) => n == node && text::occurs_in(
            reason,
            part,
        ),
        Some(ManifestErrorView::InvalidArg { node: n, reason }) => n == node && text::occurs_in(
            reason,
            part,
        ),
        _ => false,
    }
}

/// A value is refused as a flag exactly if it begins with `-`, and the error names
/// the node and the field.
pub proof fn flags_are_refused(value: Seq<char>, node: Seq<char>, field: Seq<char>)
    ensures
        checks::leading_dash_error(value, node, field) is Some <==> value.len() > 0 && value[0]
            == '-',
        checks::leading_dash_error(value, node, field) is Some ==> about(
            checks::leading_dash_error(value, node, field),
            node,
            field,
        ),
        checks::opt_dash_error(Some(value), node, field) == checks::leading_dash_error(
            value,
            node,
            field,
        ),
        checks::opt_dash_error(None, node, field) is None,
{
    path_laws::part_of("`"@, field, "` starts with `-`, would be parsed as a CLI flag"@);
}

/// A name is refused exactly if it holds a comma, and the error names the node and
/// the name.
pub proof fn commas_are_refused(before: Seq<char>, value: Seq<char>, node: Seq<char>)
    ensures
        checks::comma_error(before, value, node) is Some <==> value.contains(','),
        value.contains(',') ==> about(checks::comma_error(before, value, node), node, value),
{
    path_laws::part_of(before, value, "` contains `,` which would split cargo's --features list"@);
}

/// An id is refused exactly if it is empty, is `.` or `..`, or holds a separator or
/// a control character. The error names the node, and the character where there is
/// one.
pub proof fn unsafe_ids_are_refused(id: Seq<char>)
    ensures
        ({
            let e = checks::node_id_error(id);
            let separator = checks::first_in_class(id, CharClass::Separator);
            let control = checks::first_in_class(id, CharClass::Control);
            &&& e is None <==> {
                &&& id.len() > 0
                &&& id != seq!['.']
                &&& id != seq!['.', '.']
                &&& separator is None
                &&& control is None
            }
            &&& id.len() == 0 ==> about(e, id, "empty"@)
            &&& separator matches Some(c) ==> about(e, id, seq![c]) && about(e, id, id)
            &&& separator is None && control is Some ==> about(
                e,
                id,
                "U+"@ + text::upper_hex_text(control->Some_0 as nat, 4),
            )
            &&& id == seq!['.'] || id == seq!['.', '.'] ==> about(e, id, "path-traversal"@)
        }),
{
    dots_are_dots();
    let separator = checks::first_in_class(id, CharClass::Separator);
    let control = checks::first_in_class(id, CharClass::Control);
    if id.len() == 0 {
        emptiness_is_said();
        no_class_in_nothing(id);
    } else if let Some(c) = separator {
        let end = "` — would create nested, escaping, or drive-relative directories"@;
        let mid = "` contains path separator `"@;
        factory_laws::names_both("node id `"@, id, mid, seq![c], end);
        assert("node id `"@ + id + (mid + seq![c] + end) =~= "node id `"@ + id + mid + seq![c]
            + end);
        no_class_in_dots(id);
    } else if let Some(c) = control {
        code_points_are_said(text::upper_hex_text(c as nat, 4));
        no_class_in_dots(id);
    } else {
        traversal_is_said(id);
    }
}

proof fn dots_are_dots()
    ensures
        "."@ == seq!['.'],
        ".."@ == seq!['.', '.'],
{
    reveal_strlit(".");
    reveal_strlit("..");
    assert("."@ =~= seq!['.']);
    assert(".."@ =~= seq!['.', '.']);
}

proof fn no_class_in_nothing(s: Seq<char>)
    requires
        s.len() == 0,
    ensures
        checks::first_in_class(s, CharClass::Separator) is None,
        checks::first_in_class(s, CharClass::Control) is None,
{
}

proof fn no_class_in_dots(s: Seq<char>)
    ensures
        s == seq!['.'] || s == seq!['.', '.'] ==> checks::first_in_class(s, CharClass::Separator)
            is None && checks::first_in_class(s, CharClass::Control) is None,
{
    checks::first_in_class_none(s, CharClass::Separator);
    checks::first_in_class_none(s, CharClass::Control);
}

#[verifier::spinoff_prover]
proof fn last_part(a: Seq<char>, p: Seq<char>, h: Seq<char>)
    ensures
        text::occurs_in(a + p + h, p + h),
{
    let s = a + p + h;
    let x = p + h;
    let rest = s.skip(a.len() as int);
    assert(rest =~= x);
    assert(x.take(x.len() as int) =~= x);
    assert(text::begins_with(rest, x));
}

proof fn emptiness_is_said()
    ensures
        text::occurs_in("node id is empty"@, "empty"@),
        text::occurs_in("URL is empty"@, "empty"@),
{
    let none = Seq::<char>::empty();
    assert("node id is empty"@ =~= "node id is "@ + "empty"@) by {
        reveal_strlit("node id is empty");
        reveal_strlit("node id is ");
        reveal_strlit("empty");
    }
    assert("URL is empty"@ =~= "URL is "@ + "empty"@) by {
        reveal_strlit("URL is empty");
        reveal_strlit("URL is ");
        reveal_strlit("empty");
    }
    last_part("node id is "@, "empty"@, none);
    last_part("URL is "@, "empty"@, none);
    assert("empty"@ + none =~= "empty"@);
    assert("node id is "@ + "empty"@ + none =~= "node id is "@ + "empty"@);
    assert("URL is "@ + "empty"@ + none =~= "URL is "@ + "empty"@);
}

proof fn code_points_are_said(h: Seq<char>)
    ensures
        text::occurs_in("node id contains control character U+"@ + h, "U+"@ + h),
        text::occurs_in("URL contains control character U+"@ + h, "U+"@ + h),
{
    assert("node id contains control character U+"@ =~= "node id contains control character "@
        + "U+"@) by {
        reveal_strlit("node id contains control character U+");
        reveal_strlit("node id contains control character ");
        reveal_strlit("U+");
    }
    assert("URL contains control character U+"@ =~= "URL contains control character "@ + "U+"@) by {
        reveal_strlit("URL contains control character U+");
        reveal_strlit("URL contains control character ");
        reveal_strlit("U+");
    }
    last_part("node id contains control character "@, "U+"@, h);
    last_part("URL contains control character "@, "U+"@, h);
}

proof fn traversal_is_said(id: Seq<char>)
    ensures
        text::occurs_in("node id `"@ + id + "` is a path-traversal token"@, "path-traversal"@),
{
    reveal_strlit("` is a path-traversal token");
    reveal_strlit("` is a ");
    reveal_strlit("path-traversal");
    reveal_strlit(" token");
    assert("` is a path-traversal token"@ =~= "` is a "@ + "path-traversal"@ + " token"@);
    factory_laws::names_both("node id `"@, id, "` is a "@, "path-traversal"@, " token"@);
}

/// A path inside a checkout is refused exactly if it is empty, begins with `-` or
/// `/`, leads upwards or holds a control character. The error names the node and the
/// field.
pub proof fn escaping_paths_are_refused(path: Seq<char>, node: Seq<char>, field: Seq<char>)
    ensures
        ({
            let e = checks::contained_path_error(path, node, field);
            &&& e is None <==> {
                &&& path.len() > 0
                &&& path[0] != '-'
                &&& path[0] != '/'
                &&& !checks::has_parent_component(path)
                &&& checks::first_in_class(path, CharClass::Control) is None
            }
            &&& e is Some ==> about(e, node, field)
            &&& e is Some && path.len() > 0 && checks::first_in_class(path, CharClass::Control)
                is None ==> about(e, node, path)
            &&& checks::opt_path_error(Some(path), node, field) == e
            &&& checks::opt_path_error(None, node, field) is None
        }),
{
    let open = "`"@;
    let mid = "` `"@;
    path_laws::part_of(open, field, "` is empty"@);
    if let Some(c) = checks::first_in_class(path, CharClass::Control) {
        let h = text::upper_hex_text(c as nat, 4);
        let s = "` contains control character U+"@;
        path_laws::part_of(open, field, s + h);
        assert(open + field + (s + h) =~= open + field + s + h);
    }
    let x = "` starts with `-`, would be parsed as a CLI flag"@;
    let y = "` is absolute — must stay inside the node's checkout"@;
    let z = "` contains `..` — path traversal outside the node's checkout"@;
    factory_laws::names_both(open, field, mid, path, x);
    factory_laws::names_both(open, field, mid, path, y);
    factory_laws::names_both(open, field, mid, path, z);
    assert(open + field + (mid + path + x) =~= open + field + mid + path + x);
    assert(open + field + (mid + path + y) =~= open + field + mid + path + y);
    assert(open + field + (mid + path + z) =~= open + field + mid + path + z);
}

/// A tag is refused exactly if it is empty, begins with `-` or holds a character
/// outside those for tags. The error names the node and the tag.
pub proof fn odd_tags_are_refused(tag: Seq<char>, node: Seq<char>)
    ensures
        ({
            let e = checks::docker_tag_error(tag, node);
            &&& e is None <==> {
                &&& tag.len() > 0
                &&& tag[0] != '-'
                &&& checks::first_in_class(tag, CharClass::OutsideTag) is None
            }
            &&& e is Some ==> about(e, node, tag)
        }),
{
    let open = "`tag` `"@;
    let none = Seq::<char>::empty();
    path_laws::part_of(open, tag, "` starts with `-`, would be parsed as a CLI flag"@);
    if let Some(c) = checks::first_in_class(tag, CharClass::OutsideTag) {
        let mid = "` contains `"@;
        let end = "` — allowed charset is [a-zA-Z0-9._:/-]"@;
        factory_laws::names_both(open, tag, mid, seq![c], end);
        assert(open + tag + (mid + seq![c] + end) =~= open + tag + mid + seq![c] + end);
    }
    if tag.len() == 0 {
        path_laws::part_of(none, tag, "`tag` is empty"@);
        assert(none + tag + "`tag` is empty"@ =~= "`tag` is empty"@);
    }
}

/// A parsed URL is refused exactly if its user, its host or a segment of its path
/// begins with `-`. The error names the node and the part.
pub proof fn dashed_url_parts_are_refused(
    parts: (Seq<char>, Option<Seq<char>>, Option<Seq<Seq<char>>>),
    node: Seq<char>,
)
    ensures
        ({
            let e = checks::url_parts_error(parts, node);
            &&& e is None <==> {
                &&& !text::first_is(parts.0, '-')
                &&& parts.1 matches Some(h) ==> !text::first_is(h, '-')
                &&& parts.2 matches Some(s) ==> forall|i: int|
                    0 <= i < s.len() ==> !text::first_is(#[trigger] s[i], '-')
            }
            &&& text::first_is(parts.0, '-') ==> about(e, node, parts.0)
            &&& !text::first_is(parts.0, '-') && parts.1 is Some && text::first_is(
                parts.1->Some_0,
                '-',
            ) ==> about(e, node, parts.1->Some_0)
        }),
{
    let end = "` starts with `-`"@;
    path_laws::part_of("URL userinfo `"@, parts.0, end);
    if let Some(h) = parts.1 {
        path_laws::part_of("host `"@, h, end);
    }
    if let Some(s) = parts.2 {
        checks::first_dashed_none(s);
    }
}

/// The segment that is named as beginning with `-` is the first that does.
pub proof fn first_dashed_is_first(segments: Seq<Seq<char>>, node: Seq<char>)
    ensures
        checks::first_dashed(segments) matches Some(s) ==> exists|i: int|
            0 <= i < segments.len() && #[trigger] segments[i] == s && text::first_is(s, '-')
                && forall|j: int| 0 <= j < i ==> !text::first_is(#[trigger] segments[j], '-'),
        checks::first_dashed(segments) is None <==> checks::segment_error(segments, node) is None,
        checks::first_dashed(segments) matches Some(s) ==> about(
            checks::segment_error(segments, node),
            node,
            s,
        ),
    decreases segments.len(),
{
    if let Some(s) = checks::first_dashed(segments) {
        path_laws::part_of("path segment `"@, s, "` starts with `-`"@);
    }
    if segments.len() > 0 && !text::first_is(segments[0], '-') {
        let rest = segments.drop_first();
        first_dashed_is_first(rest, node);
        if let Some(s) = checks::first_dashed(segments) {
            let i = choose|i: int|
                0 <= i < rest.len() && #[trigger] rest[i] == s && text::first_is(s, '-')
                    && forall|j: int| 0 <= j < i ==> !text::first_is(#[trigger] rest[j], '-');
            assert(segments[i + 1] == s);
            assert forall|j: int| 0 <= j < i + 1 implies !text::first_is(
                #[trigger] segments[j],
                '-',
            ) by {
                if j > 0 {
                    assert(rest[j - 1] == segments[j]);
                }
            }
        }
    }
}

/// What a URL is refused for is said of the node: its own words where it does not
/// parse, the URL where its scheme is not accepted, the control character.
pub proof fn refused_urls_are_named(url: Seq<char>, node: Seq<char>)
    ensures
        ({
            let e = checks::url_error(url, node);
            let control = checks::first_in_class(url, CharClass::Control);
            &&& url.len() == 0 ==> about(e, node, "empty"@)
            &&& control matches Some(c) ==> about(
                e,
                node,
                "U+"@ + text::upper_hex_text(c as nat, 4),
            )
            &&& control is None && text::first_is(url, '-') ==> about(e, node, url)
            &&& url.len() > 0 && control is None && !text::first_is(url, '-')
                && checks::has_rfc_scheme(url) ==> match checks::url_parts(url) {
                Ok(parts) => e == checks::url_parts_error(parts, node),
                Err(m) => about(e, node, m),
            }
            &&& url.len() > 0 && control is None && !text::first_is(url, '-')
                && !checks::has_rfc_scheme(url) && !text::begins_with(url, "git@"@) ==> about(
                e,
                node,
                url,
            )
        }),
{
    let none = Seq::<char>::empty();
    emptiness_is_said();
    if url.len() == 0 {
        no_class_in_nothing(url);
    }
    if let Some(c) = checks::first_in_class(url, CharClass::Control) {
        code_points_are_said(text::upper_hex_text(c as nat, 4));
    }
    path_laws::part_of("`"@, url, "` starts with `-`, would be parsed as a CLI flag"@);
    if let Err(m) = checks::url_parts(url) {
        path_laws::part_of("URL parse failed: "@, m, none);
        assert("URL parse failed: "@ + m + none =~= "URL parse failed: "@ + m);
    }
    path_laws::part_of(
        "scheme not in allowlist [\"https://\", \"http://\", \"ssh://\", \"git@\", \"file://\"] (got `"@,
        url,
        "`)"@,
    );
}

/// The features are all checked, and the first that is wrong is the one reported.
pub proof fn first_bad_feature_is_reported(features: Seq<Seq<char>>, node: Seq<char>, from: int)
    requires
        0 <= from <= features.len(),
    ensures
        ({
            let bad = |i: int| text::first_is(features[i], '-') || features[i].contains(',');
            let e = checks::features_error(features, node, from);
            &&& e is None <==> forall|i: int| from <= i < features.len() ==> !#[trigger] bad(i)
            &&& e is Some ==> exists|i: int| #[trigger]
                bad(i) && from <= i < features.len() && (forall|j: int|
                    from <= j < i ==> !#[trigger] bad(j)) && (about(e, node, "features entry"@)
                    || about(e, node, features[i]))
        }),
    decreases features.len() - from,
{
    let bad = |i: int| text::first_is(features[i], '-') || features[i].contains(',');
    if from < features.len() {
        flags_are_refused(features[from], node, "features entry"@);
        commas_are_refused("feature `"@, features[from], node);
        first_bad_feature_is_reported(features, node, from + 1);
        if bad(from) {
        } else if checks::features_error(features, node, from) is Some {
            let e = checks::features_error(features, node, from);
            let i = choose|i: int| #[trigger]
                bad(i) && from + 1 <= i < features.len() && (forall|j: int|
                    from + 1 <= j < i ==> !#[trigger] bad(j)) && (about(
                    e,
                    node,
                    "features entry"@,
                ) || about(e, node, features[i]));
            assert(bad(i));
        }
    }
}

/// The entries of a node are all checked, and the error of the first that is wrong
/// is the one reported.
pub proof fn first_bad_entry_is_reported(
    entries: Seq<ActionEntryView>,
    node: Seq<char>,
    has_path: bool,
    from: int,
)
    requires
        0 <= from <= entries.len(),
    ensures
        match checks::entries_error(entries, node, has_path, from) {
            None => forall|i: int|
                from <= i < entries.len() ==> checks::entry_error(
                    #[trigger] entries[i],
                    node,
                    has_path,
                ) is None,
            Some(e) => exists|i: int|
                from <= i < entries.len() && checks::entry_error(
                    #[trigger] entries[i],
                    node,
                    has_path,
                ) == Some(e) && forall|j: int|
                    from <= j < i ==> checks::entry_error(
                        #[trigger] entries[j],
                        node,
                        has_path,
                    ) is None,
        },
    decreases entries.len() - from,
{
    if from < entries.len() {
        first_bad_entry_is_reported(entries, node, has_path, from + 1);
        if let Some(e) = checks::entry_error(entries[from], node, has_path) {
            assert(checks::entry_error(entries[from], node, has_path) == Some(e));
        } else if let Some(e) = checks::entries_error(entries, node, has_path, from) {
            let i = choose|i: int|
                from + 1 <= i < entries.len() && checks::entry_error(
                    #[trigger] entries[i],
                    node,
                    has_path,
                ) == Some(e) && forall|j: int|
                    from + 1 <= j < i ==> checks::entry_error(
                        #[trigger] entries[j],
                        node,
                        has_path,
                    ) is None;
            assert(checks::entry_error(entries[i], node, has_path) == Some(e));
        }
    }
}

/// The nodes of a manifest are all checked, and the error of the first that is wrong
/// is the one reported, unless the schema version is wrong already.
pub proof fn first_bad_node_is_reported(m: ManifestView)
    ensures
        checks::schema_error(m.schema_version) matches Some(e) ==> checks::manifest_error(m)
            == Some(e),
        checks::schema_error(m.schema_version) is None ==> match checks::manifest_error(m) {
            None => forall|n: int|
                0 <= n < m.nodes.len() ==> (#[trigger] checks::node_error(m.nodes, n)) is None,
            Some(e) => exists|n: int|
                0 <= n < m.nodes.len() && #[trigger] checks::node_error(m.nodes, n) == Some(e)
                    && forall|k: int|
                    0 <= k < n ==> (#[trigger] checks::node_error(m.nodes, k)) is None,
        },
{
    nodes_are_checked(m.nodes, 0);
}

proof fn nodes_are_checked(nodes: Seq<NodeView>, from: int)
    requires
        0 <= from <= nodes.len(),
    ensures
        match checks::nodes_error(nodes, from) {
            None => forall|n: int|
                from <= n < nodes.len() ==> (#[trigger] checks::node_error(nodes, n)) is None,
            Some(e) => exists|n: int|
                from <= n < nodes.len() && #[trigger] checks::node_error(nodes, n) == Some(e)
                    && forall|k: int|
                    from <= k < n ==> (#[trigger] checks::node_error(nodes, k)) is None,
        },
    decreases nodes.len() - from,
{
    if from < nodes.len() {
        nodes_are_checked(nodes, from + 1);
        if let Some(e) = checks::node_error(nodes, from) {
            assert(checks::node_error(nodes, from) == Some(e));
        } else if let Some(e) = checks::nodes_error(nodes, from) {
            let n = choose|n: int|
                from + 1 <= n < nodes.len() && #[trigger] checks::node_error(nodes, n) == Some(e)
                    && forall|k: int|
                    from + 1 <= k < n ==> (#[trigger] checks::node_error(nodes, k)) is None;
            assert(checks::node_error(nodes, n) == Some(e));
        }
    }
}

/// Which error a node gets: that of its id first, then that it occurred before, then
/// that it has no source, then that of its URL, then that of its entries.
pub proof fn node_errors_come_in_order(nodes: Seq<NodeView>, n: int)
    requires
        0 <= n < nodes.len(),
    ensures
        ({
            let node = nodes[n];
            let e = checks::node_error(nodes, n);
            let repeated = exists|k: int| 0 <= k < n && (#[trigger] nodes[k]).id == node.id;
            if checks::node_id_error(node.id) is Some {
                e == checks::node_id_error(node.id)
            } else if repeated {
                e == Some(ManifestErrorView::DuplicateNodeId(node.id))
            } else if node.git is None && node.path is None {
                e == Some(ManifestErrorView::NodeMissingSource(node.id))
            } else if node.git is Some && checks::url_error(node.git->Some_0, node.id) is Some {
                e == checks::url_error(node.git->Some_0, node.id)
            } else {
                e == checks::entries_error(node.actions, node.id, node.path is Some, 0)
            }
        }),
{
}

/// The id of an action names its node, its kind and its place; the ids of a manifest
/// are those of its nodes, one node after the other.
pub proof fn action_ids_name_their_place(nodes: Seq<NodeView>, n: int, i: int)
    requires
        0 <= n < nodes.len(),
        0 <= i < nodes[n].actions.len(),
    ensures
        manifest::action_id_text(nodes[n], i) == nodes[n].id + "::"@ + (match nodes[n].actions[i] {
            ActionEntryView::GitClone => "git-clone"@,
            ActionEntryView::CargoInstall { .. } => "cargo-install"@,
            ActionEntryView::Docker { .. } => "docker"@,
            ActionEntryView::Repolith { .. } => "repolith"@,
        }) + "::"@ + text::dec_text(i as nat),
        manifest::manifest_action_ids(nodes, nodes.len() as int).len() == factory_laws::declared(
            nodes,
            nodes.len() as int,
        ),
        manifest::manifest_action_ids(nodes, nodes.len() as int)[factory_laws::declared(nodes, n)
            + i] == manifest::action_id_text(nodes[n], i),
{
    ids_are_in_place(nodes, nodes.len() as int, n, i);
}

proof fn ids_are_in_place(nodes: Seq<NodeView>, k: int, n: int, i: int)
    requires
        0 <= k <= nodes.len(),
    ensures
        manifest::manifest_action_ids(nodes, k).len() == factory_laws::declared(nodes, k),
        0 <= n < k && 0 <= i < nodes[n].actions.len() ==> {
            &&& 0 <= factory_laws::declared(nodes, n) + i < factory_laws::declared(nodes, k)
            &&& manifest::manifest_action_ids(nodes, k)[factory_laws::declared(nodes, n) + i]
                == manifest::action_id_text(nodes[n], i)
        },
    decreases k,
{
    if k > 0 {
        ids_are_in_place(nodes, k - 1, n, i);
        if n == k - 1 && 0 <= i < nodes[n].actions.len() {
            let own = manifest::node_action_ids(nodes[n], nodes[n].actions.len() as int);
            assert(own[i] == manifest::action_id_text(nodes[n], i));
        }
    }
}

/// What is said of a manifest that is refused holds what the error holds.
pub proof fn manifest_errors_are_told(a: Seq<char>, b: Seq<char>)
    ensures
        text::occurs_in(manifest::manifest_error_text(ManifestErrorView::Toml(a)), a),
        text::occurs_in(
            manifest::manifest_error_text(ManifestErrorView::SchemaMismatch { got: a }),
            a,
        ),
        text::occurs_in(manifest::manifest_error_text(ManifestErrorView::DuplicateNodeId(a)), a),
        text::occurs_in(manifest::manifest_error_text(ManifestErrorView::NodeMissingSource(a)), a),
        text::occurs_in(
            manifest::manifest_error_text(ManifestErrorView::InvalidUrl { node: a, reason: b }),
            a,
        ),
        text::occurs_in(
            manifest::manifest_error_text(ManifestErrorView::InvalidUrl { node: a, reason: b }),
            b,
        ),
        text::occurs_in(
            manifest::manifest_error_text(ManifestErrorView::InvalidArg { node: a, reason: b }),
            a,
        ),
        text::occurs_in(
            manifest::manifest_error_text(ManifestErrorView::InvalidArg { node: a, reason: b }),
            b,
        ),
{
    let none = Seq::<char>::empty();
    path_laws::part_of("toml parse: "@, a, none);
    assert("toml parse: "@ + a + none =~= "toml parse: "@ + a);
    path_laws::part_of("schema version "@, a, ": requires ~0.1"@);
    path_laws::part_of("duplicate node id: "@, a, none);
    assert("duplicate node id: "@ + a + none =~= "duplicate node id: "@ + a);
    path_laws::part_of("node "@, a, " has neither `git` nor `path`"@);
    let u = "invalid URL in node `"@;
    let v = "invalid argument in node `"@;
    let mid = "`: "@;
    factory_laws::names_both(u, a, mid, b, none);
    factory_laws::names_both(v, a, mid, b, none);
    assert(u + a + (mid + b + none) =~= u + a + mid + b);
    assert(v + a + (mid + b + none) =~= v + a + mid + b);
}

} // verus!
