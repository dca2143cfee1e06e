//! The checks that a manifest has to pass before anything in it is acted on.

use crate::manifest;
use crate::manifest::{
    ActionEntry, ActionEntryView, Manifest, ManifestError, ManifestErrorView, ManifestView,
    NodeEntry, NodeView,
};
use crate::order;
use crate::text;
use vstd::prelude::*;

verus! {

/// Classes of characters that are refused somewhere.
#[derive(Clone, Copy, PartialEq, Eq, Structural, Debug)]
pub enum CharClass {
    /// `/`, `\` and `:`.
    Separator,
    /// Control characters.
    Control,
    /// Whatever cannot occur in an image tag.
    OutsideTag,
}

/// ASCII letters and digits.
pub open spec fn alphanumeric(c: char) -> bool {
    '0' <= c <= '9' || 'a' <= c <= 'z' || 'A' <= c <= 'Z'
}

/// Whether a character belongs to a class.
pub open spec fn in_class(c: char, class: CharClass) -> bool {
    match class {
        CharClass::Separator => c == '/' || c == '\\' || c == ':',
        CharClass::Control => text::control(c),
        CharClass::OutsideTag => !(alphanumeric(c) || c == '.' || c == '_' || c == ':' || c == '/'
            || c == '-'),
    }
}

fn is_in_class(c: char, class: CharClass) -> (r: bool)
    ensures
        r == in_class(c, class),
{
    match class {
        CharClass::Separator => c == '/' || c == '\\' || c == ':',
        CharClass::Control => text::is_control(c),
        CharClass::OutsideTag => !(('0' <= c && c <= '9') || ('a' <= c && c <= 'z') || ('A' <= c
            && c <= 'Z') || c == '.' || c == '_' || c == ':' || c == '/' || c == '-'),
    }
}

/// The first character of a class in a text.
pub open spec fn first_in_class(s: Seq<char>, class: CharClass) -> Option<char>
    decreases s.len(),
{
    if s.len() == 0 {
        None
    } else if in_class(s[0], class) {
        Some(s[0])
    } else {
        first_in_class(s.drop_first(), class)
    }
}

/// A text has no first character of a class exactly when it has none at all.
pub proof fn first_in_class_none(s: Seq<char>, class: CharClass)
    ensures
        first_in_class(s, class) is None <==> forall|i: int|
            0 <= i < s.len() ==> !in_class(#[trigger] s[i], class),
    decreases s.len(),
{
    if s.len() > 0 {
        first_in_class_none(s.drop_first(), class);
        if first_in_class(s, class) is None {
            assert forall|i: int| 0 <= i < s.len() implies !in_class(#[trigger] s[i], class) by {
                if i > 0 {
                    assert(s.drop_first()[i - 1] == s[i]);
                }
            }
        } else if forall|i: int| 0 <= i < s.len() ==> !in_class(#[trigger] s[i], class) {
            assert(!in_class(s[0], class));
            assert forall|i: int| 0 <= i < s.drop_first().len() implies !in_class(
                #[trigger] s.drop_first()[i],
                class,
            ) by {
                assert(s.drop_first()[i] == s[i + 1]);
            }
        }
    }
}

fn find_in_class(s: &str, class: CharClass) -> (r: Option<char>)
    ensures
        r == first_in_class(s@, class),
{
    let chars = text::chars_of(s);
    assert(s@.skip(0) =~= s@);
    let mut i: usize = 0;
    while i < chars.len()
        invariant
            i <= chars.len(),
            chars@ == s@,
            first_in_class(s@, class) == first_in_class(s@.skip(i as int), class),
        decreases chars.len() - i,
    {
        assert(s@.skip(i as int)[0] == chars@[i as int]);
        if is_in_class(chars[i], class) {
            return Some(chars[i]);
        }
        assert(s@.skip(i as int).drop_first() =~= s@.skip(i + 1));
        i = i + 1;
    }
    None
}

/// A text of one character.
fn char_text(c: char) -> (r: String)
    ensures
        r@ == seq![c],
{
    let mut r = String::new();
    r.push(c);
    assert(r@ =~= seq![c]);
    r
}

/// What an optional error holds.
pub open spec fn err_view(r: Result<(), ManifestError>) -> Option<ManifestErrorView> {
    match r {
        Ok(_) => None,
        Err(e) => Some(e@),
    }
}

/// The first of two errors.
pub open spec fn or_else(
    a: Option<ManifestErrorView>,
    b: Option<ManifestErrorView>,
) -> Option<ManifestErrorView> {
    match a {
        Some(e) => Some(e),
        None => b,
    }
}

/// A value that a command line tool would take for a flag.
pub open spec fn leading_dash_error(
    value: Seq<char>,
    node: Seq<char>,
    field: Seq<char>,
) -> Option<ManifestErrorView> {
    if text::first_is(value, '-') {
        Some(
            ManifestErrorView::InvalidArg {
                node,
                reason: "`"@ + field + "` starts with `-`, would be parsed as a CLI flag"@,
            },
        )
    } else {
        None
    }
}

/// Refuses a value that begins with `-`.
pub fn check_no_leading_dash(value: &str, node: &str, field: &str) -> (r: Result<
    (),
    ManifestError,
>)
    ensures
        err_view(r) == leading_dash_error(value@, node@, field@),
{
    if text::starts_with_char(value, '-') {
        let mut reason = "`".to_owned();
        reason.append(field);
        reason.append("` starts with `-`, would be parsed as a CLI flag");
        return Err(ManifestError::InvalidArg { node: node.to_owned(), reason });
    }
    Ok(())
}

/// A node id from which no directory inside the workspace can be made.
pub open spec fn node_id_error(id: Seq<char>) -> Option<ManifestErrorView> {
    if id.len() == 0 {
        Some(ManifestErrorView::InvalidArg { node: id, reason: "node id is empty"@ })
    } else if first_in_class(id, CharClass::Separator) is Some {
        Some(
            ManifestErrorView::InvalidArg {
                node: id,
                reason: "node id `"@ + id + "` contains path separator `"@
                    + seq![first_in_class(id, CharClass::Separator)->0]
                    + "` — would create nested, escaping, or drive-relative directories"@,
            },
        )
    } else if first_in_class(id, CharClass::Control) is Some {
        Some(
            ManifestErrorView::InvalidArg {
                node: id,
                reason: "node id contains control character U+"@ + text::upper_hex_text(
                    first_in_class(id, CharClass::Control)->0 as nat,
                    4,
                ),
            },
        )
    } else if id == "."@ || id == ".."@ {
        Some(
            ManifestErrorView::InvalidArg {
                node: id,
                reason: "node id `"@ + id + "` is a path-traversal token"@,
            },
        )
    } else {
        None
    }
}

/// The code point of a character in at least four hexadecimal digits.
fn code_point(c: char) -> (r: String)
    ensures
        r@ == text::upper_hex_text(c as nat, 4),
{
    text::upper_hex(c as u32, 4)
}

/// Refuses a node id that is empty, contains a path separator, a drive
/// separator or a control character, or is a path-traversal token.
pub fn check_node_id_safe(id: &str) -> (r: Result<(), ManifestError>)
    ensures
        err_view(r) == node_id_error(id@),
{
    if id.is_empty() {
        return Err(
            ManifestError::InvalidArg { node: id.to_owned(), reason: "node id is empty".to_owned() },
        );
    }
    match find_in_class(id, CharClass::Separator) {
        Some(c) => {
            let mut reason = "node id `".to_owned();
            reason.append(id);
            reason.append("` contains path separator `");
            reason.append(&char_text(c));
            reason.append("` — would create nested, escaping, or drive-relative directories");
            return Err(ManifestError::InvalidArg { node: id.to_owned(), reason });
        },
        None => {},
    }
    match find_in_class(id, CharClass::Control) {
        Some(c) => {
            let mut reason = "node id contains control character U+".to_owned();
            reason.append(&code_point(c));
            return Err(ManifestError::InvalidArg { node: id.to_owned(), reason });
        },
        None => {},
    }
    if text::text_eq(id, ".") || text::text_eq(id, "..") {
        let mut reason = "node id `".to_owned();
        reason.append(id);
        reason.append("` is a path-traversal token");
        return Err(ManifestError::InvalidArg { node: id.to_owned(), reason });
    }
    Ok(())
}

/// The first listed text that begins with `-`.
pub open spec fn first_dashed(segments: Seq<Seq<char>>) -> Option<Seq<char>>
    decreases segments.len(),
{
    if segments.len() == 0 {
        None
    } else if text::first_is(segments[0], '-') {
        Some(segments[0])
    } else {
        first_dashed(segments.drop_first())
    }
}

/// No text is the first to begin with `-` exactly when none does.
pub proof fn first_dashed_none(segments: Seq<Seq<char>>)
    ensures
        first_dashed(segments) is None <==> forall|i: int|
            0 <= i < segments.len() ==> !text::first_is(#[trigger] segments[i], '-'),
    decreases segments.len(),
{
    if segments.len() > 0 {
        let rest = segments.drop_first();
        first_dashed_none(rest);
        if first_dashed(segments) is None {
            assert forall|i: int| 0 <= i < segments.len() implies !text::first_is(
                #[trigger] segments[i],
                '-',
            ) by {
                if i > 0 {
                    assert(rest[i - 1] == segments[i]);
                }
            }
        } else if forall|i: int|
            0 <= i < segments.len() ==> !text::first_is(#[trigger] segments[i], '-') {
            assert(!text::first_is(segments[0], '-'));
            assert forall|i: int| 0 <= i < rest.len() implies !text::first_is(
                #[trigger] rest[i],
                '-',
            ) by {
                assert(rest[i] == segments[i + 1]);
            }
        }
    }
}

/// A path segment that begins with `-`.
pub open spec fn segment_error(
    segments: Seq<Seq<char>>,
    node: Seq<char>,
) -> Option<ManifestErrorView> {
    match first_dashed(segments) {
        Some(s) => Some(
            ManifestErrorView::InvalidUrl {
                node,
                reason: "path segment `"@ + s + "` starts with `-`"@,
            },
        ),
        None => None,
    }
}

fn check_segments(segments: &Vec<String>, node: &str) -> (r: Result<(), ManifestError>)
    ensures
        err_view(r) == segment_error(order::text_views(segments@), node@),
{
    let ghost sv = order::text_views(segments@);
    assert(sv.skip(0) =~= sv);
    let mut i: usize = 0;
    while i < segments.len()
        invariant
            i <= segments.len(),
            sv == order::text_views(segments@),
            first_dashed(sv) == first_dashed(sv.skip(i as int)),
        decreases segments.len() - i,
    {
        assert(sv.skip(i as int)[0] == segments@[i as int]@);
        if text::starts_with_char(&segments[i], '-') {
            let mut reason = "path segment `".to_owned();
            reason.append(&segments[i]);
            reason.append("` starts with `-`");
            return Err(ManifestError::InvalidUrl { node: node.to_owned(), reason });
        }
        assert(sv.skip(i as int).drop_first() =~= sv.skip(i + 1));
        i = i + 1;
    }
    Ok(())
}

/// The parts of a parsed URL that are checked.
#[derive(Clone, Debug, PartialEq, Eq)]
pub struct UrlParts {
    /// The user name, possibly empty.
    pub username: String,
    /// The host, where the URL has one.
    pub host: Option<String>,
    /// The path segments, where the path has any.
    pub segments: Option<Vec<String>>,
}

/// What an optional list of texts holds.
pub open spec fn opt_texts(s: Option<Vec<String>>) -> Option<Seq<Seq<char>>> {
    match s {
        Some(v) => Some(order::text_views(v@)),
        None => None,
    }
}

impl View for UrlParts {
    type V = (Seq<char>, Option<Seq<char>>, Option<Seq<Seq<char>>>);

    open spec fn view(&self) -> (Seq<char>, Option<Seq<char>>, Option<Seq<Seq<char>>>) {
        (self.username@, manifest::opt_text(self.host), opt_texts(self.segments))
    }
}

/// What the `url` crate makes of a text: user name, host and path segments, or
/// the rendering of its error.
pub uninterp spec fn url_parts(url: Seq<char>) -> Result<
    (Seq<char>, Option<Seq<char>>, Option<Seq<Seq<char>>>),
    Seq<char>,
>;

/// Calls `url::Url::parse` and reads `username`, `host_str` and
/// `path_segments` off the parsed URL.
///
/// Claims only that the outcome depends on the text alone; the grammar behind
/// it has a name, [`url_parts`], and no further statement.
#[verifier::external_body]
fn parse_url(url: &str) -> (r: Result<UrlParts, String>)
    ensures
        match r {
            Ok(p) => url_parts(url@) == Ok::<
                (Seq<char>, Option<Seq<char>>, Option<Seq<Seq<char>>>),
                Seq<char>,
            >(p@),
            Err(e) => url_parts(url@) == Err::<
                (Seq<char>, Option<Seq<char>>, Option<Seq<Seq<char>>>),
                Seq<char>,
            >(e@),
        },
{
    match url::Url::parse(url) {
        Ok(u) => Ok(
            UrlParts {
                username: u.username().to_owned(),
                host: u.host_str().map(str::to_owned),
                segments: u.path_segments().map(|s| s.map(str::to_owned).collect()),
            },
        ),
        Err(e) => Err(e.to_string()),
    }
}

/// A part of a parsed URL that begins with `-`: the user name, the host or a
/// path segment.
pub open spec fn url_parts_error(
    parts: (Seq<char>, Option<Seq<char>>, Option<Seq<Seq<char>>>),
    node: Seq<char>,
) -> Option<ManifestErrorView> {
    if text::first_is(parts.0, '-') {
        Some(
            ManifestErrorView::InvalidUrl {
                node,
                reason: "URL userinfo `"@ + parts.0 + "` starts with `-`"@,
            },
        )
    } else if parts.1 is Some && text::first_is(parts.1->0, '-') {
        Some(
            ManifestErrorView::InvalidUrl {
                node,
                reason: "host `"@ + parts.1->0 + "` starts with `-`"@,
            },
        )
    } else {
        match parts.2 {
            Some(segments) => segment_error(segments, node),
            None => None,
        }
    }
}

/// Refuses a parsed URL of which a part begins with `-`.
pub fn check_url_parts(parts: &UrlParts, node: &str) -> (r: Result<(), ManifestError>)
    ensures
        err_view(r) == url_parts_error(parts@, node@),
{
    if text::starts_with_char(&parts.username, '-') {
        let mut reason = "URL userinfo `".to_owned();
        reason.append(&parts.username);
        reason.append("` starts with `-`");
        return Err(ManifestError::InvalidUrl { node: node.to_owned(), reason });
    }
    match &parts.host {
        Some(host) => {
            if text::starts_with_char(host, '-') {
                let mut reason = "host `".to_owned();
                reason.append(host);
                reason.append("` starts with `-`");
                return Err(ManifestError::InvalidUrl { node: node.to_owned(), reason });
            }
        },
        None => {},
    }
    match &parts.segments {
        Some(segments) => check_segments(segments, node),
        None => Ok(()),
    }
}

/// What is wrong with a URL of one of the schemes that have a URL grammar.
pub open spec fn rfc_url_error(url: Seq<char>, node: Seq<char>) -> Option<ManifestErrorView> {
    match url_parts(url) {
        Err(e) => Some(
            ManifestErrorView::InvalidUrl { node, reason: "URL parse failed: "@ + e },
        ),
        Ok(parts) => url_parts_error(parts, node),
    }
}

/// Refuses a URL that does not parse or of which a part begins with `-`.
pub fn check_rfc_url(url: &str, node: &str) -> (r: Result<(), ManifestError>)
    ensures
        err_view(r) == rfc_url_error(url@, node@),
{
    match parse_url(url) {
        Err(e) => {
            let mut reason = "URL parse failed: ".to_owned();
            reason.append(&e);
            Err(ManifestError::InvalidUrl { node: node.to_owned(), reason })
        },
        Ok(parts) => check_url_parts(&parts, node),
    }
}

/// The host of `git@host:path`.
pub open spec fn scp_host(url: Seq<char>) -> Seq<char> {
    let after = url.skip(4);
    after.take(text::find(after, ':'))
}

/// The path of `git@host:path`, empty where there is no colon.
pub open spec fn scp_path(url: Seq<char>) -> Seq<char> {
    let after = url.skip(4);
    let k = text::find(after, ':');
    if k < after.len() {
        after.skip(k + 1)
    } else {
        Seq::empty()
    }
}

/// What is wrong with an address of the form `git@host:path`.
pub open spec fn scp_url_error(url: Seq<char>, node: Seq<char>) -> Option<ManifestErrorView> {
    if scp_host(url).len() == 0 || text::first_is(scp_host(url), '-') {
        Some(
            ManifestErrorView::InvalidUrl {
                node,
                reason: "host `"@ + scp_host(url) + "` is empty or starts with `-`"@,
            },
        )
    } else {
        segment_error(text::split_on(scp_path(url), '/'), node)
    }
}

/// Refuses an address of the form `git@host:path` whose host is empty or
/// begins with `-`, or with a path segment that begins with `-`.
pub fn check_scp_url(url: &str, node: &str) -> (r: Result<(), ManifestError>)
    requires
        url@.len() >= 4,
    ensures
        err_view(r) == scp_url_error(url@, node@),
{
    let chars = text::chars_of(url);
    let colon: usize = text::find_char(&chars, ':', 4);
    proof {
        let after = url@.skip(4);
        text::find_from_facts(url@, ':', 4);
        assert forall|j: int| 0 <= j < colon - 4 implies #[trigger] after[j] != ':' by {
            assert(after[j] == url@[4 + j]);
        }
        text::find_from_unique(after, ':', 0, colon - 4);
        assert(url@.subrange(4, colon as int) =~= after.take(colon - 4));
    }
    let host = text::slice_text(&chars, 4, colon);
    if host.as_str().is_empty() || text::starts_with_char(&host, '-') {
        let mut reason = "host `".to_owned();
        reason.append(&host);
        reason.append("` is empty or starts with `-`");
        return Err(ManifestError::InvalidUrl { node: node.to_owned(), reason });
    }
    let path = if colon < chars.len() {
        text::slice_text(&chars, colon + 1, chars.len())
    } else {
        String::new()
    };
    proof {
        let after = url@.skip(4);
        if colon < url@.len() {
            assert(url@.subrange(colon + 1, url@.len() as int) =~= after.skip(colon - 4 + 1));
        }
        assert(path@ =~= scp_path(url@));
    }
    check_segments(&text::split_char(&path, '/'), node)
}

/// The URL begins with one of the schemes that have a URL grammar.
pub open spec fn has_rfc_scheme(url: Seq<char>) -> bool {
    text::begins_with(url, "https://"@) || text::begins_with(url, "http://"@)
        || text::begins_with(url, "ssh://"@) || text::begins_with(url, "file://"@)
}

/// What is wrong with a URL.
pub open spec fn url_error(url: Seq<char>, node: Seq<char>) -> Option<ManifestErrorView> {
    if url.len() == 0 {
        Some(ManifestErrorView::InvalidUrl { node, reason: "URL is empty"@ })
    } else if first_in_class(url, CharClass::Control) is Some {
        Some(
            ManifestErrorView::InvalidUrl {
                node,
                reason: "URL contains control character U+"@ + text::upper_hex_text(
                    first_in_class(url, CharClass::Control)->0 as nat,
                    4,
                ),
            },
        )
    } else if text::first_is(url, '-') {
        Some(
            ManifestErrorView::InvalidUrl {
                node,
                reason: "`"@ + url + "` starts with `-`, would be parsed as a CLI flag"@,
            },
        )
    } else if has_rfc_scheme(url) {
        rfc_url_error(url, node)
    } else if text::begins_with(url, "git@"@) {
        scp_url_error(url, node)
    } else {
        Some(
            ManifestErrorView::InvalidUrl {
                node,
                reason:
                    "scheme not in allowlist [\"https://\", \"http://\", \"ssh://\", \"git@\", \"file://\"] (got `"@
                    + url + "`)"@,
            },
        )
    }
}

/// Refuses a URL that is empty, contains a control character, is not of an
/// allowed scheme, or of which any part begins with `-`.
pub fn check_url(url: &str, node: &str) -> (r: Result<(), ManifestError>)
    ensures
        err_view(r) == url_error(url@, node@),
{
    if url.is_empty() {
        return Err(
            ManifestError::InvalidUrl { node: node.to_owned(), reason: "URL is empty".to_owned() },
        );
    }
    match find_in_class(url, CharClass::Control) {
        Some(c) => {
            let mut reason = "URL contains control character U+".to_owned();
            reason.append(&code_point(c));
            return Err(ManifestError::InvalidUrl { node: node.to_owned(), reason });
        },
        None => {},
    }
    if text::starts_with_char(url, '-') {
        let mut reason = "`".to_owned();
        reason.append(url);
        reason.append("` starts with `-`, would be parsed as a CLI flag");
        return Err(ManifestError::InvalidUrl { node: node.to_owned(), reason });
    }
    if text::starts_with(url, "https://") || text::starts_with(url, "http://")
        || text::starts_with(url, "ssh://") || text::starts_with(url, "file://") {
        return check_rfc_url(url, node);
    }
    if text::starts_with(url, "git@") {
        proof {
            reveal_strlit("git@");
        }
        return check_scp_url(url, node);
    }
    let mut reason =
        "scheme not in allowlist [\"https://\", \"http://\", \"ssh://\", \"git@\", \"file://\"] (got `".to_owned();
    reason.append(url);
    reason.append("`)");
    Err(ManifestError::InvalidUrl { node: node.to_owned(), reason })
}

/// A path with a `..` component.
pub open spec fn has_parent_component(path: Seq<char>) -> bool {
    text::split_on(path, '/').contains(".."@)
}

fn contains_text(list: &Vec<String>, t: &str) -> (r: bool)
    ensures
        r == order::text_views(list@).contains(t@),
{
    let ghost v = order::text_views(list@);
    let mut i: usize = 0;
    while i < list.len()
        invariant
            i <= list.len(),
            v == order::text_views(list@),
            forall|k: int| 0 <= k < i ==> #[trigger] v[k] != t@,
        decreases list.len() - i,
    {
        assert(v[i as int] == list@[i as int]@);
        if text::text_eq(&list[i], t) {
            return true;
        }
        i = i + 1;
    }
    false
}

/// What is wrong with a path that has to stay inside the node's checkout.
pub open spec fn contained_path_error(
    path: Seq<char>,
    node: Seq<char>,
    field: Seq<char>,
) -> Option<ManifestErrorView> {
    if path.len() == 0 {
        Some(ManifestErrorView::InvalidArg { node, reason: "`"@ + field + "` is empty"@ })
    } else if first_in_class(path, CharClass::Control) is Some {
        Some(
            ManifestErrorView::InvalidArg {
                node,
                reason: "`"@ + field + "` contains control character U+"@ + text::upper_hex_text(
                    first_in_class(path, CharClass::Control)->0 as nat,
                    4,
                ),
            },
        )
    } else if text::first_is(path, '-') {
        Some(
            ManifestErrorView::InvalidArg {
                node,
                reason: "`"@ + field + "` `"@ + path
                    + "` starts with `-`, would be parsed as a CLI flag"@,
            },
        )
    } else if text::first_is(path, '/') {
        Some(
            ManifestErrorView::InvalidArg {
                node,
                reason: "`"@ + field + "` `"@ + path
                    + "` is absolute — must stay inside the node's checkout"@,
            },
        )
    } else if has_parent_component(path) {
        Some(
            ManifestErrorView::InvalidArg {
                node,
                reason: "`"@ + field + "` `"@ + path
                    + "` contains `..` — path traversal outside the node's checkout"@,
            },
        )
    } else {
        None
    }
}

/// Refuses a path that is empty, absolute, climbs with `..`, begins with `-`
/// or contains a control character. The check is lexical: where symbolic links
/// lead is found out when the path is used.
pub fn check_contained_path(path: &str, node: &str, field: &str) -> (r: Result<(), ManifestError>)
    ensures
        err_view(r) == contained_path_error(path@, node@, field@),
{
    if path.is_empty() {
        let mut reason = "`".to_owned();
        reason.append(field);
        reason.append("` is empty");
        return Err(ManifestError::InvalidArg { node: node.to_owned(), reason });
    }
    match find_in_class(path, CharClass::Control) {
        Some(c) => {
            let mut reason = "`".to_owned();
            reason.append(field);
            reason.append("` contains control character U+");
            reason.append(&code_point(c));
            return Err(ManifestError::InvalidArg { node: node.to_owned(), reason });
        },
        None => {},
    }
    if text::starts_with_char(path, '-') {
        let mut reason = "`".to_owned();
        reason.append(field);
        reason.append("` `");
        reason.append(path);
        reason.append("` starts with `-`, would be parsed as a CLI flag");
        return Err(ManifestError::InvalidArg { node: node.to_owned(), reason });
    }
    if text::starts_with_char(path, '/') {
        let mut reason = "`".to_owned();
        reason.append(field);
        reason.append("` `");
        reason.append(path);
        reason.append("` is absolute — must stay inside the node's checkout");
        return Err(ManifestError::InvalidArg { node: node.to_owned(), reason });
    }
    if contains_text(&text::split_char(path, '/'), "..") {
        let mut reason = "`".to_owned();
        reason.append(field);
        reason.append("` `");
        reason.append(path);
        reason.append("` contains `..` — path traversal outside the node's checkout");
        return Err(ManifestError::InvalidArg { node: node.to_owned(), reason });
    }
    Ok(())
}

/// What is wrong with an image tag.
pub open spec fn docker_tag_error(tag: Seq<char>, node: Seq<char>) -> Option<ManifestErrorView> {
    if tag.len() == 0 {
        Some(ManifestErrorView::InvalidArg { node, reason: "`tag` is empty"@ })
    } else if text::first_is(tag, '-') {
        Some(
            ManifestErrorView::InvalidArg {
                node,
                reason: "`tag` `"@ + tag + "` starts with `-`, would be parsed as a CLI flag"@,
            },
        )
    } else if first_in_class(tag, CharClass::OutsideTag) is Some {
        Some(
            ManifestErrorView::InvalidArg {
                node,
                reason: "`tag` `"@ + tag + "` contains `"@
                    + seq![first_in_class(tag, CharClass::OutsideTag)->0]
                    + "` — allowed charset is [a-zA-Z0-9._:/-]"@,
            },
        )
    } else {
        None
    }
}

/// Refuses an image tag that is empty, begins with `-`, or contains anything
/// but ASCII letters, digits and `.`, `_`, `:`, `/`, `-`.
pub fn check_docker_tag(tag: &str, node: &str) -> (r: Result<(), ManifestError>)
    ensures
        err_view(r) == docker_tag_error(tag@, node@),
{
    if tag.is_empty() {
        return Err(
            ManifestError::InvalidArg {
                node: node.to_owned(),
                reason: "`tag` is empty".to_owned(),
            },
        );
    }
    if text::starts_with_char(tag, '-') {
        let mut reason = "`tag` `".to_owned();
        reason.append(tag);
        reason.append("` starts with `-`, would be parsed as a CLI flag");
        return Err(ManifestError::InvalidArg { node: node.to_owned(), reason });
    }
    match find_in_class(tag, CharClass::OutsideTag) {
        Some(c) => {
            let mut reason = "`tag` `".to_owned();
            reason.append(tag);
            reason.append("` contains `");
            reason.append(&char_text(c));
            reason.append("` — allowed charset is [a-zA-Z0-9._:/-]");
            return Err(ManifestError::InvalidArg { node: node.to_owned(), reason });
        },
        None => {},
    }
    Ok(())
}

/// The version requirement on a manifest's schema.
pub const SCHEMA_REQUIREMENT: &'static str = "~0.1";

/// A semantic version.
#[derive(Clone, Debug, PartialEq, Eq)]
pub struct SchemaVersion {
    /// Major version.
    pub major: u64,
    /// Minor version.
    pub minor: u64,
    /// Patch version.
    pub patch: u64,
    /// Pre-release tag, empty for a release.
    pub pre: String,
}

impl View for SchemaVersion {
    type V = (u64, u64, u64, Seq<char>);

    open spec fn view(&self) -> (u64, u64, u64, Seq<char>) {
        (self.major, self.minor, self.patch, self.pre@)
    }
}

/// What the `semver` crate makes of a text: major, minor and patch version and
/// the pre-release tag, or nothing where it is no semantic version.
pub uninterp spec fn semver_version(text: Seq<char>) -> Option<(u64, u64, u64, Seq<char>)>;

/// Calls `semver::Version::parse`.
///
/// Claims only that the outcome depends on the text alone; the grammar behind
/// it has a name, [`semver_version`], and no further statement.
#[verifier::external_body]
fn parse_version(text: &str) -> (r: Option<SchemaVersion>)
    ensures
        match r {
            Some(v) => semver_version(text@) == Some(v@),
            None => semver_version(text@) is None,
        },
{
    semver::Version::parse(text).ok().map(
        |v|
            SchemaVersion {
                major: v.major,
                minor: v.minor,
                patch: v.patch,
                pre: v.pre.as_str().to_owned(),
            },
    )
}

/// Calls `semver::VersionReq::parse` and `VersionReq::matches`.
///
/// Claims that a version satisfies `~0.1` exactly when its major version is 0,
/// its minor version is 1 and it has no pre-release tag.
#[verifier::external_body]
fn requirement_matches(requirement: &str, version: &SchemaVersion) -> (r: bool)
    requires
        requirement@ == SCHEMA_REQUIREMENT@,
    ensures
        r == (version@.0 == 0 && version@.1 == 1 && version@.3.len() == 0),
{
    match (semver::VersionReq::parse(requirement), semver::Prerelease::new(&version.pre)) {
        (Ok(req), Ok(pre)) => req.matches(
            &semver::Version {
                major: version.major,
                minor: version.minor,
                patch: version.patch,
                pre,
                build: semver::BuildMetadata::EMPTY,
            },
        ),
        _ => false,
    }
}

/// A schema version other than `0.1`, given what parsing it as a semantic
/// version found.
pub open spec fn schema_parsed_error(
    parsed: Option<(u64, u64, u64, Seq<char>)>,
    got: Seq<char>,
) -> Option<ManifestErrorView> {
    let fits = match parsed {
        Some((major, minor, patch, pre)) => major == 0 && minor == 1 && pre.len() == 0,
        None => false,
    };
    if fits {
        None
    } else {
        Some(ManifestErrorView::SchemaMismatch { got })
    }
}

/// Refuses a schema version unless it parsed to a release of `0.1`.
pub fn check_schema_parsed(parsed: &Option<SchemaVersion>, got: &str) -> (r: Result<
    (),
    ManifestError,
>)
    ensures
        err_view(r) == schema_parsed_error(
            match *parsed {
                Some(v) => Some(v@),
                None => None,
            },
            got@,
        ),
{
    match parsed {
        Some(v) => {
            if requirement_matches(SCHEMA_REQUIREMENT, v) {
                return Ok(());
            }
        },
        None => {},
    }
    Err(ManifestError::SchemaMismatch { got: got.to_owned() })
}

/// What is wrong with a schema version, which is a semantic version that may
/// leave out its patch number.
pub open spec fn schema_error(version: Seq<char>) -> Option<ManifestErrorView> {
    schema_parsed_error(
        match semver_version(version) {
            Some(parsed) => Some(parsed),
            None => semver_version(version + ".0"@),
        },
        version,
    )
}

/// Refuses a schema version that does not match `~0.1`.
pub fn check_schema(version: &str) -> (r: Result<(), ManifestError>)
    ensures
        err_view(r) == schema_error(version@),
{
    let whole = parse_version(version);
    if whole.is_some() {
        return check_schema_parsed(&whole, version);
    }
    let mut full = version.to_owned();
    full.append(".0");
    check_schema_parsed(&parse_version(&full), version)
}

/// A crate or feature name that would be split into several.
pub open spec fn comma_error(
    before: Seq<char>,
    value: Seq<char>,
    node: Seq<char>,
) -> Option<ManifestErrorView> {
    if value.contains(',') {
        Some(
            ManifestErrorView::InvalidArg {
                node,
                reason: before + value
                    + "` contains `,` which would split cargo's --features list"@,
            },
        )
    } else {
        None
    }
}

fn check_no_comma(before: &str, value: &str, node: &str) -> (r: Result<(), ManifestError>)
    ensures
        err_view(r) == comma_error(before@, value@, node@),
{
    if text::contains_char(value, ',') {
        let mut reason = before.to_owned();
        reason.append(value);
        reason.append("` contains `,` which would split cargo's --features list");
        return Err(ManifestError::InvalidArg { node: node.to_owned(), reason });
    }
    Ok(())
}

/// What is wrong with the features from position `i` on.
pub open spec fn features_error(
    features: Seq<Seq<char>>,
    node: Seq<char>,
    i: int,
) -> Option<ManifestErrorView>
    decreases features.len() - i,
{
    if i >= features.len() {
        None
    } else {
        or_else(
            leading_dash_error(features[i], node, "features entry"@),
            or_else(
                comma_error("feature `"@, features[i], node),
                features_error(features, node, i + 1),
            ),
        )
    }
}

fn check_features(features: &Vec<String>, node: &str) -> (r: Result<(), ManifestError>)
    ensures
        err_view(r) == features_error(order::text_views(features@), node@, 0),
{
    let ghost fv = order::text_views(features@);
    let mut i: usize = 0;
    while i < features.len()
        invariant
            i <= features.len(),
            fv == order::text_views(features@),
            features_error(fv, node@, 0) == features_error(fv, node@, i as int),
        decreases features.len() - i,
    {
        assert(fv[i as int] == features@[i as int]@);
        match check_no_leading_dash(&features[i], node, "features entry") {
            Err(e) => {
                return Err(e);
            },
            Ok(_) => {},
        }
        match check_no_comma("feature `", &features[i], node) {
            Err(e) => {
                return Err(e);
            },
            Ok(_) => {},
        }
        i = i + 1;
    }
    Ok(())
}

/// A leading dash in an optional value.
pub open spec fn opt_dash_error(
    value: Option<Seq<char>>,
    node: Seq<char>,
    field: Seq<char>,
) -> Option<ManifestErrorView> {
    match value {
        Some(v) => leading_dash_error(v, node, field),
        None => None,
    }
}

fn check_opt_dash(value: &Option<String>, node: &str, field: &str) -> (r: Result<
    (),
    ManifestError,
>)
    ensures
        err_view(r) == opt_dash_error(manifest::opt_text(*value), node@, field@),
{
    match value {
        Some(v) => check_no_leading_dash(v, node, field),
        None => Ok(()),
    }
}

/// What is wrong with an optional path that has to stay inside the checkout.
pub open spec fn opt_path_error(
    value: Option<Seq<char>>,
    node: Seq<char>,
    field: Seq<char>,
) -> Option<ManifestErrorView> {
    match value {
        Some(v) => contained_path_error(v, node, field),
        None => None,
    }
}

fn check_opt_path(value: &Option<String>, node: &str, field: &str) -> (r: Result<
    (),
    ManifestError,
>)
    ensures
        err_view(r) == opt_path_error(manifest::opt_text(*value), node@, field@),
{
    match value {
        Some(v) => check_contained_path(v, node, field),
        None => Ok(()),
    }
}

/// What is wrong with an action entry of a node.
pub open spec fn entry_error(
    entry: ActionEntryView,
    node: Seq<char>,
    has_path: bool,
) -> Option<ManifestErrorView> {
    match entry {
        ActionEntryView::GitClone => None,
        ActionEntryView::CargoInstall { crate_name, features, .. } => or_else(
            opt_dash_error(crate_name, node, "crate"@),
            or_else(
                match crate_name {
                    Some(name) => comma_error("`crate` name `"@, name, node),
                    None => None,
                },
                features_error(features, node, 0),
            ),
        ),
        ActionEntryView::Docker { tag, dockerfile, context } => or_else(
            docker_tag_error(tag, node),
            or_else(
                opt_path_error(dockerfile, node, "dockerfile"@),
                or_else(
                    opt_path_error(context, node, "context"@),
                    if has_path {
                        None
                    } else {
                        Some(
                            ManifestErrorView::InvalidArg {
                                node,
                                reason:
                                    "docker action requires `path` on the node (build context base)"@,
                            },
                        )
                    },
                ),
            ),
        ),
        ActionEntryView::Repolith { manifest } => or_else(
            opt_path_error(manifest, node, "manifest"@),
            if has_path {
                None
            } else {
                Some(
                    ManifestErrorView::InvalidArg {
                        node,
                        reason: "repolith action requires `path` on the node (child stack root)"@,
                    },
                )
            },
        ),
    }
}

/// Refuses an action entry with a value that must not reach a subprocess.
pub fn check_entry(entry: &ActionEntry, node: &str, has_path: bool) -> (r: Result<
    (),
    ManifestError,
>)
    ensures
        err_view(r) == entry_error(entry@, node@, has_path),
{
    match entry {
        ActionEntry::GitClone => Ok(()),
        ActionEntry::CargoInstall { crate_name, features, .. } => {
            match check_opt_dash(crate_name, node, "crate") {
                Err(e) => {
                    return Err(e);
                },
                Ok(_) => {},
            }
            match crate_name {
                Some(name) => {
                    match check_no_comma("`crate` name `", name, node) {
                        Err(e) => {
                            return Err(e);
                        },
                        Ok(_) => {},
                    }
                },
                None => {},
            }
            check_features(features, node)
        },
        ActionEntry::Docker { tag, dockerfile, context } => {
            match check_docker_tag(tag, node) {
                Err(e) => {
                    return Err(e);
                },
                Ok(_) => {},
            }
            match check_opt_path(dockerfile, node, "dockerfile") {
                Err(e) => {
                    return Err(e);
                },
                Ok(_) => {},
            }
            match check_opt_path(context, node, "context") {
                Err(e) => {
                    return Err(e);
                },
                Ok(_) => {},
            }
            if !has_path {
                return Err(
                    ManifestError::InvalidArg {
                        node: node.to_owned(),
                        reason:
                            "docker action requires `path` on the node (build context base)".to_owned(),
                    },
                );
            }
            Ok(())
        },
        ActionEntry::Repolith { manifest } => {
            match check_opt_path(manifest, node, "manifest") {
                Err(e) => {
                    return Err(e);
                },
                Ok(_) => {},
            }
            if !has_path {
                return Err(
                    ManifestError::InvalidArg {
                        node: node.to_owned(),
                        reason:
                            "repolith action requires `path` on the node (child stack root)".to_owned(),
                    },
                );
            }
            Ok(())
        },
    }
}

/// What is wrong with the actions from position `i` on.
pub open spec fn entries_error(
    entries: Seq<ActionEntryView>,
    node: Seq<char>,
    has_path: bool,
    i: int,
) -> Option<ManifestErrorView>
    decreases entries.len() - i,
{
    if i >= entries.len() {
        None
    } else {
        or_else(
            entry_error(entries[i], node, has_path),
            entries_error(entries, node, has_path, i + 1),
        )
    }
}

/// An earlier node has the same id.
pub open spec fn seen_before(nodes: Seq<NodeView>, n: int) -> bool {
    exists|k: int| 0 <= k < n && (#[trigger] nodes[k]).id == nodes[n].id
}

/// What is wrong with the `n`-th node.
pub open spec fn node_error(nodes: Seq<NodeView>, n: int) -> Option<ManifestErrorView> {
    let node = nodes[n];
    or_else(
        node_id_error(node.id),
        or_else(
            if seen_before(nodes, n) {
                Some(ManifestErrorView::DuplicateNodeId(node.id))
            } else {
                None
            },
            or_else(
                if node.git is None && node.path is None {
                    Some(ManifestErrorView::NodeMissingSource(node.id))
                } else {
                    None
                },
                or_else(
                    match node.git {
                        Some(url) => url_error(url, node.id),
                        None => None,
                    },
                    entries_error(node.actions, node.id, node.path is Some, 0),
                ),
            ),
        ),
    )
}

/// What is wrong with the nodes from position `n` on.
pub open spec fn nodes_error(nodes: Seq<NodeView>, n: int) -> Option<ManifestErrorView>
    decreases nodes.len() - n,
{
    if n >= nodes.len() {
        None
    } else {
        or_else(node_error(nodes, n), nodes_error(nodes, n + 1))
    }
}

/// The first thing that is wrong with a manifest.
pub open spec fn manifest_error(m: ManifestView) -> Option<ManifestErrorView> {
    or_else(schema_error(m.schema_version), nodes_error(m.nodes, 0))
}

fn check_entries(node: &NodeEntry) -> (r: Result<(), ManifestError>)
    ensures
        err_view(r) == entries_error(node@.actions, node@.id, node@.path is Some, 0),
{
    let ghost ev = manifest::entry_views(node.actions@);
    let has_path: bool = node.path.is_some();
    let mut i: usize = 0;
    while i < node.actions.len()
        invariant
            i <= node.actions.len(),
            has_path == (node@.path is Some),
            ev == manifest::entry_views(node.actions@),
            entries_error(ev, node.id@, has_path, 0) == entries_error(
                ev,
                node.id@,
                has_path,
                i as int,
            ),
        decreases node.actions.len() - i,
    {
        assert(ev[i as int] == node.actions@[i as int]@);
        match check_entry(&node.actions[i], &node.id, has_path) {
            Err(e) => {
                return Err(e);
            },
            Ok(_) => {},
        }
        i = i + 1;
    }
    Ok(())
}

fn check_node(nodes: &Vec<NodeEntry>, n: usize) -> (r: Result<(), ManifestError>)
    requires
        n < nodes.len(),
    ensures
        err_view(r) == node_error(manifest::node_views(nodes@), n as int),
{
    let ghost nv = manifest::node_views(nodes@);
    let node = &nodes[n];
    assert(nv[n as int] == node@);
    match check_node_id_safe(&node.id) {
        Err(e) => {
            return Err(e);
        },
        Ok(_) => {},
    }
    let mut k: usize = 0;
    while k < n
        invariant
            k <= n < nodes.len(),
            nv == manifest::node_views(nodes@),
            node == nodes@[n as int],
            nv[n as int] == node@,
            node_id_error(node@.id) is None,
            forall|j: int| 0 <= j < k ==> (#[trigger] nv[j]).id != node@.id,
        decreases n - k,
    {
        assert(nv[k as int].id == nodes@[k as int].id@);
        if text::text_eq(&nodes[k].id, &node.id) {
            assert(seen_before(nv, n as int));
            return Err(ManifestError::DuplicateNodeId(node.id.clone()));
        }
        k = k + 1;
    }
    if node.git.is_none() && node.path.is_none() {
        return Err(ManifestError::NodeMissingSource(node.id.clone()));
    }
    match &node.git {
        Some(url) => {
            match check_url(url, &node.id) {
                Err(e) => {
                    return Err(e);
                },
                Ok(_) => {},
            }
        },
        None => {},
    }
    check_entries(node)
}

/// Checks a whole manifest; the error is the first one in declaration order.
pub fn check_manifest(m: &Manifest) -> (r: Result<(), ManifestError>)
    ensures
        err_view(r) == manifest_error(m@),
{
    match check_schema(&m.orchestrator.schema_version) {
        Err(e) => {
            return Err(e);
        },
        Ok(_) => {},
    }
    let ghost nv = manifest::node_views(m.nodes@);
    let mut n: usize = 0;
    while n < m.nodes.len()
        invariant
            n <= m.nodes.len(),
            nv == manifest::node_views(m.nodes@),
            schema_error(m@.schema_version) is None,
            nodes_error(nv, 0) == nodes_error(nv, n as int),
        decreases m.nodes.len() - n,
    {
        match check_node(&m.nodes, n) {
            Err(e) => {
                return Err(e);
            },
            Ok(_) => {},
        }
        n = n + 1;
    }
    Ok(())
}

} // verus!
