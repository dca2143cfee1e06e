//! What `cargo metadata` tells about a workspace: its root, and for each
//! package the local directories it depends on.
//!
//! The document is navigated as untyped JSON: three fields are needed out of
//! dozens, and a field that cargo adds must not get in the way.

use crate::command::CmdOutput;
use crate::order;
use crate::paths;
use crate::text;
use serde_json::Value;
use vstd::prelude::*;

verus! {

/// `serde_json::Value`, a JSON document of which nothing is known but its [`json_view`].
#[verifier::external_type_specification]
#[verifier::external_body]
pub struct ExValue(Value);

/// The structure of a JSON document, without the values of its numbers.
pub enum JsonView {
    /// `null`.
    Null,
    /// `true` or `false`.
    Bool(bool),
    /// Any number.
    Number,
    /// A string.
    Text(Seq<char>),
    /// An array.
    Array(Seq<JsonView>),
    /// An object.
    Object(Map<Seq<char>, JsonView>),
}

/// What a JSON document holds.
pub uninterp spec fn json_view(v: Value) -> JsonView;

/// What the `serde_json` crate makes of a byte string: a JSON document, or
/// nothing where it is none.
pub uninterp spec fn json_parsed(bytes: Seq<u8>) -> Option<JsonView>;

/// Calls `serde_json::from_slice` for an untyped document.
///
/// Claims only that the outcome depends on the bytes alone; the grammar behind
/// it has a name, [`json_parsed`], and no further statement.
#[verifier::external_body]
fn parse_json(bytes: &[u8]) -> (r: Option<Value>)
    ensures
        match r {
            Some(v) => json_parsed(bytes@) == Some(json_view(v)),
            None => json_parsed(bytes@) is None,
        },
{
    serde_json::from_slice(bytes).ok()
}

/// The member of an object under a key.
pub open spec fn member(v: JsonView, key: Seq<char>) -> Option<JsonView> {
    match v {
        JsonView::Object(m) => if m.contains_key(key) {
            Some(m[key])
        } else {
            None
        },
        _ => None,
    }
}

/// Calls `serde_json::Value::get` with a string key: the member of an object
/// under that key; nothing for a missing key or for anything but an object.
#[verifier::external_body]
fn get<'a>(v: &'a Value, key: &str) -> (r: Option<&'a Value>)
    ensures
        match r {
            Some(x) => member(json_view(*v), key@) == Some(json_view(*x)),
            None => member(json_view(*v), key@) is None,
        },
{
    v.get(key)
}

/// The content of a string.
pub open spec fn text_in(v: JsonView) -> Option<Seq<char>> {
    match v {
        JsonView::Text(s) => Some(s),
        _ => None,
    }
}

/// Calls `serde_json::Value::as_str`: the content of a string, nothing for any
/// other document.
#[verifier::external_body]
fn as_text(v: &Value) -> (r: Option<String>)
    ensures
        crate::manifest::opt_text(r) == text_in(json_view(*v)),
{
    v.as_str().map(str::to_owned)
}

/// The elements of an array.
pub open spec fn elements(v: JsonView) -> Option<Seq<JsonView>> {
    match v {
        JsonView::Array(s) => Some(s),
        _ => None,
    }
}

/// The views of a list of documents.
pub open spec fn json_views(v: Seq<Value>) -> Seq<JsonView> {
    v.map_values(|x: Value| json_view(x))
}

/// Calls `serde_json::Value::as_array`: the elements of an array, nothing for
/// any other document.
#[verifier::external_body]
fn as_array(v: &Value) -> (r: Option<&Vec<Value>>)
    ensures
        match r {
            Some(a) => elements(json_view(*v)) == Some(json_views(a@)),
            None => elements(json_view(*v)) is None,
        },
{
    v.as_array()
}

/// What one run of `cargo metadata` tells.
#[derive(Debug, PartialEq, Eq)]
pub struct Meta {
    /// The root of the workspace.
    pub workspace_root: String,
    /// Each package's directory and the local directories it depends on.
    pub packages: Vec<(String, Vec<String>)>,
}

/// A package's directory and the local directories it depends on.
pub type PackageView = (Seq<char>, Seq<Seq<char>>);

/// The views of a list of packages.
pub open spec fn package_views(p: Seq<(String, Vec<String>)>) -> Seq<PackageView> {
    p.map_values(|x: (String, Vec<String>)| (x.0@, order::text_views(x.1@)))
}

/// A string member of an object.
pub open spec fn text_member(v: JsonView, key: Seq<char>) -> Option<Seq<char>> {
    match member(v, key) {
        Some(m) => text_in(m),
        None => None,
    }
}

fn get_text(v: &Value, key: &str) -> (r: Option<String>)
    ensures
        crate::manifest::opt_text(r) == text_member(json_view(*v), key@),
{
    match get(v, key) {
        Some(m) => as_text(m),
        None => None,
    }
}

/// The local directories among the listed dependencies. Only a development
/// dependency is never compiled, so only those are left out.
pub open spec fn dep_paths(deps: Seq<JsonView>) -> Seq<Seq<char>>
    decreases deps.len(),
{
    if deps.len() == 0 {
        Seq::empty()
    } else {
        let before = dep_paths(deps.drop_last());
        let d = deps.last();
        if text_member(d, "kind"@) == Some("dev"@) {
            before
        } else {
            match text_member(d, "path"@) {
                Some(p) => before.push(p),
                None => before,
            }
        }
    }
}

/// The dependencies that a package lists.
pub open spec fn package_deps(p: JsonView) -> Seq<JsonView> {
    match member(p, "dependencies"@) {
        Some(d) => match elements(d) {
            Some(a) => a,
            None => Seq::empty(),
        },
        None => Seq::empty(),
    }
}

/// A package's directory and local dependencies; nothing where its manifest is
/// not named or is in no directory.
pub open spec fn package_of(p: JsonView) -> Option<PackageView> {
    match text_member(p, "manifest_path"@) {
        Some(manifest) => match paths::parent_of(manifest) {
            Some(dir) => Some((dir, dep_paths(package_deps(p)))),
            None => None,
        },
        None => None,
    }
}

/// The packages that can be told.
pub open spec fn packages_of(list: Seq<JsonView>) -> Seq<PackageView>
    decreases list.len(),
{
    if list.len() == 0 {
        Seq::empty()
    } else {
        match package_of(list.last()) {
            Some(p) => packages_of(list.drop_last()).push(p),
            None => packages_of(list.drop_last()),
        }
    }
}

/// What a document tells about a workspace: nothing unless it names a root and
/// lists packages.
pub open spec fn meta_of(v: JsonView) -> Option<(Seq<char>, Seq<PackageView>)> {
    match text_member(v, "workspace_root"@) {
        Some(root) => match member(v, "packages"@) {
            Some(list) => match elements(list) {
                Some(a) => Some((root, packages_of(a))),
                None => None,
            },
            None => None,
        },
        None => None,
    }
}

/// What a [`Meta`] holds.
pub open spec fn meta_view(m: Option<Meta>) -> Option<(Seq<char>, Seq<PackageView>)> {
    match m {
        Some(m) => Some((m.workspace_root@, package_views(m.packages@))),
        None => None,
    }
}

fn collect_deps(deps: &Vec<Value>) -> (r: Vec<String>)
    ensures
        order::text_views(r@) == dep_paths(json_views(deps@)),
{
    let ghost dv = json_views(deps@);
    let mut r: Vec<String> = Vec::new();
    assert(order::text_views(r@) =~= dep_paths(dv.take(0)));
    let mut i: usize = 0;
    while i < deps.len()
        invariant
            i <= deps.len(),
            dv == json_views(deps@),
            order::text_views(r@) == dep_paths(dv.take(i as int)),
        decreases deps.len() - i,
    {
        let d = &deps[i];
        let ghost before = order::text_views(r@);
        proof {
            assert(dv.take(i + 1).drop_last() =~= dv.take(i as int));
            assert(dv.take(i + 1).last() == json_view(*d));
        }
        let kind = get_text(d, "kind");
        let dev: bool = match &kind {
            Some(k) => text::text_eq(k, "dev"),
            None => false,
        };
        if !dev {
            match get_text(d, "path") {
                Some(p) => {
                    let ghost pv = p@;
                    r.push(p);
                    assert(order::text_views(r@) =~= before.push(pv));
                },
                None => {},
            }
        }
        i = i + 1;
    }
    assert(dv.take(dv.len() as int) =~= dv);
    r
}

fn collect_package(p: &Value) -> (r: Option<(String, Vec<String>)>)
    ensures
        match r {
            Some(x) => package_of(json_view(*p)) == Some((x.0@, order::text_views(x.1@))),
            None => package_of(json_view(*p)) is None,
        },
{
    let manifest = match get_text(p, "manifest_path") {
        Some(m) => m,
        None => {
            return None;
        },
    };
    let dir = match paths::parent(&manifest) {
        Some(d) => d,
        None => {
            return None;
        },
    };
    let none: Vec<Value> = Vec::new();
    assert(json_views(none@) =~= Seq::<JsonView>::empty());
    let deps = match get(p, "dependencies") {
        Some(d) => match as_array(d) {
            Some(a) => collect_deps(a),
            None => collect_deps(&none),
        },
        None => collect_deps(&none),
    };
    Some((dir, deps))
}

/// What a JSON document tells about a workspace.
pub fn metadata_of(v: &Value) -> (r: Option<Meta>)
    ensures
        meta_view(r) == meta_of(json_view(*v)),
{
    let workspace_root = match get_text(v, "workspace_root") {
        Some(s) => s,
        None => {
            return None;
        },
    };
    let list = match get(v, "packages") {
        Some(l) => match as_array(l) {
            Some(a) => a,
            None => {
                return None;
            },
        },
        None => {
            return None;
        },
    };
    let ghost lv = json_views(list@);
    let mut packages: Vec<(String, Vec<String>)> = Vec::new();
    assert(package_views(packages@) =~= packages_of(lv.take(0)));
    let mut i: usize = 0;
    while i < list.len()
        invariant
            i <= list.len(),
            lv == json_views(list@),
            package_views(packages@) == packages_of(lv.take(i as int)),
        decreases list.len() - i,
    {
        let ghost before = package_views(packages@);
        proof {
            assert(lv.take(i + 1).drop_last() =~= lv.take(i as int));
            assert(lv.take(i + 1).last() == json_view(list@[i as int]));
        }
        match collect_package(&list[i]) {
            Some(p) => {
                let ghost pv = (p.0@, order::text_views(p.1@));
                packages.push(p);
                assert(package_views(packages@) =~= before.push(pv));
            },
            None => {},
        }
        i = i + 1;
    }
    assert(lv.take(lv.len() as int) =~= lv);
    Some(Meta { workspace_root, packages })
}

/// What the output of `cargo metadata` tells about a workspace.
pub open spec fn meta_in(bytes: Seq<u8>) -> Option<(Seq<char>, Seq<PackageView>)> {
    match json_parsed(bytes) {
        Some(v) => meta_of(v),
        None => None,
    }
}

/// Pulls the workspace root and each package's local dependencies out of the
/// output of `cargo metadata`.
pub fn parse_metadata(bytes: &[u8]) -> (r: Option<Meta>)
    ensures
        meta_view(r) == meta_in(bytes@),
{
    match parse_json(bytes) {
        Some(v) => metadata_of(&v),
        None => None,
    }
}

/// What a run of `cargo metadata` tells: nothing where it did not end well.
pub fn metadata_told(out: &Option<CmdOutput>) -> (r: Option<Meta>)
    ensures
        meta_view(r) == (match *out {
            Some(o) if o.success => meta_in(o.stdout@),
            _ => None,
        }),
{
    match out {
        Some(o) if o.success => parse_metadata(o.stdout.as_slice()),
        _ => None,
    }
}

} // verus!
