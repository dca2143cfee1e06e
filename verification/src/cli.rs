//! The decisions of the command line: what enters the environment of actions,
//! which actions a filter names, and what a sync says before it runs.

use crate::order;
use crate::plan;
use crate::plan::{ChangeReasonView, Plan};
use crate::text;
use crate::types;
use crate::types::ActionId;
use vstd::prelude::*;

verus! {

/// The variables that enter the environment of actions: what `git`, `cargo` and
/// `rustup` need to find their tools and to respect the locale, and what private
/// repositories need. Anything else, credentials above all, stays outside.
pub open spec fn allowed_names() -> Seq<Seq<char>> {
    seq![
        "PATH"@,
        "HOME"@,
        "USER"@,
        "SHELL"@,
        "TMPDIR"@,
        "CARGO_HOME"@,
        "RUSTUP_HOME"@,
        "RUSTUP_TOOLCHAIN"@,
        "RUST_LOG"@,
        "RUST_BACKTRACE"@,
        "TZ"@,
        "LANG"@,
        "LC_ALL"@,
        "SSH_AUTH_SOCK"@,
        "XDG_CONFIG_HOME"@,
    ]
}

/// Whether a variable may enter the environment of actions.
pub fn env_allowed(name: &str) -> (r: bool)
    ensures
        r == allowed_names().contains(name@),
{
    let r: bool = text::text_eq(name, "PATH") || text::text_eq(name, "HOME") || text::text_eq(
        name,
        "USER",
    ) || text::text_eq(name, "SHELL") || text::text_eq(name, "TMPDIR") || text::text_eq(
        name,
        "CARGO_HOME",
    ) || text::text_eq(name, "RUSTUP_HOME") || text::text_eq(name, "RUSTUP_TOOLCHAIN")
        || text::text_eq(name, "RUST_LOG") || text::text_eq(name, "RUST_BACKTRACE")
        || text::text_eq(name, "TZ") || text::text_eq(name, "LANG") || text::text_eq(name, "LC_ALL")
        || text::text_eq(name, "SSH_AUTH_SOCK") || text::text_eq(name, "XDG_CONFIG_HOME");
    proof {
        let a = allowed_names();
        assert(a[0] == "PATH"@ && a[1] == "HOME"@ && a[2] == "USER"@ && a[3] == "SHELL"@);
        assert(a[4] == "TMPDIR"@ && a[5] == "CARGO_HOME"@ && a[6] == "RUSTUP_HOME"@);
        assert(a[7] == "RUSTUP_TOOLCHAIN"@ && a[8] == "RUST_LOG"@ && a[9] == "RUST_BACKTRACE"@);
        assert(a[10] == "TZ"@ && a[11] == "LANG"@ && a[12] == "LC_ALL"@);
        assert(a[13] == "SSH_AUTH_SOCK"@ && a[14] == "XDG_CONFIG_HOME"@);
        if a.contains(name@) {
            let i = choose|i: int| 0 <= i < a.len() && a[i] == name@;
            assert(r);
        }
    }
    r
}

/// The views of a list of variables.
pub open spec fn var_views(vars: Seq<(String, String)>) -> Seq<(Seq<char>, Seq<char>)> {
    vars.map_values(|v: (String, String)| (v.0@, v.1@))
}

/// The variables that may enter the environment of actions.
pub open spec fn filtered(vars: Seq<(Seq<char>, Seq<char>)>) -> Seq<(Seq<char>, Seq<char>)> {
    vars.filter(|v: (Seq<char>, Seq<char>)| allowed_names().contains(v.0))
}

/// The variables that may enter the environment of actions, in the given order.
pub fn filtered_env(vars: &Vec<(String, String)>) -> (r: Vec<(String, String)>)
    ensures
        var_views(r@) == filtered(var_views(vars@)),
{
    let ghost vv = var_views(vars@);
    let ghost allowed = |v: (Seq<char>, Seq<char>)| allowed_names().contains(v.0);
    let mut r: Vec<(String, String)> = Vec::new();
    proof {
        reveal(Seq::filter);
        assert(var_views(r@) =~= vv.take(0).filter(allowed));
    }
    let mut i: usize = 0;
    while i < vars.len()
        invariant
            i <= vars.len(),
            vv == var_views(vars@),
            allowed == (|v: (Seq<char>, Seq<char>)| allowed_names().contains(v.0)),
            var_views(r@) == vv.take(i as int).filter(allowed),
        decreases vars.len() - i,
    {
        let ghost before = var_views(r@);
        proof {
            reveal(Seq::filter);
            assert(vv.take(i + 1).drop_last() =~= vv.take(i as int));
            assert(vv.take(i + 1).last() == (vars@[i as int].0@, vars@[i as int].1@));
        }
        if env_allowed(&vars[i].0) {
            r.push((vars[i].0.clone(), vars[i].1.clone()));
            assert(var_views(r@) =~= before.push((vars@[i as int].0@, vars@[i as int].1@)));
        }
        i = i + 1;
    }
    assert(vv.take(vv.len() as int) =~= vv);
    r
}

/// No variable outside the list enters the environment of actions, and none of
/// the list is lost.
pub proof fn only_allowed_variables_pass(
    vars: Seq<(Seq<char>, Seq<char>)>,
    v: (Seq<char>, Seq<char>),
)
    ensures
        filtered(vars).contains(v) <==> vars.contains(v) && allowed_names().contains(v.0),
    decreases vars.len(),
{
    reveal(Seq::filter);
    if vars.len() > 0 {
        let d = vars.drop_last();
        let last = vars.last();
        only_allowed_variables_pass(d, v);
        assert(vars =~= d.push(last));
        contains_after_push(d, last, v);
        contains_after_push(filtered(d), last, v);
    }
}

proof fn contains_after_push<T>(s: Seq<T>, x: T, v: T)
    ensures
        s.push(x).contains(v) <==> s.contains(v) || x == v,
{
    if s.contains(v) {
        let i = choose|i: int| 0 <= i < s.len() && s[i] == v;
        assert(s.push(x)[i] == v);
    }
    assert(s.push(x)[s.len() as int] == x);
}

/// The log filter for a verbosity: the crate's own targets at the level it asks
/// for, everything else at warnings.
pub open spec fn log_filter_text(verbosity: u8) -> Seq<char> {
    let level = if verbosity == 0 {
        "info"@
    } else if verbosity == 1 {
        "debug"@
    } else {
        "trace"@
    };
    "warn,repolith="@ + level + ",repolith_engine="@ + level + ",repolith_cache="@ + level
        + ",repolith_actions="@ + level
}

/// The log filter for a verbosity.
pub fn log_filter(verbosity: u8) -> (r: String)
    ensures
        r@ == log_filter_text(verbosity),
{
    let level = if verbosity == 0 {
        "info"
    } else if verbosity == 1 {
        "debug"
    } else {
        "trace"
    };
    let mut s = "warn,repolith=".to_owned();
    s.append(level);
    s.append(",repolith_engine=");
    s.append(level);
    s.append(",repolith_cache=");
    s.append(level);
    s.append(",repolith_actions=");
    s.append(level);
    s
}

/// The ids that contain a text, in the given order.
pub open spec fn matching_ids(ids: Seq<Seq<char>>, filter: Seq<char>) -> Seq<Seq<char>> {
    ids.filter(|id: Seq<char>| text::occurs_in(id, filter))
}

/// The ids that contain `filter`, in the given order. Every id contains the
/// empty text.
pub fn matching(ids: &Vec<ActionId>, filter: &str) -> (r: Vec<ActionId>)
    ensures
        types::id_views(r@) == matching_ids(types::id_views(ids@), filter@),
{
    let ghost iv = types::id_views(ids@);
    let ghost p = |id: Seq<char>| text::occurs_in(id, filter@);
    let mut r: Vec<ActionId> = Vec::new();
    proof {
        reveal(Seq::filter);
        assert(types::id_views(r@) =~= iv.take(0).filter(p));
    }
    let mut i: usize = 0;
    while i < ids.len()
        invariant
            i <= ids.len(),
            iv == types::id_views(ids@),
            p == (|id: Seq<char>| text::occurs_in(id, filter@)),
            types::id_views(r@) == iv.take(i as int).filter(p),
        decreases ids.len() - i,
    {
        let ghost before = types::id_views(r@);
        proof {
            reveal(Seq::filter);
            assert(iv.take(i + 1).drop_last() =~= iv.take(i as int));
            assert(iv.take(i + 1).last() == ids@[i as int]@);
        }
        if text::contains_text(&ids[i].0, filter) {
            r.push(ids[i].clone());
            assert(types::id_views(r@) =~= before.push(ids@[i as int]@));
        }
        i = i + 1;
    }
    assert(iv.take(iv.len() as int) =~= iv);
    r
}

/// The message for a filter that names nothing.
pub open spec fn no_match_text(filter: Seq<char>) -> Seq<char> {
    "no action id contains `"@ + filter
        + "` — run `repolith status` with no argument to list them"@
}

/// The message for a filter that names nothing.
pub fn no_match(filter: &str) -> (r: String)
    ensures
        r@ == no_match_text(filter@),
{
    let mut s = "no action id contains `".to_owned();
    s.append(filter);
    s.append("` — run `repolith status` with no argument to list them");
    s
}

/// What a selection holds.
pub open spec fn selection(r: Result<Vec<ActionId>, String>) -> Result<Seq<Seq<char>>, Seq<char>> {
    match r {
        Ok(ids) => Ok(types::id_views(ids@)),
        Err(e) => Err(e@),
    }
}

/// The actions that a status query is about. One that names none is refused:
/// otherwise a typing error would look like an action in good order.
pub fn select(ids: &Vec<ActionId>, filter: &str) -> (r: Result<Vec<ActionId>, String>)
    ensures
        selection(r) == ({
            let found = matching_ids(types::id_views(ids@), filter@);
            if found.len() == 0 {
                Err::<Seq<Seq<char>>, Seq<char>>(no_match_text(filter@))
            } else {
                Ok::<Seq<Seq<char>>, Seq<char>>(found)
            }
        }),
{
    let found = matching(ids, filter);
    assert(types::id_views(found@).len() == found@.len());
    if found.len() == 0 {
        Err(no_match(filter))
    } else {
        Ok(found)
    }
}

/// The actions that a sync is to force: none where it was not asked to, all for
/// the empty filter, else those that the filter names. A filter that names none
/// is refused, except that the empty filter may find nothing to do.
pub fn resolve_forced(ids: &Vec<ActionId>, filter: &Option<String>) -> (r: Result<
    Vec<ActionId>,
    String,
>)
    ensures
        selection(r) == (match *filter {
            None => Ok::<Seq<Seq<char>>, Seq<char>>(Seq::empty()),
            Some(f) => {
                let found = matching_ids(types::id_views(ids@), f@);
                if found.len() == 0 && f@.len() > 0 {
                    Err::<Seq<Seq<char>>, Seq<char>>(no_match_text(f@))
                } else {
                    Ok::<Seq<Seq<char>>, Seq<char>>(found)
                }
            },
        }),
        filter matches Some(f) ==> (f@.len() == 0 ==> selection(r) == Ok::<
            Seq<Seq<char>>,
            Seq<char>,
        >(types::id_views(ids@))),
{
    match filter {
        None => {
            let none: Vec<ActionId> = Vec::new();
            assert(types::id_views(none@) =~= Seq::<Seq<char>>::empty());
            Ok(none)
        },
        Some(f) => {
            let found = matching(ids, f);
            assert(types::id_views(found@).len() == found@.len());
            proof {
                if f@.len() == 0 {
                    assert(f@ =~= Seq::<char>::empty());
                    empty_filter_names_all(types::id_views(ids@));
                }
            }
            if found.len() == 0 && !f.as_str().is_empty() {
                Err(no_match(f))
            } else {
                Ok(found)
            }
        },
    }
}

/// The empty filter names every action.
pub proof fn empty_filter_names_all(ids: Seq<Seq<char>>)
    ensures
        matching_ids(ids, Seq::empty()) == ids,
    decreases ids.len(),
{
    reveal(Seq::filter);
    if ids.len() > 0 {
        empty_filter_names_all(ids.drop_last());
        let id = ids.last();
        assert(id.skip(0).take(0) =~= Seq::<char>::empty());
        assert(text::begins_with(id.skip(0), Seq::empty()));
        assert(text::occurs_in(id, Seq::empty()));
        assert(ids =~= ids.drop_last().push(id));
    } else {
        assert(matching_ids(ids, Seq::empty()) =~= ids);
    }
}

/// The line that explains why an action is stale: the reason in words, then its
/// name.
pub open spec fn reason_line(id: Seq<char>, reasons: Map<Seq<char>, ChangeReasonView>) -> Seq<char> {
    "• "@ + id + ": "@ + plan::reason_text(reasons[id]) + " ["@ + plan::reason_name(reasons[id])
        + "]"@
}

/// A line for each of the given stale actions.
pub open spec fn reason_lines(
    ids: Seq<Seq<char>>,
    reasons: Map<Seq<char>, ChangeReasonView>,
) -> Seq<Seq<char>> {
    ids.map_values(|id: Seq<char>| reason_line(id, reasons))
}

/// What a sync says before it runs, with the stale actions in the given order.
pub open spec fn preview_lines(
    ids: Seq<Seq<char>>,
    reasons: Map<Seq<char>, ChangeReasonView>,
    explain: bool,
    dry_run: bool,
) -> Seq<Seq<char>> {
    (if ids.len() == 0 {
        seq![
            if explain || dry_run {
                "up to date — no stale actions"@
            } else {
                "up to date — 0 stale actions"@
            },
        ]
    } else if explain || dry_run {
        reason_lines(ids, reasons)
    } else {
        Seq::empty()
    }) + (if dry_run {
        seq!["dry-run: "@ + text::dec_text(ids.len()) + " action(s) would run"@]
    } else {
        Seq::empty()
    })
}

/// What a sync says before it runs: that nothing is stale, or why each stale
/// action is, if it was asked to; and how many would run, in a dry run.
pub fn preview(plan: &Plan, explain: bool, dry_run: bool) -> (r: Vec<String>)
    ensures
        exists|ids: Seq<Seq<char>>| #[trigger]
            ids.no_duplicates() && ids.to_set() == plan@.reasons.dom() && order::text_views(r@)
                == preview_lines(ids, plan@.reasons, explain, dry_run),
{
    let ids = plan.stale();
    let reasons = plan.reasons();
    let ghost iv = types::id_views(ids@);
    let ghost rv = plan@.reasons;
    assert(iv.len() == ids@.len());
    let mut r: Vec<String> = Vec::new();
    if ids.len() == 0 {
        let line = if explain || dry_run {
            "up to date — no stale actions"
        } else {
            "up to date — 0 stale actions"
        };
        r.push(line.to_owned());
        assert(order::text_views(r@) =~= seq![line@]);
    } else if explain || dry_run {
        let mut i: usize = 0;
        assert(order::text_views(r@) =~= reason_lines(iv.take(0), rv));
        while i < ids.len()
            invariant
                i <= ids.len(),
                iv == types::id_views(ids@),
                iv.to_set() == rv.dom(),
                reasons.wf(),
                plan::reason_views(reasons@) == rv,
                order::text_views(r@) == reason_lines(iv.take(i as int), rv),
            decreases ids.len() - i,
        {
            let ghost before = order::text_views(r@);
            let ghost id = ids@[i as int]@;
            proof {
                assert(iv[i as int] == id);
                assert(iv.contains(id));
                assert(rv.dom().contains(id));
            }
            let mut s = "• ".to_owned();
            s.append(&ids[i].0);
            s.append(": ");
            match reasons.get(&ids[i]) {
                Some(reason) => {
                    s.append(&reason.to_string());
                    s.append(" [");
                    s.append(reason.name());
                    s.append("]");
                },
                None => {},
            }
            let ghost line = s@;
            r.push(s);
            proof {
                assert(line == reason_line(id, rv));
                assert(order::text_views(r@) =~= before.push(line));
                assert(iv.take(i + 1) =~= iv.take(i as int).push(id));
                assert(reason_lines(iv.take(i + 1), rv) =~= before.push(line));
            }
            i = i + 1;
        }
        assert(iv.take(iv.len() as int) =~= iv);
    } else {
        assert(order::text_views(r@) =~= Seq::<Seq<char>>::empty());
    }
    let ghost head = order::text_views(r@);
    if dry_run {
        let mut s = "dry-run: ".to_owned();
        s.append(&text::dec(ids.len() as u64));
        s.append(" action(s) would run");
        let ghost line = s@;
        r.push(s);
        assert(order::text_views(r@) =~= head + seq![line]);
    } else {
        assert(head =~= head + Seq::<Seq<char>>::empty());
    }
    assert(order::text_views(r@) =~= preview_lines(iv, rv, explain, dry_run));
    r
}

} // verus!
