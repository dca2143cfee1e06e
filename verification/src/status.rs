//! What `repolith status` prints: a table of all actions, or a block of facts
//! about those that a filter names.

use crate::digest;
use crate::human;
use crate::manifest;
use crate::manifest::{ActionEntry, ActionEntryView, Manifest, ManifestView, NodeEntry, NodeView};
use crate::order;
use crate::plan;
use crate::plan::{ChangeReasonView, Plan, PlanView};
use crate::rows;
use crate::text;
use crate::types;
use crate::types::{ActionId, BuildEvent, BuildEventView, BuildRecord, Sha256};
use vstd::prelude::*;

verus! {

/// What the `comfy_table` crate draws for a header and rows of plain text.
pub uninterp spec fn table_text(header: Seq<Seq<char>>, rows: Seq<Seq<Seq<char>>>) -> Seq<char>;

/// The views of a list of rows.
pub open spec fn row_views(rows: Seq<Vec<String>>) -> Seq<Seq<Seq<char>>> {
    rows.map_values(|r: Vec<String>| order::text_views(r@))
}

/// Calls `comfy_table::Table::set_header`, `add_rows` and `to_string` on a table
/// in the crate's default style.
///
/// Claims only that the drawing depends on the texts alone: cells without colors
/// are not styled, and without dynamic arrangement the width of the terminal
/// does not matter. How it looks has a name, [`table_text`], and no further
/// statement.
#[verifier::external_body]
fn draw_table(header: &Vec<String>, rows: &Vec<Vec<String>>) -> (r: String)
    ensures
        r@ == table_text(order::text_views(header@), row_views(rows@)),
{
    let mut table = comfy_table::Table::new();
    table.set_header(header.clone());
    table.add_rows(rows.clone());
    table.to_string()
}

/// The row of an action: its id, and whether and why it is stale.
pub open spec fn status_row(id: Seq<char>, reasons: Map<Seq<char>, ChangeReasonView>) -> Seq<
    Seq<char>,
> {
    if reasons.contains_key(id) {
        seq![id, "stale"@, plan::reason_text(reasons[id])]
    } else {
        seq![id, "up-to-date"@, "—"@]
    }
}

/// The rows of a plan, in the order in which its actions would run.
pub open spec fn status_rows_of(p: PlanView) -> Seq<Seq<Seq<char>>> {
    plan::flattened(p.layers).map_values(|id: Seq<char>| status_row(id, p.reasons))
}

/// The header of the status table.
pub open spec fn status_header() -> Seq<Seq<char>> {
    seq!["Action"@, "Status"@, "Reason"@]
}

/// The rows of the status table, in the order in which the actions would run.
pub fn status_rows(p: &Plan) -> (r: Vec<Vec<String>>)
    ensures
        row_views(r@) == status_rows_of(p@),
{
    let ids = p.flat_topo();
    let reasons = p.reasons();
    let ghost iv = types::id_views(ids@);
    let ghost rv = p@.reasons;
    let ghost all = status_rows_of(p@);
    let mut r: Vec<Vec<String>> = Vec::new();
    let mut i: usize = 0;
    while i < ids.len()
        invariant
            i <= ids.len(),
            iv == types::id_views(ids@),
            iv == plan::flattened(p@.layers),
            rv == p@.reasons,
            all == status_rows_of(p@),
            reasons.wf(),
            plan::reason_views(reasons@) == rv,
            row_views(r@) == all.take(i as int),
        decreases ids.len() - i,
    {
        let ghost before = row_views(r@);
        let ghost id = ids@[i as int]@;
        let mut row: Vec<String> = Vec::new();
        row.push(ids[i].0.clone());
        match reasons.get(&ids[i]) {
            Some(reason) => {
                row.push("stale".to_owned());
                row.push(reason.to_string());
            },
            None => {
                row.push("up-to-date".to_owned());
                row.push("—".to_owned());
            },
        }
        assert(order::text_views(row@) =~= status_row(id, rv));
        r.push(row);
        proof {
            assert(iv[i as int] == id);
            assert(row_views(r@) =~= before.push(status_row(id, rv)));
            assert(all.take(i + 1) =~= all.take(i as int).push(all[i as int]));
        }
        i = i + 1;
    }
    assert(all.take(all.len() as int) =~= all);
    r
}

/// The status table of a plan.
pub fn status_table(p: &Plan) -> (r: String)
    ensures
        r@ == table_text(status_header(), status_rows_of(p@)),
{
    let mut header: Vec<String> = Vec::new();
    header.push("Action".to_owned());
    header.push("Status".to_owned());
    header.push("Reason".to_owned());
    assert(order::text_views(header@) =~= status_header());
    draw_table(&header, &status_rows(p))
}

/// Width of the label column: the longest label and a blank.
pub const LABEL_W: usize = 12;

/// A line of a field.
pub open spec fn field_line(label: Seq<char>, line: Seq<char>) -> Seq<char> {
    "  "@ + text::padded(label, LABEL_W as nat) + line
}

/// The lines of a field: the label and the first line of the value, and the
/// others below it in the column of the value.
pub open spec fn field_lines(label: Seq<char>, value: Seq<char>) -> Seq<Seq<char>> {
    let lines = text::lines_of(value);
    if lines.len() == 0 {
        seq![field_line(label, Seq::empty())]
    } else {
        Seq::new(
            lines.len(),
            |i: int|
                field_line(
                    if i == 0 {
                        label
                    } else {
                        Seq::empty()
                    },
                    lines[i],
                ),
        )
    }
}

fn field_text(label: &str, line: &str) -> (r: String)
    ensures
        r@ == field_line(label@, line@),
{
    let mut s = "  ".to_owned();
    s.append(&text::pad(label, LABEL_W));
    s.append(line);
    s
}

/// The lines of a field.
pub fn field(label: &str, value: &str) -> (r: Vec<String>)
    ensures
        order::text_views(r@) == field_lines(label@, value@),
{
    let lines = text::lines(value);
    let ghost lv = text::lines_of(value@);
    let ghost all = field_lines(label@, value@);
    let mut r: Vec<String> = Vec::new();
    let empty = String::new();
    if lines.len() == 0 {
        assert(lv.len() == 0);
        r.push(field_text(label, &empty));
        assert(order::text_views(r@) =~= all);
        return r;
    }
    assert(lv.len() == lines@.len());
    let mut i: usize = 0;
    while i < lines.len()
        invariant
            i <= lines.len(),
            lv == order::text_views(lines@),
            lv == text::lines_of(value@),
            lv.len() > 0,
            empty@ == Seq::<char>::empty(),
            all == field_lines(label@, value@),
            order::text_views(r@) == all.take(i as int),
        decreases lines.len() - i,
    {
        let ghost before = order::text_views(r@);
        assert(lv[i as int] == lines@[i as int]@);
        let line = if i == 0 {
            field_text(label, &lines[i])
        } else {
            field_text(&empty, &lines[i])
        };
        let ghost v = line@;
        r.push(line);
        proof {
            assert(v == all[i as int]);
            assert(order::text_views(r@) =~= before.push(v));
            assert(all.take(i + 1) =~= all.take(i as int).push(v));
        }
        i = i + 1;
    }
    assert(all.take(all.len() as int) =~= all);
    r
}

/// A value begins in the same column on every line of its field.
pub proof fn values_line_up(label: Seq<char>, line: Seq<char>)
    requires
        label.len() <= LABEL_W,
    ensures
        field_line(label, line).skip(2 + LABEL_W as int) == line,
{
    reveal_strlit("  ");
    assert(field_line(label, line).skip(2 + LABEL_W as int) =~= line);
}

/// Adds the lines of a field.
fn push_field(out: &mut Vec<String>, label: &str, value: &str)
    ensures
        order::text_views(final(out)@) == order::text_views(old(out)@) + field_lines(
            label@,
            value@,
        ),
{
    let mut lines = field(label, value);
    let ghost lv = order::text_views(lines@);
    out.append(&mut lines);
    assert(order::text_views(out@) =~= order::text_views(old(out)@) + lv);
}

/// Whether and why an action is stale.
pub open spec fn state_lines_of(
    id: Seq<char>,
    reasons: Map<Seq<char>, ChangeReasonView>,
) -> Seq<Seq<char>> {
    if reasons.contains_key(id) {
        field_lines("state"@, "stale"@) + field_lines("reason"@, plan::reason_text(reasons[id]))
    } else {
        field_lines("state"@, "up-to-date"@)
    }
}

/// How and when the last recorded run went. A record without a date says so; a
/// failure shows its whole error.
pub open spec fn last_run_of(record: Option<(BuildEventView, Option<u64>)>, now: u64) -> Seq<
    Seq<char>,
> {
    match record {
        None => field_lines("last run"@, "never — nothing cached for this id"@),
        Some(rec) => {
            let outcome = match rec.0 {
                BuildEventView::Success { .. } => "succeeded"@,
                BuildEventView::Failed { .. } => "failed"@,
            };
            let when = match rec.1 {
                Some(t) => human::age_text(now, t),
                None => "date not recorded by this cache"@,
            };
            field_lines("last run"@, outcome + " in "@ + human::ms_text(rec.0.ms()) + ", "@ + when)
                + match rec.0 {
                BuildEventView::Failed { error, .. } => field_lines(
                    "error"@,
                    types::build_error_text(error),
                ),
                BuildEventView::Success { .. } => Seq::empty(),
            }
        },
    }
}

/// How and when the last recorded run went, seen from `now`.
pub fn last_run_lines(record: &Option<BuildRecord>, now: u64) -> (r: Vec<String>)
    ensures
        order::text_views(r@) == last_run_of(rows::record_view(*record), now),
{
    let mut out: Vec<String> = Vec::new();
    assert(order::text_views(out@) =~= Seq::<Seq<char>>::empty());
    let rec = match record {
        None => {
            push_field(&mut out, "last run", "never — nothing cached for this id");
            assert(order::text_views(out@) =~= last_run_of(None, now));
            return out;
        },
        Some(r) => r,
    };
    let mut s = match &rec.event {
        BuildEvent::Success { .. } => "succeeded".to_owned(),
        BuildEvent::Failed { .. } => "failed".to_owned(),
    };
    let ms: u64 = match &rec.event {
        BuildEvent::Success { ms, .. } => *ms,
        BuildEvent::Failed { ms, .. } => *ms,
    };
    s.append(" in ");
    s.append(&human::human_ms(ms));
    s.append(", ");
    match rec.recorded_at {
        Some(t) => {
            s.append(&human::human_ago_at(now, t));
        },
        None => {
            s.append("date not recorded by this cache");
        },
    }
    push_field(&mut out, "last run", &s);
    match &rec.event {
        BuildEvent::Failed { error, .. } => {
            push_field(&mut out, "error", &error.to_string());
        },
        BuildEvent::Success { .. } => {},
    }
    assert(order::text_views(out@) =~= last_run_of(rows::record_view(*record), now));
    out
}

/// The input hashes of an action, as far as they are known.
pub open spec fn hash_lines_of(cached: Option<Seq<u8>>, current: Option<Seq<u8>>) -> Seq<
    Seq<char>,
> {
    match (cached, current) {
        (Some(c), Some(n)) => field_lines(
            "input"@,
            "cached   "@ + digest::hex_text(c) + "\ncurrent  "@ + digest::hex_text(n),
        ),
        (None, Some(n)) => field_lines("input"@, "current  "@ + digest::hex_text(n)),
        (Some(c), None) => field_lines("input"@, "cached   "@ + digest::hex_text(c)),
        (None, None) => Seq::empty(),
    }
}

/// The input hash that an event was recorded with.
pub open spec fn event_input(e: BuildEventView) -> Seq<u8> {
    match e {
        BuildEventView::Success { input, .. } => input,
        BuildEventView::Failed { input, .. } => input,
    }
}

/// The recorded input hash, if there is a record.
pub open spec fn cached_input(record: Option<(BuildEventView, Option<u64>)>) -> Option<Seq<u8>> {
    match record {
        Some(r) => Some(event_input(r.0)),
        None => None,
    }
}

/// The recorded and the current input hash of an action in full.
pub fn hash_lines(record: &Option<BuildRecord>, current: &Option<Sha256>) -> (r: Vec<String>)
    ensures
        order::text_views(r@) == hash_lines_of(
            cached_input(rows::record_view(*record)),
            crate::cargo_install::opt_hash(*current),
        ),
{
    let mut out: Vec<String> = Vec::new();
    assert(order::text_views(out@) =~= Seq::<Seq<char>>::empty());
    let cached = match record {
        Some(r) => match &r.event {
            BuildEvent::Success { input, .. } => Some(*input),
            BuildEvent::Failed { input, .. } => Some(*input),
        },
        None => None,
    };
    match (&cached, current) {
        (Some(c), Some(n)) => {
            let mut s = "cached   ".to_owned();
            s.append(&c.to_string());
            s.append("\ncurrent  ");
            s.append(&n.to_string());
            push_field(&mut out, "input", &s);
        },
        (None, Some(n)) => {
            let mut s = "current  ".to_owned();
            s.append(&n.to_string());
            push_field(&mut out, "input", &s);
        },
        (Some(c), None) => {
            let mut s = "cached   ".to_owned();
            s.append(&c.to_string());
            push_field(&mut out, "input", &s);
        },
        (None, None) => {},
    }
    assert(order::text_views(out@) =~= hash_lines_of(
        cached_input(rows::record_view(*record)),
        crate::cargo_install::opt_hash(*current),
    ));
    out
}

/// A dependency and its state.
pub open spec fn dep_text(id: Seq<char>, reasons: Map<Seq<char>, ChangeReasonView>) -> Seq<char> {
    id + (if reasons.contains_key(id) {
        " (stale)"@
    } else {
        " (up-to-date)"@
    })
}

/// Dependencies and their states.
pub open spec fn dep_texts(
    deps: Seq<Seq<char>>,
    reasons: Map<Seq<char>, ChangeReasonView>,
) -> Seq<Seq<char>> {
    deps.map_values(|d: Seq<char>| dep_text(d, reasons))
}

/// The dependencies of an action, and whether what it produces is there.
pub open spec fn action_lines_of(
    deps: Seq<Seq<char>>,
    present: bool,
    reasons: Map<Seq<char>, ChangeReasonView>,
) -> Seq<Seq<char>> {
    (if deps.len() == 0 {
        field_lines("deps"@, "none"@)
    } else {
        field_lines("deps"@, text::joined(dep_texts(deps, reasons), "\n"@))
    }) + field_lines(
        "artifact"@,
        if present {
            "present"@
        } else {
            "missing"@
        },
    )
}

/// The dependencies of an action with their states, and whether what it produces
/// is there: a cache that says "built" and an artifact that exists are two
/// different facts.
pub fn action_lines(deps: &Vec<ActionId>, present: bool, p: &Plan) -> (r: Vec<String>)
    ensures
        order::text_views(r@) == action_lines_of(types::id_views(deps@), present, p@.reasons),
{
    let reasons = p.reasons();
    let ghost dv = types::id_views(deps@);
    let ghost rv = p@.reasons;
    let ghost all = dep_texts(dv, rv);
    let mut texts: Vec<String> = Vec::new();
    let mut i: usize = 0;
    while i < deps.len()
        invariant
            i <= deps.len(),
            dv == types::id_views(deps@),
            all == dep_texts(dv, rv),
            reasons.wf(),
            plan::reason_views(reasons@) == rv,
            order::text_views(texts@) == all.take(i as int),
        decreases deps.len() - i,
    {
        let ghost before = order::text_views(texts@);
        let mut s = deps[i].0.clone();
        if reasons.contains_key(&deps[i]) {
            s.append(" (stale)");
        } else {
            s.append(" (up-to-date)");
        }
        let ghost line = s@;
        texts.push(s);
        proof {
            assert(dv[i as int] == deps@[i as int]@);
            assert(line == all[i as int]);
            assert(order::text_views(texts@) =~= before.push(line));
            assert(all.take(i + 1) =~= all.take(i as int).push(line));
        }
        i = i + 1;
    }
    assert(all.take(all.len() as int) =~= all);
    let mut out: Vec<String> = Vec::new();
    assert(order::text_views(out@) =~= Seq::<Seq<char>>::empty());
    assert(dv.len() == deps@.len());
    if deps.len() == 0 {
        push_field(&mut out, "deps", "none");
    } else {
        push_field(&mut out, "deps", &text::join(&texts, "\n"));
    }
    if present {
        push_field(&mut out, "artifact", "present");
    } else {
        push_field(&mut out, "artifact", "missing");
    }
    assert(order::text_views(out@) =~= action_lines_of(dv, present, rv));
    out
}

/// Position of the first action of a node, from `i` on, with this id.
pub open spec fn node_entry_from(node: NodeView, id: Seq<char>, i: int) -> Option<int>
    decreases node.actions.len() - i,
{
    if i < 0 || i >= node.actions.len() {
        None
    } else if manifest::action_id_text(node, i) == id {
        Some(i)
    } else {
        node_entry_from(node, id, i + 1)
    }
}

/// Node and position of the first action, from node `n` on, with this id.
pub open spec fn entry_from(nodes: Seq<NodeView>, id: Seq<char>, n: int) -> Option<(int, int)>
    decreases nodes.len() - n,
{
    if n < 0 || n >= nodes.len() {
        None
    } else {
        match node_entry_from(nodes[n], id, 0) {
            Some(i) => Some((n, i)),
            None => entry_from(nodes, id, n + 1),
        }
    }
}

fn find_in_node(node: &NodeEntry, id: &ActionId) -> (r: Option<usize>)
    ensures
        match r {
            Some(i) => i < node.actions@.len() && node_entry_from(node@, id@, 0) == Some(i as int),
            None => node_entry_from(node@, id@, 0) is None,
        },
{
    let mut i: usize = 0;
    while i < node.actions.len()
        invariant
            i <= node.actions.len(),
            node_entry_from(node@, id@, 0) == node_entry_from(node@, id@, i as int),
        decreases node.actions.len() - i,
    {
        if manifest::action_id(node, i).same(id) {
            return Some(i);
        }
        i = i + 1;
    }
    None
}

/// The node and the entry that an action came from.
pub fn manifest_entry<'m>(m: &'m Manifest, id: &ActionId) -> (r: Option<
    (&'m NodeEntry, &'m ActionEntry),
>)
    ensures
        match entry_from(m@.nodes, id@, 0) {
            Some(at) => r == Some(
                (&m.nodes@[at.0], &m.nodes@[at.0].actions@[at.1]),
            ),
            None => r is None,
        },
{
    let ghost nv = m@.nodes;
    let mut n: usize = 0;
    while n < m.nodes.len()
        invariant
            n <= m.nodes.len(),
            nv == m@.nodes,
            entry_from(nv, id@, 0) == entry_from(nv, id@, n as int),
        decreases m.nodes.len() - n,
    {
        assert(nv[n as int] == m.nodes@[n as int]@);
        match find_in_node(&m.nodes[n], id) {
            Some(i) => {
                return Some((&m.nodes[n], &m.nodes[n].actions[i]));
            },
            None => {},
        }
        n = n + 1;
    }
    None
}

proof fn node_entry_found(node: NodeView, id: Seq<char>, i: int, k: int)
    requires
        0 <= i <= k < node.actions.len(),
        manifest::action_id_text(node, k) == id,
        forall|j: int|
            0 <= j < node.actions.len() && j != k ==> #[trigger] manifest::action_id_text(node, j)
                != id,
    ensures
        node_entry_from(node, id, i) == Some(k),
    decreases k - i,
{
    if i < k {
        assert(manifest::action_id_text(node, i) != id);
        node_entry_found(node, id, i + 1, k);
    }
}

proof fn node_entry_absent(node: NodeView, id: Seq<char>, i: int)
    requires
        0 <= i <= node.actions.len(),
        forall|j: int|
            0 <= j < node.actions.len() ==> #[trigger] manifest::action_id_text(node, j) != id,
    ensures
        node_entry_from(node, id, i) is None,
    decreases node.actions.len() - i,
{
    if i < node.actions.len() {
        assert(manifest::action_id_text(node, i) != id);
        node_entry_absent(node, id, i + 1);
    }
}

proof fn entry_found(nodes: Seq<NodeView>, id: Seq<char>, from: int, n: int, k: int)
    requires
        0 <= from <= n < nodes.len(),
        0 <= k < nodes[n].actions.len(),
        manifest::action_id_text(nodes[n], k) == id,
        forall|a: int, j: int|
            0 <= a < nodes.len() && 0 <= j < nodes[a].actions.len() && (a != n || j != k)
                ==> #[trigger] manifest::action_id_text(nodes[a], j) != id,
    ensures
        entry_from(nodes, id, from) == Some((n, k)),
    decreases n - from,
{
    if from < n {
        node_entry_absent(nodes[from], id, 0);
        entry_found(nodes, id, from + 1, n, k);
    } else {
        node_entry_found(nodes[n], id, 0, k);
    }
}

/// In a valid manifest the id of every action leads back to its entry.
pub proof fn ids_lead_back(m: ManifestView, n: int, k: int)
    requires
        crate::checks::manifest_error(m) is None,
        0 <= n < m.nodes.len(),
        0 <= k < m.nodes[n].actions.len(),
    ensures
        entry_from(m.nodes, manifest::action_id_text(m.nodes[n], k), 0) == Some((n, k)),
{
    crate::manifest_laws::accepted_means_safe(m);
    let id = manifest::action_id_text(m.nodes[n], k);
    assert forall|a: int, j: int|
        0 <= a < m.nodes.len() && 0 <= j < m.nodes[a].actions.len() && (a != n || j
            != k) implies #[trigger] manifest::action_id_text(m.nodes[a], j) != id by {
        assert(crate::manifest_laws::safe_node(m.nodes[a]));
        assert(crate::manifest_laws::safe_node(m.nodes[n]));
        if manifest::action_id_text(m.nodes[a], j) == id {
            crate::manifest_laws::action_id_injective(m.nodes[a], j, m.nodes[n], k);
        }
    }
    entry_found(m.nodes, id, 0, n, k);
}

/// A field for an optional value.
pub open spec fn opt_field(label: Seq<char>, value: Option<Seq<char>>) -> Seq<Seq<char>> {
    match value {
        Some(v) => field_lines(label, v),
        None => Seq::empty(),
    }
}

/// What an entry declares: a field for each key that is set.
pub open spec fn entry_lines_of(entry: ActionEntryView) -> Seq<Seq<char>> {
    match entry {
        ActionEntryView::GitClone => Seq::empty(),
        ActionEntryView::CargoInstall { crate_name, package, features, profile, install_to } => {
            opt_field("bin"@, crate_name) + opt_field("package"@, package) + field_lines(
                "profile"@,
                match profile {
                    Some(p) => p,
                    None => "release (cargo default)"@,
                },
            ) + (if features.len() > 0 {
                field_lines("features"@, text::joined(features, ", "@))
            } else {
                Seq::empty()
            }) + opt_field("install to"@, install_to)
        },
        ActionEntryView::Docker { tag, dockerfile, context } => field_lines("tag"@, tag)
            + opt_field("dockerfile"@, dockerfile) + opt_field("context"@, context),
        ActionEntryView::Repolith { manifest } => field_lines(
            "manifest"@,
            match manifest {
                Some(m) => m,
                None => "repolith.toml"@,
            },
        ),
    }
}

fn push_opt(out: &mut Vec<String>, label: &str, value: &Option<String>)
    ensures
        order::text_views(final(out)@) == order::text_views(old(out)@) + opt_field(
            label@,
            manifest::opt_text(*value),
        ),
{
    match value {
        Some(v) => {
            push_field(out, label, v);
        },
        None => {
            assert(order::text_views(out@) + Seq::<Seq<char>>::empty() =~= order::text_views(out@));
        },
    }
}

/// What an entry declares.
fn entry_lines(entry: &ActionEntry) -> (r: Vec<String>)
    ensures
        order::text_views(r@) == entry_lines_of(entry@),
{
    let mut out: Vec<String> = Vec::new();
    let ghost none = order::text_views(out@);
    assert(none =~= Seq::<Seq<char>>::empty());
    match entry {
        ActionEntry::GitClone => {},
        ActionEntry::CargoInstall { crate_name, package, features, profile, install_to } => {
            push_opt(&mut out, "bin", crate_name);
            proof {
                let bin = opt_field("bin"@, manifest::opt_text(*crate_name));
                assert(none + bin =~= bin);
            }
            push_opt(&mut out, "package", package);
            match profile {
                Some(p) => {
                    push_field(&mut out, "profile", p);
                },
                None => {
                    push_field(&mut out, "profile", "release (cargo default)");
                },
            }
            let ghost before = order::text_views(out@);
            assert(order::text_views(features@).len() == features@.len());
            if features.len() > 0 {
                push_field(&mut out, "features", &text::join(features, ", "));
            } else {
                assert(before + Seq::<Seq<char>>::empty() =~= before);
            }
            push_opt(&mut out, "install to", install_to);
        },
        ActionEntry::Docker { tag, dockerfile, context } => {
            push_field(&mut out, "tag", tag);
            proof {
                let first = field_lines("tag"@, tag@);
                assert(none + first =~= first);
            }
            push_opt(&mut out, "dockerfile", dockerfile);
            push_opt(&mut out, "context", context);
        },
        ActionEntry::Repolith { manifest } => {
            match manifest {
                Some(m) => {
                    push_field(&mut out, "manifest", m);
                    proof {
                        let first = field_lines("manifest"@, m@);
                        assert(none + first =~= first);
                    }
                },
                None => {
                    push_field(&mut out, "manifest", "repolith.toml");
                    proof {
                        let first = field_lines("manifest"@, "repolith.toml"@);
                        assert(none + first =~= first);
                    }
                },
            }
        },
    }
    out
}

/// Where a node comes from: its path, else its URL.
pub open spec fn source_lines_of(node: NodeView) -> Seq<Seq<char>> {
    match node.path {
        Some(p) => field_lines("source"@, "path "@ + p),
        None => match node.git {
            Some(g) => field_lines("source"@, "git  "@ + g),
            None => Seq::empty(),
        },
    }
}

/// What the manifest declares of an action.
pub open spec fn declared_of(m: ManifestView, id: Seq<char>) -> Seq<Seq<char>> {
    match entry_from(m.nodes, id, 0) {
        None => Seq::empty(),
        Some(at) => source_lines_of(m.nodes[at.0]) + field_lines(
            "action"@,
            manifest::kind_text(m.nodes[at.0].actions[at.1]),
        ) + entry_lines_of(m.nodes[at.0].actions[at.1]),
    }
}

proof fn node_entry_bounds(node: NodeView, id: Seq<char>, i: int)
    ensures
        node_entry_from(node, id, i) matches Some(k) ==> 0 <= k < node.actions.len(),
    decreases node.actions.len() - i,
{
    if 0 <= i < node.actions.len() && manifest::action_id_text(node, i) != id {
        node_entry_bounds(node, id, i + 1);
    }
}

proof fn entry_bounds(nodes: Seq<NodeView>, id: Seq<char>, n: int)
    ensures
        entry_from(nodes, id, n) matches Some(at) ==> 0 <= at.0 < nodes.len() && 0 <= at.1
            < nodes[at.0].actions.len(),
    decreases nodes.len() - n,
{
    if 0 <= n < nodes.len() {
        node_entry_bounds(nodes[n], id, 0);
        if node_entry_from(nodes[n], id, 0) is None {
            entry_bounds(nodes, id, n + 1);
        }
    }
}

/// What the manifest declares of an action; nothing where it knows none of that id.
pub fn declared_lines(m: &Manifest, id: &ActionId) -> (r: Vec<String>)
    ensures
        order::text_views(r@) == declared_of(m@, id@),
{
    let mut out: Vec<String> = Vec::new();
    assert(order::text_views(out@) =~= Seq::<Seq<char>>::empty());
    proof {
        entry_bounds(m@.nodes, id@, 0);
    }
    match manifest_entry(m, id) {
        None => {},
        Some((node, entry)) => {
            let ghost at = entry_from(m@.nodes, id@, 0)->Some_0;
            proof {
                assert(m@.nodes[at.0] == node@);
                assert(m@.nodes[at.0].actions[at.1] == entry@);
            }
            match &node.path {
                Some(p) => {
                    let mut s = "path ".to_owned();
                    s.append(p);
                    push_field(&mut out, "source", &s);
                },
                None => match &node.git {
                    Some(g) => {
                        let mut s = "git  ".to_owned();
                        s.append(g);
                        push_field(&mut out, "source", &s);
                    },
                    None => {},
                },
            }
            assert(order::text_views(out@) =~= source_lines_of(node@));
            push_field(&mut out, "action", manifest::action_kind(entry));
            push_lines(&mut out, entry_lines(entry));
        },
    }
    assert(order::text_views(out@) =~= declared_of(m@, id@));
    out
}

/// What is known of an action beyond the plan.
#[derive(Debug)]
pub struct ActionFacts {
    /// The last recorded run.
    pub record: Option<BuildRecord>,
    /// The ids it depends on and whether what it produces is there, where the
    /// action is registered.
    pub registered: Option<(Vec<ActionId>, bool)>,
}

/// The dependencies of an action and whether what it produces is there.
pub open spec fn registered_view(r: Option<(Vec<ActionId>, bool)>) -> Option<
    (Seq<Seq<char>>, bool),
> {
    match r {
        Some(x) => Some((types::id_views(x.0@), x.1)),
        None => None,
    }
}

/// The detail block of an action.
pub open spec fn detail_of(
    p: PlanView,
    id: Seq<char>,
    record: Option<(BuildEventView, Option<u64>)>,
    registered: Option<(Seq<Seq<char>>, bool)>,
    m: Option<ManifestView>,
    now: u64,
) -> Seq<Seq<char>> {
    seq![id] + state_lines_of(id, p.reasons) + last_run_of(record, now) + hash_lines_of(
        cached_input(record),
        plan::lookup(p.hashes, id),
    ) + (match registered {
        Some(x) => action_lines_of(x.0, x.1, p.reasons),
        None => Seq::empty(),
    }) + (match m {
        Some(m) => declared_of(m, id),
        None => Seq::empty(),
    })
}

/// What an optional manifest holds.
pub open spec fn opt_manifest(m: Option<Manifest>) -> Option<ManifestView> {
    match m {
        Some(m) => Some(m@),
        None => None,
    }
}

/// The detail block of an action: everything that the table has no room for.
pub fn detail_block(
    p: &Plan,
    id: &ActionId,
    facts: &ActionFacts,
    m: &Option<Manifest>,
    now: u64,
) -> (r: Vec<String>)
    ensures
        order::text_views(r@) == detail_of(
            p@,
            id@,
            rows::record_view(facts.record),
            registered_view(facts.registered),
            opt_manifest(*m),
            now,
        ),
{
    let reasons = p.reasons();
    let mut out: Vec<String> = Vec::new();
    out.push(id.0.clone());
    assert(order::text_views(out@) =~= seq![id@]);
    match reasons.get(id) {
        Some(reason) => {
            push_field(&mut out, "state", "stale");
            push_field(&mut out, "reason", &reason.to_string());
        },
        None => {
            push_field(&mut out, "state", "up-to-date");
        },
    }
    assert(order::text_views(out@) =~= seq![id@] + state_lines_of(id@, p@.reasons));
    push_lines(&mut out, last_run_lines(&facts.record, now));
    push_lines(&mut out, hash_lines(&facts.record, &p.input_hash(id)));
    match &facts.registered {
        Some(x) => {
            push_lines(&mut out, action_lines(&x.0, x.1, p));
        },
        None => {},
    }
    match m {
        Some(m) => {
            push_lines(&mut out, declared_lines(m, id));
        },
        None => {},
    }
    assert(order::text_views(out@) =~= detail_of(
        p@,
        id@,
        rows::record_view(facts.record),
        registered_view(facts.registered),
        opt_manifest(*m),
        now,
    ));
    out
}

fn push_lines(out: &mut Vec<String>, lines: Vec<String>)
    ensures
        order::text_views(final(out)@) == order::text_views(old(out)@) + order::text_views(lines@),
{
    let ghost lv = order::text_views(lines@);
    let mut lines = lines;
    out.append(&mut lines);
    assert(order::text_views(out@) =~= order::text_views(old(out)@) + lv);
}

} // verus!
