//! What a sync prints while it works, and the bookkeeping behind it.
//!
//! [`CliProgress`] follows the action lifecycle and hands back the lines to
//! print; writing them is left to the caller, who has to be the only one that
//! writes to standard output during a sync.

use crate::human;
use crate::idmap;
use crate::idmap::IdMap;
use crate::order;
use crate::order::Ranked;
use crate::text;
use crate::types;
use crate::types::{ActionId, BuildError, BuildErrorView, BuildEvent, BuildEventView};
use vstd::prelude::*;

verus! {

/// How often the heartbeat reports what is still running, in seconds.
pub const TICK_SECS: u64 = 30;

/// How many characters of an error a line shows.
pub const BRIEF_WIDTH: usize = 72;

/// An error on one short line.
pub open spec fn brief_text(e: BuildErrorView) -> Seq<char> {
    text::clipped(
        text::first_line_of(types::build_error_text(e)),
        BRIEF_WIDTH as int,
        "…"@,
    )
}

/// An error on one short line: its first line, cut where it is too long.
pub fn brief(err: &BuildError) -> (r: String)
    ensures
        r@ == brief_text(err@),
{
    let line = text::first_line(&err.to_string());
    text::clip(&line, BRIEF_WIDTH, "…")
}

/// An action that is running, and for how many milliseconds.
#[derive(Debug)]
pub struct Running {
    /// The action.
    pub id: ActionId,
    /// Milliseconds since it started.
    pub elapsed: u64,
}

impl Ranked for Running {
    open spec fn before(self, other: Self) -> bool {
        self.elapsed > other.elapsed
    }

    proof fn before_irreflexive(a: Self) {
    }

    proof fn before_transitive(a: Self, b: Self, c: Self) {
    }

    fn is_before(&self, other: &Self) -> (r: bool) {
        self.elapsed > other.elapsed
    }
}

/// Milliseconds from a start to now; none where the clock went back.
pub open spec fn elapsed_at(start: u64, now: u64) -> u64 {
    if now > start {
        (now - start) as u64
    } else {
        0
    }
}

/// The ids and ages of a list of running actions.
pub open spec fn running_views(s: Seq<Running>) -> Seq<(Seq<char>, u64)> {
    s.map_values(|r: Running| (r.id@, r.elapsed))
}

/// The ids of a list of running actions.
pub open spec fn running_ids(s: Seq<(Seq<char>, u64)>) -> Seq<Seq<char>> {
    s.map_values(|r: (Seq<char>, u64)| r.0)
}

/// `s` lists what is in flight, each action once with its age, the
/// longest-running first.
pub open spec fn running_order(
    in_flight: Map<Seq<char>, u64>,
    now: u64,
    s: Seq<(Seq<char>, u64)>,
) -> bool {
    &&& running_ids(s).no_duplicates()
    &&& running_ids(s).to_set() == in_flight.dom()
    &&& forall|i: int|
        0 <= i < s.len() ==> (#[trigger] s[i]).1 == elapsed_at(in_flight[s[i].0], now)
    &&& forall|i: int, j: int| 0 <= i < j < s.len() ==> (#[trigger] s[i]).1 >= (#[trigger] s[j]).1
}

/// The heartbeat line of a running action.
pub open spec fn tick_line(r: (Seq<char>, u64)) -> Seq<char> {
    "  … still running: "@ + r.0 + " ("@ + human::ms_text(r.1) + ")"@
}

/// The heartbeat lines of a list of running actions.
pub open spec fn tick_lines(s: Seq<(Seq<char>, u64)>) -> Seq<Seq<char>> {
    s.map_values(|r: (Seq<char>, u64)| tick_line(r))
}

/// How many events are successes.
pub open spec fn ok_count(events: Seq<BuildEventView>) -> nat
    decreases events.len(),
{
    if events.len() == 0 {
        0
    } else {
        ok_count(events.drop_last()) + if events.last() is Success {
            1nat
        } else {
            0nat
        }
    }
}

/// A line for each failure.
pub open spec fn failure_lines(events: Seq<BuildEventView>) -> Seq<Seq<char>>
    decreases events.len(),
{
    if events.len() == 0 {
        Seq::empty()
    } else {
        match events.last() {
            BuildEventView::Failed { id, error, .. } => failure_lines(events.drop_last()).push(
                "  ✗ "@ + id + ": "@ + brief_text(error),
            ),
            BuildEventView::Success { .. } => failure_lines(events.drop_last()),
        }
    }
}

/// The summary of a run: how many actions succeeded and failed, and every
/// failure again; nothing where nothing ran.
pub open spec fn summary_lines(events: Seq<BuildEventView>) -> Seq<Seq<char>> {
    if events.len() == 0 {
        Seq::empty()
    } else {
        seq![
            text::dec_text(ok_count(events)) + " ok, "@ + text::dec_text(
                (events.len() - ok_count(events)) as nat,
            ) + " failed"@,
        ] + failure_lines(events)
    }
}

/// The line of an action that never reported an end.
pub open spec fn vanished_line(id: Seq<char>) -> Seq<char> {
    "  ⚠ "@ + id + " — vanished without reporting"@
}

/// The lines of actions that never reported an end.
pub open spec fn vanished_lines(ids: Seq<Seq<char>>) -> Seq<Seq<char>> {
    ids.map_values(|id: Seq<char>| vanished_line(id))
}

/// The line that announces a layer.
pub open spec fn layer_line(index: nat, total: nat, n: nat) -> Seq<char> {
    "layer "@ + text::dec_text(index) + "/"@ + text::dec_text(total) + " — "@ + text::dec_text(n)
        + (if n == 1 {
        " action"@
    } else {
        " actions"@
    })
}

/// Renders the action lifecycle, and knows what is in flight.
#[derive(Debug)]
pub struct CliProgress {
    in_flight: IdMap<u64>,
}

impl View for CliProgress {
    type V = Map<Seq<char>, u64>;

    closed spec fn view(&self) -> Map<Seq<char>, u64> {
        self.in_flight@
    }
}

impl CliProgress {
    /// The bookkeeping is in order.
    pub closed spec fn wf(&self) -> bool {
        self.in_flight.wf()
    }

    /// Nothing in flight.
    pub fn new() -> (r: Self)
        ensures
            r.wf(),
            r@ == Map::<Seq<char>, u64>::empty(),
    {
        CliProgress { in_flight: IdMap::new() }
    }

    /// A layer is about to run. Returns its line.
    pub fn on_layer_start(&self, index: usize, total: usize, ids: &[ActionId]) -> (r: String)
        ensures
            r@ == layer_line(index as nat, total as nat, ids@.len()),
    {
        let n: usize = ids.len();
        let mut s = "layer ".to_owned();
        s.append(&text::dec(index as u64));
        s.append("/");
        s.append(&text::dec(total as u64));
        s.append(" — ");
        s.append(&text::dec(n as u64));
        if n == 1 {
            s.append(" action");
        } else {
            s.append(" actions");
        }
        s
    }

    /// An action starts at `now`, in milliseconds. Returns its line.
    pub fn on_action_start(&mut self, id: &ActionId, now: u64) -> (r: String)
        requires
            old(self).wf(),
        ensures
            final(self).wf(),
            final(self)@ == old(self)@.insert(id@, now),
            r@ == "  → "@ + id@,
    {
        self.in_flight.insert(id.clone(), now);
        let mut s = "  → ".to_owned();
        s.append(&id.0);
        s
    }

    /// An action succeeded. Returns its line.
    pub fn on_action_ok(&mut self, id: &ActionId, ms: u64) -> (r: String)
        requires
            old(self).wf(),
        ensures
            final(self).wf(),
            final(self)@ == old(self)@.remove(id@),
            r@ == "OK   "@ + id@ + " ("@ + human::ms_text(ms) + ")"@,
    {
        self.in_flight.remove(id);
        let mut s = "OK   ".to_owned();
        s.append(&id.0);
        s.append(" (");
        s.append(&human::human_ms(ms));
        s.append(")");
        s
    }

    /// An action failed. Returns its line.
    pub fn on_action_failed(&mut self, id: &ActionId, err: &BuildError, ms: u64) -> (r: String)
        requires
            old(self).wf(),
        ensures
            final(self).wf(),
            final(self)@ == old(self)@.remove(id@),
            r@ == "FAIL "@ + id@ + " ("@ + human::ms_text(ms) + ") — "@ + brief_text(err@),
    {
        self.in_flight.remove(id);
        let mut s = "FAIL ".to_owned();
        s.append(&id.0);
        s.append(" (");
        s.append(&human::human_ms(ms));
        s.append(") — ");
        s.append(&brief(err));
        s
    }

    /// An action was cancelled. Returns its line.
    pub fn on_action_cancelled(&mut self, id: &ActionId, ms: u64) -> (r: String)
        requires
            old(self).wf(),
        ensures
            final(self).wf(),
            final(self)@ == old(self)@.remove(id@),
            r@ == "  ⊘ "@ + id@ + "   "@ + human::ms_text(ms) + " — cancelled"@,
    {
        self.in_flight.remove(id);
        let mut s = "  ⊘ ".to_owned();
        s.append(&id.0);
        s.append("   ");
        s.append(&human::human_ms(ms));
        s.append(" — cancelled");
        s
    }

    /// A layer is over: nothing is in flight any more. Returns a line for each
    /// action that started in it and never reported an end.
    pub fn on_layer_end(&mut self) -> (r: Vec<String>)
        requires
            old(self).wf(),
        ensures
            final(self).wf(),
            final(self)@ == Map::<Seq<char>, u64>::empty(),
            exists|ids: Seq<Seq<char>>| #[trigger]
                ids.no_duplicates() && ids.to_set() == old(self)@.dom() && order::text_views(r@)
                    == vanished_lines(ids),
    {
        let ids = self.in_flight.keys();
        let ghost iv = types::id_views(ids@);
        self.in_flight = IdMap::new();
        let mut r: Vec<String> = Vec::new();
        let mut i: usize = 0;
        while i < ids.len()
            invariant
                i <= ids.len(),
                iv == types::id_views(ids@),
                order::text_views(r@) == vanished_lines(iv.take(i as int)),
            decreases ids.len() - i,
        {
            let ghost before = order::text_views(r@);
            let mut s = "  ⚠ ".to_owned();
            s.append(&ids[i].0);
            s.append(" — vanished without reporting");
            let ghost line = s@;
            r.push(s);
            proof {
                assert(order::text_views(r@) =~= before.push(line));
                assert(iv.take(i + 1) =~= iv.take(i as int).push(ids@[i as int]@));
                assert(vanished_lines(iv.take(i + 1)) =~= before.push(line));
            }
            i = i + 1;
        }
        assert(iv.take(iv.len() as int) =~= iv);
        r
    }

    /// What is running at `now`, the longest-running first: on a slow layer that
    /// is the action the reader is waiting for.
    pub fn snapshot(&self, now: u64) -> (r: Vec<Running>)
        requires
            self.wf(),
        ensures
            running_order(self@, now, running_views(r@)),
    {
        let entries = self.in_flight.entries();
        let ghost ev = entries@;
        proof {
            self.in_flight.lemma_listed();
        }
        let mut v: Vec<Running> = Vec::new();
        let mut i: usize = 0;
        while i < entries.len()
            invariant
                i <= entries.len(),
                ev == entries@,
                v.len() == i,
                forall|k: int|
                    0 <= k < i ==> (#[trigger] v@[k]).id@ == ev[k].0@ && v@[k].elapsed
                        == elapsed_at(ev[k].1, now),
            decreases entries.len() - i,
        {
            v.push(
                Running { id: entries[i].0.clone(), elapsed: now.saturating_sub(entries[i].1) },
            );
            i = i + 1;
        }
        let perm = order::sort_positions(&v);
        let ghost pv = order::as_ints(perm@);
        let ghost sorted = order::arranged(v@, pv);
        let mut r: Vec<Running> = Vec::new();
        let mut j: usize = 0;
        while j < perm.len()
            invariant
                j <= perm.len(),
                pv == order::as_ints(perm@),
                order::arranges(pv, v@.len() as int),
                sorted == order::arranged(v@, pv),
                r.len() == j,
                forall|k: int|
                    0 <= k < j ==> (#[trigger] r@[k]).id@ == sorted[k].id@ && r@[k].elapsed
                        == sorted[k].elapsed,
            decreases perm.len() - j,
        {
            assert(pv[j as int] == perm@[j as int]);
            let x = &v[perm[j]];
            assert(sorted[j as int] == *x);
            r.push(Running { id: x.id.clone(), elapsed: x.elapsed });
            j = j + 1;
        }
        proof {
            self.snapshot_proof(now, v@, pv, r@);
        }
        r
    }

    proof fn snapshot_proof(&self, now: u64, v: Seq<Running>, pv: Seq<int>, r: Seq<Running>)
        requires
            self.wf(),
            v.len() == self.in_flight.listed().len(),
            forall|k: int|
                0 <= k < v.len() ==> (#[trigger] v[k]).id@ == self.in_flight.listed()[k].0@
                    && v[k].elapsed == elapsed_at(self.in_flight.listed()[k].1, now),
            order::arranges(pv, v.len() as int),
            order::ranked(order::arranged(v, pv)),
            r.len() == pv.len(),
            forall|k: int|
                0 <= k < r.len() ==> (#[trigger] r[k]).id@ == order::arranged(v, pv)[k].id@
                    && r[k].elapsed == order::arranged(v, pv)[k].elapsed,
        ensures
            running_order(self@, now, running_views(r)),
    {
        let ev = self.in_flight.listed();
        let s = running_views(r);
        let ids = running_ids(s);
        let sorted = order::arranged(v, pv);
        self.in_flight.lemma_listed();
        assert forall|k: int| 0 <= k < r.len() implies ids[k] == ev[#[trigger] pv[k]].0@ by {
            assert(sorted[k] == v[pv[k]]);
            assert(r[k].id@ == sorted[k].id@);
        }
        assert forall|a: int, b: int| 0 <= a < ids.len() && 0 <= b < ids.len() && a != b implies ids[a]
            != ids[b] by {
            assert(pv[a] != pv[b]);
            assert(ids[a] == ev[pv[a]].0@);
            assert(ids[b] == ev[pv[b]].0@);
        }
        order::all_positions(pv, v.len() as int);
        assert forall|id: Seq<char>| ids.to_set().contains(id) <==> self@.dom().contains(id) by {
            idmap::entry_map_keys(ev, id);
            if ids.contains(id) {
                let k = choose|k: int| 0 <= k < ids.len() && ids[k] == id;
                assert(ev[pv[k]].0@ == id);
            }
            if self@.dom().contains(id) {
                let m = choose|m: int| 0 <= m < ev.len() && (#[trigger] ev[m]).0@ == id;
                assert(pv.contains(m));
                let k = choose|k: int| 0 <= k < pv.len() && pv[k] == m;
                assert(ids[k] == id);
            }
        }
        assert(ids.to_set() =~= self@.dom());
        assert forall|i: int| 0 <= i < s.len() implies (#[trigger] s[i]).1 == elapsed_at(
            self@[s[i].0],
            now,
        ) by {
            idmap::entry_map_value(ev, pv[i]);
            assert(sorted[i] == v[pv[i]]);
            assert(r[i].id@ == sorted[i].id@);
            assert(ids[i] == ev[pv[i]].0@);
        }
        assert forall|i: int, j: int| 0 <= i < j < s.len() implies (#[trigger] s[i]).1 >= (
        #[trigger] s[j]).1 by {
            assert(!sorted[j].before(sorted[i]));
            assert(r[i].elapsed == sorted[i].elapsed);
            assert(r[j].elapsed == sorted[j].elapsed);
        }
    }

    /// One heartbeat at `now`: a line for each running action, none where
    /// nothing runs.
    pub fn tick(&self, now: u64) -> (r: Vec<String>)
        requires
            self.wf(),
        ensures
            exists|s: Seq<(Seq<char>, u64)>| #[trigger]
                running_order(self@, now, s) && order::text_views(r@) == tick_lines(s),
            self@ == Map::<Seq<char>, u64>::empty() ==> r@.len() == 0,
    {
        let running = self.snapshot(now);
        let ghost rv = running_views(running@);
        let mut r: Vec<String> = Vec::new();
        let mut i: usize = 0;
        while i < running.len()
            invariant
                i <= running.len(),
                rv == running_views(running@),
                order::text_views(r@) == tick_lines(rv.take(i as int)),
            decreases running.len() - i,
        {
            let ghost before = order::text_views(r@);
            let mut s = "  … still running: ".to_owned();
            s.append(&running[i].id.0);
            s.append(" (");
            s.append(&human::human_ms(running[i].elapsed));
            s.append(")");
            let ghost line = s@;
            r.push(s);
            proof {
                assert(order::text_views(r@) =~= before.push(line));
                assert(rv.take(i + 1) =~= rv.take(i as int).push(rv[i as int]));
                assert(tick_lines(rv.take(i + 1)) =~= before.push(line));
            }
            i = i + 1;
        }
        proof {
            assert(rv.take(rv.len() as int) =~= rv);
            assert(running_order(self@, now, rv));
            if self@ == Map::<Seq<char>, u64>::empty() && rv.len() > 0 {
                assert(running_ids(rv).contains(running_ids(rv)[0]));
                assert(running_ids(rv).to_set().contains(running_ids(rv)[0]));
                assert(false);
            }
            assert(r@.len() == order::text_views(r@).len());
        }
        r
    }

    /// The lines that close a run. Successes are counted and not listed again:
    /// each had its line when it happened.
    pub fn summary(&self, events: &[BuildEvent]) -> (r: Vec<String>)
        ensures
            order::text_views(r@) == summary_lines(types::event_views(events@)),
    {
        let ghost ev = types::event_views(events@);
        let mut ok: usize = 0;
        let mut lines: Vec<String> = Vec::new();
        assert(order::text_views(lines@) =~= failure_lines(ev.take(0)));
        let mut i: usize = 0;
        while i < events.len()
            invariant
                i <= events.len(),
                ev == types::event_views(events@),
                ok <= i,
                ok == ok_count(ev.take(i as int)),
                order::text_views(lines@) == failure_lines(ev.take(i as int)),
            decreases events.len() - i,
        {
            proof {
                assert(ev.take(i + 1).drop_last() =~= ev.take(i as int));
                assert(ev.take(i + 1).last() == events@[i as int]@);
            }
            let ghost before = order::text_views(lines@);
            match &events[i] {
                BuildEvent::Success { .. } => {
                    ok = ok + 1;
                },
                BuildEvent::Failed { id, error, .. } => {
                    let mut s = "  ✗ ".to_owned();
                    s.append(&id.0);
                    s.append(": ");
                    s.append(&brief(error));
                    let ghost line = s@;
                    lines.push(s);
                    assert(order::text_views(lines@) =~= before.push(line));
                },
            }
            i = i + 1;
        }
        assert(ev.take(ev.len() as int) =~= ev);
        let mut r: Vec<String> = Vec::new();
        if events.len() == 0 {
            assert(order::text_views(r@) =~= summary_lines(ev));
            return r;
        }
        let mut s = text::dec(ok as u64);
        s.append(" ok, ");
        s.append(&text::dec((events.len() - ok) as u64));
        s.append(" failed");
        let ghost head = s@;
        r.push(s);
        let ghost lv = order::text_views(lines@);
        r.append(&mut lines);
        assert(order::text_views(r@) =~= seq![head] + lv);
        r
    }
}

impl Default for CliProgress {
    fn default() -> (r: Self)
        ensures
            r.wf(),
            r@ == Map::<Seq<char>, u64>::empty(),
    {
        CliProgress::new()
    }
}

/// Every end that is reported leaves nothing behind: what started and ended is
/// no longer in flight, and everything else still is.
pub proof fn an_end_clears_its_start(in_flight: Map<Seq<char>, u64>, id: Seq<char>, now: u64)
    requires
        !in_flight.contains_key(id),
    ensures
        in_flight.insert(id, now).remove(id) == in_flight,
{
    assert(in_flight.insert(id, now).remove(id) =~= in_flight);
}

} // verus!
