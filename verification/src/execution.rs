//! Driving a plan to completion, as a sequence of decisions.
//!
//! The engine walks a plan layer by layer. It runs the stale actions of a layer
//! concurrently, records what became of them, and stops after the first layer
//! in which something failed. [`Execution`] takes these decisions: whoever
//! performs the work asks it for the next layer, reports every action that
//! ended, and commits the layer once its events are persisted.

use crate::cache;
use crate::cache::CacheError;
use crate::order;
use crate::plan;
use crate::plan::{Job, Plan, PlanError};
use crate::text;
use crate::types;
use crate::types::{
    ActionId, BuildError, BuildErrorView, BuildEvent, BuildEventView, BuildOutput, ExecMode, Sha256,
};
use vstd::prelude::*;

verus! {

/// Errors raised while executing a plan.
#[derive(Debug)]
pub enum ExecError {
    /// At least one action in a layer reported an error, or the run was
    /// cancelled. Carries every event recorded so far.
    LayerFailed {
        /// Every event recorded up to and including the failing layer.
        events: Vec<BuildEvent>,
    },
    /// Planning failed.
    Plan(PlanError),
    /// Persisting an event failed.
    Cache(CacheError),
}

/// The one-line rendering of an execution error.
pub open spec fn exec_error_text(e: ExecError) -> Seq<char> {
    match e {
        ExecError::LayerFailed { events } => "layer failed: "@ + text::dec_text(events@.len())
            + " event(s) recorded"@,
        ExecError::Plan(e) => plan::plan_error_text(e@),
        ExecError::Cache(e) => cache::cache_error_text(e@),
    }
}

impl ExecError {
    /// Renders the error.
    pub fn to_string(&self) -> (r: String)
        ensures
            r@ == exec_error_text(*self),
    {
        match self {
            ExecError::LayerFailed { events } => {
                let mut r = "layer failed: ".to_owned();
                r.append(&text::dec(events.len() as u64));
                r.append(" event(s) recorded");
                r
            },
            ExecError::Plan(e) => e.to_string(),
            ExecError::Cache(e) => e.to_string(),
        }
    }
}

/// Where an execution stands.
#[derive(Clone, Copy, PartialEq, Eq, Structural, Debug)]
pub enum Phase {
    /// Between two layers.
    Idle,
    /// A layer is running.
    Running,
    /// No further layer will start.
    Halted,
}

/// What is to be done next.
#[derive(Clone, Copy, PartialEq, Eq, Structural, Debug)]
pub enum Next {
    /// Run the stale actions of a layer.
    Run {
        /// The number of this layer among those that run, from 1.
        index: usize,
        /// How many layers have anything to run.
        total: usize,
    },
    /// Nothing in this layer is stale; ask again.
    Skip,
    /// The run is over and did not succeed.
    Stopped,
    /// Every layer is done.
    Finished,
}

/// How an action ended.
#[derive(Clone, Copy, PartialEq, Eq, Structural, Debug)]
pub enum Terminal {
    /// It succeeded.
    Succeeded,
    /// It failed on its own merits.
    Failed,
    /// It was stopped.
    Cancelled,
}

/// How the action of an event ended: a cancelled action did not fail, it was stopped.
pub open spec fn terminal(e: BuildEventView) -> Terminal {
    match e {
        BuildEventView::Success { .. } => Terminal::Succeeded,
        BuildEventView::Failed { error, .. } => if error is Cancelled {
            Terminal::Cancelled
        } else {
            Terminal::Failed
        },
    }
}

/// How the action of an event ended.
pub fn terminal_of(event: &BuildEvent) -> (r: Terminal)
    ensures
        r == terminal(event@),
{
    match event {
        BuildEvent::Success { .. } => Terminal::Succeeded,
        BuildEvent::Failed { error, .. } => match error {
            BuildError::Cancelled => Terminal::Cancelled,
            _ => Terminal::Failed,
        },
    }
}

/// What became of one action.
#[derive(Debug)]
pub struct Report {
    /// The event to record.
    pub event: BuildEvent,
    /// Whether the other actions of the layer are to be cancelled.
    pub cancel_peers: bool,
}

/// A stale action's id and input hash.
pub type JobView = (Seq<char>, Seq<u8>);

/// What an [`Execution`] holds.
#[verifier::ext_equal]
pub struct ExecutionView {
    /// What there is to run of every layer.
    pub jobs: Seq<Seq<JobView>>,
    /// How failures are handled.
    pub mode: ExecMode,
    /// Where the execution stands.
    pub phase: Phase,
    /// The positions of the jobs of the running layer that ended, in the order
    /// in which they did.
    pub ended: Seq<int>,
    /// Their events.
    pub current: Seq<BuildEventView>,
    /// The events of every layer that is done.
    pub settled: Seq<Seq<BuildEventView>>,
}

/// How many of the first `n` layers have anything to run.
pub open spec fn busy_layers(jobs: Seq<Seq<JobView>>, n: int) -> nat
    decreases n,
{
    if n <= 0 {
        0
    } else {
        busy_layers(jobs, n - 1) + if jobs[n - 1].len() > 0 {
            1nat
        } else {
            0nat
        }
    }
}

/// The events of all layers, one layer after the other.
pub open spec fn all_events(settled: Seq<Seq<BuildEventView>>) -> Seq<BuildEventView>
    decreases settled.len(),
{
    if settled.len() == 0 {
        Seq::empty()
    } else {
        all_events(settled.drop_last()) + settled.last()
    }
}

/// Some event is a failure.
pub open spec fn any_failed(events: Seq<BuildEventView>) -> bool {
    exists|k: int| 0 <= k < events.len() && #[trigger] events[k] is Failed
}

/// The event is about this job: its id and its input hash.
pub open spec fn about(e: BuildEventView, job: JobView) -> bool {
    e.id() == job.0 && match e {
        BuildEventView::Success { input, .. } => input == job.1,
        BuildEventView::Failed { input, .. } => input == job.1,
    }
}

/// Some event is about this job.
pub open spec fn answered(events: Seq<BuildEventView>, job: JobView) -> bool {
    exists|k: int| 0 <= k < events.len() && #[trigger] about(events[k], job)
}

/// The event is about one of these jobs.
pub open spec fn belongs(e: BuildEventView, layer: Seq<JobView>) -> bool {
    exists|j: int| 0 <= j < layer.len() && about(e, #[trigger] layer[j])
}

/// There are as many events as jobs, one about every job and none about
/// anything else.
pub open spec fn covers(layer: Seq<JobView>, events: Seq<BuildEventView>) -> bool {
    &&& events.len() == layer.len()
    &&& forall|j: int| 0 <= j < layer.len() ==> answered(events, #[trigger] layer[j])
    &&& forall|k: int| 0 <= k < events.len() ==> belongs(#[trigger] events[k], layer)
}

impl ExecutionView {
    /// The layer that runs or comes next.
    pub open spec fn layer(self) -> Seq<JobView> {
        self.jobs[self.settled.len() as int]
    }

    /// Every done layer is covered by its events and, unless it is the one the
    /// run halted on, without failures; the running layer's events are about
    /// the jobs that ended, each of which ended once.
    pub open spec fn valid(self) -> bool {
        &&& self.settled.len() <= self.jobs.len()
        &&& self.phase is Running ==> self.settled.len() < self.jobs.len() && self.layer().len() > 0
        &&& !(self.phase is Running) ==> self.ended.len() == 0
        &&& self.current.len() == self.ended.len()
        &&& self.ended.no_duplicates()
        &&& forall|k: int|
            0 <= k < self.ended.len() ==> 0 <= #[trigger] self.ended[k] < self.layer().len()
                && about(self.current[k], self.layer()[self.ended[k]])
        &&& forall|l: int|
            0 <= l < self.settled.len() ==> covers(self.jobs[l], #[trigger] self.settled[l])
        &&& forall|l: int|
            0 <= l < self.settled.len() && (!(self.phase is Halted) || l + 1
                < self.settled.len()) ==> !any_failed(#[trigger] self.settled[l])
    }

    /// Every job of the running layer ended.
    pub open spec fn layer_done(self) -> bool {
        self.phase is Running && self.ended.len() == self.layer().len()
    }

    /// The layer that runs or comes next is the `index`-th of `total` that run.
    pub open spec fn run_step(self) -> Next {
        Next::Run {
            index: (busy_layers(self.jobs, self.settled.len() as int) + 1) as usize,
            total: busy_layers(self.jobs, self.jobs.len() as int) as usize,
        }
    }

    /// What comes next.
    pub open spec fn step(self, cancelled: bool) -> Next {
        match self.phase {
            Phase::Halted => Next::Stopped,
            Phase::Running => self.run_step(),
            Phase::Idle => if self.settled.len() == self.jobs.len() {
                Next::Finished
            } else if cancelled {
                Next::Stopped
            } else if self.layer().len() == 0 {
                Next::Skip
            } else {
                self.run_step()
            },
        }
    }

    /// The execution once what comes next has been taken up. A cancelled run
    /// starts no layer, not even one with nothing to run.
    pub open spec fn after_step(self, cancelled: bool) -> ExecutionView {
        if self.phase is Idle && self.settled.len() < self.jobs.len() {
            if cancelled {
                ExecutionView { phase: Phase::Halted, ..self }
            } else if self.layer().len() == 0 {
                ExecutionView { settled: self.settled.push(Seq::empty()), ..self }
            } else {
                ExecutionView { phase: Phase::Running, ..self }
            }
        } else {
            self
        }
    }

    /// The execution once job `j` of the running layer ended with `event`.
    pub open spec fn after_end(self, j: int, event: BuildEventView) -> ExecutionView {
        ExecutionView {
            ended: self.ended.push(j),
            current: self.current.push(event),
            ..self
        }
    }

    /// The execution once the running layer's events are persisted: any failure
    /// keeps further layers from starting, whatever the mode.
    pub open spec fn after_commit(self) -> ExecutionView {
        ExecutionView {
            phase: if any_failed(self.current) {
                Phase::Halted
            } else {
                Phase::Idle
            },
            ended: Seq::empty(),
            current: Seq::empty(),
            settled: self.settled.push(self.current),
            ..self
        }
    }
}

/// The execution of a plan.
pub struct Execution {
    jobs: Vec<Vec<Job>>,
    mode: ExecMode,
    phase: Phase,
    next: usize,
    ended: Vec<usize>,
    current: Vec<BuildEvent>,
    events: Vec<BuildEvent>,
    settled: Ghost<Seq<Seq<BuildEventView>>>,
}

/// The positions as integers.
pub open spec fn positions(v: Seq<usize>) -> Seq<int> {
    v.map_values(|i: usize| i as int)
}

/// The whole number of milliseconds that fits in 64 bits.
pub open spec fn clamp_millis(ms: u128) -> u64 {
    if ms > u64::MAX {
        u64::MAX
    } else {
        ms as u64
    }
}

/// The event of a job that ended after `ms` milliseconds.
pub open spec fn event_of(
    job: JobView,
    ms: u128,
    outcome: Result<Seq<u8>, BuildErrorView>,
) -> BuildEventView {
    match outcome {
        Ok(output) => BuildEventView::Success {
            id: job.0,
            input: job.1,
            output,
            ms: clamp_millis(ms),
        },
        Err(error) => BuildEventView::Failed {
            id: job.0,
            input: job.1,
            error,
            ms: clamp_millis(ms),
        },
    }
}

/// What an action's outcome holds.
pub open spec fn outcome_view(o: Result<BuildOutput, BuildError>) -> Result<
    Seq<u8>,
    BuildErrorView,
> {
    match o {
        Ok(out) => Ok(out.output_hash@),
        Err(e) => Err(e@),
    }
}

/// The event of a job that ended after `ms` milliseconds.
pub fn make_event(
    id: &ActionId,
    input: Sha256,
    ms: u128,
    outcome: Result<BuildOutput, BuildError>,
) -> (r: BuildEvent)
    ensures
        r@ == event_of((id@, input@), ms, outcome_view(outcome)),
{
    let ms: u64 = if ms > 0xffff_ffff_ffff_ffff {
        u64::MAX
    } else {
        ms as u64
    };
    match outcome {
        Ok(out) => BuildEvent::Success { id: id.clone(), input, output: out.output_hash, ms },
        Err(error) => BuildEvent::Failed { id: id.clone(), input, error, ms },
    }
}

/// A layer whose jobs all ended is covered by its events.
proof fn done_layer_covered(v: ExecutionView)
    requires
        v.valid(),
        v.layer_done(),
    ensures
        covers(v.layer(), v.current),
{
    order::all_positions(v.ended, v.layer().len() as int);
    assert forall|j: int| 0 <= j < v.layer().len() implies answered(
        v.current,
        #[trigger] v.layer()[j],
    ) by {
        assert(v.ended.contains(j));
        let k = choose|k: int| 0 <= k < v.ended.len() && v.ended[k] == j;
        assert(about(v.current[k], v.layer()[j]));
    }
    assert forall|k: int| 0 <= k < v.current.len() implies belongs(
        #[trigger] v.current[k],
        v.layer(),
    ) by {
        assert(about(v.current[k], v.layer()[v.ended[k]]));
    }
}

/// How many of the first `n` layers have anything to run.
fn count_busy(jobs: &Vec<Vec<Job>>, n: usize) -> (r: usize)
    requires
        n <= jobs.len(),
    ensures
        r == busy_layers(plan::job_layers(jobs@), n as int),
        r <= n,
{
    let ghost jv = plan::job_layers(jobs@);
    let mut r: usize = 0;
    let mut i: usize = 0;
    while i < n
        invariant
            i <= n <= jobs.len(),
            jv == plan::job_layers(jobs@),
            r == busy_layers(jv, i as int),
            r <= i,
        decreases n - i,
    {
        assert(jv[i as int].len() == jobs@[i as int]@.len());
        if jobs[i].len() > 0 {
            r = r + 1;
        }
        i = i + 1;
    }
    r
}

/// Whether some event is a failure.
fn has_failure(events: &Vec<BuildEvent>) -> (r: bool)
    ensures
        r == any_failed(types::event_views(events@)),
{
    let ghost ev = types::event_views(events@);
    let mut i: usize = 0;
    while i < events.len()
        invariant
            i <= events.len(),
            ev == types::event_views(events@),
            forall|k: int| 0 <= k < i ==> !(#[trigger] ev[k] is Failed),
        decreases events.len() - i,
    {
        assert(ev[i as int] == events@[i as int]@);
        if events[i].is_failure() {
            assert(ev[i as int] is Failed);
            return true;
        }
        i = i + 1;
    }
    false
}

/// The same events again.
fn copy_events(events: &Vec<BuildEvent>) -> (r: Vec<BuildEvent>)
    ensures
        r@ == events@,
{
    let mut r: Vec<BuildEvent> = Vec::new();
    let mut i: usize = 0;
    while i < events.len()
        invariant
            i <= events.len(),
            r@ == events@.take(i as int),
        decreases events.len() - i,
    {
        r.push(events[i].clone());
        i = i + 1;
        assert(r@ =~= events@.take(i as int));
    }
    assert(events@.take(events@.len() as int) =~= events@);
    r
}

impl View for Execution {
    type V = ExecutionView;

    closed spec fn view(&self) -> ExecutionView {
        ExecutionView {
            jobs: plan::job_layers(self.jobs@),
            mode: self.mode,
            phase: self.phase,
            ended: positions(self.ended@),
            current: types::event_views(self.current@),
            settled: self.settled@,
        }
    }
}

impl Execution {
    /// The bookkeeping agrees with the layers that are done.
    pub closed spec fn wf(&self) -> bool {
        &&& self@.valid()
        &&& self.next == self.settled@.len()
        &&& types::event_views(self.events@) == all_events(self.settled@)
    }

    /// Prepares the execution of a plan; nothing has run yet.
    pub fn new(plan: &Plan, mode: ExecMode) -> (r: Self)
        ensures
            r.wf(),
            r@.valid(),
            r@ == (ExecutionView {
                jobs: plan::plan_jobs(plan@),
                mode,
                phase: Phase::Idle,
                ended: Seq::empty(),
                current: Seq::empty(),
                settled: Seq::empty(),
            }),
    {
        let ended: Vec<usize> = Vec::new();
        let current: Vec<BuildEvent> = Vec::new();
        let events: Vec<BuildEvent> = Vec::new();
        assert(positions(ended@) =~= Seq::<int>::empty());
        assert(types::event_views(current@) =~= Seq::<BuildEventView>::empty());
        Execution {
            jobs: plan.jobs(),
            mode,
            phase: Phase::Idle,
            next: 0,
            ended,
            current,
            events,
            settled: Ghost(Seq::empty()),
        }
    }

    /// Takes up what comes next. `cancelled` says whether the whole run has
    /// been cancelled.
    pub fn next_layer(&mut self, cancelled: bool) -> (r: Next)
        requires
            old(self).wf(),
        ensures
            final(self).wf(),
            final(self)@.valid(),
            r == old(self)@.step(cancelled),
            final(self)@ == old(self)@.after_step(cancelled),
    {
        let ghost v0 = self@;
        match self.phase {
            Phase::Halted => Next::Stopped,
            Phase::Running => {
                let index: usize = count_busy(&self.jobs, self.next) + 1;
                let total: usize = count_busy(&self.jobs, self.jobs.len());
                Next::Run { index, total }
            },
            Phase::Idle => {
                if self.next == self.jobs.len() {
                    return Next::Finished;
                }
                if cancelled {
                    self.phase = Phase::Halted;
                    return Next::Stopped;
                }
                assert(v0.layer().len() == self.jobs@[self.next as int]@.len());
                if self.jobs[self.next].len() == 0 {
                    self.next = self.next + 1;
                    self.settled = Ghost(self.settled@.push(Seq::empty()));
                    proof {
                        let s = v0.settled.push(Seq::<BuildEventView>::empty());
                        assert(s.drop_last() =~= v0.settled);
                        assert(all_events(s) =~= all_events(v0.settled));
                        assert forall|l: int| 0 <= l < s.len() implies covers(
                            v0.jobs[l],
                            #[trigger] s[l],
                        ) by {
                            if l < v0.settled.len() {
                                assert(s[l] == v0.settled[l]);
                            }
                        }
                        assert forall|l: int| 0 <= l < s.len() implies !any_failed(
                            #[trigger] s[l],
                        ) by {
                            if l < v0.settled.len() {
                                assert(s[l] == v0.settled[l]);
                            }
                        }
                    }
                    return Next::Skip;
                }
                self.phase = Phase::Running;
                let index: usize = count_busy(&self.jobs, self.next) + 1;
                let total: usize = count_busy(&self.jobs, self.jobs.len());
                Next::Run { index, total }
            },
        }
    }

    /// The stale actions of the running layer, or none between layers.
    pub fn running(&self) -> (r: Option<&Vec<Job>>)
        requires
            self.wf(),
        ensures
            r is Some <==> self@.phase is Running,
            r matches Some(jobs) ==> plan::job_views(jobs@) == self@.layer(),
    {
        match self.phase {
            Phase::Running => Some(&self.jobs[self.next]),
            _ => None,
        }
    }

    /// Whether job `j` of the running layer ended.
    fn has_ended(&self, j: usize) -> (r: bool)
        ensures
            r == self@.ended.contains(j as int),
    {
        let ghost ev = positions(self.ended@);
        let mut i: usize = 0;
        while i < self.ended.len()
            invariant
                i <= self.ended.len(),
                ev == positions(self.ended@),
                forall|k: int| 0 <= k < i ==> #[trigger] ev[k] != j,
            decreases self.ended.len() - i,
        {
            assert(ev[i as int] == self.ended@[i as int]);
            if self.ended[i] == j {
                assert(ev.contains(j as int));
                return true;
            }
            i = i + 1;
        }
        false
    }

    /// Takes note that job `j` of the running layer ended after `ms`
    /// milliseconds, and says what to record. Under [`ExecMode::FailFast`] an
    /// error cancels the other actions of the layer.
    ///
    /// `None`, and nothing changes, where no layer is running, there is no such
    /// job, or it ended before.
    pub fn complete(&mut self, j: usize, ms: u128, outcome: Result<BuildOutput, BuildError>) -> (r:
        Option<Report>)
        requires
            old(self).wf(),
        ensures
            final(self).wf(),
            final(self)@.valid(),
            r is Some <==> old(self)@.phase is Running && j < old(self)@.layer().len()
                && !old(self)@.ended.contains(j as int),
            r matches Some(report) ==> {
                let event = event_of(old(self)@.layer()[j as int], ms, outcome_view(outcome));
                &&& report.event@ == event
                &&& report.cancel_peers == (outcome is Err && old(self)@.mode is FailFast)
                &&& final(self)@ == old(self)@.after_end(j as int, event)
            },
            r is None ==> final(self)@ == old(self)@,
    {
        let ghost v0 = self@;
        match self.phase {
            Phase::Running => {},
            _ => {
                return None;
            },
        }
        assert(v0.layer().len() == self.jobs@[self.next as int]@.len());
        if j >= self.jobs[self.next].len() || self.has_ended(j) {
            return None;
        }
        let job = &self.jobs[self.next][j];
        assert(v0.layer()[j as int] == (job.id@, job.input@));
        let cancel_peers: bool = outcome.is_err() && self.mode == ExecMode::FailFast;
        let event = make_event(&job.id, job.input, ms, outcome);
        let ghost ev = event@;
        self.ended.push(j);
        self.current.push(event.clone());
        proof {
            assert(self@.ended =~= v0.ended.push(j as int));
            assert(self@.current =~= v0.current.push(ev));
            assert(self@ =~= v0.after_end(j as int, ev));
            let e = self@.ended;
            assert forall|a: int, b: int| 0 <= a < e.len() && 0 <= b < e.len() && a != b implies e[a]
                != e[b] by {
                if a < v0.ended.len() && b < v0.ended.len() {
                    assert(e[a] == v0.ended[a] && e[b] == v0.ended[b]);
                } else if a < v0.ended.len() {
                    assert(v0.ended.contains(e[a]));
                } else {
                    assert(v0.ended.contains(e[b]));
                }
            }
            assert forall|k: int| 0 <= k < e.len() implies 0 <= #[trigger] e[k]
                < v0.layer().len() && about(self@.current[k], v0.layer()[e[k]]) by {
                if k < v0.ended.len() {
                    assert(e[k] == v0.ended[k]);
                }
            }
            assert(self@.layer() == v0.layer());
        }
        Some(Report { event, cancel_peers })
    }

    /// The events of the running layer, ready to be persisted, once all of its
    /// actions ended.
    pub fn layer_events(&self) -> (r: Option<Vec<BuildEvent>>)
        requires
            self.wf(),
        ensures
            r is Some <==> self@.layer_done(),
            r matches Some(events) ==> types::event_views(events@) == self@.current && covers(
                self@.layer(),
                self@.current,
            ),
    {
        match self.phase {
            Phase::Running => {},
            _ => {
                return None;
            },
        }
        assert(self@.layer().len() == self.jobs@[self.next as int]@.len());
        if self.ended.len() != self.jobs[self.next].len() {
            return None;
        }
        proof {
            done_layer_covered(self@);
        }
        Some(copy_events(&self.current))
    }

    /// Closes the running layer after its events were persisted. Returns
    /// whether the run goes on; it does not after a failure.
    ///
    /// Nothing changes unless all actions of a running layer ended.
    pub fn commit(&mut self) -> (r: bool)
        requires
            old(self).wf(),
        ensures
            final(self).wf(),
            final(self)@.valid(),
            old(self)@.layer_done() ==> final(self)@ == old(self)@.after_commit(),
            !old(self)@.layer_done() ==> final(self)@ == old(self)@,
            r == !(final(self)@.phase is Halted),
    {
        let ghost v0 = self@;
        match self.phase {
            Phase::Running => {},
            Phase::Idle => {
                return true;
            },
            Phase::Halted => {
                return false;
            },
        }
        assert(v0.layer().len() == self.jobs@[self.next as int]@.len());
        if self.ended.len() != self.jobs[self.next].len() {
            return true;
        }
        proof {
            done_layer_covered(v0);
        }
        let failed: bool = has_failure(&self.current);
        assert(self.next < self.jobs.len());
        let next: usize = self.next + 1;
        let mut layer_events: Vec<BuildEvent> = Vec::new();
        let mut events: Vec<BuildEvent> = Vec::new();
        let ended: Vec<usize> = Vec::new();
        std::mem::swap(&mut self.current, &mut layer_events);
        std::mem::swap(&mut self.events, &mut events);
        let ghost e0 = events@;
        let ghost l0 = layer_events@;
        events.append(&mut layer_events);
        self.events = events;
        self.ended = ended;
        self.next = next;
        self.settled = Ghost(self.settled@.push(v0.current));
        self.phase = if failed {
            Phase::Halted
        } else {
            Phase::Idle
        };
        proof {
            let s = v0.settled.push(v0.current);
            assert(s.drop_last() =~= v0.settled);
            assert(types::event_views(e0 + l0) =~= types::event_views(e0) + types::event_views(l0));
            assert(types::event_views(self.events@) =~= all_events(s));
            assert(self@.current =~= Seq::<BuildEventView>::empty());
            assert(self@.ended =~= Seq::<int>::empty());
            assert(self@ =~= v0.after_commit());
            assert forall|l: int| 0 <= l < s.len() implies covers(v0.jobs[l], #[trigger] s[l]) by {
                if l < v0.settled.len() {
                    assert(s[l] == v0.settled[l]);
                }
            }
            assert forall|l: int|
                0 <= l < s.len() && (!failed || l + 1 < s.len()) implies !any_failed(
                #[trigger] s[l],
            ) by {
                if l < v0.settled.len() {
                    assert(s[l] == v0.settled[l]);
                }
            }
        }
        !failed
    }

    /// Every event recorded, as success or, if the run was halted, as failure.
    pub fn finish(self) -> (r: Result<Vec<BuildEvent>, ExecError>)
        requires
            self.wf(),
        ensures
            match r {
                Ok(events) => !(self@.phase is Halted) && types::event_views(events@)
                    == all_events(self@.settled),
                Err(ExecError::LayerFailed { events }) => self@.phase is Halted
                    && types::event_views(events@) == all_events(self@.settled),
                Err(_) => false,
            },
    {
        match self.phase {
            Phase::Halted => Err(ExecError::LayerFailed { events: self.events }),
            _ => Ok(self.events),
        }
    }
}

/// A layer runs only after every stale action of every earlier layer succeeded.
pub proof fn later_layers_follow_success(v: ExecutionView, l: int, j: int)
    requires
        v.valid(),
        v.phase is Running,
        0 <= l < v.settled.len(),
        0 <= j < v.jobs[l].len(),
    ensures
        exists|k: int|
            0 <= k < v.settled[l].len() && #[trigger] about(v.settled[l][k], v.jobs[l][j])
                && v.settled[l][k] is Success,
{
    assert(covers(v.jobs[l], v.settled[l]));
    assert(answered(v.settled[l], v.jobs[l][j]));
    let k = choose|k: int|
        0 <= k < v.settled[l].len() && #[trigger] about(v.settled[l][k], v.jobs[l][j]);
    assert(!any_failed(v.settled[l]));
    assert(!(v.settled[l][k] is Failed));
}

/// A run that finishes without being halted has a success for every stale
/// action of the plan, and nothing else.
pub proof fn finished_run_succeeded(v: ExecutionView, l: int)
    requires
        v.valid(),
        v.phase is Idle,
        v.settled.len() == v.jobs.len(),
        0 <= l < v.jobs.len(),
    ensures
        covers(v.jobs[l], v.settled[l]),
        forall|k: int| 0 <= k < v.settled[l].len() ==> #[trigger] v.settled[l][k] is Success,
{
    assert(covers(v.jobs[l], v.settled[l]));
    assert(!any_failed(v.settled[l]));
    assert forall|k: int| 0 <= k < v.settled[l].len() implies #[trigger] v.settled[l][k] is Success by {
        if v.settled[l][k] is Failed {
            assert(any_failed(v.settled[l]));
        }
    }
}

/// Whatever the mode, a failure in a layer keeps every later layer from starting.
pub proof fn failure_halts(v: ExecutionView, cancelled: bool)
    requires
        v.valid(),
        v.layer_done(),
        any_failed(v.current),
    ensures
        v.after_commit().step(cancelled) == Next::Stopped,
        v.after_commit().after_step(cancelled) == v.after_commit(),
{
}

/// An action that ended cannot end a second time: the events of a layer are as
/// many as the actions that ended, and they are about different ones.
pub proof fn one_end_per_action(v: ExecutionView, a: int, b: int)
    requires
        v.valid(),
        0 <= a < b < v.current.len(),
    ensures
        v.ended[a] != v.ended[b],
        about(v.current[a], v.layer()[v.ended[a]]),
        about(v.current[b], v.layer()[v.ended[b]]),
{
}

/// A cancelled run starts no layer.
pub proof fn cancelled_run_starts_nothing(v: ExecutionView)
    requires
        v.valid(),
        v.phase is Idle,
    ensures
        !(v.step(true) is Run),
        !(v.after_step(true).phase is Running),
{
}

} // verus!
