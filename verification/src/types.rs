//! Fundamental data types of the orchestration engine.

use crate::digest;
use crate::text;
use vstd::prelude::*;

verus! {

/// A unique identifier for an action in the graph.
#[derive(Debug, PartialEq, Eq, Hash)]
pub struct ActionId(pub String);

impl View for ActionId {
    type V = Seq<char>;

    open spec fn view(&self) -> Seq<char> {
        self.0@
    }
}

impl Clone for ActionId {
    fn clone(&self) -> (r: Self)
        ensures
            r == *self,
    {
        ActionId(self.0.clone())
    }
}

impl ActionId {
    /// The identifier itself, as text.
    pub fn to_string(&self) -> (r: String)
        ensures
            r@ == self@,
    {
        self.0.clone()
    }

    /// Whether two identifiers are the same.
    pub fn same(&self, other: &ActionId) -> (r: bool)
        ensures
            r == (self@ == other@),
    {
        text::text_eq(&self.0, &other.0)
    }
}

/// The views of a list of identifiers.
pub open spec fn id_views(ids: Seq<ActionId>) -> Seq<Seq<char>> {
    ids.map_values(|a: ActionId| a@)
}

/// A 256-bit hash: the input or output state of an action.
#[derive(Debug, Copy, Clone, PartialEq, Eq, Hash)]
pub struct Sha256(pub [u8; 32]);

impl View for Sha256 {
    type V = Seq<u8>;

    open spec fn view(&self) -> Seq<u8> {
        self.0@
    }
}

impl Sha256 {
    /// Sixty-four lowercase hexadecimal digits.
    pub fn to_string(&self) -> (r: String)
        ensures
            r@ == digest::hex_text(self@),
    {
        digest::to_hex(&self.0)
    }

    /// The first eight hexadecimal digits.
    pub fn short(&self) -> (r: String)
        ensures
            r@ == digest::hex_text(self@).take(8),
    {
        text::take_chars(&digest::to_hex(&self.0), 8)
    }

    /// Whether two hashes are the same.
    pub fn same(&self, other: &Sha256) -> (r: bool)
        ensures
            r == (self@ == other@),
    {
        let mut i: usize = 0;
        while i < 32
            invariant
                i <= 32,
                forall|k: int| 0 <= k < i ==> self.0@[k] == other.0@[k],
            decreases 32 - i,
        {
            if self.0[i] != other.0[i] {
                return false;
            }
            i = i + 1;
        }
        assert(self@ =~= other@);
        true
    }
}

/// How the engine handles failures.
#[derive(Copy, Clone, Debug, PartialEq, Eq, Structural)]
pub enum ExecMode {
    /// Stop execution immediately upon the first failure.
    FailFast,
    /// Continue executing independent actions even if some fail.
    KeepGoing,
}

/// Errors that can occur during the execution of an action.
#[derive(Debug)]
pub enum BuildError {
    /// A required upstream dependency failed or could not be built.
    UpstreamUnreachable(String),
    /// The command executed by the action returned a non-zero exit code.
    CommandFailed {
        /// The exit code returned by the command.
        exit_code: i32,
        /// The standard error output of the command.
        stderr: String,
    },
    /// An I/O error occurred (e.g. file not found, permission denied).
    Io(String),
    /// The build was cancelled by the user or the system.
    Cancelled,
}

/// What a [`BuildError`] holds.
#[verifier::ext_equal]
pub enum BuildErrorView {
    /// See [`BuildError::UpstreamUnreachable`].
    UpstreamUnreachable(Seq<char>),
    /// See [`BuildError::CommandFailed`].
    CommandFailed {
        /// The exit code.
        exit_code: i32,
        /// The standard error output.
        stderr: Seq<char>,
    },
    /// See [`BuildError::Io`].
    Io(Seq<char>),
    /// See [`BuildError::Cancelled`].
    Cancelled,
}

impl View for BuildError {
    type V = BuildErrorView;

    open spec fn view(&self) -> BuildErrorView {
        match *self {
            BuildError::UpstreamUnreachable(s) => BuildErrorView::UpstreamUnreachable(s@),
            BuildError::CommandFailed { exit_code, stderr } => BuildErrorView::CommandFailed {
                exit_code,
                stderr: stderr@,
            },
            BuildError::Io(s) => BuildErrorView::Io(s@),
            BuildError::Cancelled => BuildErrorView::Cancelled,
        }
    }
}

impl Clone for BuildError {
    fn clone(&self) -> (r: Self)
        ensures
            r == *self,
    {
        match self {
            BuildError::UpstreamUnreachable(s) => BuildError::UpstreamUnreachable(s.clone()),
            BuildError::CommandFailed { exit_code, stderr } => BuildError::CommandFailed {
                exit_code: *exit_code,
                stderr: stderr.clone(),
            },
            BuildError::Io(s) => BuildError::Io(s.clone()),
            BuildError::Cancelled => BuildError::Cancelled,
        }
    }
}

/// The one-line rendering of an error.
pub open spec fn build_error_text(e: BuildErrorView) -> Seq<char> {
    match e {
        BuildErrorView::UpstreamUnreachable(s) => "upstream unreachable: "@ + s,
        BuildErrorView::CommandFailed { exit_code, stderr } => "Command failed: "@ + text::int_text(
            exit_code as int,
        ) + ": "@ + stderr,
        BuildErrorView::Io(s) => "IO error: "@ + s,
        BuildErrorView::Cancelled => "Build cancelled"@,
    }
}

impl BuildError {
    /// Renders the error.
    pub fn to_string(&self) -> (r: String)
        ensures
            r@ == build_error_text(self@),
    {
        match self {
            BuildError::UpstreamUnreachable(s) => {
                let mut r = "upstream unreachable: ".to_owned();
                r.append(s);
                r
            },
            BuildError::CommandFailed { exit_code, stderr } => {
                let mut r = "Command failed: ".to_owned();
                r.append(&text::dec_i32(*exit_code));
                r.append(": ");
                r.append(stderr);
                r
            },
            BuildError::Io(s) => {
                let mut r = "IO error: ".to_owned();
                r.append(s);
                r
            },
            BuildError::Cancelled => "Build cancelled".to_owned(),
        }
    }
}

/// The result of a successfully executed action.
#[derive(Debug)]
pub struct BuildOutput {
    /// The hash of the output produced by the action.
    pub output_hash: Sha256,
    /// The standard output captured during execution.
    pub stdout: String,
}

impl Clone for BuildOutput {
    fn clone(&self) -> (r: Self)
        ensures
            r == *self,
    {
        BuildOutput { output_hash: self.output_hash, stdout: self.stdout.clone() }
    }
}

/// Something that happened to an action during a build.
#[derive(Debug)]
pub enum BuildEvent {
    /// The action succeeded.
    Success {
        /// The id of the action.
        id: ActionId,
        /// The input hash.
        input: Sha256,
        /// The output hash.
        output: Sha256,
        /// The duration of the action in milliseconds.
        ms: u64,
    },
    /// The action failed.
    Failed {
        /// The id of the action.
        id: ActionId,
        /// The input hash.
        input: Sha256,
        /// The error that caused the failure.
        error: BuildError,
        /// The duration of the action before failure in milliseconds.
        ms: u64,
    },
}

/// What a [`BuildEvent`] holds.
#[verifier::ext_equal]
pub enum BuildEventView {
    /// See [`BuildEvent::Success`].
    Success {
        /// The id of the action.
        id: Seq<char>,
        /// The input hash.
        input: Seq<u8>,
        /// The output hash.
        output: Seq<u8>,
        /// The duration in milliseconds.
        ms: u64,
    },
    /// See [`BuildEvent::Failed`].
    Failed {
        /// The id of the action.
        id: Seq<char>,
        /// The input hash.
        input: Seq<u8>,
        /// The error.
        error: BuildErrorView,
        /// The duration in milliseconds.
        ms: u64,
    },
}

impl BuildEventView {
    /// The action the event is about.
    pub open spec fn id(self) -> Seq<char> {
        match self {
            BuildEventView::Success { id, .. } => id,
            BuildEventView::Failed { id, .. } => id,
        }
    }

    /// The same event, about another action.
    pub open spec fn with_id(self, new_id: Seq<char>) -> BuildEventView {
        match self {
            BuildEventView::Success { input, output, ms, .. } => BuildEventView::Success {
                id: new_id,
                input,
                output,
                ms,
            },
            BuildEventView::Failed { input, error, ms, .. } => BuildEventView::Failed {
                id: new_id,
                input,
                error,
                ms,
            },
        }
    }

    /// The duration in milliseconds.
    pub open spec fn ms(self) -> u64 {
        match self {
            BuildEventView::Success { ms, .. } => ms,
            BuildEventView::Failed { ms, .. } => ms,
        }
    }
}

impl View for BuildEvent {
    type V = BuildEventView;

    open spec fn view(&self) -> BuildEventView {
        match *self {
            BuildEvent::Success { id, input, output, ms } => BuildEventView::Success {
                id: id@,
                input: input@,
                output: output@,
                ms,
            },
            BuildEvent::Failed { id, input, error, ms } => BuildEventView::Failed {
                id: id@,
                input: input@,
                error: error@,
                ms,
            },
        }
    }
}

impl Clone for BuildEvent {
    fn clone(&self) -> (r: Self)
        ensures
            r == *self,
    {
        match self {
            BuildEvent::Success { id, input, output, ms } => BuildEvent::Success {
                id: id.clone(),
                input: *input,
                output: *output,
                ms: *ms,
            },
            BuildEvent::Failed { id, input, error, ms } => BuildEvent::Failed {
                id: id.clone(),
                input: *input,
                error: error.clone(),
                ms: *ms,
            },
        }
    }
}

impl BuildEvent {
    /// The action the event is about.
    pub fn id(&self) -> (r: &ActionId)
        ensures
            r@ == self@.id(),
    {
        match self {
            BuildEvent::Success { id, .. } => id,
            BuildEvent::Failed { id, .. } => id,
        }
    }

    /// Whether the action failed.
    pub fn is_failure(&self) -> (r: bool)
        ensures
            r == (self@ is Failed),
    {
        match self {
            BuildEvent::Success { .. } => false,
            BuildEvent::Failed { .. } => true,
        }
    }
}

/// An event together with the moment it was recorded.
#[derive(Debug)]
pub struct BuildRecord {
    /// The recorded event.
    pub event: BuildEvent,
    /// Milliseconds since the Unix epoch, when the backend knows them.
    pub recorded_at: Option<u64>,
}

/// The views of a list of events.
pub open spec fn event_views(events: Seq<BuildEvent>) -> Seq<BuildEventView> {
    events.map_values(|e: BuildEvent| e@)
}

/// A copy of a list of ids.
pub fn copy_ids(ids: &Vec<ActionId>) -> (r: Vec<ActionId>)
    ensures
        id_views(r@) == id_views(ids@),
{
    let ghost v = id_views(ids@);
    let mut r: Vec<ActionId> = Vec::new();
    let mut i: usize = 0;
    while i < ids.len()
        invariant
            i <= ids.len(),
            v == id_views(ids@),
            id_views(r@) == v.take(i as int),
        decreases ids.len() - i,
    {
        let ghost before = id_views(r@);
        r.push(ids[i].clone());
        assert(id_views(r@) =~= before.push(ids@[i as int]@));
        assert(before.push(ids@[i as int]@) =~= v.take(i + 1));
        i = i + 1;
    }
    assert(v.take(v.len() as int) =~= v);
    r
}

} // verus!
