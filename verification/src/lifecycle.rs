//! The evidence that a shutdown leaves: what was joined, and what failed.

use vstd::prelude::*;

verus! {

/// How many tasks serve a connected client: its reader, its writer and its keep-alive.
pub const TASKS_PER_CLIENT: usize = 3;

/// How long an attempt to connect may take, in seconds.
pub const CONNECT_DEADLINE_SECS: u64 = 30;

/// How long the keep-alive waits between two pings, in seconds.
pub const KEEP_ALIVE_SECS: u64 = 30;

/// How long a mock waits for a message before it counts as drained, in milliseconds.
pub const MOCK_MESSAGE_BUDGET_MS: u64 = 1500;

/// Where a failure came from.
#[derive(Clone, Copy, Debug, PartialEq, Eq, Structural)]
pub enum FailureSource {
    /// The peer or the network ended the connection.
    TransportTerminal,
    /// A budget, a decoder, a capacity, the protocol, or something unknown.
    Internal,
    /// A task panicked, and was awaited.
    TaskPanic,
}

/// A failure, with its original text.
#[derive(Debug, PartialEq, Eq)]
pub struct ScopeFailure {
    pub source: FailureSource,
    pub message: String,
}

/// What a [`ScopeFailure`] says.
#[verifier::ext_equal]
pub struct FailureView {
    pub source: FailureSource,
    pub message: Seq<char>,
}

impl View for ScopeFailure {
    type V = FailureView;

    open spec fn view(&self) -> FailureView {
        FailureView { source: self.source, message: self.message@ }
    }
}

impl Clone for ScopeFailure {
    fn clone(&self) -> (copy: ScopeFailure)
        ensures
            copy == *self,
    {
        ScopeFailure { source: self.source, message: self.message.clone() }
    }
}

/// What the failures of a list say.
pub open spec fn failure_views(failures: Seq<ScopeFailure>) -> Seq<FailureView> {
    Seq::new(failures.len(), |i: int| failures[i]@)
}

/// How the socket failed.
#[derive(Clone, Copy, Debug, PartialEq, Eq, Structural)]
pub enum SocketError {
    /// An I/O error of the stream.
    Io,
    /// The connection was closed in the ordinary way.
    ConnectionClosed,
    /// The connection had been closed before.
    AlreadyClosed,
    /// The peer reset the connection without the closing handshake.
    ResetWithoutClosingHandshake,
    /// Any other error of the protocol, of its capacities or of its encoding.
    Other,
}

impl SocketError {
    /// Whether the error ends the transport, rather than telling of a fault in what it carries.
    pub open spec fn is_terminal(self) -> bool {
        !(self is Other)
    }

    /// The source of a failure with this error. No text is looked at.
    pub fn source(self) -> (source: FailureSource)
        ensures
            source == if self.is_terminal() {
                FailureSource::TransportTerminal
            } else {
                FailureSource::Internal
            },
    {
        match self {
            SocketError::Io => FailureSource::TransportTerminal,
            SocketError::ConnectionClosed => FailureSource::TransportTerminal,
            SocketError::AlreadyClosed => FailureSource::TransportTerminal,
            SocketError::ResetWithoutClosingHandshake => FailureSource::TransportTerminal,
            SocketError::Other => FailureSource::Internal,
        }
    }
}

/// How an awaited task ended.
pub enum TaskOutcome {
    Finished,
    Cancelled,
    Panicked(String),
}

/// The tasks of a client: those still to be awaited, those that were, and what went wrong.
pub struct Tasks {
    pending: usize,
    joined: usize,
    failures: Vec<ScopeFailure>,
    retained: bool,
}

/// What [`Tasks`] holds.
#[verifier::ext_equal]
pub struct TasksView {
    pub pending: nat,
    pub joined: nat,
    pub failures: Seq<FailureView>,
    /// Whether an internal failure is retained that came after the first.
    pub retained: bool,
}

impl TasksView {
    /// No task was started.
    pub open spec fn idle() -> TasksView {
        TasksView { pending: 0, joined: 0, failures: Seq::empty(), retained: false }
    }

    /// Never more tasks than one connection has.
    pub open spec fn within_bounds(self) -> bool {
        self.pending + self.joined <= TASKS_PER_CLIENT
    }

    /// So many more tasks were started.
    pub open spec fn started(self, count: nat) -> TasksView {
        TasksView { pending: self.pending + count, ..self }
    }

    /// One task was awaited. A panic is recorded, each on its own; a cancelled task is joined like
    /// one that finished.
    pub open spec fn finished(self, panic: Option<Seq<char>>) -> TasksView {
        TasksView {
            pending: (self.pending - 1) as nat,
            joined: self.joined + 1,
            failures: match panic {
                Some(message) => self.failures.push(
                    FailureView { source: FailureSource::TaskPanic, message },
                ),
                None => self.failures,
            },
            ..self
        }
    }

    /// A later internal failure came: the first such is retained.
    pub open spec fn suppressed(self, message: Seq<char>) -> TasksView {
        if self.retained {
            self
        } else {
            TasksView {
                failures: self.failures.push(
                    FailureView { source: FailureSource::Internal, message },
                ),
                retained: true,
                ..self
            }
        }
    }
}

impl View for Tasks {
    type V = TasksView;

    closed spec fn view(&self) -> TasksView {
        TasksView {
            pending: self.pending as nat,
            joined: self.joined as nat,
            failures: failure_views(self.failures@),
            retained: self.retained,
        }
    }
}

/// The text of a panic, if the outcome is one.
pub open spec fn panic_text(outcome: TaskOutcome) -> Option<Seq<char>> {
    match outcome {
        TaskOutcome::Panicked(message) => Some(message@),
        _ => None,
    }
}

impl Tasks {
    #[verifier::type_invariant]
    spec fn inv(self) -> bool {
        self.pending + self.joined <= TASKS_PER_CLIENT
    }

    /// No task was started.
    pub fn new() -> (tasks: Tasks)
        ensures
            tasks@ == TasksView::idle(),
    {
        let tasks = Tasks { pending: 0, joined: 0, failures: Vec::new(), retained: false };
        assert(tasks@.failures =~= Seq::empty());
        tasks
    }

    /// How many tasks are still to be awaited.
    pub fn pending(&self) -> (pending: usize)
        ensures
            pending == self@.pending,
            self@.within_bounds(),
    {
        proof {
            use_type_invariant(self);
        }
        self.pending
    }

    /// How many tasks were awaited.
    pub fn joined(&self) -> (joined: usize)
        ensures
            joined == self@.joined,
            self@.within_bounds(),
    {
        proof {
            use_type_invariant(self);
        }
        self.joined
    }

    /// The failures so far.
    pub fn failures(&self) -> (failures: &Vec<ScopeFailure>)
        ensures
            failure_views(failures@) == self@.failures,
    {
        &self.failures
    }

    /// Records that so many more tasks were started, never more than one connection has.
    pub fn start(&mut self, count: usize)
        requires
            old(self)@.pending + old(self)@.joined + count <= TASKS_PER_CLIENT,
        ensures
            final(self)@ == old(self)@.started(count as nat),
    {
        self.pending = self.pending + count;
    }

    /// Records that a task was awaited.
    pub fn finish(&mut self, outcome: TaskOutcome)
        requires
            old(self)@.pending > 0,
        ensures
            final(self)@ == old(self)@.finished(panic_text(outcome)),
    {
        proof {
            use_type_invariant(&*self);
        }
        self.pending = self.pending - 1;
        self.joined = self.joined + 1;
        if let TaskOutcome::Panicked(message) = outcome {
            self.record(ScopeFailure { source: FailureSource::TaskPanic, message });
        }
    }

    fn record(&mut self, failure: ScopeFailure)
        ensures
            final(self)@ == (TasksView {
                failures: old(self)@.failures.push(failure@),
                ..old(self)@
            }),
    {
        proof {
            use_type_invariant(&*self);
        }
        let mut failures: Vec<ScopeFailure> = Vec::new();
        core::mem::swap(&mut failures, &mut self.failures);
        let ghost before = failures@;
        failures.push(failure);
        assert(failure_views(failures@) =~= failure_views(before).push(failure@));
        self.failures = failures;
    }

    /// Retains an internal failure that came after the first failure, if it is the first such.
    pub fn retain(&mut self, message: String)
        ensures
            final(self)@ == old(self)@.suppressed(message@),
    {
        if !self.retained {
            self.record(ScopeFailure { source: FailureSource::Internal, message });
            proof {
                use_type_invariant(&*self);
            }
            self.retained = true;
        }
    }
}

/// Evidence from a shutdown. Aborted and awaited tasks count as joined: this is evidence that the
/// tasks are gone, not that the peer agreed to close.
#[derive(Debug, PartialEq, Eq)]
pub struct ScopeJoinReport {
    pub clients: usize,
    pub tasks_joined: usize,
    pub timed_out: bool,
    pub failures: Vec<ScopeFailure>,
    /// The owner is closed, and this call awaited every task that it owned.
    pub cleanup_complete: bool,
}

/// What a [`ScopeJoinReport`] says.
#[verifier::ext_equal]
pub struct ReportView {
    pub clients: nat,
    pub tasks_joined: nat,
    pub timed_out: bool,
    pub failures: Seq<FailureView>,
    pub cleanup_complete: bool,
}

impl View for ScopeJoinReport {
    type V = ReportView;

    open spec fn view(&self) -> ReportView {
        ReportView {
            clients: self.clients as nat,
            tasks_joined: self.tasks_joined as nat,
            timed_out: self.timed_out,
            failures: failure_views(self.failures@),
            cleanup_complete: self.cleanup_complete,
        }
    }
}

impl ReportView {
    /// The report on `clients` clients before any of them was looked at.
    pub open spec fn opened(clients: nat, closed: bool) -> ReportView {
        ReportView {
            clients,
            tasks_joined: 0,
            timed_out: false,
            failures: Seq::empty(),
            cleanup_complete: closed,
        }
    }

    /// The report with one more client looked at, whose tasks were joined in time or not: its
    /// joined tasks and its failures are added, the terminal one last.
    pub open spec fn with_client(
        self,
        tasks: TasksView,
        error: Option<FailureView>,
        in_time: bool,
    ) -> ReportView {
        let failures = self.failures + tasks.failures;
        ReportView {
            clients: self.clients,
            tasks_joined: self.tasks_joined + tasks.joined,
            timed_out: self.timed_out || !in_time,
            failures: match error {
                Some(failure) => failures.push(failure),
                None => failures,
            },
            cleanup_complete: self.cleanup_complete && in_time && tasks.pending == 0,
        }
    }

    /// Whether every task was joined in time, and nothing failed.
    pub open spec fn all_joined(self) -> bool {
        !self.timed_out && self.failures.len() == 0
    }
}

impl Clone for ScopeJoinReport {
    fn clone(&self) -> (copy: ScopeJoinReport)
        ensures
            copy@ == self@,
    {
        let copy = ScopeJoinReport {
            clients: self.clients,
            tasks_joined: self.tasks_joined,
            timed_out: self.timed_out,
            failures: self.failures.clone(),
            cleanup_complete: self.cleanup_complete,
        };
        assert(copy@.failures =~= self@.failures);
        copy
    }
}

impl Default for ScopeJoinReport {
    fn default() -> (report: ScopeJoinReport)
        ensures
            report@ == ReportView::opened(0, false),
    {
        ScopeJoinReport::open(0, false)
    }
}

impl ScopeJoinReport {
    /// The report on `clients` clients before any of them is looked at.
    pub fn open(clients: usize, closed: bool) -> (report: ScopeJoinReport)
        ensures
            report@ == ReportView::opened(clients as nat, closed),
    {
        let report = ScopeJoinReport {
            clients,
            tasks_joined: 0,
            timed_out: false,
            failures: Vec::new(),
            cleanup_complete: closed,
        };
        assert(report@.failures =~= Seq::empty());
        report
    }

    /// True only after every task was observed and no failure occurred.
    pub fn all_joined(&self) -> (joined: bool)
        ensures
            joined == self@.all_joined(),
    {
        !self.timed_out && self.failures.len() == 0
    }

    /// Adds what the tasks of one client left.
    pub fn add_client(&mut self, tasks: &Tasks, error: Option<ScopeFailure>, in_time: bool)
        requires
            old(self)@.tasks_joined + TASKS_PER_CLIENT <= usize::MAX,
        ensures
            final(self)@ == old(self)@.with_client(
                tasks@,
                match error {
                    Some(failure) => Some(failure@),
                    None => None,
                },
                in_time,
            ),
    {
        if !in_time {
            self.timed_out = true;
        }
        let joined = tasks.joined();
        self.tasks_joined = self.tasks_joined + joined;
        let failures = tasks.failures();
        let ghost before = self.failures@;
        let mut i: usize = 0;
        while i < failures.len()
            invariant
                i <= failures@.len(),
                failure_views(self.failures@) == failure_views(before) + failure_views(
                    failures@,
                ).take(i as int),
                self.clients == old(self).clients,
                self.tasks_joined == old(self).tasks_joined + tasks@.joined,
                self.timed_out == (old(self).timed_out || !in_time),
                self.cleanup_complete == old(self).cleanup_complete,
            decreases failures@.len() - i,
        {
            let ghost seen = self.failures@;
            self.failures.push(failures[i].clone());
            proof {
                assert(failure_views(self.failures@) =~= failure_views(seen).push(
                    failures@[i as int]@,
                ));
                assert(failure_views(failures@).take(i + 1) =~= failure_views(failures@).take(
                    i as int,
                ).push(failures@[i as int]@));
            }
            i = i + 1;
        }
        assert(failure_views(failures@).take(i as int) =~= failure_views(failures@));
        let ghost seen = self.failures@;
        if let Some(failure) = error {
            self.failures.push(failure);
            assert(failure_views(self.failures@) =~= failure_views(seen).push(failure@));
        }
        if !in_time || tasks.pending() != 0 {
            self.cleanup_complete = false;
        }
    }
}

/// A report that claims every task joined holds no failure at all, and a failed one may still
/// claim a complete cleanup: terminal errors keep that claim.
pub proof fn law_failures_do_not_undo_cleanup(
    report: ReportView,
    tasks: TasksView,
    error: FailureView,
)
    requires
        report.cleanup_complete,
        tasks.pending == 0,
    ensures
        report.with_client(tasks, Some(error), true).cleanup_complete,
        !report.with_client(tasks, Some(error), true).all_joined(),
{
}

/// A timeout, and a task that is still to be awaited, force the claim of a complete cleanup to be
/// false, whatever is looked at later.
pub proof fn law_incomplete_cleanup_stays_incomplete(
    report: ReportView,
    tasks: TasksView,
    error: Option<FailureView>,
    in_time: bool,
    later_tasks: TasksView,
    later_error: Option<FailureView>,
    later_in_time: bool,
)
    requires
        !in_time || tasks.pending > 0,
    ensures
        !report.with_client(tasks, error, in_time).cleanup_complete,
        !report.with_client(tasks, error, in_time).with_client(
            later_tasks,
            later_error,
            later_in_time,
        ).cleanup_complete,
{
}

/// Every panic is recorded, each on its own: two awaited panics are two failures even where their
/// texts agree.
pub proof fn law_panics_are_not_merged(tasks: TasksView, first: Seq<char>, second: Seq<char>)
    ensures
        tasks.finished(Some(first)).finished(Some(second)).failures.len() == tasks.failures.len()
            + 2,
        tasks.finished(None).failures == tasks.failures,
{
}

} // verus!
