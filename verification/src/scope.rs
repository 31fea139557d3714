//! Explicit ownership of clients, and the evidence that they are gone.

use vstd::prelude::*;

use crate::lifecycle::{FailureView, ReportView, ScopeJoinReport, Tasks, TasksView};
use crate::lifecycle::TASKS_PER_CLIENT;
use crate::transport::{remove_exact, Transport, TransportView, MAX_SCOPE_CLIENTS};

verus! {

/// The owner that work is done for: the active one, or zero for nobody.
pub fn scope_id(active: Option<u64>) -> (id: u64)
    ensures
        id == match active {
            Some(id) => id,
            None => 0,
        },
{
    match active {
        Some(id) => id,
        None => 0,
    }
}

/// Owns the exact generations that are acquired on its behalf. A URL that another owner, or
/// nobody, has is refused, never shared.
pub struct ClientScope {
    id: u64,
}

/// A shutdown under way: the clients that are still to be awaited, and what the others left.
pub struct JoinRun {
    generations: Vec<u64>,
    at: usize,
    report: ScopeJoinReport,
}

/// What a [`JoinRun`] holds.
#[verifier::ext_equal]
pub struct JoinView {
    /// The clients that are still to be awaited, in order.
    pub remaining: Seq<u64>,
    pub report: ReportView,
}

impl View for JoinRun {
    type V = JoinView;

    closed spec fn view(&self) -> JoinView {
        JoinView { remaining: self.generations@.skip(self.at as int), report: self.report@ }
    }
}

/// The tasks of a client, and how it failed, if it did. Of a client that is gone nothing is left.
pub open spec fn left_by(transport: TransportView, generation: u64) -> (
    TasksView,
    Option<FailureView>,
) {
    if transport.clients.dom().contains(generation) {
        (transport.clients[generation].tasks, transport.clients[generation].error)
    } else {
        (TasksView::idle(), None)
    }
}

impl JoinView {
    /// The shutdown of these clients, before any of them was awaited.
    pub open spec fn started(generations: Seq<u64>) -> JoinView {
        JoinView {
            remaining: generations,
            report: ReportView::opened(generations.len(), true),
        }
    }

    /// The next client was awaited, in time or not.
    pub open spec fn absorbed(self, transport: TransportView, in_time: bool) -> JoinView {
        let (tasks, error) = left_by(transport, self.remaining[0]);
        JoinView {
            remaining: self.remaining.drop_first(),
            report: self.report.with_client(tasks, error, in_time),
        }
    }

    /// The report, which claims a complete cleanup only where every client was awaited.
    pub open spec fn reported(self) -> ReportView {
        ReportView {
            cleanup_complete: self.report.cleanup_complete && self.remaining.len() == 0,
            ..self.report
        }
    }
}

impl JoinRun {
    #[verifier::type_invariant]
    spec fn inv(self) -> bool {
        &&& self.at <= self.generations@.len() <= MAX_SCOPE_CLIENTS
        &&& self.report.tasks_joined <= self.at * TASKS_PER_CLIENT
    }

    fn start(generations: Vec<u64>) -> (run: JoinRun)
        requires
            generations@.len() <= MAX_SCOPE_CLIENTS,
        ensures
            run@ == JoinView::started(generations@),
    {
        let report = ScopeJoinReport::open(generations.len(), true);
        let run = JoinRun { generations, at: 0, report };
        assert(run@.remaining =~= generations@);
        run
    }

    /// The client to await next.
    pub fn next(&self) -> (generation: Option<u64>)
        ensures
            generation == if self@.remaining.len() > 0 {
                Some(self@.remaining[0])
            } else {
                None
            },
    {
        proof {
            use_type_invariant(self);
        }
        if self.at < self.generations.len() {
            Some(self.generations[self.at])
        } else {
            None
        }
    }

    /// Takes note of the client that was awaited, in time or not. While nothing timed out, its
    /// registration is removed, if it is still its own.
    pub fn absorb(&mut self, transport: &mut Transport, in_time: bool)
        requires
            old(transport)@.wf(),
            old(self)@.remaining.len() > 0,
        ensures
            final(self)@ == old(self)@.absorbed(old(transport)@, in_time),
            final(transport)@ == if final(self)@.report.timed_out {
                old(transport)@
            } else {
                old(transport)@.without_exact(old(self)@.remaining[0])
            },
            final(transport)@.wf(),
    {
        proof {
            use_type_invariant(&*self);
        }
        let ghost before = self@;
        let mut taken = JoinRun::start(Vec::new());
        core::mem::swap(self, &mut taken);
        let JoinRun { generations, at, mut report } = taken;
        let generation = generations[at];
        match transport.client(generation) {
            Some(client) => client.report_to(&mut report, in_time),
            None => {
                let nothing = Tasks::new();
                report.add_client(&nothing, None, in_time);
            },
        }
        if !report.timed_out {
            remove_exact(transport, generation);
        }
        proof {
            let (tasks, error) = left_by(old(transport)@, generation);
            assert(report@ == before.report.with_client(tasks, error, in_time));
            assert(report@.tasks_joined <= before.report.tasks_joined + TASKS_PER_CLIENT);
        }
        *self = JoinRun { generations, at: at + 1, report };
        assert(self@.remaining =~= before.remaining.drop_first());
    }

    /// Ends the shutdown: the raw channels that nobody observes are dropped, and the report is
    /// due.
    pub fn finish(self, transport: &mut Transport) -> (report: ScopeJoinReport)
        requires
            old(transport)@.wf(),
        ensures
            report@ == self@.reported(),
            exists|counts: Map<Seq<char>, nat>|
                final(transport)@ == #[trigger] old(transport)@.reclaimed(counts),
            old(transport)@.raw.loses_unobserved(final(transport)@.raw),
            final(transport)@.wf(),
    {
        proof {
            use_type_invariant(&self);
        }
        let complete = self.at == self.generations.len();
        let mut report = self.report;
        if !complete {
            report.cleanup_complete = false;
        }
        transport.reclaim();
        report
    }
}

impl ClientScope {
    /// Which owner this is.
    pub closed spec fn id(self) -> u64 {
        self.id
    }

    /// A new owner, which has acquired nothing.
    pub fn new(transport: &mut Transport) -> (scope: ClientScope)
        requires
            old(transport)@.wf(),
            old(transport)@.next_scope < u64::MAX,
        ensures
            scope.id() == old(transport)@.next_scope,
            final(transport)@ == old(transport)@.with_scope(),
            final(transport)@.wf(),
    {
        ClientScope { id: transport.open_scope() }
    }

    /// The number by which work is done on behalf of this owner.
    pub fn active(&self) -> (id: u64)
        ensures
            id == self.id(),
    {
        self.id
    }

    /// Prevents any acquisition for good, and requests the cancellation of what is owned. That is
    /// neither a closing handshake nor evidence that a task is gone.
    pub fn request_close(&self, transport: &mut Transport)
        requires
            old(transport)@.wf(),
        ensures
            final(transport)@ == old(transport)@.scope_closed(self.id()),
            final(transport)@.wf(),
    {
        transport.close_scope(self.id);
    }

    /// Begins a shutdown: closes the owner, and gives the clients to await.
    pub fn close_and_join(&self, transport: &mut Transport) -> (run: JoinRun)
        requires
            old(transport)@.wf(),
        ensures
            run@ == JoinView::started(old(transport)@.owned(self.id())),
            final(transport)@ == old(transport)@.scope_closed(self.id()),
            final(transport)@.wf(),
    {
        proof {
            if transport@.scopes.dom().contains(self.id) {
                assert(transport@.scope_wf(self.id));
            }
        }
        let generations = transport.scope_clients(self.id);
        transport.close_scope(self.id);
        JoinRun::start(generations)
    }

    /// Lets go of an owner: what it owns is closed and no longer registered. No other owner's
    /// client, and none that took the place of one of its own, is touched.
    pub fn release(self, transport: &mut Transport)
        requires
            old(transport)@.wf(),
        ensures
            exists|counts: Map<Seq<char>, nat>|
                final(transport)@ == #[trigger] old(transport)@.scope_dropped(self.id()).reclaimed(
                    counts,
                ),
            old(transport)@.raw.loses_unobserved(final(transport)@.raw),
            final(transport)@.wf(),
    {
        proof {
            transport@.scope_closed(self.id).lemma_without_each_keeps_raw(
                transport@.owned(self.id),
            );
        }
        transport.drop_scope(self.id);
        let counts = transport.reclaim();
        assert(transport@ == old(transport)@.scope_dropped(self.id).reclaimed(counts@));
    }
}

impl Transport {
    /// Begins the shutdown of one client: closes it, so that its tasks can be awaited.
    pub fn close_and_join(&mut self, generation: u64) -> (run: JoinRun)
        requires
            old(self)@.wf(),
        ensures
            run@ == JoinView::started(seq![generation]),
            final(self)@ == old(self)@.closing(seq![generation]),
            final(self)@.wf(),
    {
        let mut generations: Vec<u64> = Vec::new();
        generations.push(generation);
        proof {
            assert(generations@ =~= seq![generation]);
            self@.lemma_closing_wf(generations@);
        }
        self.close_each(&generations);
        JoinRun::start(generations)
    }
}

/// A shutdown that stops before every client was awaited claims no complete cleanup, and one of
/// nothing is complete.
pub proof fn law_unfinished_join_is_incomplete(run: JoinView)
    ensures
        run.remaining.len() > 0 ==> !run.reported().cleanup_complete,
        JoinView::started(Seq::empty()).reported().cleanup_complete,
        JoinView::started(Seq::empty()).reported().all_joined(),
{
}

/// A shutdown keeps the tasks of every client, so that another attempt can await them; and once
/// awaited they count again for whoever asks again.
pub proof fn law_join_can_be_retried(
    transport: TransportView,
    generations: Seq<u64>,
    generation: u64,
)
    ensures
        left_by(transport.closing(generations), generation) == left_by(transport, generation),
        left_by(transport.without_exact(generation), generation) == left_by(transport, generation),
{
}

/// A client that was replaced can be joined again: the report is the one that it had before, and the
/// replacement stays registered, open and as it is.
pub proof fn law_replaced_client_is_joined_again(
    transport: TransportView,
    old: u64,
    now: i64,
    in_time: bool,
)
    requires
        transport.wf(),
        transport.next_generation < u64::MAX,
        transport.clients.dom().contains(old),
        transport.without_exact(old).acquisition(
            transport.clients[old].scope_id,
            transport.clients[old].url,
        ) == Ok::<u64, Seq<char>>(transport.next_generation),
    ensures
        ({
            let client = transport.clients[old];
            let new = transport.next_generation;
            let replaced = transport.without_exact(old).acquired(client.scope_id, client.url, now);
            let again = replaced.closing(seq![old]);
            let before = JoinView::started(seq![old]).absorbed(transport, in_time);
            &&& JoinView::started(seq![old]).absorbed(again, in_time) == before
            &&& before.reported().tasks_joined == client.tasks.joined
            &&& in_time && client.tasks.failures.len() == 0 && client.error is None
                ==> before.reported().all_joined()
            &&& again.without_exact(old).live(client.url) == Some(new)
            &&& again.without_exact(old).clients[new] == replaced.clients[new]
        }),
{
    let client = transport.clients[old];
    let new = transport.next_generation;
    assert(new != old);
    assert(!seq![old].contains(new));
    if transport.registry.dom().contains(client.url) {
        assert(transport.registration_wf(client.url));
    }
}

/// Once a client was not awaited in time, the report says so to the end: no later client makes it
/// complete.
pub proof fn law_timeout_keeps_the_claim_false(
    run: JoinView,
    transport: TransportView,
    later: TransportView,
    in_time: bool,
)
    requires
        run.remaining.len() > 1,
    ensures
        run.absorbed(transport, false).report.timed_out,
        run.absorbed(transport, false).absorbed(later, in_time).report.timed_out,
        !run.absorbed(transport, false).absorbed(later, in_time).report.cleanup_complete,
        !run.absorbed(transport, false).absorbed(later, in_time).report.all_joined(),
{
}

} // verus!
