//! What a shutdown leaves and reports, as a caller sees it: each law speaks of what calls are given
//! and what they give back.

use vstd::prelude::*;

use crate::lifecycle::{FailureSource, FailureView, ReportView, ScopeFailure};
use crate::lifecycle::{ScopeJoinReport, SocketError, TaskOutcome, Tasks, TasksView};
use crate::scope::{scope_id, ClientScope, JoinRun, JoinView};
use crate::transport::{Transport, TransportView};
use crate::traffic_laws::closes;

verus! {

/// The sum of numbers.
pub open spec fn sum(numbers: Seq<nat>) -> nat
    decreases numbers.len(),
{
    if numbers.len() == 0 {
        0
    } else {
        sum(numbers.drop_last()) + numbers.last()
    }
}

/// Lists one after the other.
pub open spec fn joined_lists(lists: Seq<Seq<FailureView>>) -> Seq<FailureView>
    decreases lists.len(),
{
    if lists.len() == 0 {
        Seq::empty()
    } else {
        joined_lists(lists.drop_last()) + lists.last()
    }
}

/// How many tasks of a client were awaited; none of a client that is gone.
pub open spec fn tasks_of(transport: TransportView, generation: u64) -> nat {
    if transport.clients.dom().contains(generation) {
        transport.clients[generation].tasks.joined
    } else {
        0
    }
}

/// How many tasks of a client are still to be awaited; none of a client that is gone.
pub open spec fn unjoined_of(transport: TransportView, generation: u64) -> nat {
    if transport.clients.dom().contains(generation) {
        transport.clients[generation].tasks.pending
    } else {
        0
    }
}

/// How a client failed: what its tasks left, and then its own failure; nothing of a client that is
/// gone.
pub open spec fn failures_of(transport: TransportView, generation: u64) -> Seq<FailureView> {
    if !transport.clients.dom().contains(generation) {
        Seq::empty()
    } else if transport.clients[generation].error is Some {
        transport.clients[generation].tasks.failures.push(transport.clients[generation].error->0)
    } else {
        transport.clients[generation].tasks.failures
    }
}

/// Whether `states` are what awaiting one client after the other goes through: each was awaited in
/// time or not while the registry stood like this.
pub open spec fn awaited_in_turn(
    states: Seq<JoinView>,
    transports: Seq<TransportView>,
    in_time: Seq<bool>,
) -> bool {
    &&& states.len() == transports.len() + 1
    &&& in_time.len() == transports.len()
    &&& forall|k: int|
        0 <= k < transports.len() ==> states[k + 1] == states[k].absorbed(
            #[trigger] transports[k],
            in_time[k],
        )
}

proof fn lemma_awaited_in_turn(
    generations: Seq<u64>,
    states: Seq<JoinView>,
    transports: Seq<TransportView>,
    in_time: Seq<bool>,
    n: nat,
)
    requires
        awaited_in_turn(states, transports, in_time),
        states[0] == JoinView::started(generations),
        n <= transports.len() <= generations.len(),
    ensures
        states[n as int].remaining == generations.skip(n as int),
        states[n as int].report.clients == generations.len(),
        states[n as int].report.tasks_joined == sum(
            Seq::new(n, |k: int| tasks_of(transports[k], generations[k])),
        ),
        states[n as int].report.failures == joined_lists(
            Seq::new(n, |k: int| failures_of(transports[k], generations[k])),
        ),
    decreases n,
{
    if n == 0 {
        assert(generations.skip(0) =~= generations);
        assert(states[0].report.failures =~= Seq::empty());
    } else {
        let m = (n - 1) as nat;
        lemma_awaited_in_turn(generations, states, transports, in_time, m);
        let before = states[m as int];
        assert(states[m as int + 1] == before.absorbed(transports[m as int], in_time[m as int]));
        assert(before.remaining[0] == generations[m as int]);
        assert(generations.skip(m as int).drop_first() =~= generations.skip(n as int));
        let counts = Seq::new(n, |k: int| tasks_of(transports[k], generations[k]));
        assert(counts.drop_last() =~= Seq::new(
            m,
            |k: int| tasks_of(transports[k], generations[k]),
        ));
        let lists = Seq::new(n, |k: int| failures_of(transports[k], generations[k]));
        assert(lists.drop_last() =~= Seq::new(
            m,
            |k: int| failures_of(transports[k], generations[k]),
        ));
        assert(lists.last() == failures_of(transports[m as int], generations[m as int]));
        assert(counts.last() == tasks_of(transports[m as int], generations[m as int]));
        assert(states[n as int].report.failures =~= before.report.failures + lists.last());
    }
}

proof fn lemma_awaited_in_time(
    generations: Seq<u64>,
    states: Seq<JoinView>,
    transports: Seq<TransportView>,
    in_time: Seq<bool>,
    n: nat,
)
    requires
        awaited_in_turn(states, transports, in_time),
        states[0] == JoinView::started(generations),
        n <= transports.len() <= generations.len(),
    ensures
        !states[n as int].report.timed_out == forall|k: int| 0 <= k < n ==> #[trigger] in_time[k],
        states[n as int].report.cleanup_complete == forall|k: int|
            0 <= k < n ==> #[trigger] in_time[k] && unjoined_of(transports[k], generations[k]) == 0,
    decreases n,
{
    if n > 0 {
        let m = (n - 1) as nat;
        lemma_awaited_in_time(generations, states, transports, in_time, m);
        lemma_awaited_in_turn(generations, states, transports, in_time, m);
        let before = states[m as int];
        let after = states[n as int];
        assert(after == before.absorbed(transports[m as int], in_time[m as int]));
        assert(before.remaining[0] == generations[m as int]);
        assert(after.report.timed_out == (before.report.timed_out || !in_time[m as int]));
        assert(after.report.cleanup_complete == (before.report.cleanup_complete
            && in_time[m as int] && unjoined_of(transports[m as int], generations[m as int]) == 0));
    }
}

/// The report on a shutdown counts the tasks of all clients together: for a run that awaited every
/// client of an owner, in whatever state the registry was each time, `tasks_joined` is the sum of
/// what each client's awaited tasks were, and the failures are what each client left, one after the
/// other. It timed out where any client was not awaited in time, and claims a complete cleanup
/// exactly where each was, with no task left.
pub proof fn law_report_adds_up_over_all_clients(
    generations: Seq<u64>,
    states: Seq<JoinView>,
    transports: Seq<TransportView>,
    in_time: Seq<bool>,
)
    requires
        awaited_in_turn(states, transports, in_time),
        states[0] == JoinView::started(generations),
        transports.len() == generations.len(),
    ensures
        ({
            let n = generations.len();
            let report = states[n as int].reported();
            &&& report.clients == n
            &&& report.tasks_joined == sum(
                Seq::new(n, |k: int| tasks_of(transports[k], generations[k])),
            )
            &&& report.failures == joined_lists(
                Seq::new(n, |k: int| failures_of(transports[k], generations[k])),
            )
            &&& n == 2 ==> report.tasks_joined == tasks_of(transports[0], generations[0])
                + tasks_of(transports[1], generations[1])
            &&& n == 2 ==> report.failures == failures_of(transports[0], generations[0])
                + failures_of(transports[1], generations[1])
            &&& !report.timed_out == forall|k: int| 0 <= k < n ==> #[trigger] in_time[k]
            &&& report.cleanup_complete == forall|k: int|
                0 <= k < n ==> #[trigger] in_time[k] && unjoined_of(transports[k], generations[k])
                    == 0
        }),
{
    let n = generations.len();
    lemma_awaited_in_turn(generations, states, transports, in_time, n);
    lemma_awaited_in_time(generations, states, transports, in_time, n);
    assert(generations.skip(n as int).len() == 0);
    if n == 2 {
        let counts = Seq::new(n, |k: int| tasks_of(transports[k], generations[k]));
        let lists = Seq::new(n, |k: int| failures_of(transports[k], generations[k]));
        reveal_with_fuel(sum, 3);
        reveal_with_fuel(joined_lists, 3);
        assert(counts.drop_last().last() == counts[0]);
        assert(lists.drop_last().last() == lists[0]);
        assert(joined_lists(lists) =~= lists[0] + lists[1]);
    }
}

/// Whether `after` is the report once a client is added: its awaited tasks and its failures come to
/// those that were there, and a delay or a task that is left is not made good later.
pub open spec fn adds_client(
    before: ReportView,
    tasks: TasksView,
    error: Option<FailureView>,
    in_time: bool,
    after: ReportView,
) -> bool {
    &&& after.clients == before.clients
    &&& after.tasks_joined == before.tasks_joined + tasks.joined
    &&& error is None ==> after.failures == before.failures + tasks.failures
    &&& error is Some ==> after.failures == (before.failures + tasks.failures).push(error->0)
    &&& after.timed_out == (before.timed_out || !in_time)
    &&& after.cleanup_complete == (before.cleanup_complete && in_time && tasks.pending == 0)
}

/// Adding a client to a report adds what it left to what is there.
pub proof fn law_added_client_is_added_up(
    report: &mut ScopeJoinReport,
    tasks: Tasks,
    error: Option<ScopeFailure>,
    in_time: bool,
)
    requires
        old(report)@.tasks_joined + 3 <= usize::MAX,
        call_ensures(ScopeJoinReport::add_client, (report, &tasks, error, in_time), ()),
    ensures
        adds_client(
            old(report)@,
            tasks@,
            match error {
                Some(failure) => Some(
                    FailureView { source: failure.source, message: failure.message@ },
                ),
                None => None,
            },
            in_time,
            final(report)@,
        ),
{
}

/// A report on clients says how many they are and nothing else yet. It says that all is joined
/// exactly where nothing timed out and nothing failed.
pub proof fn law_report_opens_empty(
    clients: usize,
    closed: bool,
    report: ScopeJoinReport,
    nothing: ScopeJoinReport,
    asked: ScopeJoinReport,
    joined: bool,
    copy: ScopeJoinReport,
)
    requires
        call_ensures(ScopeJoinReport::open, (clients, closed), report),
        call_ensures(<ScopeJoinReport as Default>::default, (), nothing),
        call_ensures(ScopeJoinReport::all_joined, (&asked,), joined),
        call_ensures(<ScopeJoinReport as Clone>::clone, (&asked,), copy),
    ensures
        report.clients == clients && report.tasks_joined == 0 && !report.timed_out,
        report@.failures.len() == 0 && report.cleanup_complete == closed,
        nothing.clients == 0 && nothing.tasks_joined == 0 && !nothing.timed_out,
        nothing@.failures.len() == 0 && !nothing.cleanup_complete,
        joined == (!asked.timed_out && asked.failures@.len() == 0),
        copy@ == asked@,
        asked@.clients == asked.clients && asked@.tasks_joined == asked.tasks_joined,
        asked@.timed_out == asked.timed_out && asked@.cleanup_complete == asked.cleanup_complete,
        asked@.failures.len() == asked.failures@.len(),
        forall|i: int|
            0 <= i < asked.failures@.len() ==> (#[trigger] asked@.failures[i]).source
                == asked.failures@[i].source && asked@.failures[i].message
                == asked.failures@[i].message@,
{
}

/// Tasks count from nothing. So many more are to be awaited as are started; each that is awaited is
/// one less to be awaited and one more that was, and its panic, if it is one, comes last among the
/// failures. The first late internal failure comes last among them too, and no later one.
pub proof fn law_tasks_are_counted(
    fresh: Tasks,
    started: &mut Tasks,
    count: usize,
    finished: &mut Tasks,
    outcome: TaskOutcome,
    retaining: &mut Tasks,
    message: String,
    asked: Tasks,
    pending: usize,
    joined: usize,
    failures: &Vec<ScopeFailure>,
    i: int,
)
    requires
        call_ensures(Tasks::new, (), fresh),
        old(started)@.pending + old(started)@.joined + count <= 3,
        call_ensures(Tasks::start, (started, count), ()),
        old(finished)@.pending > 0,
        call_ensures(Tasks::finish, (finished, outcome), ()),
        call_ensures(Tasks::retain, (retaining, message), ()),
        call_ensures(Tasks::pending, (&asked,), pending),
        call_ensures(Tasks::joined, (&asked,), joined),
        call_ensures(Tasks::failures, (&asked,), failures),
    ensures
        fresh@.pending == 0 && fresh@.joined == 0 && fresh@.failures.len() == 0 && !fresh@.retained,
        final(started)@.pending == old(started)@.pending + count,
        final(started)@ == (TasksView { pending: final(started)@.pending, ..old(started)@ }),
        final(finished)@.pending + 1 == old(finished)@.pending,
        final(finished)@.joined == old(finished)@.joined + 1,
        final(finished)@.retained == old(finished)@.retained,
        match outcome {
            TaskOutcome::Panicked(text) => final(finished)@.failures
                == old(finished)@.failures.push(FailureView { source: FailureSource::TaskPanic, message: text@ }),
            TaskOutcome::Finished => final(finished)@.failures == old(finished)@.failures,
            TaskOutcome::Cancelled => final(finished)@.failures == old(finished)@.failures,
        },
        old(retaining)@.retained ==> final(retaining)@ == old(retaining)@,
        !old(retaining)@.retained ==> final(retaining)@ == (TasksView {
            failures: old(retaining)@.failures.push(
                FailureView { source: FailureSource::Internal, message: message@ },
            ),
            retained: true,
            ..old(retaining)@
        }),
        pending == asked@.pending && joined == asked@.joined,
        failures@.len() == asked@.failures.len(),
        0 <= i < failures@.len() ==> failures@[i].source == asked@.failures[i].source
            && failures@[i].message@ == asked@.failures[i].message,
{
    if 0 <= i < failures@.len() {
        assert(crate::lifecycle::failure_views(failures@)[i] == failures@[i]@);
    }
}

/// Errors of the stream, and a connection that was closed or reset, end the transport; any other
/// error of the socket is internal.
pub proof fn law_socket_errors_are_told_apart(error: SocketError, source: FailureSource)
    requires
        call_ensures(SocketError::source, (error,), source),
    ensures
        error is Io || error is ConnectionClosed || error is AlreadyClosed || error
            is ResetWithoutClosingHandshake ==> source == FailureSource::TransportTerminal,
        error is Other ==> source == FailureSource::Internal,
{
}

/// A shutdown awaits the clients in turn: the next one is the first of those that are left. What it
/// left is added to the report, and while nothing timed out its own registration, and no other, is
/// removed. No client is changed by that, and no owner.
pub proof fn law_awaited_client_is_reported(
    run: &mut JoinRun,
    next: Option<u64>,
    transport: &mut Transport,
    in_time: bool,
    url: Seq<char>,
)
    requires
        old(transport)@.wf(),
        old(run)@.remaining.len() > 0,
        call_ensures(JoinRun::next, (&*old(run),), next),
        call_ensures(JoinRun::absorb, (run, transport, in_time), ()),
    ensures
        ({
            let generation = old(run)@.remaining[0];
            let before = old(transport)@;
            let after = final(transport)@;
            let client = before.clients[generation];
            let known = before.clients.dom().contains(generation);
            &&& next == Some(generation)
            &&& final(run)@.remaining == old(run)@.remaining.drop_first()
            &&& known ==> adds_client(
                old(run)@.report,
                client.tasks,
                client.error,
                in_time,
                final(run)@.report,
            )
            &&& !known ==> adds_client(
                old(run)@.report,
                TasksView { pending: 0, joined: 0, failures: Seq::empty(), retained: false },
                None,
                in_time,
                final(run)@.report,
            )
            &&& after == (TransportView { registry: after.registry, ..before })
            &&& final(run)@.report.timed_out ==> after.registry == before.registry
            &&& !final(run)@.report.timed_out ==> after.registry.dom().contains(url) == (
            before.registry.dom().contains(url) && before.registry[url] != generation)
            &&& after.registry.dom().contains(url) ==> after.registry[url] == before.registry[url]
        }),
{
    let before = old(transport)@;
    let generation = old(run)@.remaining[0];
    if before.registry.dom().contains(url) {
        assert(before.registration_wf(url));
    }
}

/// A shutdown that is at its end awaits nobody, and gives its report, which claims a complete
/// cleanup only where nobody is left. Of the registry only raw channels without receivers go.
pub proof fn law_finished_shutdown_gives_its_report(
    run: JoinRun,
    next: Option<u64>,
    transport: &mut Transport,
    report: ScopeJoinReport,
)
    requires
        old(transport)@.wf(),
        call_ensures(JoinRun::next, (&run,), next),
        call_ensures(JoinRun::finish, (run, transport), report),
    ensures
        (next is None) == (run@.remaining.len() == 0),
        report@.clients == run@.report.clients,
        report@.tasks_joined == run@.report.tasks_joined,
        report@.timed_out == run@.report.timed_out,
        report@.failures == run@.report.failures,
        report@.cleanup_complete == (run@.report.cleanup_complete && run@.remaining.len() == 0),
        final(transport)@ == (TransportView { raw: final(transport)@.raw, ..old(transport)@ }),
        final(transport)@.raw.all == old(transport)@.raw.all,
{
}

/// Whether exactly these clients closed, and nothing else changed.
pub open spec fn closes_exactly(
    before: TransportView,
    after: TransportView,
    generations: Seq<u64>,
    generation: u64,
) -> bool {
    &&& after.clients.dom().contains(generation) == before.clients.dom().contains(generation)
    &&& before.clients.dom().contains(generation) && generations.contains(generation) ==> closes(
        before.clients[generation],
        after.clients[generation],
    )
    &&& before.clients.dom().contains(generation) && !generations.contains(generation)
        ==> after.clients[generation] == before.clients[generation]
}

/// Shutting an owner down closes the owner and every client that it acquired, and no other, and
/// awaits all of these, in the order in which they were acquired. Shutting one client down closes
/// and awaits that one. Requesting the close of an owner closes the same and awaits nobody.
pub proof fn law_shutdown_closes_what_is_owned(
    scope: ClientScope,
    asked: &mut Transport,
    transport: &mut Transport,
    run: JoinRun,
    single: &mut Transport,
    only: u64,
    single_run: JoinRun,
    generation: u64,
)
    requires
        old(asked)@.wf(),
        call_ensures(ClientScope::request_close, (&scope, asked), ()),
        old(transport)@.wf(),
        call_ensures(ClientScope::close_and_join, (&scope, transport), run),
        old(single)@.wf(),
        call_ensures(Transport::close_and_join, (single, only), single_run),
    ensures
        ({
            let before = old(transport)@;
            let after = final(transport)@;
            let owned = if before.scopes.dom().contains(scope.id()) {
                before.scopes[scope.id()].clients
            } else {
                Seq::empty()
            };
            &&& run@.remaining == owned
            &&& run@.report.clients == owned.len() && run@.report.tasks_joined == 0
            &&& run@.report.failures.len() == 0 && !run@.report.timed_out
            &&& run@.report.cleanup_complete
            &&& closes_exactly(before, after, owned, generation)
            &&& before.scopes.dom().contains(scope.id()) ==> after.scopes[scope.id()].closed
                && after.scopes[scope.id()].clients == owned
            &&& after.scopes.remove(scope.id()) == before.scopes.remove(scope.id())
            &&& after.scopes.dom() == before.scopes.dom()
            &&& after == (TransportView { clients: after.clients, scopes: after.scopes, ..before })
        }),
        ({
            let before = old(asked)@;
            let after = final(asked)@;
            let owned = if before.scopes.dom().contains(scope.id()) {
                before.scopes[scope.id()].clients
            } else {
                Seq::empty()
            };
            &&& closes_exactly(before, after, owned, generation)
            &&& before.scopes.dom().contains(scope.id()) ==> after.scopes[scope.id()].closed
                && after.scopes[scope.id()].clients == owned
            &&& after.scopes.remove(scope.id()) == before.scopes.remove(scope.id())
            &&& after.scopes.dom() == before.scopes.dom()
            &&& after == (TransportView { clients: after.clients, scopes: after.scopes, ..before })
        }),
        single_run@.remaining == seq![only],
        single_run@.report.clients == 1 && single_run@.report.tasks_joined == 0,
        single_run@.report.failures.len() == 0 && !single_run@.report.timed_out,
        single_run@.report.cleanup_complete,
        closes_exactly(old(single)@, final(single)@, seq![only], generation),
        final(single)@ == (TransportView { clients: final(single)@.clients, ..old(single)@ }),
{
    assert(final(transport)@.scopes.dom() =~= old(transport)@.scopes.dom());
    assert(final(asked)@.scopes.dom() =~= old(asked)@.scopes.dom());
    assert(final(transport)@.scopes.remove(scope.id()) =~= old(transport)@.scopes.remove(
        scope.id(),
    ));
    assert(final(asked)@.scopes.remove(scope.id()) =~= old(asked)@.scopes.remove(scope.id()));
}

/// A new owner is one that was never counted, and has acquired nothing; everything else stays. Work
/// for an owner is done by its number, and by zero for nobody.
pub proof fn law_new_owner_has_nothing(
    transport: &mut Transport,
    scope: ClientScope,
    active: u64,
    chosen: Option<u64>,
    id: u64,
)
    requires
        old(transport)@.wf(),
        old(transport)@.next_scope < u64::MAX,
        call_ensures(ClientScope::new, (transport,), scope),
        call_ensures(ClientScope::active, (&scope,), active),
        call_ensures(scope_id, (chosen,), id),
    ensures
        active == scope.id(),
        active != 0,
        !old(transport)@.scopes.dom().contains(active),
        final(transport)@.scopes.dom().contains(active),
        !final(transport)@.scopes[active].closed,
        final(transport)@.scopes[active].clients.len() == 0,
        final(transport)@.scopes.remove(active) == old(transport)@.scopes,
        final(transport)@.next_scope > active,
        final(transport)@ == (TransportView {
            scopes: final(transport)@.scopes,
            next_scope: final(transport)@.next_scope,
            ..old(transport)@
        }),
        chosen is Some ==> id == chosen->0,
        chosen is None ==> id == 0,
{
    let before = old(transport)@;
    if before.scopes.dom().contains(active) {
        assert(before.scope_wf(active));
    }
    assert(final(transport)@.scopes.remove(active) =~= before.scopes);
}

/// Letting go of an owner closes every client that it acquired, takes their own registrations, and
/// no other, and forgets the owner. Every other owner and every other client stays.
pub proof fn law_released_owner_is_gone(
    scope: ClientScope,
    transport: &mut Transport,
    generation: u64,
    url: Seq<char>,
)
    requires
        old(transport)@.wf(),
        call_ensures(ClientScope::release, (scope, transport), ()),
    ensures
        ({
            let before = old(transport)@;
            let after = final(transport)@;
            let owned = if before.scopes.dom().contains(scope.id()) {
                before.scopes[scope.id()].clients
            } else {
                Seq::empty()
            };
            &&& closes_exactly(before, after, owned, generation)
            &&& after.registry.dom().contains(url) == (before.registry.dom().contains(url)
                && !owned.contains(before.registry[url]))
            &&& after.registry.dom().contains(url) ==> after.registry[url] == before.registry[url]
            &&& !after.scopes.dom().contains(scope.id())
            &&& after.scopes == before.scopes.remove(scope.id())
            &&& after.next_generation == before.next_generation
            &&& after.next_scope == before.next_scope
            &&& after.raw.all == before.raw.all
        }),
{
    let before = old(transport)@;
    let id = scope.id();
    let owned = before.owned(id);
    before.lemma_scope_closed_wf(id);
    let closed = before.scope_closed(id);
    closed.lemma_without_each(owned);
    let removed = closed.without_each(owned);
    assert(removed.clients == closed.clients);
    assert(removed.registry.dom().contains(url) == (closed.registry.dom().contains(url)
        && !owned.contains(closed.registry[url])));
    assert(final(transport)@.scopes =~= before.scopes.remove(id));
}

} // verus!
