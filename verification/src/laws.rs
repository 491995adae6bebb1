//! What holds of the signal subsystem over whole runs: statements that relate
//! several operations, proved over the model of [`crate::model`].

use vstd::prelude::*;
use crate::error::SignalError;
use crate::model::{Phase, PollStart, Resolution, StreamEvent, SubsystemView};

verus! {

/// One operation on the subsystem.
pub enum Step {
    /// A bind that stores a subscription to `signo` under `handle`.
    Bind { handle: u64, signo: i32 },
    /// A poll on `handle`.
    Poll { handle: u64 },
    /// An unbind of `handle`.
    Unbind { handle: u64 },
    /// An event of the stream of `handle`.
    Deliver { handle: u64, event: StreamEvent },
    /// The withdrawal of the poll with `ticket` from `handle`.
    Withdraw { handle: u64, ticket: u64 },
}

/// The handle that `step` is about.
pub open spec fn subject(step: Step) -> u64 {
    match step {
        Step::Bind { handle, signo } => handle,
        Step::Poll { handle } => handle,
        Step::Unbind { handle } => handle,
        Step::Deliver { handle, event } => handle,
        Step::Withdraw { handle, ticket } => handle,
    }
}

/// Whether `step` can happen in `state`: whether the operation succeeds there.
pub open spec fn enabled(state: SubsystemView, step: Step) -> bool {
    match step {
        Step::Bind { handle, signo } => state.supported && state.fresh(handle),
        Step::Poll { handle } => state.access_error(handle) is None && (state.takes_ticket(
            handle,
        ) ==> state.tickets < u64::MAX),
        Step::Unbind { handle } => state.access_error(handle) is None,
        Step::Deliver { handle, event } => state.access_error(handle) is None,
        Step::Withdraw { handle, ticket } => state.access_error(handle) is None,
    }
}

/// The subsystem after `step`. An operation that fails changes nothing.
pub open spec fn after(state: SubsystemView, step: Step) -> SubsystemView {
    if !enabled(state, step) {
        state
    } else {
        match step {
            Step::Bind { handle, signo } => state.bound(handle, signo),
            Step::Poll { handle } => state.polled(handle),
            Step::Unbind { handle } => state.unbound(handle),
            Step::Deliver { handle, event } => state.delivered(handle, event),
            Step::Withdraw { handle, ticket } => state.withdrawn(handle, ticket),
        }
    }
}

/// The polls that `step` resolves, each with its outcome.
pub open spec fn outcome(state: SubsystemView, step: Step) -> Seq<Resolution> {
    if !enabled(state, step) {
        Seq::empty()
    } else {
        match step {
            Step::Unbind { handle } => state.cancelled(handle),
            Step::Deliver { handle, event } => state.resolved(handle, event),
            _ => Seq::empty(),
        }
    }
}

/// Whether the poll with `ticket` is among `resolutions`.
pub open spec fn resolves(resolutions: Seq<Resolution>, ticket: u64) -> bool {
    exists|i: int| 0 <= i < resolutions.len() && (#[trigger] resolutions[i]).ticket == ticket
}

/// The subsystem after the operations of `steps`, in order.
pub open spec fn run(state: SubsystemView, steps: Seq<Step>) -> SubsystemView
    decreases steps.len(),
{
    if steps.len() == 0 {
        state
    } else {
        after(run(state, steps.drop_last()), steps.last())
    }
}

/// Every operation keeps the invariant.
pub proof fn lemma_step_inv(state: SubsystemView, step: Step)
    requires
        state.inv(),
    ensures
        after(state, step).inv(),
{
    if enabled(state, step) {
        match step {
            Step::Bind { handle, signo } => state.lemma_bound_inv(handle, signo),
            Step::Poll { handle } => state.lemma_polled_inv(handle),
            Step::Unbind { handle } => state.lemma_unbound_inv(handle),
            Step::Deliver { handle, event } => state.lemma_delivered_inv(handle, event),
            Step::Withdraw { handle, ticket } => state.lemma_withdrawn_inv(handle, ticket),
        }
    }
}

/// Every run keeps the invariant, never forgets a handle that was issued, and
/// never revives a handle that was retired.
pub proof fn lemma_run_inv(state: SubsystemView, steps: Seq<Step>)
    requires
        state.inv(),
    ensures
        run(state, steps).inv(),
        run(state, steps).supported == state.supported,
        forall|handle: u64| !state.fresh(handle) ==> !#[trigger] run(state, steps).fresh(handle),
        forall|handle: u64|
            state.retired.contains(handle)
                ==> #[trigger] run(state, steps).retired.contains(handle),
    decreases steps.len(),
{
    if steps.len() > 0 {
        let before = run(state, steps.drop_last());
        lemma_run_inv(state, steps.drop_last());
        lemma_step_inv(before, steps.last());
        assert forall|handle: u64| !state.fresh(handle) implies
            !#[trigger] run(state, steps).fresh(handle) by {
            assert(!before.fresh(handle));
        }
        assert forall|handle: u64| state.retired.contains(handle) implies
            #[trigger] run(state, steps).retired.contains(handle) by {
            assert(before.retired.contains(handle));
        }
    }
}

/// The life of a handle: from unbound to bound by a bind of it; from bound to
/// polling by a poll on it, and back by a signal or the withdrawal of a poll;
/// to ended by the end of its stream; to destroyed by its unbind, from where
/// it never returns. No other operation, and no operation on another handle,
/// moves it.
pub proof fn lemma_phase_moves(state: SubsystemView, step: Step, handle: u64)
    requires
        state.inv(),
        state.phase(handle) != after(state, step).phase(handle),
    ensures
        subject(step) == handle,
        match after(state, step).phase(handle) {
            Phase::Unbound => false,
            Phase::Bound => (state.phase(handle) is Unbound && step is Bind) || (state.phase(
                handle,
            ) is Polling && ((step is Deliver && step->event == StreamEvent::Signal)
                || step is Withdraw)),
            Phase::Polling => state.phase(handle) is Bound && step is Poll,
            Phase::Ended => (state.phase(handle) is Bound || state.phase(handle) is Polling)
                && step is Deliver && step->event == StreamEvent::Closed,
            Phase::Destroyed => (state.phase(handle) is Bound || state.phase(handle) is Polling
                || state.phase(handle) is Ended) && step is Unbind,
        },
{
}

/// Two binds never give the same handle, whatever happens between them: a
/// handle that was issued once is never fresh again.
pub proof fn lemma_bound_handles_differ(
    state: SubsystemView,
    first: u64,
    signo: i32,
    between: Seq<Step>,
    second: u64,
)
    requires
        state.inv(),
        state.supported,
        state.fresh(first),
        run(state.bound(first, signo), between).fresh(second),
    ensures
        first != second,
{
    state.lemma_bound_inv(first, signo);
    lemma_run_inv(state.bound(first, signo), between);
    assert(!state.bound(first, signo).fresh(first));
    assert(!run(state.bound(first, signo), between).fresh(first));
}

/// The subscriptions are independent: an operation on one handle leaves the
/// subscription of every other handle as it was, and resolves none of the
/// polls that are in flight on another handle.
pub proof fn lemma_other_handles_untouched(
    state: SubsystemView,
    step: Step,
    other: u64,
    ticket: u64,
)
    requires
        state.inv(),
        state.resources.contains_key(other),
        subject(step) != other,
    ensures
        after(state, step).resources.contains_key(other),
        after(state, step).resources[other] == state.resources[other],
        state.in_flight_on(other, ticket) ==> !resolves(outcome(state, step), ticket),
{
    let resolutions = outcome(state, step);
    if state.in_flight_on(other, ticket) && resolves(resolutions, ticket) {
        let j = choose|j: int|
            0 <= j < state.waiters(other).len() && state.waiters(other)[j] == ticket;
        let i = choose|i: int|
            0 <= i < resolutions.len() && (#[trigger] resolutions[i]).ticket == ticket;
        assert(state.waiters(subject(step))[i] != state.waiters(other)[j]);
    }
}

/// Unbinding a bound handle succeeds, and from then on, whatever else happens,
/// every operation on that handle fails with
/// [`SignalError::UnknownHandle`]: a second unbind, and every poll.
pub proof fn lemma_unbound_handle_stays_unknown(
    state: SubsystemView,
    handle: u64,
    later: Seq<Step>,
)
    requires
        state.inv(),
        state.resources.contains_key(handle),
    ensures
        state.access_error(handle) is None,
        run(state.unbound(handle), later).access_error(handle) == Some(
            SignalError::UnknownHandle,
        ),
{
    state.lemma_unbound_inv(handle);
    lemma_run_inv(state.unbound(handle), later);
    let end = run(state.unbound(handle), later);
    assert(state.unbound(handle).retired.contains(handle));
    assert(end.retired.contains(handle));
    assert(!end.resources.contains_key(handle));
}

/// A handle that was never bound, or that was unbound, is unknown to poll,
/// unbind and deliver; one that was unbound stays unknown after every run.
pub proof fn lemma_unknown_handle(state: SubsystemView, handle: u64, later: Seq<Step>)
    requires
        state.inv(),
        state.supported,
        state.fresh(handle) || state.retired.contains(handle),
    ensures
        state.access_error(handle) == Some(SignalError::UnknownHandle),
        state.retired.contains(handle) ==> run(state, later).access_error(handle) == Some(
            SignalError::UnknownHandle,
        ),
{
    lemma_run_inv(state, later);
    if state.retired.contains(handle) {
        let end = run(state, later);
        assert(end.retired.contains(handle));
        assert(!end.resources.contains_key(handle));
    }
}

/// Unbinding resolves every poll that is suspended on the handle, and resolves
/// it as "ended": none is left in flight.
pub proof fn lemma_unbind_resolves_suspended_polls(
    state: SubsystemView,
    handle: u64,
    ticket: u64,
)
    requires
        state.inv(),
        state.in_flight_on(handle, ticket),
    ensures
        state.access_error(handle) is None,
        state.cancelled(handle).contains(Resolution { ticket, ended: true }),
        forall|i: int|
            0 <= i < state.cancelled(handle).len() ==> (#[trigger] state.cancelled(handle)[i]).ended,
        !state.unbound(handle).in_flight(ticket),
{
    let j = choose|j: int|
        0 <= j < state.waiters(handle).len() && state.waiters(handle)[j] == ticket;
    assert(state.cancelled(handle)[j] == Resolution { ticket, ended: true });
    let post = state.unbound(handle);
    assert forall|other: u64| !post.in_flight_on(other, ticket) by {
        if post.in_flight_on(other, ticket) {
            let k = choose|k: int|
                0 <= k < post.waiters(other).len() && post.waiters(other)[k] == ticket;
            assert(state.waiters(other)[k] == state.waiters(handle)[j]);
        }
    }
}

/// At most one poll holds a subscription: a poll that starts while another is
/// in flight on the handle waits behind it, under a ticket that no poll in
/// flight has, and leaves the holder in place.
pub proof fn lemma_later_poll_waits(state: SubsystemView, handle: u64)
    requires
        state.inv(),
        state.access_error(handle) is None,
        state.holder(handle) is Some,
        state.tickets < u64::MAX,
    ensures
        state.poll_start(handle) == PollStart::Queued(state.tickets),
        state.polled(handle).holder(handle) == state.holder(handle),
        state.polled(handle).waiters(handle) == state.waiters(handle).push(state.tickets),
        !state.in_flight(state.tickets),
{
    assert forall|other: u64| !state.in_flight_on(other, state.tickets) by {
        if state.in_flight_on(other, state.tickets) {
            let k = choose|k: int|
                0 <= k < state.waiters(other).len() && state.waiters(other)[k] == state.tickets;
            assert(state.waiters(other)[k] < state.tickets);
        }
    }
}

/// Polls on one handle are served in the order in which they were submitted:
/// the poll that holds the subscription, and that a signal resolves, is the
/// oldest in flight on the handle.
pub proof fn lemma_oldest_poll_is_served(state: SubsystemView, handle: u64, ticket: u64)
    requires
        state.inv(),
        state.in_flight_on(handle, ticket),
    ensures
        state.holder(handle) is Some,
        state.holder(handle)->0 <= ticket,
        state.resolved(handle, StreamEvent::Signal) == seq![
            Resolution { ticket: state.holder(handle)->0, ended: false },
        ],
{
    let j = choose|j: int|
        0 <= j < state.waiters(handle).len() && state.waiters(handle)[j] == ticket;
    if j > 0 {
        assert(state.waiters(handle)[0] < state.waiters(handle)[j]);
    }
}

/// A poll that waits gets the subscription only in the step that takes the
/// poll before it out of the line: a signal on its handle, which resolves the
/// holder as "not ended", or the withdrawal of the holder. Either hands the
/// subscription to the poll next in line.
pub proof fn lemma_wait_ends_when_holder_leaves(
    state: SubsystemView,
    step: Step,
    handle: u64,
    ticket: u64,
)
    requires
        state.inv(),
        state.in_flight_on(handle, ticket),
        state.holder(handle) != Some(ticket),
        after(state, step).holder(handle) == Some(ticket),
    ensures
        state.holder(handle) is Some,
        step == (Step::Deliver { handle, event: StreamEvent::Signal }) || step == (Step::Withdraw {
            handle,
            ticket: state.holder(handle)->0,
        }),
        step is Deliver ==> outcome(state, step) == seq![
            Resolution { ticket: state.holder(handle)->0, ended: false },
        ] && state.granted(handle, StreamEvent::Signal) == Some(ticket),
        step is Withdraw ==> state.heir(handle, state.holder(handle)->0) == Some(ticket),
{
    let j = choose|j: int|
        0 <= j < state.waiters(handle).len() && state.waiters(handle)[j] == ticket;
    assert(state.waiters(handle)[0] != ticket);
    let post = after(state, step);
    if enabled(state, step) {
        match step {
            Step::Bind { handle: h, signo } => {},
            Step::Poll { handle: h } => {
                if h == handle && !state.resources[h].ended {
                    assert(post.waiters(handle)[0] == state.waiters(handle)[0]);
                }
            },
            Step::Unbind { handle: h } => {},
            Step::Deliver { handle: h, event } => {
                if h == handle && event == StreamEvent::Signal {
                    assert(post.waiters(handle)[0] == state.waiters(handle)[1]);
                }
            },
            Step::Withdraw { handle: h, ticket: gone } => {
                if h == handle && state.waiters(handle).contains(gone) {
                    let gap = state.place(handle, gone);
                    if gap > 0 {
                        assert(post.waiters(handle)[0] == state.waiters(handle)[0]);
                    } else {
                        assert(post.waiters(handle)[0] == state.waiters(handle)[1]);
                        assert(state.waiters(handle)[1] == state.waiters(handle)[j]);
                    }
                }
            },
        }
    }
}

/// A poll that is withdrawn leaves the line, and every other poll on the
/// handle keeps its place relative to the others.
pub proof fn lemma_withdrawn_poll_leaves(state: SubsystemView, handle: u64, ticket: u64)
    requires
        state.inv(),
        state.in_flight_on(handle, ticket),
    ensures
        !state.withdrawn(handle, ticket).in_flight(ticket),
        state.withdrawn(handle, ticket).waiters(handle) == state.waiters(handle).remove(
            state.place(handle, ticket),
        ),
        state.waiters(handle)[state.place(handle, ticket)] == ticket,
{
    let post = state.withdrawn(handle, ticket);
    let gap = state.place(handle, ticket);
    assert forall|other: u64| !post.in_flight_on(other, ticket) by {
        if post.in_flight_on(other, ticket) {
            let k = choose|k: int|
                0 <= k < post.waiters(other).len() && post.waiters(other)[k] == ticket;
            let j = if other == handle && k >= gap {
                k + 1
            } else {
                k
            };
            assert(state.waiters(other)[j] == state.waiters(handle)[gap]);
        }
    }
}

} // verus!
