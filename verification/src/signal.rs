//! The signal subsystem: bind, poll and unbind, and the events of the
//! subscriptions' streams.
//!
//! The subsystem decides; it does no waiting and no input or output. Its
//! caller subscribes with the host, listens to the streams and wakes the tasks
//! that poll, and reports what happened: whether the host accepted a
//! subscription, and each event of a stream that a poll listens to. Every
//! operation answers with what the caller has to do next: the handle to keep
//! the subscription under, whether a poll listens or waits, and which polls
//! resolve, with which outcome.

use vstd::prelude::*;
use crate::error::SignalError;
use crate::model::{all_ended, PollStart, Resolution, ResourceView, StreamEvent, SubsystemView};
use crate::table::{HandleTable, MAX_HANDLE, SLOT_LIMIT};

verus! {

/// The record of one live subscription.
struct SignalResource {
    signo: i32,
    ended: bool,
    waiters: Vec<u64>,
}

impl View for SignalResource {
    type V = ResourceView;

    closed spec fn view(&self) -> ResourceView {
        ResourceView { signo: self.signo, ended: self.ended, waiters: self.waiters@ }
    }
}

/// What an event of a stream does to the polls on its subscription.
pub struct Delivery {
    /// The polls that resolve, oldest first.
    pub resolved: Vec<Resolution>,
    /// The ticket of the poll that holds the subscription from now on and has
    /// to listen, if one was waiting.
    pub granted: Option<u64>,
}

/// The signal subsystem of one process.
pub struct SignalSubsystem {
    supported: bool,
    table: HandleTable<SignalResource>,
    tickets: u64,
}

impl View for SignalSubsystem {
    type V = SubsystemView;

    closed spec fn view(&self) -> SubsystemView {
        SubsystemView {
            supported: self.supported,
            resources: Map::new(
                |handle: u64| self.table@.contains_key(handle),
                |handle: u64| self.table@[handle]@,
            ),
            retired: self.table.retired(),
            tickets: self.tickets,
        }
    }
}

/// Every ticket of `tickets`, in order, resolved as "ended".
fn resolve_all_ended(tickets: &Vec<u64>) -> (resolved: Vec<Resolution>)
    ensures
        resolved@ == all_ended(tickets@),
{
    let mut resolved: Vec<Resolution> = Vec::new();
    let mut i: usize = 0;
    while i < tickets.len()
        invariant
            i <= tickets@.len(),
            resolved@.len() == i,
            forall|k: int|
                0 <= k < i ==> resolved@[k] == (Resolution { ticket: tickets@[k], ended: true }),
        decreases tickets@.len() - i,
    {
        resolved.push(Resolution { ticket: tickets[i], ended: true });
        i += 1;
    }
    resolved
}

impl SignalSubsystem {
    /// The subsystem's invariant: the handle table is consistent, and the
    /// model meets [`SubsystemView::inv`].
    pub closed spec fn wf(&self) -> bool {
        self.table.wf() && self@.inv()
    }

    /// The number of slots that the handle table holds. It is zero at process
    /// start, never shrinks, and grows by one where a bind succeeds while no
    /// slot is vacant.
    pub closed spec fn slots(&self) -> nat {
        self.table.slots()
    }

    /// The number of slots of the handle table that are vacant and can be
    /// taken again.
    pub closed spec fn vacancies(&self) -> nat {
        self.table.vacancies()
    }

    /// Whether one more subscription can be stored: a slot is vacant, or the
    /// table can hold one more slot.
    pub open spec fn has_room(&self) -> bool {
        self.vacancies() > 0 || self.slots() < SLOT_LIMIT
    }

    /// Whether a ticket is left for one more poll.
    pub open spec fn has_ticket(&self) -> bool {
        self@.tickets < u64::MAX
    }

    /// What a bind of `signo` makes of the subsystem `before`, and returns in
    /// `r`; `subscribed` tells whether the host accepted the subscription.
    /// The bind fails with [`SubsystemView::bind_error`], and then changes
    /// nothing. Else it returns a handle that was never issued before, stores
    /// the subscription under it, and takes a vacant slot, or a new one where
    /// none is vacant.
    pub open spec fn is_bind_of(
        &self,
        before: &SignalSubsystem,
        signo: i32,
        subscribed: bool,
        r: Result<u64, SignalError>,
    ) -> bool {
        match before@.bind_error(subscribed) {
            Some(error) => {
                &&& r == Err::<u64, SignalError>(error)
                &&& self@ == before@
                &&& self.same_room(before)
            },
            None => {
                &&& r is Ok
                &&& r->Ok_0 <= MAX_HANDLE
                &&& before@.fresh(r->Ok_0)
                &&& self@ == before@.bound(r->Ok_0, signo)
                &&& if before.vacancies() > 0 {
                    &&& self.slots() == before.slots()
                    &&& self.vacancies() == before.vacancies() - 1
                } else {
                    &&& self.slots() == before.slots() + 1
                    &&& self.vacancies() == 0
                }
            },
        }
    }

    /// What a poll on `rid` makes of the subsystem `before`, and returns in
    /// `r`. The poll fails with [`SubsystemView::access_error`], and then
    /// changes nothing. Else it starts as [`SubsystemView::poll_start`] says.
    pub open spec fn is_poll_of(
        &self,
        before: &SignalSubsystem,
        rid: u64,
        r: Result<PollStart, SignalError>,
    ) -> bool {
        &&& self.same_room(before)
        &&& match before@.access_error(rid) {
            Some(error) => {
                &&& r == Err::<PollStart, SignalError>(error)
                &&& self@ == before@
            },
            None => {
                &&& r == Ok::<PollStart, SignalError>(before@.poll_start(rid))
                &&& self@ == before@.polled(rid)
            },
        }
    }

    /// Whether `self` has as many slots and vacancies as `before`.
    pub open spec fn same_room(&self, before: &SignalSubsystem) -> bool {
        self.slots() == before.slots() && self.vacancies() == before.vacancies()
    }

    /// A well-formed subsystem meets the invariant of the model.
    pub proof fn lemma_wf_inv(&self)
        requires
            self.wf(),
        ensures
            self@.inv(),
    {
    }

    /// Whether the platform delivers signals.
    pub fn is_supported(&self) -> (supported: bool)
        ensures
            supported == self@.supported,
    {
        self.supported
    }

    /// Tells whether one more subscription can be stored.
    pub fn can_bind(&self) -> (room: bool)
        ensures
            room == self.has_room(),
    {
        self.table.room()
    }

    /// Tells whether a ticket is left for one more poll.
    pub fn can_poll(&self) -> (left: bool)
        ensures
            left == self.has_ticket(),
    {
        self.tickets < u64::MAX
    }

    /// Tells whether a poll on `rid` takes a ticket.
    pub fn takes_ticket(&self, rid: u64) -> (takes: bool)
        requires
            self.wf(),
        ensures
            takes == self@.takes_ticket(rid),
    {
        if !self.supported {
            return false;
        }
        match self.table.lookup(rid) {
            Some(resource) => !resource.ended,
            None => false,
        }
    }

    /// Tells whether `rid` names a live subscription.
    pub fn is_bound(&self, rid: u64) -> (bound: bool)
        requires
            self.wf(),
        ensures
            bound == self@.resources.contains_key(rid),
    {
        self.table.contains(rid)
    }

    /// The signal kind that `rid` is bound to, if `rid` is live.
    pub fn signal_kind(&self, rid: u64) -> (signo: Option<i32>)
        requires
            self.wf(),
        ensures
            signo is Some <==> self@.resources.contains_key(rid),
            signo is Some ==> signo->0 == self@.resources[rid].signo,
    {
        match self.table.lookup(rid) {
            Some(resource) => Some(resource.signo),
            None => None,
        }
    }
}

/// The subsystem at process start. `native` tells whether the platform
/// delivers POSIX-style signals; where it does not, every operation of the
/// subsystem fails with [`SignalError::UnsupportedPlatform`].
pub fn init(native: bool) -> (state: SignalSubsystem)
    ensures
        state.wf(),
        state.slots() == 0,
        state.vacancies() == 0,
        state@ == SubsystemView::initial(native),
{
    let state = SignalSubsystem { supported: native, table: HandleTable::new(), tickets: 0 };
    proof {
        assert(state@.resources =~= Map::<u64, ResourceView>::empty());
    }
    state
}

/// Registers a subscription to the signal kind `signo`. `subscribed` tells
/// whether the host accepted the subscription. On success the result is the
/// new handle: one that was never issued before, under which the caller keeps
/// the subscription.
pub fn op_signal_bind(state: &mut SignalSubsystem, signo: i32, subscribed: bool) -> (r: Result<
    u64,
    SignalError,
>)
    requires
        old(state).wf(),
        old(state)@.bind_error(subscribed) is None ==> old(state).has_room(),
    ensures
        final(state).wf(),
        final(state).is_bind_of(old(state), signo, subscribed, r),
{
    if !state.supported {
        return Err(SignalError::UnsupportedPlatform);
    }
    if !subscribed {
        return Err(SignalError::UnsupportedSignalKind);
    }
    let resource = SignalResource { signo, ended: false, waiters: Vec::new() };
    let rid = state.table.allocate(resource);
    proof {
        old(state)@.lemma_bound_inv(rid, signo);
        assert(state@.resources =~= old(state)@.bound(rid, signo).resources);
    }
    Ok(rid)
}

/// Binds as [`op_signal_bind`] does, if the bind fails anyway or the table has
/// room: `None` exactly where a subscription would have to be stored and the
/// table has no room, and then nothing changes.
pub fn try_signal_bind(state: &mut SignalSubsystem, signo: i32, subscribed: bool) -> (r: Option<
    Result<u64, SignalError>,
>)
    requires
        old(state).wf(),
    ensures
        final(state).wf(),
        r is None <==> old(state)@.bind_error(subscribed) is None && !old(state).has_room(),
        match r {
            Some(bound) => final(state).is_bind_of(old(state), signo, subscribed, bound),
            None => final(state)@ == old(state)@ && final(state).same_room(old(state)),
        },
{
    if state.supported && subscribed && !state.can_bind() {
        None
    } else {
        Some(op_signal_bind(state, signo, subscribed))
    }
}

/// Starts a poll on `rid`. The poll resolves at once where the stream has
/// ended; else it gets the next ticket, and listens if no other poll is in
/// flight on `rid`, or waits behind those that are.
pub fn op_signal_poll(state: &mut SignalSubsystem, rid: u64) -> (r: Result<PollStart, SignalError>)
    requires
        old(state).wf(),
        old(state)@.takes_ticket(rid) ==> old(state).has_ticket(),
    ensures
        final(state).wf(),
        final(state).is_poll_of(old(state), rid, r),
{
    if !state.supported {
        return Err(SignalError::UnsupportedPlatform);
    }
    let ended = match state.table.lookup(rid) {
        Some(resource) => resource.ended,
        None => {
            return Err(SignalError::UnknownHandle);
        },
    };
    if ended {
        return Ok(PollStart::Ended);
    }
    let ticket: u64 = state.tickets;
    let resource = state.table.lookup_mut(rid);
    let first = resource.waiters.len() == 0;
    resource.waiters.push(ticket);
    state.tickets = ticket + 1;
    proof {
        old(state)@.lemma_polled_inv(rid);
        assert(state@.resources =~= old(state)@.polled(rid).resources);
    }
    if first {
        Ok(PollStart::Listening(ticket))
    } else {
        Ok(PollStart::Queued(ticket))
    }
}

/// Polls as [`op_signal_poll`] does, if the poll takes no ticket or a ticket
/// is left: `None` exactly where the poll would take a ticket and none is
/// left, and then nothing changes.
pub fn try_signal_poll(state: &mut SignalSubsystem, rid: u64) -> (r: Option<
    Result<PollStart, SignalError>,
>)
    requires
        old(state).wf(),
    ensures
        final(state).wf(),
        r is None <==> old(state)@.takes_ticket(rid) && !old(state).has_ticket(),
        match r {
            Some(started) => final(state).is_poll_of(old(state), rid, started),
            None => final(state)@ == old(state)@ && final(state).same_room(old(state)),
        },
{
    if !state.can_poll() && state.takes_ticket(rid) {
        None
    } else {
        Some(op_signal_poll(state, rid))
    }
}

/// Removes the subscription under `rid` and cancels it: the result lists the
/// polls that were in flight on it, oldest first, each resolved as "ended".
/// The handle is retired: no later operation knows it.
pub fn op_signal_unbind(state: &mut SignalSubsystem, rid: u64) -> (r: Result<
    Vec<Resolution>,
    SignalError,
>)
    requires
        old(state).wf(),
    ensures
        final(state).wf(),
        final(state).slots() == old(state).slots(),
        match old(state)@.access_error(rid) {
            Some(error) => {
                &&& r is Err
                &&& r->Err_0 == error
                &&& final(state)@ == old(state)@
                &&& final(state).vacancies() == old(state).vacancies()
            },
            None => {
                &&& r is Ok
                &&& r->Ok_0@ == old(state)@.cancelled(rid)
                &&& final(state)@ == old(state)@.unbound(rid)
                &&& old(state).vacancies() <= final(state).vacancies() <= old(state).vacancies()
                    + 1
            },
        },
{
    if !state.supported {
        return Err(SignalError::UnsupportedPlatform);
    }
    match state.table.destroy(rid) {
        Some(resource) => {
            let cancelled = resolve_all_ended(&resource.waiters);
            proof {
                old(state)@.lemma_unbound_inv(rid);
                assert(state@.resources =~= old(state)@.unbound(rid).resources);
            }
            Ok(cancelled)
        },
        None => {
            proof {
                assert(state@.resources =~= old(state)@.resources);
            }
            Err(SignalError::UnknownHandle)
        },
    }
}

/// Takes an event of the stream of `rid`. A signal resolves the poll that
/// holds the subscription as "not ended" and hands the subscription to the
/// oldest poll that waited; with no poll in flight it changes nothing. The end
/// of the stream resolves every poll in flight as "ended", and every later
/// poll on `rid` resolves at once.
pub fn op_signal_deliver(state: &mut SignalSubsystem, rid: u64, event: StreamEvent) -> (r: Result<
    Delivery,
    SignalError,
>)
    requires
        old(state).wf(),
    ensures
        final(state).wf(),
        final(state).same_room(old(state)),
        match old(state)@.access_error(rid) {
            Some(error) => {
                &&& r is Err
                &&& r->Err_0 == error
                &&& final(state)@ == old(state)@
            },
            None => {
                &&& r is Ok
                &&& r->Ok_0.resolved@ == old(state)@.resolved(rid, event)
                &&& r->Ok_0.granted == old(state)@.granted(rid, event)
                &&& final(state)@ == old(state)@.delivered(rid, event)
            },
        },
{
    if !state.supported {
        return Err(SignalError::UnsupportedPlatform);
    }
    if !state.table.contains(rid) {
        return Err(SignalError::UnknownHandle);
    }
    let resource = state.table.lookup_mut(rid);
    let mut resolved: Vec<Resolution> = Vec::new();
    let mut granted: Option<u64> = None;
    match event {
        StreamEvent::Signal => {
            if resource.waiters.len() > 0 {
                let ticket = resource.waiters.remove(0);
                resolved.push(Resolution { ticket, ended: false });
                if resource.waiters.len() > 0 {
                    granted = Some(resource.waiters[0]);
                }
            }
        },
        StreamEvent::Closed => {
            resolved = resolve_all_ended(&resource.waiters);
            resource.ended = true;
            resource.waiters.clear();
        },
    }
    proof {
        old(state)@.lemma_delivered_inv(rid, event);
        assert(state@.resources =~= old(state)@.delivered(rid, event).resources);
        assert(resolved@ =~= old(state)@.resolved(rid, event));
    }
    Ok(Delivery { resolved, granted })
}

/// Withdraws the poll with `ticket` from `rid`, for a caller that gives the
/// poll up before it resolves. The poll leaves the line; had it held the
/// subscription, the result is the ticket of the next in line, which holds it
/// from now on and has to listen. Nothing changes where no such poll is in
/// flight on `rid`.
pub fn op_signal_withdraw(state: &mut SignalSubsystem, rid: u64, ticket: u64) -> (r: Result<
    Option<u64>,
    SignalError,
>)
    requires
        old(state).wf(),
    ensures
        final(state).wf(),
        final(state).same_room(old(state)),
        match old(state)@.access_error(rid) {
            Some(error) => {
                &&& r == Err::<Option<u64>, SignalError>(error)
                &&& final(state)@ == old(state)@
            },
            None => {
                &&& r == Ok::<Option<u64>, SignalError>(
                    if old(state)@.waiters(rid).contains(ticket) {
                        old(state)@.heir(rid, ticket)
                    } else {
                        None
                    },
                )
                &&& final(state)@ == old(state)@.withdrawn(rid, ticket)
            },
        },
{
    if !state.supported {
        return Err(SignalError::UnsupportedPlatform);
    }
    if !state.table.contains(rid) {
        return Err(SignalError::UnknownHandle);
    }
    let resource = state.table.lookup_mut(rid);
    let mut i: usize = 0;
    while i < resource.waiters.len() && resource.waiters[i] != ticket
        invariant
            i <= resource.waiters@.len(),
            forall|k: int| 0 <= k < i ==> resource.waiters@[k] != ticket,
        decreases resource.waiters@.len() - i,
    {
        i += 1;
    }
    let mut heir: Option<u64> = None;
    if i < resource.waiters.len() {
        resource.waiters.remove(i);
        if i == 0 && resource.waiters.len() > 0 {
            heir = Some(resource.waiters[0]);
        }
    }
    proof {
        let before = old(state)@;
        before.lemma_withdrawn_inv(rid, ticket);
        if before.waiters(rid).contains(ticket) {
            let gap = before.place(rid, ticket);
            assert(before.waiters(rid)[i as int] == before.waiters(rid)[gap]);
            assert(i == gap);
        }
        assert(state@.resources =~= before.withdrawn(rid, ticket).resources);
    }
    Ok(heir)
}

} // verus!
