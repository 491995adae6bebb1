//! The mathematical model of the signal subsystem: what a subsystem is, and
//! what each operation makes of it.
//!
//! A poll in flight is known by its ticket. The tickets of the polls in flight
//! on one subscription form a queue in the order in which the polls were
//! submitted: the first holds the subscription and listens for the signal, the
//! others wait for their turn.

use vstd::prelude::*;
use crate::error::SignalError;

verus! {

/// How a poll starts.
#[derive(Clone, Copy, Debug, PartialEq, Eq, Structural)]
pub enum PollStart {
    /// The stream of the subscription has ended: the poll resolves at once,
    /// with "ended", and no ticket is issued.
    Ended,
    /// The poll holds the subscription: the caller listens for the signal
    /// under this ticket.
    Listening(u64),
    /// Another poll holds the subscription: this one waits for its turn under
    /// this ticket.
    Queued(u64),
}

/// What the stream of a subscription reports to the poll that listens.
#[derive(Clone, Copy, Debug, PartialEq, Eq, Structural)]
pub enum StreamEvent {
    /// The signal arrived.
    Signal,
    /// The stream has ended: no signal will ever arrive on it.
    Closed,
}

/// The outcome of one poll.
#[derive(Clone, Copy, Debug, PartialEq, Eq, Structural)]
pub struct Resolution {
    /// The ticket of the poll that resolves.
    pub ticket: u64,
    /// Whether the poll reports that the stream has ended.
    pub ended: bool,
}

/// Where a handle stands in its life.
pub enum Phase {
    /// Never issued.
    Unbound,
    /// Bound, with no poll in flight.
    Bound,
    /// Bound, with at least one poll in flight.
    Polling,
    /// Bound, and the stream has ended: every poll resolves at once.
    Ended,
    /// Unbound after it was bound. A handle never leaves this phase.
    Destroyed,
}

/// One live subscription.
#[verifier::ext_equal]
pub struct ResourceView {
    /// The signal kind that was bound.
    pub signo: i32,
    /// Whether the stream has reported its end.
    pub ended: bool,
    /// The tickets of the polls in flight, oldest first.
    pub waiters: Seq<u64>,
}

/// The whole subsystem.
#[verifier::ext_equal]
pub struct SubsystemView {
    /// Whether the platform delivers signals.
    pub supported: bool,
    /// The live subscriptions by handle.
    pub resources: Map<u64, ResourceView>,
    /// The handles whose subscriptions were unbound. The cancellation of each
    /// of them was triggered, once and for good.
    pub retired: Set<u64>,
    /// The ticket that the next poll gets; all smaller ones were issued.
    pub tickets: u64,
}

/// Every ticket of `tickets`, in order, resolved as "ended".
pub open spec fn all_ended(tickets: Seq<u64>) -> Seq<Resolution> {
    Seq::new(tickets.len(), |i: int| Resolution { ticket: tickets[i], ended: true })
}

impl SubsystemView {
    /// The subsystem at process start.
    pub open spec fn initial(supported: bool) -> SubsystemView {
        SubsystemView { supported, resources: Map::empty(), retired: Set::empty(), tickets: 0 }
    }

    /// Whether `handle` was never issued.
    pub open spec fn fresh(self, handle: u64) -> bool {
        !self.resources.contains_key(handle) && !self.retired.contains(handle)
    }

    /// The tickets of the polls in flight on `handle`, oldest first.
    pub open spec fn waiters(self, handle: u64) -> Seq<u64> {
        self.resources[handle].waiters
    }

    /// The ticket of the poll that holds the subscription of `handle`.
    pub open spec fn holder(self, handle: u64) -> Option<u64> {
        if self.resources.contains_key(handle) && self.waiters(handle).len() > 0 {
            Some(self.waiters(handle)[0])
        } else {
            None
        }
    }

    /// Whether the poll with `ticket` is in flight on `handle`.
    pub open spec fn in_flight_on(self, handle: u64, ticket: u64) -> bool {
        self.resources.contains_key(handle) && self.waiters(handle).contains(ticket)
    }

    /// Whether the poll with `ticket` is in flight.
    pub open spec fn in_flight(self, ticket: u64) -> bool {
        exists|handle: u64| self.in_flight_on(handle, ticket)
    }

    /// Where `handle` stands in its life.
    pub open spec fn phase(self, handle: u64) -> Phase {
        if self.retired.contains(handle) {
            Phase::Destroyed
        } else if !self.resources.contains_key(handle) {
            Phase::Unbound
        } else if self.resources[handle].ended {
            Phase::Ended
        } else if self.waiters(handle).len() > 0 {
            Phase::Polling
        } else {
            Phase::Bound
        }
    }

    /// What holds of every subsystem that the operations can reach: only a
    /// supported platform has subscriptions; no live handle is retired; a
    /// stream that has ended has no poll in flight; every ticket in flight was
    /// issued, and names one poll only; and the polls in flight on a handle
    /// stand in the order in which they were submitted.
    pub open spec fn inv(self) -> bool {
        &&& !self.supported ==> forall|handle: u64| !#[trigger] self.resources.contains_key(handle)
        &&& forall|handle: u64| #[trigger]
            self.resources.contains_key(handle) ==> !self.retired.contains(handle)
        &&& forall|handle: u64| #[trigger]
            self.resources.contains_key(handle) && self.resources[handle].ended
                ==> self.waiters(handle).len() == 0
        &&& forall|handle: u64, i: int|
            self.resources.contains_key(handle) && 0 <= i < self.waiters(handle).len()
                ==> #[trigger] self.waiters(handle)[i] < self.tickets
        &&& forall|h1: u64, i1: int, h2: u64, i2: int|
            self.resources.contains_key(h1) && 0 <= i1 < self.waiters(h1).len()
                && self.resources.contains_key(h2) && 0 <= i2 < self.waiters(h2).len()
                && #[trigger] self.waiters(h1)[i1] == #[trigger] self.waiters(h2)[i2] ==> h1 == h2
                && i1 == i2
        &&& forall|handle: u64, i: int, j: int|
            self.resources.contains_key(handle) && 0 <= i < j < self.waiters(handle).len()
                ==> #[trigger] self.waiters(handle)[i] < #[trigger] self.waiters(handle)[j]
    }

    /// The subsystem after a subscription to `signo` was stored under `handle`.
    pub open spec fn bound(self, handle: u64, signo: i32) -> SubsystemView {
        SubsystemView {
            resources: self.resources.insert(
                handle,
                ResourceView { signo, ended: false, waiters: Seq::empty() },
            ),
            ..self
        }
    }

    /// The error with which bind refuses, if it does. `subscribed` tells
    /// whether the host accepted the subscription.
    pub open spec fn bind_error(self, subscribed: bool) -> Option<SignalError> {
        if !self.supported {
            Some(SignalError::UnsupportedPlatform)
        } else if !subscribed {
            Some(SignalError::UnsupportedSignalKind)
        } else {
            None
        }
    }

    /// The error with which poll, unbind and deliver refuse `handle`, if they
    /// do.
    pub open spec fn access_error(self, handle: u64) -> Option<SignalError> {
        if !self.supported {
            Some(SignalError::UnsupportedPlatform)
        } else if !self.resources.contains_key(handle) {
            Some(SignalError::UnknownHandle)
        } else {
            None
        }
    }

    /// Whether a poll on `handle` takes a ticket: whether it is accepted and
    /// the stream has not ended.
    pub open spec fn takes_ticket(self, handle: u64) -> bool {
        self.access_error(handle) is None && !self.resources[handle].ended
    }

    /// How a poll on the live `handle` starts.
    pub open spec fn poll_start(self, handle: u64) -> PollStart {
        if self.resources[handle].ended {
            PollStart::Ended
        } else if self.waiters(handle).len() == 0 {
            PollStart::Listening(self.tickets)
        } else {
            PollStart::Queued(self.tickets)
        }
    }

    /// The subsystem after a poll on the live `handle` has started.
    pub open spec fn polled(self, handle: u64) -> SubsystemView {
        let resource = self.resources[handle];
        if resource.ended {
            self
        } else {
            SubsystemView {
                resources: self.resources.insert(
                    handle,
                    ResourceView { waiters: resource.waiters.push(self.tickets), ..resource },
                ),
                tickets: (self.tickets + 1) as u64,
                ..self
            }
        }
    }

    /// The polls that unbinding the live `handle` resolves: all that are in
    /// flight on it, oldest first, each as "ended".
    pub open spec fn cancelled(self, handle: u64) -> Seq<Resolution> {
        all_ended(self.waiters(handle))
    }

    /// The subsystem after the live `handle` was unbound.
    pub open spec fn unbound(self, handle: u64) -> SubsystemView {
        SubsystemView {
            resources: self.resources.remove(handle),
            retired: self.retired.insert(handle),
            ..self
        }
    }

    /// The polls that `event` on the live `handle` resolves. A signal resolves
    /// the poll that holds the subscription, as "not ended"; the end of the
    /// stream resolves every poll in flight, as "ended".
    pub open spec fn resolved(self, handle: u64, event: StreamEvent) -> Seq<Resolution> {
        let waiters = self.waiters(handle);
        match event {
            StreamEvent::Signal => if waiters.len() == 0 {
                Seq::empty()
            } else {
                seq![Resolution { ticket: waiters[0], ended: false }]
            },
            StreamEvent::Closed => all_ended(waiters),
        }
    }

    /// The poll to which `event` on the live `handle` hands the subscription:
    /// after a signal, the oldest of those that waited.
    pub open spec fn granted(self, handle: u64, event: StreamEvent) -> Option<u64> {
        let waiters = self.waiters(handle);
        match event {
            StreamEvent::Signal => if waiters.len() >= 2 {
                Some(waiters[1])
            } else {
                None
            },
            StreamEvent::Closed => None,
        }
    }

    /// The subsystem after `event` on the live `handle`.
    pub open spec fn delivered(self, handle: u64, event: StreamEvent) -> SubsystemView {
        let resource = self.resources[handle];
        match event {
            StreamEvent::Signal => if resource.waiters.len() == 0 {
                self
            } else {
                SubsystemView {
                    resources: self.resources.insert(
                        handle,
                        ResourceView { waiters: resource.waiters.remove(0), ..resource },
                    ),
                    ..self
                }
            },
            StreamEvent::Closed => SubsystemView {
                resources: self.resources.insert(
                    handle,
                    ResourceView { ended: true, waiters: Seq::empty(), ..resource },
                ),
                ..self
            },
        }
    }

    /// The place in line of the poll with `ticket`, which is in flight on
    /// `handle`: 0 for the poll that holds the subscription.
    pub open spec fn place(self, handle: u64, ticket: u64) -> int {
        choose|i: int| 0 <= i < self.waiters(handle).len() && self.waiters(handle)[i] == ticket
    }

    /// The poll to which the subscription passes when the poll with `ticket`
    /// is withdrawn from the live `handle`: the next in line, if the one
    /// withdrawn held the subscription.
    pub open spec fn heir(self, handle: u64, ticket: u64) -> Option<u64> {
        let waiters = self.waiters(handle);
        if waiters.len() >= 2 && waiters[0] == ticket {
            Some(waiters[1])
        } else {
            None
        }
    }

    /// The subsystem after the poll with `ticket` was withdrawn from the live
    /// `handle`: the poll leaves the line, and the others keep their order.
    /// Nothing changes where no such poll is in flight.
    pub open spec fn withdrawn(self, handle: u64, ticket: u64) -> SubsystemView {
        let resource = self.resources[handle];
        if !resource.waiters.contains(ticket) {
            self
        } else {
            SubsystemView {
                resources: self.resources.insert(
                    handle,
                    ResourceView {
                        waiters: resource.waiters.remove(self.place(handle, ticket)),
                        ..resource
                    },
                ),
                ..self
            }
        }
    }

    /// The subsystem at process start meets the invariant.
    pub proof fn lemma_initial_inv(supported: bool)
        ensures
            Self::initial(supported).inv(),
    {
    }

    /// Binding a fresh handle keeps the invariant.
    pub proof fn lemma_bound_inv(self, handle: u64, signo: i32)
        requires
            self.inv(),
            self.supported,
            self.fresh(handle),
        ensures
            self.bound(handle, signo).inv(),
    {
        let post = self.bound(handle, signo);
        assert forall|h: u64, i: int|
            post.resources.contains_key(h) && 0 <= i < post.waiters(h).len() implies
        #[trigger] post.waiters(h)[i] < post.tickets by {
            assert(self.waiters(h)[i] < self.tickets);
        }
        assert forall|h1: u64, i1: int, h2: u64, i2: int|
            post.resources.contains_key(h1) && 0 <= i1 < post.waiters(h1).len()
                && post.resources.contains_key(h2) && 0 <= i2 < post.waiters(h2).len()
                && #[trigger] post.waiters(h1)[i1] == #[trigger] post.waiters(h2)[i2] implies
        h1 == h2 && i1 == i2 by {
            assert(self.waiters(h1)[i1] == self.waiters(h2)[i2]);
        }
        assert forall|h: u64, i: int, j: int|
            post.resources.contains_key(h) && 0 <= i < j < post.waiters(h).len() implies
        #[trigger] post.waiters(h)[i] < #[trigger] post.waiters(h)[j] by {
            assert(self.waiters(h)[i] < self.waiters(h)[j]);
        }
    }

    /// Starting a poll keeps the invariant.
    pub proof fn lemma_polled_inv(self, handle: u64)
        requires
            self.inv(),
            self.resources.contains_key(handle),
            !self.resources[handle].ended ==> self.tickets < u64::MAX,
        ensures
            self.polled(handle).inv(),
    {
        let post = self.polled(handle);
        if !self.resources[handle].ended {
            assert forall|h: u64, i: int|
                post.resources.contains_key(h) && 0 <= i < post.waiters(h).len() implies
            #[trigger] post.waiters(h)[i] < post.tickets by {
                if i < self.waiters(h).len() {
                    assert(self.waiters(h)[i] < self.tickets);
                }
            }
            assert forall|h1: u64, i1: int, h2: u64, i2: int|
                post.resources.contains_key(h1) && 0 <= i1 < post.waiters(h1).len()
                    && post.resources.contains_key(h2) && 0 <= i2 < post.waiters(h2).len()
                    && #[trigger] post.waiters(h1)[i1] == #[trigger] post.waiters(h2)[i2] implies
            h1 == h2 && i1 == i2 by {
                if i1 < self.waiters(h1).len() {
                    assert(self.waiters(h1)[i1] < self.tickets);
                }
                if i2 < self.waiters(h2).len() {
                    assert(self.waiters(h2)[i2] < self.tickets);
                }
                if i1 < self.waiters(h1).len() && i2 < self.waiters(h2).len() {
                    assert(self.waiters(h1)[i1] == self.waiters(h2)[i2]);
                }
            }
            assert forall|h: u64, i: int, j: int|
                post.resources.contains_key(h) && 0 <= i < j < post.waiters(h).len() implies
            #[trigger] post.waiters(h)[i] < #[trigger] post.waiters(h)[j] by {
                if j < self.waiters(h).len() {
                    assert(self.waiters(h)[i] < self.waiters(h)[j]);
                } else {
                    assert(self.waiters(h)[i] < self.tickets);
                }
            }
        }
    }

    /// Unbinding keeps the invariant.
    pub proof fn lemma_unbound_inv(self, handle: u64)
        requires
            self.inv(),
            self.resources.contains_key(handle),
        ensures
            self.unbound(handle).inv(),
    {
        let post = self.unbound(handle);
        assert forall|h: u64, i: int|
            post.resources.contains_key(h) && 0 <= i < post.waiters(h).len() implies
        #[trigger] post.waiters(h)[i] < post.tickets by {
            assert(self.waiters(h)[i] < self.tickets);
        }
        assert forall|h1: u64, i1: int, h2: u64, i2: int|
            post.resources.contains_key(h1) && 0 <= i1 < post.waiters(h1).len()
                && post.resources.contains_key(h2) && 0 <= i2 < post.waiters(h2).len()
                && #[trigger] post.waiters(h1)[i1] == #[trigger] post.waiters(h2)[i2] implies
        h1 == h2 && i1 == i2 by {
            assert(self.waiters(h1)[i1] == self.waiters(h2)[i2]);
        }
        assert forall|h: u64, i: int, j: int|
            post.resources.contains_key(h) && 0 <= i < j < post.waiters(h).len() implies
        #[trigger] post.waiters(h)[i] < #[trigger] post.waiters(h)[j] by {
            assert(self.waiters(h)[i] < self.waiters(h)[j]);
        }
    }

    /// An event of the stream keeps the invariant.
    pub proof fn lemma_delivered_inv(self, handle: u64, event: StreamEvent)
        requires
            self.inv(),
            self.resources.contains_key(handle),
        ensures
            self.delivered(handle, event).inv(),
    {
        let post = self.delivered(handle, event);
        let shift = if event == StreamEvent::Signal && self.waiters(handle).len() > 0 {
            1int
        } else {
            0int
        };
        assert forall|h: u64, i: int|
            post.resources.contains_key(h) && 0 <= i < post.waiters(h).len() implies
        #[trigger] post.waiters(h)[i] < post.tickets by {
            let j = if h == handle {
                i + shift
            } else {
                i
            };
            assert(self.waiters(h)[j] < self.tickets);
        }
        assert forall|h1: u64, i1: int, h2: u64, i2: int|
            post.resources.contains_key(h1) && 0 <= i1 < post.waiters(h1).len()
                && post.resources.contains_key(h2) && 0 <= i2 < post.waiters(h2).len()
                && #[trigger] post.waiters(h1)[i1] == #[trigger] post.waiters(h2)[i2] implies
        h1 == h2 && i1 == i2 by {
            let j1 = if h1 == handle {
                i1 + shift
            } else {
                i1
            };
            let j2 = if h2 == handle {
                i2 + shift
            } else {
                i2
            };
            assert(self.waiters(h1)[j1] == self.waiters(h2)[j2]);
        }
        assert forall|h: u64, i: int, j: int|
            post.resources.contains_key(h) && 0 <= i < j < post.waiters(h).len() implies
        #[trigger] post.waiters(h)[i] < #[trigger] post.waiters(h)[j] by {
            let d = if h == handle {
                shift
            } else {
                0int
            };
            assert(self.waiters(h)[i + d] < self.waiters(h)[j + d]);
        }
    }

    /// Withdrawing a poll keeps the invariant.
    pub proof fn lemma_withdrawn_inv(self, handle: u64, ticket: u64)
        requires
            self.inv(),
            self.resources.contains_key(handle),
        ensures
            self.withdrawn(handle, ticket).inv(),
    {
        let post = self.withdrawn(handle, ticket);
        if self.waiters(handle).contains(ticket) {
            let gap = self.place(handle, ticket);
            assert forall|h: u64, i: int|
                post.resources.contains_key(h) && 0 <= i < post.waiters(h).len() implies
            #[trigger] post.waiters(h)[i] < post.tickets by {
                let j = if h == handle && i >= gap {
                    i + 1
                } else {
                    i
                };
                assert(self.waiters(h)[j] < self.tickets);
            }
            assert forall|h1: u64, i1: int, h2: u64, i2: int|
                post.resources.contains_key(h1) && 0 <= i1 < post.waiters(h1).len()
                    && post.resources.contains_key(h2) && 0 <= i2 < post.waiters(h2).len()
                    && #[trigger] post.waiters(h1)[i1] == #[trigger] post.waiters(h2)[i2] implies
            h1 == h2 && i1 == i2 by {
                let j1 = if h1 == handle && i1 >= gap {
                    i1 + 1
                } else {
                    i1
                };
                let j2 = if h2 == handle && i2 >= gap {
                    i2 + 1
                } else {
                    i2
                };
                assert(self.waiters(h1)[j1] == self.waiters(h2)[j2]);
            }
            assert forall|h: u64, i: int, j: int|
                post.resources.contains_key(h) && 0 <= i < j < post.waiters(h).len() implies
            #[trigger] post.waiters(h)[i] < #[trigger] post.waiters(h)[j] by {
                let a = if h == handle && i >= gap {
                    i + 1
                } else {
                    i
                };
                let b = if h == handle && j >= gap {
                    j + 1
                } else {
                    j
                };
                assert(self.waiters(h)[a] < self.waiters(h)[b]);
            }
        }
    }
}

} // verus!
