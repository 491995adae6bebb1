use signal_ops::error::SignalError;
use signal_ops::model::{PollStart, Resolution, StreamEvent};
use signal_ops::signal::{
    init, op_signal_bind, op_signal_deliver, op_signal_poll, op_signal_unbind,
    op_signal_withdraw, try_signal_bind, try_signal_poll,
};
use signal_ops::table::MAX_HANDLE;

const SIGINT: i32 = 2;

#[test]
fn bind_poll_signal_unbind_poll() {
    let mut state = init(true);
    let h = op_signal_bind(&mut state, SIGINT, true).unwrap();
    assert!(state.is_bound(h));
    assert_eq!(state.signal_kind(h), Some(SIGINT));

    let ticket = match op_signal_poll(&mut state, h) {
        Ok(PollStart::Listening(ticket)) => ticket,
        other => panic!("the first poll must listen, got {:?}", other),
    };
    let delivery = op_signal_deliver(&mut state, h, StreamEvent::Signal).unwrap();
    assert_eq!(delivery.resolved, vec![Resolution { ticket, ended: false }]);
    assert_eq!(delivery.granted, None);

    assert_eq!(op_signal_unbind(&mut state, h), Ok(vec![]));
    assert_eq!(op_signal_poll(&mut state, h), Err(SignalError::UnknownHandle));
}

#[test]
fn unbinding_one_handle_leaves_the_other_polling() {
    let mut state = init(true);
    let h1 = op_signal_bind(&mut state, SIGINT, true).unwrap();
    let h2 = op_signal_bind(&mut state, SIGINT, true).unwrap();
    assert_ne!(h1, h2);

    let t2 = match op_signal_poll(&mut state, h2) {
        Ok(PollStart::Listening(ticket)) => ticket,
        other => panic!("the poll must listen, got {:?}", other),
    };
    let cancelled = op_signal_unbind(&mut state, h1).unwrap();
    assert!(cancelled.iter().all(|resolution| resolution.ticket != t2));
    assert!(cancelled.is_empty());
    assert!(state.is_bound(h2));
    assert_eq!(state.signal_kind(h2), Some(SIGINT));

    let delivery = op_signal_deliver(&mut state, h2, StreamEvent::Signal).unwrap();
    assert_eq!(delivery.resolved, vec![Resolution { ticket: t2, ended: false }]);
}

#[test]
fn a_fresh_subsystem_has_room_and_no_handles() {
    let state = init(true);
    assert!(state.is_supported());
    assert!(state.can_bind());
    assert!(state.can_poll());
    assert!(!state.is_bound(0));
    assert_eq!(state.signal_kind(0), None);
}

#[test]
fn tickets_count_up_from_zero() {
    let mut state = init(true);
    let h = op_signal_bind(&mut state, 15, true).unwrap();
    assert_eq!(op_signal_poll(&mut state, h), Ok(PollStart::Listening(0)));
    assert_eq!(op_signal_poll(&mut state, h), Ok(PollStart::Queued(1)));
    let g = op_signal_bind(&mut state, 1, true).unwrap();
    assert_eq!(op_signal_poll(&mut state, g), Ok(PollStart::Listening(2)));
    assert_eq!(state.signal_kind(g), Some(1));
    assert_eq!(state.signal_kind(h), Some(15));
}

#[test]
fn unbind_twice_fails_the_second_time() {
    let mut state = init(true);
    let h = op_signal_bind(&mut state, SIGINT, true).unwrap();
    assert_eq!(op_signal_unbind(&mut state, h), Ok(vec![]));
    assert_eq!(op_signal_unbind(&mut state, h), Err(SignalError::UnknownHandle));
    assert!(!state.is_bound(h));
}

#[test]
fn poll_on_a_handle_never_bound_fails() {
    let mut state = init(true);
    assert_eq!(op_signal_poll(&mut state, 0), Err(SignalError::UnknownHandle));
    assert_eq!(op_signal_poll(&mut state, 77), Err(SignalError::UnknownHandle));
    let h = op_signal_bind(&mut state, SIGINT, true).unwrap();
    assert_eq!(op_signal_poll(&mut state, h + 1), Err(SignalError::UnknownHandle));
    assert_eq!(
        op_signal_deliver(&mut state, h + 1, StreamEvent::Signal).err(),
        Some(SignalError::UnknownHandle)
    );
}

#[test]
fn unbind_resolves_suspended_polls_as_ended() {
    let mut state = init(true);
    let h = op_signal_bind(&mut state, SIGINT, true).unwrap();
    assert_eq!(op_signal_poll(&mut state, h), Ok(PollStart::Listening(0)));
    assert_eq!(op_signal_poll(&mut state, h), Ok(PollStart::Queued(1)));
    assert_eq!(op_signal_poll(&mut state, h), Ok(PollStart::Queued(2)));
    assert_eq!(
        op_signal_unbind(&mut state, h),
        Ok(vec![
            Resolution { ticket: 0, ended: true },
            Resolution { ticket: 1, ended: true },
            Resolution { ticket: 2, ended: true },
        ])
    );
}

#[test]
fn poll_after_cancellation_fails() {
    let mut state = init(true);
    let h = op_signal_bind(&mut state, SIGINT, true).unwrap();
    assert_eq!(op_signal_poll(&mut state, h), Ok(PollStart::Listening(0)));
    assert_eq!(op_signal_unbind(&mut state, h), Ok(vec![Resolution { ticket: 0, ended: true }]));
    assert_eq!(op_signal_poll(&mut state, h), Err(SignalError::UnknownHandle));
    // The handle stays unknown when its slot is taken again.
    let again = op_signal_bind(&mut state, SIGINT, true).unwrap();
    assert_ne!(again, h);
    assert_eq!(op_signal_poll(&mut state, h), Err(SignalError::UnknownHandle));
    assert_eq!(op_signal_unbind(&mut state, h), Err(SignalError::UnknownHandle));
    assert!(state.is_bound(again));
}

#[test]
fn concurrent_polls_take_turns() {
    let mut state = init(true);
    let h = op_signal_bind(&mut state, SIGINT, true).unwrap();
    assert_eq!(op_signal_poll(&mut state, h), Ok(PollStart::Listening(0)));
    assert_eq!(op_signal_poll(&mut state, h), Ok(PollStart::Queued(1)));
    assert_eq!(op_signal_poll(&mut state, h), Ok(PollStart::Queued(2)));

    let first = op_signal_deliver(&mut state, h, StreamEvent::Signal).unwrap();
    assert_eq!(first.resolved, vec![Resolution { ticket: 0, ended: false }]);
    assert_eq!(first.granted, Some(1));

    let second = op_signal_deliver(&mut state, h, StreamEvent::Signal).unwrap();
    assert_eq!(second.resolved, vec![Resolution { ticket: 1, ended: false }]);
    assert_eq!(second.granted, Some(2));

    let third = op_signal_deliver(&mut state, h, StreamEvent::Signal).unwrap();
    assert_eq!(third.resolved, vec![Resolution { ticket: 2, ended: false }]);
    assert_eq!(third.granted, None);

    // Nobody polls: a signal resolves nothing.
    let idle = op_signal_deliver(&mut state, h, StreamEvent::Signal).unwrap();
    assert_eq!(idle.resolved, vec![]);
    assert_eq!(idle.granted, None);
    assert_eq!(op_signal_poll(&mut state, h), Ok(PollStart::Listening(3)));
}

#[test]
fn end_of_stream_resolves_every_poll_and_later_polls_at_once() {
    let mut state = init(true);
    let h = op_signal_bind(&mut state, SIGINT, true).unwrap();
    assert_eq!(op_signal_poll(&mut state, h), Ok(PollStart::Listening(0)));
    assert_eq!(op_signal_poll(&mut state, h), Ok(PollStart::Queued(1)));

    let closed = op_signal_deliver(&mut state, h, StreamEvent::Closed).unwrap();
    assert_eq!(
        closed.resolved,
        vec![Resolution { ticket: 0, ended: true }, Resolution { ticket: 1, ended: true }]
    );
    assert_eq!(closed.granted, None);

    assert_eq!(op_signal_poll(&mut state, h), Ok(PollStart::Ended));
    assert_eq!(op_signal_poll(&mut state, h), Ok(PollStart::Ended));
    // The subscription stays bound until it is unbound, and no ticket was used.
    assert!(state.is_bound(h));
    assert_eq!(op_signal_unbind(&mut state, h), Ok(vec![]));
    let g = op_signal_bind(&mut state, SIGINT, true).unwrap();
    assert_eq!(op_signal_poll(&mut state, g), Ok(PollStart::Listening(2)));
}

#[test]
fn a_refused_subscription_is_an_error_and_changes_nothing() {
    let mut state = init(true);
    assert_eq!(op_signal_bind(&mut state, 9, false), Err(SignalError::UnsupportedSignalKind));
    assert_eq!(op_signal_bind(&mut state, -1, false), Err(SignalError::UnsupportedSignalKind));
    let h = op_signal_bind(&mut state, SIGINT, true).unwrap();
    assert!(state.is_bound(h));
    assert_eq!(op_signal_poll(&mut state, h), Ok(PollStart::Listening(0)));
}

#[test]
fn every_operation_fails_on_an_unsupported_platform() {
    let mut state = init(false);
    assert!(!state.is_supported());
    assert!(state.can_bind());
    assert_eq!(op_signal_bind(&mut state, SIGINT, true), Err(SignalError::UnsupportedPlatform));
    assert_eq!(op_signal_bind(&mut state, SIGINT, false), Err(SignalError::UnsupportedPlatform));
    assert_eq!(op_signal_poll(&mut state, 0), Err(SignalError::UnsupportedPlatform));
    assert_eq!(op_signal_unbind(&mut state, 0), Err(SignalError::UnsupportedPlatform));
    assert_eq!(
        op_signal_deliver(&mut state, 0, StreamEvent::Signal).err(),
        Some(SignalError::UnsupportedPlatform)
    );
    assert!(!state.is_bound(0));
}

#[test]
fn many_handles_are_pairwise_distinct() {
    let mut state = init(true);
    let mut handles: Vec<u64> = Vec::new();
    for round in 0..40 {
        let h = op_signal_bind(&mut state, SIGINT, true).unwrap();
        assert!(!handles.contains(&h));
        handles.push(h);
        if round % 3 == 0 {
            assert_eq!(op_signal_unbind(&mut state, h), Ok(vec![]));
        }
    }
    for (round, h) in handles.iter().enumerate() {
        assert_eq!(state.is_bound(*h), round % 3 != 0);
    }
}

#[test]
fn handles_fit_a_double_exactly() {
    assert_eq!(MAX_HANDLE, (1u64 << 53) - 1);
    let mut state = init(true);
    for _ in 0..100 {
        let h = op_signal_bind(&mut state, SIGINT, true).unwrap();
        assert!(h <= MAX_HANDLE);
        assert_eq!(h as f64 as u64, h);
        assert_eq!(op_signal_unbind(&mut state, h), Ok(vec![]));
        assert!(state.can_bind());
    }
}

#[test]
fn poll_on_an_unknown_handle_needs_no_ticket() {
    let mut state = init(true);
    let h = op_signal_bind(&mut state, SIGINT, true).unwrap();
    assert_eq!(op_signal_unbind(&mut state, h), Ok(vec![]));
    assert_eq!(op_signal_poll(&mut state, h), Err(SignalError::UnknownHandle));
    let g = op_signal_bind(&mut state, SIGINT, true).unwrap();
    // The failed poll took no ticket.
    assert_eq!(op_signal_poll(&mut state, g), Ok(PollStart::Listening(0)));
}

#[test]
fn a_waiting_poll_that_is_withdrawn_leaves_the_line() {
    let mut state = init(true);
    let h = op_signal_bind(&mut state, SIGINT, true).unwrap();
    assert_eq!(op_signal_poll(&mut state, h), Ok(PollStart::Listening(0)));
    assert_eq!(op_signal_poll(&mut state, h), Ok(PollStart::Queued(1)));
    assert_eq!(op_signal_poll(&mut state, h), Ok(PollStart::Queued(2)));

    assert_eq!(op_signal_withdraw(&mut state, h, 1), Ok(None));
    // A second withdrawal finds no such poll.
    assert_eq!(op_signal_withdraw(&mut state, h, 1), Ok(None));

    let first = op_signal_deliver(&mut state, h, StreamEvent::Signal).unwrap();
    assert_eq!(first.resolved, vec![Resolution { ticket: 0, ended: false }]);
    assert_eq!(first.granted, Some(2));
    assert_eq!(
        op_signal_unbind(&mut state, h),
        Ok(vec![Resolution { ticket: 2, ended: true }])
    );
}

#[test]
fn withdrawing_the_holder_hands_the_subscription_on() {
    let mut state = init(true);
    let h = op_signal_bind(&mut state, SIGINT, true).unwrap();
    assert_eq!(op_signal_poll(&mut state, h), Ok(PollStart::Listening(0)));
    assert_eq!(op_signal_poll(&mut state, h), Ok(PollStart::Queued(1)));

    assert_eq!(op_signal_withdraw(&mut state, h, 0), Ok(Some(1)));
    assert_eq!(op_signal_withdraw(&mut state, h, 1), Ok(None));
    // Nobody is in flight: the next poll listens.
    assert_eq!(op_signal_poll(&mut state, h), Ok(PollStart::Listening(2)));
}

#[test]
fn withdrawal_knows_the_same_errors() {
    let mut state = init(true);
    assert_eq!(op_signal_withdraw(&mut state, 3, 0), Err(SignalError::UnknownHandle));
    let h = op_signal_bind(&mut state, SIGINT, true).unwrap();
    let g = op_signal_bind(&mut state, SIGINT, true).unwrap();
    assert_eq!(op_signal_poll(&mut state, h), Ok(PollStart::Listening(0)));
    // The poll is in flight on the other handle.
    assert_eq!(op_signal_withdraw(&mut state, g, 0), Ok(None));
    assert_eq!(
        op_signal_unbind(&mut state, h),
        Ok(vec![Resolution { ticket: 0, ended: true }])
    );
    assert_eq!(op_signal_withdraw(&mut state, h, 0), Err(SignalError::UnknownHandle));

    let mut unsupported = init(false);
    assert_eq!(
        op_signal_withdraw(&mut unsupported, 0, 0),
        Err(SignalError::UnsupportedPlatform)
    );
}

#[test]
fn the_unconditional_calls_answer_as_the_others_do() {
    let mut state = init(true);
    assert_eq!(
        try_signal_bind(&mut state, 9, false),
        Some(Err(SignalError::UnsupportedSignalKind))
    );
    let h = match try_signal_bind(&mut state, SIGINT, true) {
        Some(Ok(h)) => h,
        other => panic!("the bind must succeed, got {:?}", other),
    };
    assert!(state.is_bound(h));
    assert!(state.takes_ticket(h));
    assert!(!state.takes_ticket(h + 1));
    assert_eq!(try_signal_poll(&mut state, h), Some(Ok(PollStart::Listening(0))));
    assert_eq!(try_signal_poll(&mut state, h), Some(Ok(PollStart::Queued(1))));
    assert_eq!(try_signal_poll(&mut state, h + 1), Some(Err(SignalError::UnknownHandle)));
    let closed = op_signal_deliver(&mut state, h, StreamEvent::Closed).unwrap();
    assert_eq!(closed.resolved.len(), 2);
    assert!(!state.takes_ticket(h));
    assert_eq!(try_signal_poll(&mut state, h), Some(Ok(PollStart::Ended)));

    let mut unsupported = init(false);
    assert_eq!(
        try_signal_bind(&mut unsupported, SIGINT, true),
        Some(Err(SignalError::UnsupportedPlatform))
    );
    assert_eq!(
        try_signal_poll(&mut unsupported, 0),
        Some(Err(SignalError::UnsupportedPlatform))
    );
    assert!(!unsupported.takes_ticket(0));
}
