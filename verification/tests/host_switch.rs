use openlogi_flow::backoff::{RequestBackoff, REQUEST_BACKOFF_BASE, REQUEST_BACKOFF_MAX};
use openlogi_flow::host_switch::{
    handle_manager_event, HostRequest, HostSwitchManagerState, HostSwitchRestoreOutcome,
    HostSwitchSlot, ManagerCompletion, ManagerEvent, Recovery, RestoreCompletion, RestorePhase,
    RunningSession, SessionCompletion, SessionPhase, SessionResult, TaskFailed, TransitionIntent,
    TransitionOutcome, TransitionPhase, TransitionSource, RETRY_DELAY,
};
use openlogi_flow::host_switch_round::{
    after_switch, ask_is_settled, departure_outcome, departure_step, next_ask, session_result,
    settlement_to_report, transition_may_write, turn_is_due, AfterSwitch, DepartureWake,
    HostSwitchManager, RoundEnd, RoundInputs, SwitchReport, Wake,
};
use openlogi_flow::link::{DeviceRoute, HostSwitchLink};

const NOW: u64 = 100_000_000_000;
const MILLISECOND: u64 = 1_000_000;

fn route(slot: u8) -> DeviceRoute {
    DeviceRoute::Bolt {
        receiver_uid: "cafe".to_owned(),
        slot,
    }
}

fn link(target: u8) -> HostSwitchLink {
    HostSwitchLink {
        keyboard: route(1),
        targets: vec![route(target)],
    }
}

#[test]
fn target_change_drains_old_session_before_successor_can_arm() {
    let mut state = HostSwitchManagerState::new();
    state.slots.push(HostSwitchSlot::Running(RunningSession {
        link: link(2),
        generation: 1,
        phase: SessionPhase::Active,
    }));

    let stopped = state.stop_sessions(&[link(3)], false);

    assert_eq!(stopped, vec![1], "old session should begin draining");
    assert!(state.slots.iter().any(|slot| slot.keyboard() == &route(1)));
}

#[test]
fn stale_link_invalidates_transition_intent() {
    let mut state = HostSwitchManagerState::new();
    state.transition = Some(TransitionPhase::Waiting(TransitionIntent {
        link: link(2),
        host: 1,
        source: TransitionSource::KeyPress,
    }));

    state.reconcile_transition(&[link(3)], false);
    assert!(state.transition.is_none());
    assert!(state.begin_transition(false).is_none());
}

#[test]
fn restoring_firmware_blocks_a_changed_link_for_the_same_keyboard() {
    let mut state = HostSwitchManagerState::new();
    state.slots.push(HostSwitchSlot::Recovering(Recovery {
        link: link(2),
        generation: 1,
        requested_host: None,
        restore: RestorePhase::Restoring,
    }));

    assert!(
        state.owns_keyboard(&link(3).keyboard),
        "target changes must not permit re-arm over pending keyboard firmware"
    );
}

#[test]
fn terminal_completion_waits_for_restore_acknowledgement() {
    let mut state = HostSwitchManagerState::new();
    state.slots.push(HostSwitchSlot::Recovering(Recovery {
        link: link(2),
        generation: 1,
        requested_host: None,
        restore: RestorePhase::Restoring,
    }));

    assert!(state.terminal_completion(true).is_none());
    state.handle_restore_completion(
        RestoreCompletion {
            generation: 0,
            result: Ok(HostSwitchRestoreOutcome::Restored),
        },
        &[],
        true,
        NOW,
    );
    assert!(
        state.terminal_completion(true).is_none(),
        "stale completion cannot discard recovery"
    );
    state.handle_restore_completion(
        RestoreCompletion {
            generation: 1,
            result: Ok(HostSwitchRestoreOutcome::Restored),
        },
        &[],
        true,
        NOW,
    );
    assert!(matches!(
        state.terminal_completion(true),
        Some(ManagerCompletion::Graceful)
    ));
}

#[test]
fn transition_waits_for_restoration_and_keeps_running_until_acknowledged() {
    let mut state = HostSwitchManagerState::new();
    state.slots.push(HostSwitchSlot::Recovering(Recovery {
        link: link(2),
        generation: 1,
        requested_host: None,
        restore: RestorePhase::Restoring,
    }));
    state.transition = Some(TransitionPhase::Waiting(TransitionIntent {
        link: link(2),
        host: 2,
        source: TransitionSource::KeyPress,
    }));
    assert!(state.begin_transition(false).is_none());
    assert!(matches!(
        state.transition,
        Some(TransitionPhase::Waiting(_))
    ));

    state.handle_restore_completion(
        RestoreCompletion {
            generation: 1,
            result: Ok(HostSwitchRestoreOutcome::Restored),
        },
        &[link(2)],
        false,
        NOW,
    );
    assert_eq!(state.begin_transition(false).unwrap().host, 2);
    // Another manager wake while switching must not remove Running.
    assert!(state.begin_transition(false).is_none());
    assert!(state.terminal_completion(true).is_none());
    handle_manager_event(
        &mut state,
        ManagerEvent::Transition(Ok(TransitionOutcome::Settled)),
        &[],
        true,
        NOW,
    );
    assert!(matches!(
        state.terminal_completion(true),
        Some(ManagerCompletion::Graceful)
    ));
}

#[test]
fn suspended_device_io_disables_retry_deadlines() {
    let retry_at = NOW + RETRY_DELAY;
    let mut state = HostSwitchManagerState::new();
    state.slots.push(HostSwitchSlot::Restarting {
        link: link(2),
        retry_at,
    });

    assert_eq!(state.deadline(false, true), Some(retry_at));
    assert_eq!(state.deadline(false, false), None);
}

#[test]
fn an_ask_moves_every_published_link_through_the_one_transition_slot() {
    let now = NOW;
    let published = [link(2), link(3)];
    let mut state = HostSwitchManagerState::new();

    state.accept_request(HostRequest { serial: 1, host: 3 }, &published, now);
    state.promote_request(&published, false, now);
    let first = state.begin_transition(false).expect("the ask should run");
    assert_eq!(first.host, 3);
    assert!(
        state.begin_transition(false).is_none(),
        "the manager stays the single transition authority",
    );

    handle_manager_event(
        &mut state,
        ManagerEvent::Transition(Ok(TransitionOutcome::Settled)),
        &published,
        false,
        now,
    );
    state.promote_request(&published, false, now);
    let second = state
        .begin_transition(false)
        .expect("the second link should move");
    assert_eq!(second.host, 3);
    assert_eq!(
        state.settled, 0,
        "the ask is not settled while work remains"
    );

    handle_manager_event(
        &mut state,
        ManagerEvent::Transition(Ok(TransitionOutcome::Settled)),
        &published,
        false,
        now,
    );
    state.promote_request(&published, false, now);
    assert!(state.request.is_none());
    assert_eq!(
        state.settled, 1,
        "the caller is released once nothing is left to move"
    );
}

#[test]
fn re_reading_the_published_ask_does_not_restart_it() {
    let ask = HostRequest { serial: 1, host: 2 };
    let now = NOW;
    let mut state = HostSwitchManagerState::new();

    state.accept_request(ask, &[link(2)], now);
    state.promote_request(&[link(2)], false, now);
    assert_eq!(
        state
            .begin_transition(false)
            .expect("the ask should run")
            .host,
        2
    );

    // The watch keeps holding the same value on every later manager wake.
    state.accept_request(ask, &[link(2)], now);
    assert_eq!(state.settled, 0);
    assert!(
        state
            .request
            .as_ref()
            .is_some_and(|request| request.serial == 1 && request.remaining.is_empty()),
        "an already-accepted ask must not be taken on twice",
    );
}

#[test]
fn a_later_ask_supersedes_the_pending_one_and_releases_its_caller() {
    let now = NOW;
    let mut state = HostSwitchManagerState::new();

    state.accept_request(HostRequest { serial: 1, host: 2 }, &[link(2)], now);
    state.promote_request(&[link(2)], false, now);
    assert!(matches!(
        state.transition,
        Some(TransitionPhase::Waiting(_))
    ));

    state.accept_request(HostRequest { serial: 2, host: 3 }, &[link(2)], now);
    assert_eq!(
        state.settled, 1,
        "the superseded ask must release its caller"
    );
    assert!(
        state.transition.is_none(),
        "a queued intent for a superseded ask is a stale host move",
    );

    state.promote_request(&[link(2)], false, now);
    assert_eq!(
        state
            .begin_transition(false)
            .expect("the newest ask should run")
            .host,
        3
    );
}

#[test]
fn a_superseded_asks_outcome_is_not_charged_to_its_successor() {
    let now = NOW;
    let mut state = HostSwitchManagerState::new();

    state.accept_request(HostRequest { serial: 1, host: 2 }, &[link(2)], now);
    state.promote_request(&[link(2)], false, now);
    let stale = state
        .begin_transition(false)
        .expect("the first ask should run")
        .source;

    state.accept_request(HostRequest { serial: 2, host: 2 }, &[link(2)], now);
    state.record_transition_outcome(stale, TransitionOutcome::Failed);

    assert!(
        state
            .request
            .as_ref()
            .is_some_and(|request| !request.failed),
        "the successor owns the slot and must not inherit the verdict",
    );
}

#[test]
fn repeated_failures_throttle_the_next_ask_instead_of_taking_the_lease() {
    let now = NOW;
    let mut state = HostSwitchManagerState::new();

    state.accept_request(HostRequest { serial: 1, host: 2 }, &[link(2)], now);
    state.promote_request(&[link(2)], false, now);
    let intent = state.begin_transition(false).expect("the ask should run");
    assert_eq!(intent.host, 2);
    handle_manager_event(
        &mut state,
        ManagerEvent::Transition(Ok(TransitionOutcome::Failed)),
        &[link(2)],
        false,
        now,
    );
    state.promote_request(&[link(2)], false, now);
    assert_eq!(state.settled, 1);

    state.accept_request(HostRequest { serial: 2, host: 2 }, &[link(2)], now);
    assert!(
        state.request.is_none(),
        "a throttled ask must not cost another exclusive lease",
    );
    assert_eq!(
        state.settled, 2,
        "a throttled ask still releases its caller"
    );
    state.promote_request(&[link(2)], false, now);
    assert!(state.transition.is_none());

    // A different host was never the one refusing, so it is not throttled.
    state.accept_request(HostRequest { serial: 3, host: 3 }, &[link(2)], now);
    assert!(state.request.is_some());
}

#[test]
fn each_consecutive_failure_doubles_the_dead_time_up_to_the_ceiling() {
    let now = NOW;
    let mut backoff = RequestBackoff::default();

    backoff.record(2, true, now);
    assert!(backoff.blocks(2, now + REQUEST_BACKOFF_BASE - MILLISECOND));
    assert!(!backoff.blocks(2, now + REQUEST_BACKOFF_BASE));
    assert!(
        !backoff.blocks(3, now),
        "only the refusing host is throttled"
    );

    backoff.record(2, true, now);
    assert!(backoff.blocks(2, now + REQUEST_BACKOFF_BASE));

    for _ in 0..32 {
        backoff.record(2, true, now);
    }
    assert!(
        !backoff.blocks(2, now + REQUEST_BACKOFF_MAX),
        "the dead time is capped so a later deliberate ask still runs",
    );

    backoff.record(2, false, now);
    assert!(!backoff.blocks(2, now), "a success clears the throttle");
}

#[test]
fn a_terminal_manager_releases_the_outstanding_ask() {
    let now = NOW;
    let mut state = HostSwitchManagerState::new();

    state.accept_request(HostRequest { serial: 1, host: 2 }, &[link(2)], now);
    state.promote_request(&[link(2)], true, now);
    assert!(state.request.is_none());
    assert_eq!(state.settled, 1);
    assert!(state.transition.is_none());
    assert!(matches!(
        state.terminal_completion(true),
        Some(ManagerCompletion::Graceful)
    ));
}

#[test]
fn dead_times_are_two_four_eight_up_to_sixty_seconds() {
    let second = 1_000_000_000;
    let mut backoff = RequestBackoff::default();
    for seconds in [2, 4, 8, 16, 32, 60, 60, 60] {
        backoff.record(2, true, NOW);
        assert_eq!(backoff.blocked_until, Some(NOW + seconds * second));
    }
}

#[test]
fn a_different_host_starts_afresh() {
    let mut backoff = RequestBackoff::default();
    backoff.record(2, true, NOW);
    backoff.record(2, true, NOW);
    backoff.record(3, true, NOW);
    assert!(!backoff.blocks(2, NOW));
    assert_eq!(backoff.blocked_until, Some(NOW + REQUEST_BACKOFF_BASE));
}

fn other_keyboard() -> HostSwitchLink {
    HostSwitchLink {
        keyboard: route(5),
        targets: Vec::new(),
    }
}

fn inputs(ask: Option<HostRequest>) -> RoundInputs {
    RoundInputs {
        ask,
        requested: false,
        io_allowed: true,
        now: NOW,
    }
}

#[test]
fn a_round_arms_every_link_it_has_a_lease_for() {
    let published = [link(2), other_keyboard()];
    let mut manager = HostSwitchManager::new();
    manager.open_round(&published, inputs(None));
    assert_eq!(manager.session_leases(&published, inputs(None)), 2);
    let starts = manager.arm_round(&published, inputs(None), 1);
    assert_eq!(starts.len(), 1);
    assert_eq!(starts[0].keyboard, route(1));
    assert_eq!(starts[0].generation, 1);
    assert_eq!(manager.session_leases(&published, inputs(None)), 1);
    let starts = manager.arm_round(&published, inputs(None), 5);
    assert_eq!(starts.len(), 1);
    assert_eq!(starts[0].keyboard, route(5));
    assert!(matches!(manager.close_round(), RoundEnd::Open(None)));
}

#[test]
fn an_ask_drains_the_sessions_and_then_moves_the_links() {
    let published = [link(2)];
    let mut manager = HostSwitchManager::new();
    manager.open_round(&published, inputs(None));
    manager.arm_round(&published, inputs(None), 1);
    let ask = inputs(Some(next_ask(None, 3)));
    let plan = manager.open_round(&published, ask);
    assert_eq!(plan.stopped, vec![1]);
    assert_eq!(plan.settled, 0);
    assert!(manager.arm_round(&published, ask, 1).is_empty());
    assert!(matches!(manager.close_round(), RoundEnd::Open(None)));

    let ended = Wake::Finished(ManagerEvent::Session(SessionCompletion {
        generation: 1,
        result: Ok(session_result(Ok(None), false)),
    }));
    assert_eq!(manager.wake(ended, &published, NOW), None);
    manager.open_round(&published, ask);
    match manager.close_round() {
        RoundEnd::Open(Some(intent)) => {
            assert_eq!(intent.host, 3);
            assert!(transition_may_write(true, &published, &intent));
            assert!(!transition_may_write(false, &published, &intent));
            assert!(!transition_may_write(true, &[link(3)], &intent));
        }
        other => panic!("{other:?}"),
    }
    let landed = Wake::Finished(ManagerEvent::Transition(Ok(TransitionOutcome::Settled)));
    manager.wake(landed, &published, NOW);
    assert_eq!(manager.open_round(&published, ask).settled, 1);
}

#[test]
fn a_key_press_moves_the_link_after_its_firmware_is_restored() {
    let published = [link(2)];
    let mut state = HostSwitchManagerState::new();
    state.spawn_successors(&published, 1);
    state.handle_session_completion(
        SessionCompletion {
            generation: 1,
            result: Ok(SessionResult {
                requested_host: Some(2),
                pending_restore: true,
                failed: false,
            }),
        },
        &published,
        false,
        NOW,
    );
    assert!(state.has_pending_restores());
    assert_eq!(state.deadline(false, true), Some(NOW + RETRY_DELAY));
    assert_eq!(state.due_restores(false, NOW), 0);
    assert_eq!(state.due_restores(false, NOW + RETRY_DELAY), 1);
    let started = state.reconcile_recoveries(&published, false, 1, NOW + RETRY_DELAY, false);
    assert_eq!(started, vec![1]);
    assert_eq!(state.deadline(false, true), None);
    state.handle_restore_completion(
        RestoreCompletion {
            generation: 1,
            result: Ok(HostSwitchRestoreOutcome::Restored),
        },
        &published,
        false,
        NOW,
    );
    let intent = state.begin_transition(false).expect("the key press moves the link");
    assert_eq!((intent.host, intent.source), (2, TransitionSource::KeyPress));
}

#[test]
fn a_failed_session_is_restarted_after_a_pause() {
    let published = [link(2)];
    let mut state = HostSwitchManagerState::new();
    state.spawn_successors(&published, 1);
    state.handle_session_completion(
        SessionCompletion {
            generation: 1,
            result: Ok(session_result(Err(()), false)),
        },
        &published,
        false,
        NOW,
    );
    assert_eq!(state.missing_sessions(&published), 0);
    state.reconcile_recoveries(&published, false, 0, NOW + RETRY_DELAY, false);
    assert_eq!(state.missing_sessions(&published), 1);
}

#[test]
fn a_refused_lease_leaves_the_restore_waiting() {
    let mut state = HostSwitchManagerState::new();
    state.slots.push(HostSwitchSlot::Recovering(Recovery {
        link: link(2),
        generation: 4,
        requested_host: Some(1),
        restore: RestorePhase::Ready { retry_at: NOW },
    }));
    assert!(state.reconcile_recoveries(&[], false, 0, NOW, false).is_empty());
    match &state.slots[0] {
        HostSwitchSlot::Recovering(recovery) => {
            assert_eq!(recovery.restore, RestorePhase::Ready { retry_at: NOW });
            // Its link is gone, and with it the move that was asked for.
            assert_eq!(recovery.requested_host, None);
        }
        other => panic!("{other:?}"),
    }
}

#[test]
fn a_denied_lease_leaves_no_due_deadline() {
    let mut state = HostSwitchManagerState::new();
    state.slots.push(HostSwitchSlot::Restarting {
        link: link(2),
        retry_at: NOW,
    });
    assert_eq!(state.deadline(true, true), None);
    state.reconcile_recoveries(&[link(2)], false, 0, NOW, false);
    assert_eq!(state.deadline(false, true), None);
}

#[test]
fn a_changed_set_of_devices_hurries_restores() {
    let mut manager = HostSwitchManager::new();
    manager.state.slots.push(HostSwitchSlot::Recovering(Recovery {
        link: link(2),
        generation: 4,
        requested_host: None,
        restore: RestorePhase::Ready {
            retry_at: NOW + RETRY_DELAY,
        },
    }));
    assert_eq!(manager.restore_leases(inputs(None), NOW), 0);
    manager.wake(Wake::RegistryChanged, &[], NOW);
    assert_eq!(manager.restore_leases(inputs(None), NOW), 1);
    assert_eq!(manager.restore_round(&[], inputs(None), 1, NOW), vec![4]);
}

#[test]
fn a_failed_task_makes_the_end_unexpected() {
    let mut manager = HostSwitchManager::new();
    manager.arm_round(&[link(2)], inputs(None), 1);
    manager.wake(Wake::Shutdown, &[link(2)], NOW);
    assert_eq!(manager.open_round(&[link(2)], inputs(None)).stopped, vec![1]);
    let lost = Wake::Finished(ManagerEvent::Session(SessionCompletion {
        generation: 1,
        result: Err(TaskFailed),
    }));
    manager.wake(lost, &[link(2)], NOW);
    assert!(matches!(
        manager.close_round(),
        RoundEnd::Ended(ManagerCompletion::Unexpected)
    ));
}

#[test]
fn a_closed_input_ends_the_manager_unless_it_is_the_asks() {
    let mut manager = HostSwitchManager::new();
    assert_eq!(manager.wake(Wake::AsksClosed, &[], NOW), None);
    assert!(!manager.requests_open);
    for closed in [
        Wake::LinksClosed,
        Wake::ReceiverClosed,
        Wake::IoClosed,
        Wake::RegistryClosed,
    ] {
        assert_eq!(
            manager.wake(closed, &[], NOW),
            Some(ManagerCompletion::Unexpected)
        );
    }
}

#[test]
fn asking_again_reads_as_new_work() {
    let first = next_ask(None, 2);
    let second = next_ask(Some(first), 2);
    assert_eq!((first.serial, second.serial), (1, 2));
    assert!(!ask_is_settled(0, first.serial));
    // Settling the newer serial releases the superseded caller too.
    assert!(ask_is_settled(2, first.serial));
    assert!(ask_is_settled(2, second.serial));
}

#[test]
fn a_report_of_settlement_never_goes_back() {
    assert_eq!(settlement_to_report(1, 2), Some(2));
    assert_eq!(settlement_to_report(2, 2), None);
    assert_eq!(settlement_to_report(3, 2), None);
}

#[test]
fn a_due_deadline_takes_another_turn() {
    assert!(turn_is_due(Some(NOW), NOW));
    assert!(!turn_is_due(Some(NOW + 1), NOW));
    assert!(!turn_is_due(None, NOW));
}

#[test]
fn a_switch_waits_for_the_keyboard_to_leave() {
    assert_eq!(after_switch(SwitchReport::Moved), AfterSwitch::AwaitDeparture);
    assert_eq!(
        after_switch(SwitchReport::AlreadyThere),
        AfterSwitch::Done(TransitionOutcome::Settled)
    );
    assert_eq!(
        after_switch(SwitchReport::Rejected),
        AfterSwitch::Done(TransitionOutcome::Failed)
    );
    let keyboard = route(1);
    assert_eq!(departure_step(None, &[link(2)], &keyboard), None);
    assert_eq!(
        departure_step(Some(DepartureWake::LinksChanged), &[], &keyboard),
        Some(true)
    );
    assert_eq!(
        departure_step(Some(DepartureWake::TimedOut), &[link(2)], &keyboard),
        Some(false)
    );
    assert_eq!(
        departure_step(Some(DepartureWake::LinksClosed), &[], &keyboard),
        Some(false)
    );
    assert_eq!(departure_outcome(true), TransitionOutcome::Settled);
    assert_eq!(departure_outcome(false), TransitionOutcome::Failed);
}
