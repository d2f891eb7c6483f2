//! What each step of the host-switch manager comes to, told by the slots, the
//! intent and the ask that stand before and after it.

use vstd::prelude::*;

use crate::backoff;
use crate::host_switch;
use crate::host_switch::{
    HostRequest, HostSwitchManagerState, HostSwitchRestoreOutcome, HostSwitchSlot,
    ManagerCompletion, ManagerEvent, PendingRequest, RestorePhase, SessionPhase, SessionResult,
    SessionStart, TaskFailed, TransitionIntent, TransitionOutcome, TransitionPhase,
    TransitionSource,
};
use crate::host_switch_laws;
use crate::host_switch_model;
use crate::host_switch_model::{
    IntentView, ManagerView, PendingView, SlotView, StartView, TransitionView,
};
use crate::host_switch_round::RoundInputs;
use crate::link::{HostSwitchLink, LinkView};

verus! {

/// Whether the slot at `i` is the one capture session of this generation, and
/// which link it serves.
pub open spec fn only_session(
    slots: Seq<SlotView>,
    i: int,
    generation: u64,
    link: LinkView,
) -> bool {
    &&& 0 <= i < slots.len()
    &&& slots[i] matches SlotView::Running { link: served, generation: held, .. } && served == link
        && held == generation
    &&& forall|j: int|
        0 <= j < slots.len() && j != i ==> ((#[trigger] slots[j]) matches SlotView::Running {
            generation: held,
            ..
        } ==> held != generation)
}

/// Whether the slot at `i` is the one restore of this generation, which link
/// it holds and which host that link is to move to afterwards.
pub open spec fn only_restore(
    slots: Seq<SlotView>,
    i: int,
    generation: u64,
    link: LinkView,
    host: Option<u8>,
) -> bool {
    &&& 0 <= i < slots.len()
    &&& slots[i] matches SlotView::Recovering {
        link: served,
        generation: held,
        requested_host,
        ..
    } && served == link && held == generation && requested_host == host
    &&& forall|j: int|
        0 <= j < slots.len() && j != i ==> ((#[trigger] slots[j]) matches SlotView::Recovering {
            generation: held,
            ..
        } ==> held != generation)
}

proof fn lemma_found_session(state: ManagerView, i: int, generation: u64, link: LinkView)
    requires
        only_session(state.slots, i, generation, link),
    ensures
        host_switch_model::running_index(state.slots, generation) == Some(i),
{
    host_switch_laws::lemma_running_index(state.slots, generation);
    assert(state.slots[i] is Running);
}

proof fn lemma_found_restore(
    state: ManagerView,
    i: int,
    generation: u64,
    link: LinkView,
    host: Option<u8>,
)
    requires
        only_restore(state.slots, i, generation, link, host),
    ensures
        host_switch_model::recovering_index(state.slots, generation) == Some(i),
{
    host_switch_laws::lemma_recovering_index(state.slots, generation);
    assert(state.slots[i] is Recovering);
}

/// A key press moves its link: a session that ends with a host pressed, and no
/// firmware left to restore, frees its slot and leaves the move of exactly its
/// link to exactly that host waiting. Nothing else changes.
pub proof fn law_a_key_press_becomes_the_waiting_move(
    state: ManagerView,
    i: int,
    generation: u64,
    link: LinkView,
    result: SessionResult,
    host: u8,
    published: Seq<LinkView>,
    now: int,
)
    requires
        only_session(state.slots, i, generation, link),
        published.contains(link),
        result.requested_host == Some(host),
        !result.pending_restore,
    ensures
        ({
            let after = state.after_session(generation, Ok(result), published, false, now);
            &&& after.transition matches Some(TransitionView::Waiting(intent))
            &&& intent.link == link
            &&& intent.host == host
            &&& intent.source == TransitionSource::KeyPress
            &&& after.slots == state.slots.remove(i)
            &&& after.next_generation == state.next_generation
            &&& after.request == state.request
            &&& after.backoff == state.backoff
            &&& after.seen == state.seen
            &&& after.settled == state.settled
            &&& after.task_failed == state.task_failed
        }),
{
    lemma_found_session(state, i, generation, link);
}

/// Firmware comes first: a session that leaves some to restore keeps its
/// keyboard, whatever else happened. The restore waits one second, and the
/// pressed host waits with it while the link is published and the manager
/// stays. The transition is left alone.
pub proof fn law_unrestored_firmware_keeps_its_keyboard(
    state: ManagerView,
    i: int,
    generation: u64,
    link: LinkView,
    result: SessionResult,
    published: Seq<LinkView>,
    terminal: bool,
    now: int,
)
    requires
        only_session(state.slots, i, generation, link),
        result.pending_restore,
        0 <= now,
        now + 1_000_000_000 <= u64::MAX,
    ensures
        ({
            let after = state.after_session(generation, Ok(result), published, terminal, now);
            &&& after.slots.len() == state.slots.len()
            &&& after.slots.drop_last() == state.slots.remove(i)
            &&& after.slots.last() matches SlotView::Recovering {
                link: held,
                generation: of,
                requested_host,
                restore,
            }
            &&& held == link
            &&& of == generation
            &&& requested_host == if terminal || !published.contains(link) {
                None::<u8>
            } else {
                result.requested_host
            }
            &&& restore matches RestorePhase::Ready { retry_at }
            &&& retry_at == now + 1_000_000_000
            &&& after.transition == state.transition
            &&& after.request == state.request
            &&& after.task_failed == state.task_failed
        }),
{
    lemma_found_session(state, i, generation, link);
    let after = state.after_session(generation, Ok(result), published, terminal, now);
    assert(after.slots.drop_last() =~= state.slots.remove(i));
}

/// A failed session without a pressed host is restarted one second later while
/// its link is published and the manager stays; until then it keeps its
/// keyboard.
pub proof fn law_a_failed_session_is_restarted(
    state: ManagerView,
    i: int,
    generation: u64,
    link: LinkView,
    result: SessionResult,
    published: Seq<LinkView>,
    now: int,
)
    requires
        only_session(state.slots, i, generation, link),
        published.contains(link),
        result.failed,
        result.requested_host is None,
        !result.pending_restore,
        0 <= now,
        now + 1_000_000_000 <= u64::MAX,
    ensures
        ({
            let after = state.after_session(generation, Ok(result), published, false, now);
            &&& after.slots.len() == state.slots.len()
            &&& after.slots.drop_last() == state.slots.remove(i)
            &&& after.slots.last() matches SlotView::Restarting { link: held, retry_at }
            &&& held == link
            &&& retry_at == now + 1_000_000_000
            &&& after.transition == state.transition
            &&& after.request == state.request
            &&& after.task_failed == state.task_failed
        }),
{
    lemma_found_session(state, i, generation, link);
    let after = state.after_session(generation, Ok(result), published, false, now);
    assert(after.slots.drop_last() =~= state.slots.remove(i));
}

/// A session that leaves nothing behind frees its slot and nothing else: one
/// that ended well without a pressed host, and any whose link is gone or whose
/// manager leaves, so long as no firmware is left to restore.
pub proof fn law_an_uneventful_end_only_frees_the_slot(
    state: ManagerView,
    i: int,
    generation: u64,
    link: LinkView,
    result: SessionResult,
    published: Seq<LinkView>,
    terminal: bool,
    now: int,
)
    requires
        only_session(state.slots, i, generation, link),
        !result.pending_restore,
        terminal || !published.contains(link) || (result.requested_host is None && !result.failed),
    ensures
        state.after_session(generation, Ok(result), published, terminal, now) == (ManagerView {
            slots: state.slots.remove(i),
            ..state
        }),
{
    lemma_found_session(state, i, generation, link);
}

/// A session or restore whose task failed frees its slot and is remembered, so
/// that the manager does not end as if nothing had happened.
pub proof fn law_a_failed_task_is_remembered(
    state: ManagerView,
    i: int,
    generation: u64,
    link: LinkView,
    host: Option<u8>,
    published: Seq<LinkView>,
    terminal: bool,
    now: int,
)
    ensures
        only_session(state.slots, i, generation, link) ==> state.after_session(
            generation,
            Err(TaskFailed),
            published,
            terminal,
            now,
        ) == (ManagerView { slots: state.slots.remove(i), task_failed: true, ..state }),
        only_restore(state.slots, i, generation, link, host) ==> state.after_restore(
            generation,
            Err(TaskFailed),
            published,
            terminal,
            now,
        ) == (ManagerView { slots: state.slots.remove(i), task_failed: true, ..state }),
{
    if only_session(state.slots, i, generation, link) {
        lemma_found_session(state, i, generation, link);
    }
    if only_restore(state.slots, i, generation, link, host) {
        lemma_found_restore(state, i, generation, link, host);
    }
}

/// Once its firmware is restored, a keyboard's slot is free, and the host that
/// was pressed before, if one was, becomes the waiting move while the link is
/// published and the manager stays.
pub proof fn law_a_restored_keyboard_moves_on(
    state: ManagerView,
    i: int,
    generation: u64,
    link: LinkView,
    host: Option<u8>,
    published: Seq<LinkView>,
    terminal: bool,
    now: int,
)
    requires
        only_restore(state.slots, i, generation, link, host),
    ensures
        ({
            let after = state.after_restore(
                generation,
                Ok(HostSwitchRestoreOutcome::Restored),
                published,
                terminal,
                now,
            );
            &&& after.slots == state.slots.remove(i)
            &&& host is Some && !terminal && published.contains(link) ==> {
                &&& after.transition matches Some(TransitionView::Waiting(intent))
                &&& intent.link == link
                &&& Some(intent.host) == host
                &&& intent.source == TransitionSource::KeyPress
            }
            &&& host is None || terminal || !published.contains(link) ==> after.transition
                == state.transition
            &&& after.next_generation == state.next_generation
            &&& after.request == state.request
            &&& after.backoff == state.backoff
            &&& after.seen == state.seen
            &&& after.settled == state.settled
            &&& after.task_failed == state.task_failed
        }),
{
    lemma_found_restore(state, i, generation, link, host);
}

/// A restore that did not get through is tried again one second later, and
/// keeps the keyboard and the pressed host meanwhile.
pub proof fn law_an_unfinished_restore_is_tried_again(
    state: ManagerView,
    i: int,
    generation: u64,
    link: LinkView,
    host: Option<u8>,
    published: Seq<LinkView>,
    terminal: bool,
    now: int,
)
    requires
        only_restore(state.slots, i, generation, link, host),
        0 <= now,
        now + 1_000_000_000 <= u64::MAX,
    ensures
        ({
            let after = state.after_restore(
                generation,
                Ok(HostSwitchRestoreOutcome::RestorePending),
                published,
                terminal,
                now,
            );
            &&& after.slots.len() == state.slots.len()
            &&& after.slots.drop_last() == state.slots.remove(i)
            &&& after.slots.last() matches SlotView::Recovering {
                link: held,
                generation: of,
                requested_host,
                restore: RestorePhase::Ready { retry_at },
            }
            &&& held == link
            &&& of == generation
            &&& requested_host == host
            &&& retry_at == now + 1_000_000_000
            &&& after.transition == state.transition
            &&& after.request == state.request
            &&& after.task_failed == state.task_failed
        }),
{
    lemma_found_restore(state, i, generation, link, host);
    let after = state.after_restore(
        generation,
        Ok(HostSwitchRestoreOutcome::RestorePending),
        published,
        terminal,
        now,
    );
    assert(after.slots.drop_last() =~= state.slots.remove(i));
}

/// A key press survives the restoring of firmware: the session ends with a
/// host pressed and firmware to restore, the restore then succeeds, and that
/// link's move to that host is what waits.
pub proof fn law_a_key_press_survives_the_restore(
    state: ManagerView,
    i: int,
    generation: u64,
    link: LinkView,
    result: SessionResult,
    host: u8,
    published: Seq<LinkView>,
    ended: int,
    restored: int,
)
    requires
        only_session(state.slots, i, generation, link),
        forall|j: int|
            0 <= j < state.slots.len() ==> ((#[trigger] state.slots[j])
                matches SlotView::Recovering { generation: held, .. } ==> held != generation),
        published.contains(link),
        result.requested_host == Some(host),
        result.pending_restore,
        0 <= ended,
        ended + 1_000_000_000 <= u64::MAX,
    ensures
        ({
            let waiting = state.after_session(generation, Ok(result), published, false, ended);
            let after = waiting.after_restore(
                generation,
                Ok(HostSwitchRestoreOutcome::Restored),
                published,
                false,
                restored,
            );
            &&& after.transition matches Some(TransitionView::Waiting(intent))
            &&& intent.link == link
            &&& intent.host == host
            &&& intent.source == TransitionSource::KeyPress
            &&& after.slots == state.slots.remove(i)
        }),
{
    let waiting = state.after_session(generation, Ok(result), published, false, ended);
    law_unrestored_firmware_keeps_its_keyboard(
        state,
        i,
        generation,
        link,
        result,
        published,
        false,
        ended,
    );
    let last = waiting.slots.len() - 1;
    let rest = state.slots.remove(i);
    assert forall|j: int| 0 <= j < waiting.slots.len() && j != last implies ((
    #[trigger] waiting.slots[j]) matches SlotView::Recovering { generation: held, .. } ==> held
        != generation) by {
        assert(waiting.slots[j] == waiting.slots.drop_last()[j]);
        assert(rest[j] == state.slots[if j < i {
            j
        } else {
            j + 1
        }]);
    }
    law_a_restored_keyboard_moves_on(
        waiting,
        last,
        generation,
        link,
        Some(host),
        published,
        false,
        restored,
    );
    assert(waiting.slots.remove(last) =~= waiting.slots.drop_last());
}

/// A landed transition frees its slot. A failure is charged to the ask it ran
/// for, if that ask is still the outstanding one; a success charges nothing,
/// and takes no earlier failure back. A failed task is a failure, and is
/// remembered.
pub proof fn law_a_landed_transition_is_charged_to_its_ask(
    state: ManagerView,
    source: TransitionSource,
    result: Result<TransitionOutcome, TaskFailed>,
)
    requires
        state.transition == Some(TransitionView::Running(source)),
    ensures
        ({
            let after = state.after_transition(result);
            let failed = result is Err || result == Ok::<_, TaskFailed>(TransitionOutcome::Failed);
            &&& after.transition is None
            &&& after.task_failed == (state.task_failed || result is Err)
            &&& match state.request {
                None => after.request is None,
                Some(request) => {
                    &&& after.request matches Some(charged)
                    &&& charged.serial == request.serial
                    &&& charged.host == request.host
                    &&& charged.remaining == request.remaining
                    &&& charged.failed == (request.failed || (failed && source
                        == (TransitionSource::Request { serial: request.serial })))
                },
            }
            &&& after.slots == state.slots
            &&& after.next_generation == state.next_generation
            &&& after.backoff == state.backoff
            &&& after.seen == state.seen
            &&& after.settled == state.settled
        }),
{
}

/// A landing that no transition waits for changes nothing.
pub proof fn law_an_unexpected_landing_changes_nothing(
    state: ManagerView,
    result: Result<TransitionOutcome, TaskFailed>,
)
    requires
        !(state.transition matches Some(TransitionView::Running(_))),
    ensures
        state.after_transition(result) == state,
{
}

/// A new ask is taken on with every published link and a clean record, unless
/// its host is being left alone; then it is settled on the spot. An older ask
/// is settled either way, and its waiting move, but no key press and no running
/// transition, is dropped. The throttle and the slots are left alone.
pub proof fn law_a_new_ask_is_taken_on_or_throttled(
    state: ManagerView,
    ask: HostRequest,
    published: Seq<LinkView>,
    now: int,
)
    requires
        ask.serial > state.seen,
        state.request matches Some(older) ==> older.serial <= state.seen,
        state.settled <= state.seen,
    ensures
        ({
            let after = state.after_ask(ask, published, now);
            let throttled = state.backoff.host == Some(ask.host) && state.backoff.blocked_until
                is Some && now < state.backoff.blocked_until->0;
            &&& after.seen == ask.serial
            &&& throttled ==> after.request is None && after.settled == ask.serial
            &&& !throttled ==> {
                &&& after.request == Some(
                    PendingView {
                        serial: ask.serial,
                        host: ask.host,
                        remaining: published,
                        failed: false,
                    },
                )
                &&& after.settled < ask.serial
                &&& state.request matches Some(older) ==> after.settled == if older.serial
                    > state.settled {
                    older.serial
                } else {
                    state.settled
                }
                &&& state.request is None ==> after.settled == state.settled
            }
            &&& match state.transition {
                Some(TransitionView::Waiting(intent)) => if intent.source
                    == TransitionSource::KeyPress {
                    after.transition == state.transition
                } else {
                    after.transition is None
                },
                _ => after.transition == state.transition,
            }
            &&& after.slots == state.slots
            &&& after.next_generation == state.next_generation
            &&& after.backoff == state.backoff
            &&& after.task_failed == state.task_failed
        }),
{
}

/// An ask that was seen before changes nothing.
pub proof fn law_an_old_ask_changes_nothing(
    state: ManagerView,
    ask: HostRequest,
    published: Seq<LinkView>,
    now: int,
)
    requires
        ask.serial <= state.seen,
    ensures
        state.after_ask(ask, published, now) == state,
{
}

/// The outstanding ask hands its last still-published link to a free
/// transition slot, for its own host and under its own serial, and keeps the
/// links before that one. The links after it, which it lets go of, are not
/// published. Nothing else changes.
pub proof fn law_an_ask_hands_over_its_last_published_link(
    state: ManagerView,
    request: PendingView,
    k: int,
    published: Seq<LinkView>,
    now: int,
)
    requires
        state.request == Some(request),
        state.transition is None,
        0 <= k < request.remaining.len(),
        published.contains(request.remaining[k]),
        forall|j: int| k < j < request.remaining.len() ==> !published.contains(
            #[trigger] request.remaining[j],
        ),
    ensures
        state.after_promotion(published, false, now) == (ManagerView {
            transition: Some(
                TransitionView::Waiting(
                    IntentView {
                        link: request.remaining[k],
                        host: request.host,
                        source: TransitionSource::Request { serial: request.serial },
                    },
                ),
            ),
            request: Some(
                PendingView {
                    serial: request.serial,
                    host: request.host,
                    remaining: request.remaining.take(k),
                    failed: request.failed,
                },
            ),
            ..state
        }),
{
    host_switch_laws::lemma_last_published(request.remaining, published);
}

/// An ask none of whose links is published any more ends: its caller is
/// released and its host is left alone exactly if a move of it failed.
pub proof fn law_an_ask_without_links_ends(
    state: ManagerView,
    request: PendingView,
    published: Seq<LinkView>,
    now: u64,
)
    requires
        state.request == Some(request),
        state.transition is None,
        now + 60_000_000_000 <= u64::MAX,
        forall|j: int| 0 <= j < request.remaining.len() ==> !published.contains(
            #[trigger] request.remaining[j],
        ),
    ensures
        ({
            let after = state.after_promotion(published, false, now as int);
            &&& after.request is None
            &&& after.transition is None
            &&& after.settled == if request.serial > state.settled {
                request.serial
            } else {
                state.settled
            }
            &&& after.backoff == state.backoff.recorded(request.host, request.failed, now as int)
            &&& after.backoff.host == Some(request.host)
            &&& !request.failed ==> after.backoff.blocked_until is None
            &&& request.failed ==> {
                &&& after.backoff.blocked_until matches Some(until)
                &&& now + 2_000_000_000 <= until <= now + 60_000_000_000
            }
            &&& after.slots == state.slots
            &&& after.next_generation == state.next_generation
            &&& after.seen == state.seen
            &&& after.task_failed == state.task_failed
            &&& after == state.after_finish(now as int)
        }),
{
    host_switch_laws::lemma_last_published(request.remaining, published);
    let after = state.after_promotion(published, false, now as int);
    assert(after == state.after_finish(now as int));
    backoff::law_a_failure_is_left_alone_for_its_dead_time(
        state.backoff,
        request.host,
        now,
    );
}

/// An ask waits while the transition slot is taken, and is given up, its caller
/// released and nothing charged, once the manager leaves.
pub proof fn law_an_ask_waits_or_is_given_up(
    state: ManagerView,
    published: Seq<LinkView>,
    terminal: bool,
    now: int,
)
    ensures
        state.transition is Some && !terminal ==> state.after_promotion(published, false, now)
            == state,
        state.request is None ==> state.after_promotion(published, terminal, now) == state,
        terminal ==> {
            let after = state.after_promotion(published, true, now);
            &&& after.request is None
            &&& state.request matches Some(request) ==> after.settled == if request.serial
                > state.settled {
                request.serial
            } else {
                state.settled
            }
            &&& after.backoff == state.backoff
            &&& after.transition == state.transition
            &&& after.slots == state.slots
            &&& after.next_generation == state.next_generation
            &&& after.seen == state.seen
            &&& after.task_failed == state.task_failed
        },
{
}

/// A move waits only for a published link and a manager that stays; a running
/// transition is never dropped.
pub proof fn law_a_waiting_move_needs_its_link(
    state: ManagerView,
    published: Seq<LinkView>,
    terminal: bool,
)
    ensures
        ({
            let after = state.after_reconciled_transition(published, terminal);
            &&& match state.transition {
                Some(TransitionView::Waiting(intent)) => if !terminal && published.contains(
                    intent.link,
                ) {
                    after == state
                } else {
                    after == (ManagerView { transition: None, ..state })
                },
                _ => after == state,
            }
        }),
{
}

/// A waiting move starts exactly when the manager stays and no slot holds a
/// session or firmware to restore; then that very move starts, and is marked
/// as running under its own source.
pub proof fn law_a_move_starts_once_nothing_is_in_its_way(state: ManagerView, terminal: bool)
    ensures
        ({
            let free = forall|i: int|
                0 <= i < state.slots.len() ==> (#[trigger] state.slots[i]) is Restarting;
            match state.transition {
                Some(TransitionView::Waiting(intent)) => if !terminal && free {
                    &&& state.startable(terminal) == Some(intent)
                    &&& state.after_begin(terminal) == (ManagerView {
                        transition: Some(TransitionView::Running(intent.source)),
                        ..state
                    })
                } else {
                    &&& state.startable(terminal) is None
                    &&& state.after_begin(terminal) == state
                },
                _ => {
                    &&& state.startable(terminal) is None
                    &&& state.after_begin(terminal) == state
                },
            }
        }),
{
    lemma_nothing_in_the_way(state);
}

proof fn lemma_nothing_in_the_way(state: ManagerView)
    ensures
        (!state.sessions_running() && !state.restores_pending()) <==> (forall|i: int|
            0 <= i < state.slots.len() ==> (#[trigger] state.slots[i]) is Restarting),
{
    if forall|i: int| 0 <= i < state.slots.len() ==> (#[trigger] state.slots[i]) is Restarting {
        if state.sessions_running() {
            let i = choose|i: int|
                0 <= i < state.slots.len() && #[trigger] state.slots[i] is Running;
            assert(state.slots[i] is Restarting);
        }
        if state.restores_pending() {
            let i = choose|i: int|
                0 <= i < state.slots.len() && #[trigger] state.slots[i] is Recovering;
            assert(state.slots[i] is Restarting);
        }
    } else {
        let i = choose|i: int|
            0 <= i < state.slots.len() && !((#[trigger] state.slots[i]) is Restarting);
        assert(state.slots[i] is Running || state.slots[i] is Recovering);
    }
}

/// The manager ends exactly when it was told to leave and nothing it started
/// is left: no session, no firmware to restore, no transition. It ends well
/// exactly if no task ever failed.
pub proof fn law_the_manager_leaves_once_everything_is_drained(state: ManagerView, terminal: bool)
    ensures
        ({
            let drained = forall|i: int|
                0 <= i < state.slots.len() ==> (#[trigger] state.slots[i]) is Restarting;
            if terminal && drained && state.transition is None {
                state.completion(terminal) == Some(
                    if state.task_failed {
                        ManagerCompletion::Unexpected
                    } else {
                        ManagerCompletion::Graceful
                    },
                )
            } else {
                state.completion(terminal) is None
            }
        }),
{
    lemma_nothing_in_the_way(state);
}

/// A manager starts with nothing: no slot, no transition, no ask, no host left
/// alone and no task failed.
pub proof fn law_a_manager_starts_with_nothing()
    ensures
        ({
            let state = ManagerView::initial();
            &&& state.slots.len() == 0
            &&& state.next_generation == 0
            &&& state.transition is None
            &&& state.request is None
            &&& state.backoff.host is None
            &&& state.backoff.failures == 0
            &&& state.backoff.blocked_until is None
            &&& state.seen == 0
            &&& state.settled == 0
            &&& !state.task_failed
        }),
{
}

/// What stands in a manager's fields is what its value tells: nothing is left
/// out or changed on the way.
pub proof fn law_the_value_of_a_manager_tells_its_fields(state: HostSwitchManagerState, i: int)
    ensures
        state@.slots.len() == state.slots@.len(),
        0 <= i < state.slots@.len() ==> state@.slots[i] == state.slots@[i]@,
        state@.next_generation == state.next_generation,
        state@.transition is Some <==> state.transition is Some,
        state.transition is Some ==> state@.transition->0 == state.transition->0@,
        state@.request is Some <==> state.request is Some,
        state.request is Some ==> state@.request->0 == state.request->0@,
        state@.backoff == state.backoff,
        state@.seen == state.seen,
        state@.settled == state.settled,
        state@.task_failed == state.task_failed,
{
}

/// What stands in a slot's fields is what its value tells.
pub proof fn law_the_value_of_a_slot_tells_its_fields(slot: HostSwitchSlot)
    ensures
        match slot {
            HostSwitchSlot::Running(session) => {
                &&& slot@ matches SlotView::Running { link, generation, phase }
                &&& link == session.link@
                &&& generation == session.generation
                &&& phase == session.phase
                &&& slot@.keyboard() == session.link.keyboard@
            },
            HostSwitchSlot::Recovering(recovery) => {
                &&& slot@ matches SlotView::Recovering { link, generation, requested_host, restore }
                &&& link == recovery.link@
                &&& generation == recovery.generation
                &&& requested_host == recovery.requested_host
                &&& restore == recovery.restore
                &&& slot@.keyboard() == recovery.link.keyboard@
            },
            HostSwitchSlot::Restarting { link: held, retry_at: at } => {
                &&& slot@ matches SlotView::Restarting { link, retry_at }
                &&& link == held@
                &&& retry_at == at
                &&& slot@.keyboard() == held.keyboard@
            },
        },
{
}

/// What stands in the fields of a move, an ask or a start is what its value
/// tells.
pub proof fn law_the_value_of_a_move_tells_its_fields(
    intent: TransitionIntent,
    source: TransitionSource,
    request: PendingRequest,
    start: SessionStart,
    links: Seq<HostSwitchLink>,
    i: int,
)
    ensures
        intent@.link == intent.link@,
        intent@.host == intent.host,
        intent@.source == intent.source,
        TransitionPhase::Waiting(intent)@ == TransitionView::Waiting(intent@),
        TransitionPhase::Running(source)@ == TransitionView::Running(source),
        request@.serial == request.serial,
        request@.host == request.host,
        request@.failed == request.failed,
        request@.remaining == LinkView::each(request.remaining@),
        start@.generation == start.generation,
        start@.keyboard == start.keyboard@,
        LinkView::each(links).len() == links.len(),
        0 <= i < links.len() ==> LinkView::each(links)[i] == links[i]@,
{
}

/// Whatever ends is taken in as what it is: a session as a session, a restore
/// as a restore and a transition as a transition, each with its own result.
pub proof fn law_each_end_is_taken_in_as_what_it_is(
    state: ManagerView,
    event: ManagerEvent,
    published: Seq<LinkView>,
    terminal: bool,
    now: int,
)
    ensures
        state.after_event(event, published, terminal, now) == match event {
            ManagerEvent::Session(ended) => state.after_session(
                ended.generation,
                ended.result,
                published,
                terminal,
                now,
            ),
            ManagerEvent::Restore(ended) => state.after_restore(
                ended.generation,
                ended.result,
                published,
                terminal,
                now,
            ),
            ManagerEvent::Transition(result) => state.after_transition(result),
        },
{
}

/// What taking in the inputs of a turn comes to. A move that waits afterwards
/// is of a published link, and the manager stays. A running transition and a
/// pressed host with a published link are left alone. An ask that is still
/// outstanding has the transition slot taken, by itself or by another. No slot
/// changes.
pub proof fn law_a_turn_leaves_only_supported_moves_waiting(
    state: ManagerView,
    ask: Option<HostRequest>,
    published: Seq<LinkView>,
    terminal: bool,
    now: int,
)
    ensures
        ({
            let after = state.after_inputs(ask, published, terminal, now);
            &&& after.transition matches Some(TransitionView::Waiting(intent)) ==> {
                &&& !terminal
                &&& published.contains(intent.link)
            }
            &&& state.transition matches Some(TransitionView::Running(_)) ==> after.transition
                == state.transition
            &&& match state.transition {
                Some(TransitionView::Waiting(intent)) => intent.source == TransitionSource::KeyPress
                    && !terminal && published.contains(intent.link) ==> after.transition
                    == state.transition,
                _ => true,
            }
            &&& after.request is Some ==> after.transition is Some && !terminal
            &&& after.seen == match ask {
                Some(ask) => if ask.serial > state.seen {
                    ask.serial
                } else {
                    state.seen
                },
                None => state.seen,
            }
            &&& after.slots == state.slots
            &&& after.next_generation == state.next_generation
            &&& after.task_failed == state.task_failed
        }),
{
    let asked = match ask {
        Some(ask) => state.after_ask(ask, published, now),
        None => state,
    };
    if let Some(request) = asked.request {
        host_switch_laws::lemma_last_published(request.remaining, published);
    }
}

/// Stopping sessions is all that opening a turn adds to its inputs, and while
/// the bus sleeps it adds nothing, unless the manager leaves.
pub proof fn law_opening_a_turn_adds_only_stops(
    state: ManagerView,
    inputs: RoundInputs,
    published: Seq<LinkView>,
    terminal: bool,
)
    ensures
        ({
            let next = state.after_inputs(inputs.ask, published, terminal, inputs.now as int);
            let after = state.after_opening(inputs, published, terminal);
            &&& after == (ManagerView { slots: after.slots, ..next })
            &&& !inputs.io_allowed && !terminal ==> after == next
        }),
{
}

/// A generation is followed by the next number, and the last by zero.
pub proof fn law_generations_count_up(generation: u64)
    ensures
        host_switch_model::generation_after(generation) == (generation + 1) % 0x1_0000_0000_0000_0000,
{
}

/// A failed session or restore waits one second; a keyboard has ten to leave.
pub proof fn law_a_pause_is_shorter_than_a_departure()
    ensures
        host_switch::RETRY_DELAY == 1_000_000_000,
        host_switch::DEPARTURE_TIMEOUT == 10 * host_switch::RETRY_DELAY,
{
}

/// When a slot is to be looked at again: a restore that waits, and a pending
/// restart.
pub open spec fn waits_until(slot: SlotView, at: u64) -> bool {
    ||| slot matches SlotView::Recovering { restore: RestorePhase::Ready { retry_at }, .. }
        && retry_at == at
    ||| slot matches SlotView::Restarting { retry_at, .. } && retry_at == at
}

/// The manager wakes for the earliest retry of any slot, and for none while
/// the receiver is claimed or the bus sleeps.
pub proof fn law_the_manager_wakes_for_the_earliest_retry(
    state: ManagerView,
    requested: bool,
    io_allowed: bool,
    deadline: Option<u64>,
)
    requires
        state.wakes_at(requested, io_allowed, deadline),
    ensures
        requested || !io_allowed ==> deadline is None,
        deadline matches Some(at) ==> {
            &&& exists|i: int|
                0 <= i < state.slots.len() && waits_until(#[trigger] state.slots[i], at)
            &&& forall|i: int, other: u64|
                0 <= i < state.slots.len() && #[trigger] waits_until(state.slots[i], other) ==> at
                    <= other
        },
        deadline is None && !requested && io_allowed ==> forall|i: int, at: u64|
            0 <= i < state.slots.len() ==> !#[trigger] waits_until(state.slots[i], at),
{
    assert forall|i: int, at: u64| 0 <= i < state.slots.len() implies #[trigger] waits_until(
        state.slots[i],
        at,
    ) == (state.slots[i].retry_at() == Some(at)) by {}
    if let Some(at) = deadline {
        let i = choose|i: int|
            0 <= i < state.slots.len() && #[trigger] state.slots[i].retry_at() == Some(at);
        assert(waits_until(state.slots[i], at));
    }
}

/// Every session that is capturing and not wanted is told to stop, and every
/// one once the manager leaves; no other is. A session that is told stays in
/// its slot as draining. Slots without a capturing session do not change.
pub proof fn law_exactly_the_unwanted_sessions_are_stopped(
    state: ManagerView,
    wanted: Seq<LinkView>,
    terminal: bool,
    i: int,
)
    requires
        0 <= i < state.slots.len(),
    ensures
        ({
            let after = state.after_stops(wanted, terminal);
            let stopped = host_switch_model::sessions_to_stop(state.slots, wanted, terminal);
            &&& after.slots.len() == state.slots.len()
            &&& match state.slots[i] {
                SlotView::Running { link, generation, phase: SessionPhase::Active } => if terminal
                    || !wanted.contains(link) {
                    &&& after.slots[i] == (SlotView::Running {
                        link,
                        generation,
                        phase: SessionPhase::Draining,
                    })
                    &&& stopped.contains(generation)
                } else {
                    after.slots[i] == state.slots[i]
                },
                _ => after.slots[i] == state.slots[i],
            }
            &&& after == (ManagerView { slots: after.slots, ..state })
        }),
{
    lemma_stopped_generations(state.slots, wanted, terminal);
    if let SlotView::Running { link, generation, phase: SessionPhase::Active } = state.slots[i] {
        assert(is_told_to_stop(state.slots[i], wanted, terminal, generation) <==> terminal
            || !wanted.contains(link));
    }
}

/// Whether a slot holds a capturing session of this generation that is told to
/// stop.
pub open spec fn is_told_to_stop(
    slot: SlotView,
    wanted: Seq<LinkView>,
    terminal: bool,
    generation: u64,
) -> bool {
    slot matches SlotView::Running { link, generation: held, phase: SessionPhase::Active } && held
        == generation && (terminal || !wanted.contains(link))
}

/// Only generations of capturing, unwanted sessions are signalled.
pub proof fn law_only_unwanted_sessions_are_signalled(
    state: ManagerView,
    wanted: Seq<LinkView>,
    terminal: bool,
    generation: u64,
)
    requires
        host_switch_model::sessions_to_stop(state.slots, wanted, terminal).contains(generation),
    ensures
        exists|i: int|
            0 <= i < state.slots.len() && is_told_to_stop(
                #[trigger] state.slots[i],
                wanted,
                terminal,
                generation,
            ),
{
    lemma_stopped_generations(state.slots, wanted, terminal);
}

proof fn lemma_stopped_generations(slots: Seq<SlotView>, wanted: Seq<LinkView>, terminal: bool)
    ensures
        ({
            let stopped = host_switch_model::sessions_to_stop(slots, wanted, terminal);
            &&& forall|i: int, generation: u64|
                0 <= i < slots.len() && #[trigger] is_told_to_stop(
                    slots[i],
                    wanted,
                    terminal,
                    generation,
                ) ==> stopped.contains(generation)
            &&& forall|generation: u64| #[trigger]
                stopped.contains(generation) ==> exists|i: int|
                    0 <= i < slots.len() && is_told_to_stop(
                        #[trigger] slots[i],
                        wanted,
                        terminal,
                        generation,
                    )
        }),
    decreases slots.len(),
{
    let stopped = host_switch_model::sessions_to_stop(slots, wanted, terminal);
    if slots.len() > 0 {
        let front = slots.drop_last();
        lemma_stopped_generations(front, wanted, terminal);
        let before = host_switch_model::sessions_to_stop(front, wanted, terminal);
        let last = slots.len() - 1;
        assert forall|i: int, generation: u64|
            0 <= i < slots.len() && #[trigger] is_told_to_stop(
                slots[i],
                wanted,
                terminal,
                generation,
            ) implies stopped.contains(generation) by {
            if i < last {
                assert(front[i] == slots[i]);
                assert(is_told_to_stop(front[i], wanted, terminal, generation));
                assert(before.contains(generation));
                let k = choose|k: int| 0 <= k < before.len() && before[k] == generation;
                assert(stopped[k] == generation);
            } else {
                assert(stopped.last() == generation);
            }
        }
        assert forall|generation: u64| #[trigger] stopped.contains(generation) implies exists|i: int|
            0 <= i < slots.len() && is_told_to_stop(
                #[trigger] slots[i],
                wanted,
                terminal,
                generation,
            ) by {
            if before.contains(generation) {
                let i = choose|i: int|
                    0 <= i < front.len() && is_told_to_stop(
                        #[trigger] front[i],
                        wanted,
                        terminal,
                        generation,
                    );
                assert(slots[i] == front[i]);
            } else {
                let k = choose|k: int| 0 <= k < stopped.len() && stopped[k] == generation;
                if k < before.len() {
                    assert(before[k] == generation);
                }
                assert(is_told_to_stop(slots[last], wanted, terminal, generation));
            }
        }
    }
}

/// Making restores due moves the retry of every waiting restore to now, and
/// touches nothing else.
pub proof fn law_expediting_makes_every_waiting_restore_due(state: ManagerView, now: u64, i: int)
    requires
        0 <= i < state.slots.len(),
    ensures
        ({
            let after = state.after_expedite(now);
            &&& after.slots.len() == state.slots.len()
            &&& after.slots[i] == match state.slots[i] {
                SlotView::Recovering {
                    link,
                    generation,
                    requested_host,
                    restore: RestorePhase::Ready { .. },
                } => SlotView::Recovering {
                    link,
                    generation,
                    requested_host,
                    restore: RestorePhase::Ready { retry_at: now },
                },
                other => other,
            }
            &&& after == (ManagerView { slots: after.slots, ..state })
        }),
{
}

/// While the receiver is claimed for an exclusive operation every capturing
/// session is told to stop, so that the receiver comes free, and none is
/// started. The same holds while the manager leaves.
pub proof fn law_a_claimed_receiver_is_given_up(
    state: ManagerView,
    inputs: RoundInputs,
    published: Seq<LinkView>,
    terminal: bool,
    granted: nat,
)
    requires
        inputs.requested || terminal,
    ensures
        inputs.io_allowed || terminal ==> ({
            let after = state.after_opening(inputs, published, terminal);
            let next = state.after_inputs(inputs.ask, published, terminal, inputs.now as int);
            let stopped = host_switch_model::sessions_to_stop(
                next.slots,
                next.wanted(published, inputs.requested, terminal),
                terminal,
            );
            &&& after.slots.len() == state.slots.len()
            &&& forall|i: int|
                0 <= i < after.slots.len() ==> !((#[trigger] after.slots[i])
                    matches SlotView::Running { phase: SessionPhase::Active, .. })
            &&& forall|i: int|
                0 <= i < state.slots.len() ==> ((#[trigger] state.slots[i])
                    matches SlotView::Running { generation, phase: SessionPhase::Active, .. }
                    ==> stopped.contains(generation))
        }),
        ({
            let wanted = state.wanted(published, inputs.requested, terminal);
            &&& host_switch_model::sessions_missing(state.slots, wanted) == 0
            &&& state.armed(wanted, granted) == (state, Seq::<StartView>::empty())
        }),
{
    let next = state.after_inputs(inputs.ask, published, terminal, inputs.now as int);
    let wanted = next.wanted(published, inputs.requested, terminal);
    assert(next.slots == state.slots);
    assert(wanted.len() == 0);
    let after = state.after_opening(inputs, published, terminal);
    if inputs.io_allowed || terminal {
        lemma_stopped_generations(next.slots, wanted, terminal);
        assert forall|i: int| 0 <= i < state.slots.len() implies {
            &&& (#[trigger] state.slots[i]) matches SlotView::Running {
                generation,
                phase: SessionPhase::Active,
                ..
            } ==> is_told_to_stop(state.slots[i], wanted, terminal, generation)
            &&& !(after.slots[i] matches SlotView::Running { phase: SessionPhase::Active, .. })
        } by {
            law_exactly_the_unwanted_sessions_are_stopped(next, wanted, terminal, i);
        }
        assert forall|i: int| 0 <= i < after.slots.len() implies !((#[trigger] after.slots[i])
            matches SlotView::Running { phase: SessionPhase::Active, .. }) by {
            assert(state.slots[i] == state.slots[i]);
        }
    }
}

/// Sessions also give way to a transition: while one waits or runs, every
/// capturing session is told to stop and none is started.
pub proof fn law_sessions_give_way_to_a_transition(
    state: ManagerView,
    inputs: RoundInputs,
    published: Seq<LinkView>,
    terminal: bool,
    granted: nat,
)
    ensures
        ({
            let after = state.after_opening(inputs, published, terminal);
            after.transition is Some && inputs.io_allowed ==> forall|i: int|
                0 <= i < after.slots.len() ==> !((#[trigger] after.slots[i])
                    matches SlotView::Running { phase: SessionPhase::Active, .. })
        }),
        state.transition is Some ==> !state.may_arm(inputs.io_allowed, terminal),
        terminal || !inputs.io_allowed ==> !state.may_arm(inputs.io_allowed, terminal),
        state.transition is None && !terminal && inputs.io_allowed ==> state.may_arm(
            inputs.io_allowed,
            terminal,
        ),
{
    let next = state.after_inputs(inputs.ask, published, terminal, inputs.now as int);
    let wanted = next.wanted(published, inputs.requested, terminal);
    let after = state.after_opening(inputs, published, terminal);
    if after.transition is Some && inputs.io_allowed {
        assert(wanted.len() == 0);
        assert forall|i: int| 0 <= i < after.slots.len() implies !((#[trigger] after.slots[i])
            matches SlotView::Running { phase: SessionPhase::Active, .. }) by {
            law_exactly_the_unwanted_sessions_are_stopped(next, wanted, terminal, i);
        }
    }
}

/// A session is left capturing while its link is published, the receiver is
/// free, no transition is under way and the manager stays. While the bus
/// sleeps no session is stopped either, unless the manager leaves.
pub proof fn law_a_wanted_session_is_left_alone(
    state: ManagerView,
    inputs: RoundInputs,
    published: Seq<LinkView>,
    terminal: bool,
    i: int,
    link: LinkView,
    generation: u64,
)
    requires
        0 <= i < state.slots.len(),
        state.slots[i] == (SlotView::Running { link, generation, phase: SessionPhase::Active }),
        !terminal,
    ensures
        ({
            let after = state.after_opening(inputs, published, terminal);
            &&& published.contains(link) && !inputs.requested && after.transition is None
                ==> after.slots[i] == state.slots[i]
            &&& !inputs.io_allowed ==> after.slots == state.slots
            &&& !published.contains(link) && inputs.io_allowed ==> after.slots[i]
                == (SlotView::Running { link, generation, phase: SessionPhase::Draining })
        }),
{
    let next = state.after_inputs(inputs.ask, published, terminal, inputs.now as int);
    let wanted = next.wanted(published, inputs.requested, terminal);
    assert(next.slots == state.slots);
    law_exactly_the_unwanted_sessions_are_stopped(next, wanted, terminal, i);
}

/// A new ask gets going in the turn that reads it: with the transition slot
/// free and some link published, a published link's move to the asked host
/// waits at the end of that turn's inputs, unless the host is being left
/// alone.
pub proof fn law_a_new_ask_gets_going_at_once(
    state: ManagerView,
    ask: HostRequest,
    published: Seq<LinkView>,
    now: int,
)
    requires
        ask.serial > state.seen,
        published.len() > 0,
        state.transition is None,
        state.backoff.host != Some(ask.host) || state.backoff.blocked_until is None || now
            >= state.backoff.blocked_until->0,
    ensures
        ({
            let after = state.after_inputs(Some(ask), published, false, now);
            &&& after.transition matches Some(TransitionView::Waiting(intent))
            &&& intent.link == published.last()
            &&& intent.host == ask.host
            &&& intent.source == (TransitionSource::Request { serial: ask.serial })
            &&& after.request matches Some(request)
            &&& request.serial == ask.serial
            &&& request.remaining == published.drop_last()
            &&& !request.failed
            &&& after.slots == state.slots
        }),
{
    let asked = state.after_ask(ask, published, now);
    assert(asked.request->0.remaining == published);
    assert(published.contains(published.last())) by {
        assert(published[published.len() - 1] == published.last());
    }
    law_an_ask_hands_over_its_last_published_link(
        asked,
        asked.request->0,
        published.len() - 1,
        published,
        now,
    );
    assert(published.take(published.len() - 1) =~= published.drop_last());
}

/// The links that an outstanding ask moves, one turn after the other, while
/// the same links stay published and every transition lands well.
pub open spec fn links_moved(state: ManagerView, published: Seq<LinkView>, now: int) -> Seq<
    LinkView,
>
    decreases
            match state.request {
                Some(request) => request.remaining.len(),
                None => 0,
            },
    via links_moved_decreases
{
    let handed = state.after_promotion(published, false, now);
    match (state.request, state.transition, handed.transition) {
        (Some(_), None, Some(TransitionView::Waiting(intent))) => {
            let begun = ManagerView {
                transition: Some(TransitionView::Running(intent.source)),
                ..handed
            };
            seq![intent.link] + links_moved(
                begun.after_transition(Ok(TransitionOutcome::Settled)),
                published,
                now,
            )
        },
        _ => Seq::empty(),
    }
}

#[via_fn]
proof fn links_moved_decreases(state: ManagerView, published: Seq<LinkView>, now: int) {
    if let Some(request) = state.request {
        host_switch_laws::lemma_last_published(request.remaining, published);
    }
}

/// An ask moves every link it was taken on with that is published, and no
/// other.
pub proof fn law_an_ask_moves_every_published_link(
    state: ManagerView,
    request: PendingView,
    published: Seq<LinkView>,
    now: int,
    link: LinkView,
)
    requires
        state.request == Some(request),
        state.transition is None,
    ensures
        links_moved(state, published, now).contains(link) <==> request.remaining.contains(link)
            && published.contains(link),
    decreases request.remaining.len(),
{
    host_switch_laws::lemma_last_published(request.remaining, published);
    let moved = links_moved(state, published, now);
    let handed = state.after_promotion(published, false, now);
    match host_switch_model::last_published(request.remaining, published) {
        Some(k) => {
            let intent = IntentView {
                link: request.remaining[k],
                host: request.host,
                source: TransitionSource::Request { serial: request.serial },
            };
            let begun = ManagerView {
                transition: Some(TransitionView::Running(intent.source)),
                ..handed
            };
            let next = begun.after_transition(Ok(TransitionOutcome::Settled));
            let rest = request.remaining.take(k);
            assert(next.request->0.remaining == rest);
            law_an_ask_moves_every_published_link(next, next.request->0, published, now, link);
            let later = links_moved(next, published, now);
            assert(moved == seq![intent.link] + later);
            assert(moved.contains(link) <==> link == intent.link || later.contains(link)) by {
                if later.contains(link) {
                    let j = choose|j: int| 0 <= j < later.len() && later[j] == link;
                    assert(moved[j + 1] == link);
                }
                if link == intent.link {
                    assert(moved[0] == link);
                }
                if moved.contains(link) {
                    let j = choose|j: int| 0 <= j < moved.len() && moved[j] == link;
                    if j > 0 {
                        assert(later[j - 1] == link);
                    }
                }
            }
            if request.remaining.contains(link) && published.contains(link) {
                let j = choose|j: int|
                    0 <= j < request.remaining.len() && request.remaining[j] == link;
                if j < k {
                    assert(rest[j] == link);
                } else {
                    assert(j == k);
                }
            }
            if rest.contains(link) {
                let j = choose|j: int| 0 <= j < rest.len() && rest[j] == link;
                assert(request.remaining[j] == link);
            }
        },
        None => {
            if request.remaining.contains(link) {
                let j = choose|j: int|
                    0 <= j < request.remaining.len() && request.remaining[j] == link;
                assert(!published.contains(request.remaining[j]));
            }
        },
    }
}

/// A slot after a recovery pass that has a lease for each slot: a keyboard's
/// pressed host is forgotten once its link is gone, and a waiting restore whose
/// time has come is running, unless the receiver is claimed.
pub open spec fn recovered(
    slot: SlotView,
    published: Seq<LinkView>,
    requested: bool,
    now: int,
) -> SlotView {
    match slot {
        SlotView::Recovering { link, generation, requested_host, restore } => SlotView::Recovering {
            link,
            generation,
            requested_host: if published.contains(link) {
                requested_host
            } else {
                None
            },
            restore: match restore {
                RestorePhase::Ready { retry_at } => if retry_at <= now && !requested {
                    RestorePhase::Restoring
                } else {
                    restore
                },
                RestorePhase::Restoring => restore,
            },
        },
        other => other,
    }
}

/// Whether a slot waits for a restore of this generation whose time has come
/// on a receiver that is free.
pub open spec fn starts_restore(
    slot: SlotView,
    requested: bool,
    now: int,
    generation: u64,
) -> bool {
    slot matches SlotView::Recovering {
        generation: held,
        restore: RestorePhase::Ready { retry_at },
        ..
    } && held == generation && retry_at <= now && !requested
}

proof fn lemma_ample_leases_start_every_restore(
    slots: Seq<SlotView>,
    published: Seq<LinkView>,
    requested: bool,
    granted: nat,
    now: int,
)
    requires
        granted >= slots.len() || requested,
    ensures
        ({
            let pass = host_switch_model::restores_started(
                slots,
                published,
                requested,
                granted,
                now,
            );
            &&& pass.0.len() == slots.len()
            &&& forall|i: int|
                0 <= i < slots.len() ==> #[trigger] pass.0[i] == recovered(
                    slots[i],
                    published,
                    requested,
                    now,
                )
            &&& forall|i: int, generation: u64|
                0 <= i < slots.len() && #[trigger] starts_restore(
                    slots[i],
                    requested,
                    now,
                    generation,
                ) ==> pass.1.contains(generation)
            &&& forall|generation: u64| #[trigger]
                pass.1.contains(generation) ==> exists|i: int|
                    0 <= i < slots.len() && starts_restore(
                        #[trigger] slots[i],
                        requested,
                        now,
                        generation,
                    )
        }),
    decreases slots.len(),
{
    let pass = host_switch_model::restores_started(slots, published, requested, granted, now);
    if slots.len() > 0 {
        let tail = slots.drop_first();
        let head = slots.first().unwanted_move_dropped(published);
        let due = head.restore_due(requested, now);
        let left = if due {
            (granted - 1) as nat
        } else {
            granted
        };
        lemma_ample_leases_start_every_restore(tail, published, requested, left, now);
        let rest = host_switch_model::restores_started(tail, published, requested, left, now);
        assert(slots[0] == slots.first());
        assert(pass.0[0] == recovered(slots[0], published, requested, now));
        assert forall|i: int| 0 <= i < slots.len() implies #[trigger] pass.0[i] == recovered(
            slots[i],
            published,
            requested,
            now,
        ) by {
            if i > 0 {
                assert(pass.0[i] == rest.0[i - 1]);
                assert(tail[i - 1] == slots[i]);
            }
        }
        assert forall|i: int, generation: u64|
            0 <= i < slots.len() && #[trigger] starts_restore(
                slots[i],
                requested,
                now,
                generation,
            ) implies pass.1.contains(generation) by {
            if i > 0 {
                assert(tail[i - 1] == slots[i]);
                assert(starts_restore(tail[i - 1], requested, now, generation));
                assert(rest.1.contains(generation));
                let k = choose|k: int| 0 <= k < rest.1.len() && rest.1[k] == generation;
                if due {
                    assert(pass.1[k + 1] == generation);
                } else {
                    assert(pass.1[k] == generation);
                }
            } else {
                assert(due);
                assert(pass.1[0] == generation);
            }
        }
        assert forall|generation: u64| #[trigger] pass.1.contains(generation) implies exists|i: int|
            0 <= i < slots.len() && starts_restore(
                #[trigger] slots[i],
                requested,
                now,
                generation,
            ) by {
            if rest.1.contains(generation) {
                let i = choose|i: int|
                    0 <= i < tail.len() && starts_restore(
                        #[trigger] tail[i],
                        requested,
                        now,
                        generation,
                    );
                assert(slots[i + 1] == tail[i]);
            } else {
                let k = choose|k: int| 0 <= k < pass.1.len() && pass.1[k] == generation;
                if due {
                    if k > 0 {
                        assert(rest.1[k - 1] == generation);
                    }
                } else {
                    assert(rest.1[k] == generation);
                }
                assert(starts_restore(slots[0], requested, now, generation));
            }
        }
    }
}

/// Whether a slot survives a recovery pass: a pending restart goes once it is
/// due on a free receiver, its link is gone or the manager leaves; everything
/// else stays.
pub open spec fn survives(
    slot: SlotView,
    published: Seq<LinkView>,
    requested: bool,
    now: int,
    terminal: bool,
) -> bool {
    match slot {
        SlotView::Restarting { link, retry_at } => {
            &&& !terminal
            &&& published.contains(link)
            &&& retry_at > now || requested
        },
        _ => true,
    }
}

proof fn lemma_survivors(
    slots: Seq<SlotView>,
    published: Seq<LinkView>,
    requested: bool,
    now: int,
    terminal: bool,
)
    ensures
        ({
            let kept = host_switch_model::outliving(slots, published, requested, now, terminal);
            &&& kept.len() <= slots.len()
            &&& forall|slot: SlotView| #[trigger]
                kept.contains(slot) <==> slots.contains(slot) && survives(
                    slot,
                    published,
                    requested,
                    now,
                    terminal,
                )
        }),
    decreases slots.len(),
{
    let kept = host_switch_model::outliving(slots, published, requested, now, terminal);
    if slots.len() > 0 {
        let front = slots.drop_last();
        lemma_survivors(front, published, requested, now, terminal);
        let before = host_switch_model::outliving(front, published, requested, now, terminal);
        let last = slots.last();
        let stays = survives(last, published, requested, now, terminal);
        assert forall|slot: SlotView| #[trigger] kept.contains(slot) <==> slots.contains(slot)
            && survives(slot, published, requested, now, terminal) by {
            assert(slots.contains(slot) <==> front.contains(slot) || slot == last) by {
                if front.contains(slot) {
                    let k = choose|k: int| 0 <= k < front.len() && front[k] == slot;
                    assert(slots[k] == slot);
                }
                if slot == last {
                    assert(slots[slots.len() - 1] == slot);
                }
                if slots.contains(slot) {
                    let k = choose|k: int| 0 <= k < slots.len() && slots[k] == slot;
                    if k < front.len() {
                        assert(front[k] == slot);
                    }
                }
            }
            assert(kept.contains(slot) <==> before.contains(slot) || (stays && slot == last)) by {
                if before.contains(slot) {
                    let k = choose|k: int| 0 <= k < before.len() && before[k] == slot;
                    assert(kept[k] == slot);
                }
                if stays && slot == last {
                    assert(kept[before.len() as int] == slot);
                }
                if kept.contains(slot) {
                    let k = choose|k: int| 0 <= k < kept.len() && kept[k] == slot;
                    if k < before.len() {
                        assert(before[k] == slot);
                    }
                }
            }
        }
    }
}

/// What a recovery pass with leases enough does to each slot. Sessions stay. A
/// pending restart stays until its time comes on a free receiver, and goes at
/// once when its link is gone or the manager leaves. Firmware to restore always
/// stays; its restore runs, and is reported, exactly once its time has come on
/// a free receiver.
pub proof fn law_a_recovery_pass_deals_with_each_slot(
    state: ManagerView,
    published: Seq<LinkView>,
    requested: bool,
    granted: nat,
    now: int,
    terminal: bool,
    i: int,
)
    requires
        granted >= state.slots.len() || requested,
        0 <= i < state.slots.len(),
    ensures
        ({
            let pass = state.recovery_pass(published, requested, granted, now, terminal);
            match state.slots[i] {
                SlotView::Running { .. } => pass.0.contains(state.slots[i]),
                SlotView::Restarting { link, retry_at } => pass.0.contains(state.slots[i]) <==> (
                !terminal && published.contains(link) && (retry_at > now || requested)),
                SlotView::Recovering { link, generation, requested_host, restore } => {
                    let due = !requested && (restore matches RestorePhase::Ready { retry_at }
                        && retry_at <= now);
                    &&& pass.0.contains(
                        SlotView::Recovering {
                            link,
                            generation,
                            requested_host: if published.contains(link) {
                                requested_host
                            } else {
                                None
                            },
                            restore: if due {
                                RestorePhase::Restoring
                            } else {
                                restore
                            },
                        },
                    )
                    &&& due ==> pass.1.contains(generation)
                },
            }
        }),
{
    let kept = state.recovery_slots(published, requested, now, terminal);
    let pass = state.recovery_pass(published, requested, granted, now, terminal);
    let slot = state.slots[i];
    lemma_survivors(state.slots, published, requested, now, terminal);
    lemma_ample_leases_start_every_restore(kept, published, requested, granted, now);
    assert(state.slots.contains(slot));
    if survives(slot, published, requested, now, terminal) {
        assert(kept.contains(slot));
        let k = choose|k: int| 0 <= k < kept.len() && kept[k] == slot;
        assert(pass.0[k] == recovered(slot, published, requested, now));
        assert(pass.0.contains(pass.0[k]));
        if let SlotView::Recovering { generation, .. } = slot {
            assert(starts_restore(kept[k], requested, now, generation) ==> pass.1.contains(
                generation,
            ));
        }
    } else if pass.0.contains(slot) {
        let k = choose|k: int| 0 <= k < pass.0.len() && pass.0[k] == slot;
        assert(pass.0[k] == recovered(kept[k], published, requested, now));
        assert(kept[k] == slot);
        assert(kept.contains(slot));
    }
}

/// A recovery pass makes no slot up and starts no restore that is not due; it
/// starts none at all while the receiver is claimed.
pub proof fn law_a_recovery_pass_makes_nothing_up(
    state: ManagerView,
    published: Seq<LinkView>,
    requested: bool,
    granted: nat,
    now: int,
    terminal: bool,
    generation: u64,
)
    requires
        granted >= state.slots.len() || requested,
    ensures
        ({
            let pass = state.recovery_pass(published, requested, granted, now, terminal);
            &&& pass.0.len() <= state.slots.len()
            &&& pass.1.contains(generation) ==> !requested && exists|i: int|
                0 <= i < state.slots.len() && starts_restore(
                    #[trigger] state.slots[i],
                    false,
                    now,
                    generation,
                )
        }),
{
    let kept = state.recovery_slots(published, requested, now, terminal);
    let pass = state.recovery_pass(published, requested, granted, now, terminal);
    lemma_survivors(state.slots, published, requested, now, terminal);
    lemma_ample_leases_start_every_restore(kept, published, requested, granted, now);
    if pass.1.contains(generation) {
        let k = choose|k: int|
            0 <= k < kept.len() && starts_restore(#[trigger] kept[k], requested, now, generation);
        assert(kept.contains(kept[k]));
        let i = choose|i: int| 0 <= i < state.slots.len() && state.slots[i] == kept[k];
        assert(starts_restore(state.slots[i], false, now, generation));
    }
}

/// Whether a slot is still what it was after a recovery pass, whatever leases
/// there were: it holds the same keyboard under the same generation, a pressed
/// host is forgotten only once its link is gone, and a restore is running that
/// was not before only if its time had come on a free receiver.
pub open spec fn is_kept_as(
    before: SlotView,
    after: SlotView,
    published: Seq<LinkView>,
    requested: bool,
    now: int,
) -> bool {
    match before {
        SlotView::Recovering { link, generation, requested_host, restore } => {
            &&& after matches SlotView::Recovering {
                link: held,
                generation: of,
                requested_host: host,
                restore: phase,
            }
            &&& held == link
            &&& of == generation
            &&& host == requested_host || (host is None && !published.contains(link))
            &&& phase == restore || (phase == RestorePhase::Restoring && starts_restore(
                before,
                requested,
                now,
                generation,
            ))
        },
        _ => after == before,
    }
}

proof fn lemma_a_short_pass_keeps_slots(
    slots: Seq<SlotView>,
    published: Seq<LinkView>,
    requested: bool,
    granted: nat,
    now: int,
)
    ensures
        ({
            let pass = host_switch_model::restores_started(
                slots,
                published,
                requested,
                granted,
                now,
            );
            &&& pass.0.len() == slots.len()
            &&& forall|k: int|
                0 <= k < slots.len() ==> is_kept_as(
                    slots[k],
                    #[trigger] pass.0[k],
                    published,
                    requested,
                    now,
                )
        }),
    decreases slots.len(),
{
    let pass = host_switch_model::restores_started(slots, published, requested, granted, now);
    if slots.len() > 0 {
        let tail = slots.drop_first();
        let head = slots.first().unwanted_move_dropped(published);
        let due = head.restore_due(requested, now);
        assert(slots[0] == slots.first());
        if due && granted == 0 {
            assert forall|k: int| 0 <= k < slots.len() implies is_kept_as(
                slots[k],
                #[trigger] pass.0[k],
                published,
                requested,
                now,
            ) by {
                if k > 0 {
                    assert(pass.0[k] == tail[k - 1]);
                }
            }
        } else {
            let left = if due {
                (granted - 1) as nat
            } else {
                granted
            };
            lemma_a_short_pass_keeps_slots(tail, published, requested, left, now);
            let rest = host_switch_model::restores_started(tail, published, requested, left, now);
            assert forall|k: int| 0 <= k < slots.len() implies is_kept_as(
                slots[k],
                #[trigger] pass.0[k],
                published,
                requested,
                now,
            ) by {
                if k > 0 {
                    assert(pass.0[k] == rest.0[k - 1]);
                    assert(tail[k - 1] == slots[k]);
                } else if due {
                    assert(pass.0[0] == head.restoring());
                } else {
                    assert(pass.0[0] == head);
                }
            }
        }
    }
}

/// A recovery pass loses nothing, however few leases it has: every session, all
/// firmware to restore and every restart that does not lapse is still there
/// afterwards, with the host that was pressed on it while its link is
/// published.
pub proof fn law_a_short_recovery_pass_loses_nothing(
    state: ManagerView,
    published: Seq<LinkView>,
    requested: bool,
    granted: nat,
    now: int,
    terminal: bool,
    i: int,
)
    requires
        0 <= i < state.slots.len(),
        state.slots[i] matches SlotView::Restarting { link, retry_at } ==> !terminal
            && published.contains(link) && (retry_at > now || requested),
    ensures
        exists|k: int|
            0 <= k < state.recovery_pass(published, requested, granted, now, terminal).0.len()
                && is_kept_as(
                state.slots[i],
                #[trigger] state.recovery_pass(published, requested, granted, now, terminal).0[k],
                published,
                requested,
                now,
            ),
        state.recovery_pass(published, requested, granted, now, terminal).0.len()
            <= state.slots.len(),
{
    let kept = state.recovery_slots(published, requested, now, terminal);
    let pass = state.recovery_pass(published, requested, granted, now, terminal);
    lemma_survivors(state.slots, published, requested, now, terminal);
    lemma_a_short_pass_keeps_slots(kept, published, requested, granted, now);
    assert(state.slots.contains(state.slots[i]));
    assert(survives(state.slots[i], published, requested, now, terminal));
    assert(kept.contains(state.slots[i]));
    let k = choose|k: int| 0 <= k < kept.len() && kept[k] == state.slots[i];
    assert(is_kept_as(kept[k], pass.0[k], published, requested, now));
}

/// What arming does. The slots there were stay as they are, in place. Behind
/// them stands one capturing session per start, under the next generations in
/// turn, for a wanted link, and on the keyboard the start names. There are no
/// more starts than leases.
pub proof fn law_arming_adds_a_session_per_start(
    state: ManagerView,
    wanted: Seq<LinkView>,
    granted: nat,
    k: int,
)
    requires
        state.next_generation + wanted.len() <= u64::MAX,
    ensures
        ({
            let armed = state.armed(wanted, granted);
            let before = state.slots.len();
            &&& armed.1.len() <= granted
            &&& armed.1.len() <= wanted.len()
            &&& armed.0.slots.len() == before + armed.1.len()
            &&& armed.0.slots.take(before as int) == state.slots
            &&& armed.0.next_generation == state.next_generation + armed.1.len()
            &&& 0 <= k < armed.1.len() ==> {
                &&& armed.0.slots[before + k] matches SlotView::Running {
                    link,
                    generation,
                    phase: SessionPhase::Active,
                }
                &&& generation == state.next_generation + 1 + k
                &&& armed.1[k].generation == generation
                &&& armed.1[k].keyboard == link.keyboard
                &&& wanted.contains(link)
            }
            &&& armed.0.transition == state.transition
            &&& armed.0.request == state.request
            &&& armed.0.task_failed == state.task_failed
        }),
    decreases wanted.len(),
{
    let armed = state.armed(wanted, granted);
    let before = state.slots.len() as int;
    if wanted.len() == 0 {
        assert(armed.0.slots.take(before) =~= state.slots);
    } else {
        let first = wanted.first();
        let tail = wanted.drop_first();
        assert(wanted[0] == first);
        if host_switch_model::keyboard_owned(state.slots, first.keyboard) {
            law_arming_adds_a_session_per_start(state, tail, granted, k);
            assert(forall|link: LinkView| #[trigger] tail.contains(link) ==> wanted.contains(link))
                by {
                lemma_tail_is_contained(wanted);
            }
        } else if granted == 0 {
            assert(armed.0.slots.take(before) =~= state.slots);
        } else {
            let next = state.with_session(first);
            law_arming_adds_a_session_per_start(next, tail, (granted - 1) as nat, k - 1);
            lemma_tail_is_contained(wanted);
            let rest = next.armed(tail, (granted - 1) as nat);
            assert(armed.0.slots.take(before) =~= state.slots) by {
                assert(armed.0.slots.take(before) =~= next.slots.take(before)) by {
                    assert forall|j: int| 0 <= j < before implies armed.0.slots[j]
                        == #[trigger] next.slots[j] by {
                        assert(armed.0.slots.take(before + 1)[j] == next.slots[j]);
                    }
                }
                assert(next.slots.take(before) =~= state.slots);
            }
            if k == 0 {
                assert(armed.0.slots.take(before + 1)[before] == next.slots[before]);
                assert(wanted.contains(first));
            } else if 0 < k < armed.1.len() {
                assert(armed.1[k] == rest.1[k - 1]);
            }
        }
    }
}

proof fn lemma_tail_is_contained(links: Seq<LinkView>)
    requires
        links.len() > 0,
    ensures
        forall|link: LinkView| #[trigger]
            links.drop_first().contains(link) ==> links.contains(link),
{
    let tail = links.drop_first();
    assert forall|link: LinkView| #[trigger] tail.contains(link) implies links.contains(link) by {
        let j = choose|j: int| 0 <= j < tail.len() && tail[j] == link;
        assert(links[j + 1] == link);
    }
}

/// With leases enough, every wanted link's keyboard is held afterwards.
pub proof fn law_every_wanted_keyboard_is_armed(
    state: ManagerView,
    wanted: Seq<LinkView>,
    granted: nat,
    w: int,
)
    requires
        granted >= wanted.len(),
        0 <= w < wanted.len(),
    ensures
        ({
            let after = state.armed(wanted, granted).0;
            exists|i: int|
                0 <= i < after.slots.len() && (#[trigger] after.slots[i]).link().keyboard
                    == wanted[w].keyboard
        }),
    decreases wanted.len(),
{
    let first = wanted.first();
    let tail = wanted.drop_first();
    let after = state.armed(wanted, granted).0;
    let held = host_switch_model::keyboard_owned(state.slots, first.keyboard);
    let next = if held {
        state
    } else {
        state.with_session(first)
    };
    let left = if held {
        granted
    } else {
        (granted - 1) as nat
    };
    assert(after == next.armed(tail, left).0);
    if w > 0 {
        assert(tail[w - 1] == wanted[w]);
        law_every_wanted_keyboard_is_armed(next, tail, left, w - 1);
    } else {
        let j = if held {
            choose|j: int|
                0 <= j < state.slots.len() && #[trigger] state.slots[j].keyboard() == first.keyboard
        } else {
            state.slots.len() as int
        };
        assert(next.slots[j].keyboard() == first.keyboard);
        lemma_arming_keeps_slots(next, tail, left);
        assert(after.slots[j] == next.slots[j]);
    }
}

proof fn lemma_arming_keeps_slots(state: ManagerView, wanted: Seq<LinkView>, granted: nat)
    ensures
        state.slots.len() <= state.armed(wanted, granted).0.slots.len(),
        forall|j: int|
            0 <= j < state.slots.len() ==> #[trigger] state.armed(wanted, granted).0.slots[j]
                == state.slots[j],
    decreases wanted.len(),
{
    if wanted.len() > 0 {
        let tail = wanted.drop_first();
        if host_switch_model::keyboard_owned(state.slots, wanted.first().keyboard) {
            lemma_arming_keeps_slots(state, tail, granted);
        } else if granted > 0 {
            let next = state.with_session(wanted.first());
            lemma_arming_keeps_slots(next, tail, (granted - 1) as nat);
            assert forall|j: int| 0 <= j < state.slots.len() implies #[trigger] state.armed(
                wanted,
                granted,
            ).0.slots[j] == state.slots[j] by {
                assert(next.slots[j] == state.slots[j]);
            }
        }
    }
}

} // verus!
