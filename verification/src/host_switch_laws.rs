//! What holds of the host-switch manager whatever happens to it.

use vstd::prelude::*;

use crate::host_switch::{
    HostRequest, HostSwitchRestoreOutcome, ManagerEvent, SessionResult, TaskFailed,
    TransitionOutcome, TransitionSource,
};
use crate::host_switch_model;
use crate::host_switch_model::{ManagerView, SlotView, TransitionView};
use crate::host_switch_round::RoundInputs;
use crate::link::{LinkView, RouteView};

verus! {

impl ManagerView {
    /// No two slots hold the same keyboard.
    pub open spec fn keyboards_distinct(self) -> bool {
        forall|i: int, j: int|
            0 <= i < j < self.slots.len() ==> (#[trigger] self.slots[i]).keyboard() != (
            #[trigger] self.slots[j]).keyboard()
    }

    /// No two sessions or restores share a generation, and each generation was
    /// handed out by this manager.
    pub open spec fn generations_distinct(self) -> bool {
        &&& forall|i: int, j: int|
            0 <= i < j < self.slots.len() && (#[trigger] self.slots[i]).generation() is Some ==> (
            #[trigger] self.slots[j]).generation() != self.slots[i].generation()
        &&& forall|i: int|
            0 <= i < self.slots.len() ==> match (#[trigger] self.slots[i]).generation() {
                Some(generation) => generation <= self.next_generation,
                None => true,
            }
    }

    /// Every ask that was taken on is either settled or the outstanding one.
    pub open spec fn asks_accounted(self) -> bool {
        match self.request {
            Some(request) => request.serial == self.seen && self.settled < self.seen,
            None => self.settled == self.seen,
        }
    }

    /// An intent that an ask left waiting belongs to the outstanding ask, and
    /// nothing holds a keyboard while a transition runs.
    pub open spec fn transition_accounted(self) -> bool {
        match self.transition {
            Some(TransitionView::Waiting(intent)) => match intent.source {
                TransitionSource::Request { serial } => self.request matches Some(request)
                    && request.serial == serial,
                TransitionSource::KeyPress => true,
            },
            Some(TransitionView::Running(_)) => !self.sessions_running()
                && !self.restores_pending(),
            None => true,
        }
    }

    /// What every operation of the manager keeps.
    pub open spec fn well_formed(self) -> bool {
        &&& self.keyboards_distinct()
        &&& self.generations_distinct()
        &&& self.asks_accounted()
        &&& self.transition_accounted()
    }
}

pub(crate) proof fn lemma_running_index(slots: Seq<SlotView>, generation: u64)
    ensures
        match host_switch_model::running_index(slots, generation) {
            Some(i) => 0 <= i < slots.len() && slots[i] is Running && slots[i].generation() == Some(
                generation,
            ),
            None => forall|i: int|
                0 <= i < slots.len() ==> !((#[trigger] slots[i]) is Running
                    && slots[i].generation() == Some(generation)),
        },
    decreases slots.len(),
{
    if slots.len() > 0 {
        lemma_running_index(slots.drop_last(), generation);
        assert forall|i: int| 0 <= i < slots.len() - 1 implies slots.drop_last()[i] == #[trigger] slots[i] by {}
    }
}

pub(crate) proof fn lemma_recovering_index(slots: Seq<SlotView>, generation: u64)
    ensures
        match host_switch_model::recovering_index(slots, generation) {
            Some(i) => 0 <= i < slots.len() && slots[i] is Recovering && slots[i].generation()
                == Some(generation),
            None => forall|i: int|
                0 <= i < slots.len() ==> !((#[trigger] slots[i]) is Recovering
                    && slots[i].generation() == Some(generation)),
        },
    decreases slots.len(),
{
    if slots.len() > 0 {
        lemma_recovering_index(slots.drop_last(), generation);
        assert forall|i: int| 0 <= i < slots.len() - 1 implies slots.drop_last()[i] == #[trigger] slots[i] by {}
    }
}

/// A manager that has done nothing yet is well formed.
pub proof fn law_initial_state_is_well_formed()
    ensures
        ManagerView::initial().well_formed(),
{
}

/// Taking in the inputs and stopping sessions keeps the state well formed.
pub proof fn law_opening_keeps_state_well_formed(
    state: ManagerView,
    inputs: RoundInputs,
    published: Seq<LinkView>,
    terminal: bool,
)
    requires
        state.well_formed(),
    ensures
        state.after_inputs(inputs.ask, published, terminal, inputs.now as int).well_formed(),
        state.after_opening(inputs, published, terminal).well_formed(),
{
    let next = state.after_inputs(inputs.ask, published, terminal, inputs.now as int);
    assert(next.slots == state.slots);
    assert(next.next_generation == state.next_generation);
    let stopped = next.after_stops(next.wanted(published, inputs.requested, terminal), terminal);
    assert forall|i: int| 0 <= i < stopped.slots.len() implies {
        &&& (#[trigger] stopped.slots[i]).keyboard() == state.slots[i].keyboard()
        &&& stopped.slots[i].generation() == state.slots[i].generation()
        &&& (stopped.slots[i] is Running <==> state.slots[i] is Running)
        &&& (stopped.slots[i] is Recovering <==> state.slots[i] is Recovering)
    } by {}
}

proof fn lemma_outliving_is_a_selection(
    slots: Seq<SlotView>,
    published: Seq<LinkView>,
    requested: bool,
    now: int,
    terminal: bool,
)
    ensures
        ({
            let kept = host_switch_model::outliving(slots, published, requested, now, terminal);
            &&& forall|i: int|
                0 <= i < kept.len() ==> exists|k: int|
                    0 <= k < slots.len() && #[trigger] slots[k] == #[trigger] kept[i]
            &&& (forall|i: int, j: int|
                0 <= i < j < slots.len() ==> (#[trigger] slots[i]).keyboard() != (
                #[trigger] slots[j]).keyboard()) ==> (forall|i: int, j: int|
                0 <= i < j < kept.len() ==> (#[trigger] kept[i]).keyboard() != (
                #[trigger] kept[j]).keyboard())
            &&& (forall|i: int, j: int|
                0 <= i < j < slots.len() && (#[trigger] slots[i]).generation() is Some ==> (
                #[trigger] slots[j]).generation() != slots[i].generation()) ==> (forall|
                i: int,
                j: int,
            |
                0 <= i < j < kept.len() && (#[trigger] kept[i]).generation() is Some ==> (
                #[trigger] kept[j]).generation() != kept[i].generation())
        }),
    decreases slots.len(),
{
    if slots.len() > 0 {
        let shorter = slots.drop_last();
        lemma_outliving_is_a_selection(shorter, published, requested, now, terminal);
        let before = host_switch_model::outliving(shorter, published, requested, now, terminal);
        let kept = host_switch_model::outliving(slots, published, requested, now, terminal);
        assert forall|i: int| 0 <= i < slots.len() - 1 implies shorter[i] == #[trigger] slots[i] by {}
        assert forall|i: int| 0 <= i < kept.len() implies exists|k: int|
            0 <= k < slots.len() && #[trigger] slots[k] == #[trigger] kept[i] by {
            if i < before.len() {
                assert(before[i] == kept[i]);
                let k = choose|k: int|
                    0 <= k < shorter.len() && #[trigger] shorter[k] == #[trigger] before[i];
                assert(slots[k] == kept[i]);
            } else {
                assert(slots[slots.len() - 1] == kept[i]);
            }
        }
        if forall|i: int, j: int|
            0 <= i < j < slots.len() ==> (#[trigger] slots[i]).keyboard() != (
            #[trigger] slots[j]).keyboard() {
            assert forall|i: int, j: int| 0 <= i < j < kept.len() implies (
            #[trigger] kept[i]).keyboard() != (#[trigger] kept[j]).keyboard() by {
                assert(before[i] == kept[i]);
                if j < before.len() {
                    assert(before[j] == kept[j]);
                } else {
                    let k = choose|k: int|
                        0 <= k < shorter.len() && #[trigger] shorter[k] == #[trigger] before[i];
                    assert(slots[k] == kept[i]);
                }
            }
        }
        if forall|i: int, j: int|
            0 <= i < j < slots.len() && (#[trigger] slots[i]).generation() is Some ==> (
            #[trigger] slots[j]).generation() != slots[i].generation() {
            assert forall|i: int, j: int|
                0 <= i < j < kept.len() && (#[trigger] kept[i]).generation() is Some implies (
            #[trigger] kept[j]).generation() != kept[i].generation() by {
                assert(before[i] == kept[i]);
                if j < before.len() {
                    assert(before[j] == kept[j]);
                } else {
                    let k = choose|k: int|
                        0 <= k < shorter.len() && #[trigger] shorter[k] == #[trigger] before[i];
                    assert(slots[k] == kept[i]);
                }
            }
        }
    }
}

proof fn lemma_restores_keep_slots(
    slots: Seq<SlotView>,
    published: Seq<LinkView>,
    requested: bool,
    granted: nat,
    now: int,
)
    ensures
        ({
            let after = host_switch_model::restores_started(
                slots,
                published,
                requested,
                granted,
                now,
            ).0;
            &&& after.len() == slots.len()
            &&& forall|i: int|
                #![trigger after[i]]
                #![trigger slots[i]]
                0 <= i < slots.len() ==> after[i].link() == slots[i].link()
                    && after[i].generation() == slots[i].generation() && (after[i] is Running
                    <==> slots[i] is Running) && (after[i] is Recovering
                    <==> slots[i] is Recovering)
        }),
    decreases slots.len(),
{
    if slots.len() > 0 {
        let tail = slots.drop_first();
        let head = slots.first().unwanted_move_dropped(published);
        let left = if granted == 0 {
            0
        } else if head.restore_due(requested, now) {
            (granted - 1) as nat
        } else {
            granted
        };
        lemma_restores_keep_slots(tail, published, requested, left, now);
        let after = host_switch_model::restores_started(
            slots,
            published,
            requested,
            granted,
            now,
        ).0;
        let rest = host_switch_model::restores_started(tail, published, requested, left, now).0;
        assert forall|i: int|
            #![trigger after[i]]
            #![trigger slots[i]]
            0 <= i < slots.len() implies after[i].link() == slots[i].link()
            && after[i].generation() == slots[i].generation() && (after[i] is Running
            <==> slots[i] is Running) && (after[i] is Recovering <==> slots[i] is Recovering) by {
            if i > 0 {
                assert(tail[i - 1] == slots[i]);
                assert(rest[i - 1].link() == tail[i - 1].link());
                assert(after[i] == rest[i - 1] || after[i] == tail[i - 1]);
            }
        }
    }
}

/// Letting restarts lapse and starting restores keeps the state well formed.
pub proof fn law_recovery_keeps_state_well_formed(
    state: ManagerView,
    published: Seq<LinkView>,
    requested: bool,
    granted: nat,
    now: int,
    terminal: bool,
)
    requires
        state.well_formed(),
    ensures
        (ManagerView {
            slots: state.recovery_pass(published, requested, granted, now, terminal).0,
            ..state
        }).well_formed(),
{
    let kept = state.recovery_slots(published, requested, now, terminal);
    let after = ManagerView {
        slots: state.recovery_pass(published, requested, granted, now, terminal).0,
        ..state
    };
    lemma_outliving_is_a_selection(state.slots, published, requested, now, terminal);
    lemma_restores_keep_slots(kept, published, requested, granted, now);
    assert forall|i: int| 0 <= i < after.slots.len() implies exists|k: int|
        0 <= k < state.slots.len() && (#[trigger] state.slots[k]).generation() == (
        #[trigger] after.slots[i]).generation() && (after.slots[i] is Running
            ==> state.slots[k] is Running) && (after.slots[i] is Recovering
            ==> state.slots[k] is Recovering) by {
        let k = choose|k: int|
            0 <= k < state.slots.len() && #[trigger] state.slots[k] == #[trigger] kept[i];
        assert(state.slots[k] == kept[i]);
    }
}

proof fn lemma_session_keeps_state_well_formed(state: ManagerView, link: LinkView)
    requires
        state.well_formed(),
        state.transition is None,
        state.next_generation < u64::MAX,
        !host_switch_model::keyboard_owned(state.slots, link.keyboard),
    ensures
        state.with_session(link).well_formed(),
{
    let next = state.with_session(link);
    assert forall|i: int| 0 <= i < state.slots.len() implies next.slots[i] == #[trigger] state.slots[i] by {}
}

/// Starting the missing sessions keeps the state well formed, as long as the
/// generations do not wrap around.
pub proof fn law_arming_keeps_state_well_formed(
    state: ManagerView,
    wanted: Seq<LinkView>,
    granted: nat,
)
    requires
        state.well_formed(),
        state.transition is None,
        state.next_generation + state.armed(wanted, granted).1.len() <= u64::MAX,
    ensures
        state.armed(wanted, granted).0.well_formed(),
        state.armed(wanted, granted).0.transition is None,
    decreases wanted.len(),
{
    if wanted.len() > 0 {
        let rest = wanted.drop_first();
        if host_switch_model::keyboard_owned(state.slots, wanted.first().keyboard) {
            law_arming_keeps_state_well_formed(state, rest, granted);
        } else if granted > 0 {
            let next = state.with_session(wanted.first());
            assert(state.armed(wanted, granted).1.len() == 1 + next.armed(
                rest,
                (granted - 1) as nat,
            ).1.len());
            lemma_session_keeps_state_well_formed(state, wanted.first());
            law_arming_keeps_state_well_formed(next, rest, (granted - 1) as nat);
        }
    }
}

/// Starting the waiting transition keeps the state well formed.
pub proof fn law_begin_keeps_state_well_formed(state: ManagerView, terminal: bool)
    requires
        state.well_formed(),
    ensures
        state.after_begin(terminal).well_formed(),
{
}

/// Making restores due keeps the state well formed.
pub proof fn law_expedite_keeps_state_well_formed(state: ManagerView, now: u64)
    requires
        state.well_formed(),
    ensures
        state.after_expedite(now).well_formed(),
{
    let after = state.after_expedite(now);
    assert forall|i: int| 0 <= i < after.slots.len() implies {
        &&& (#[trigger] after.slots[i]).keyboard() == state.slots[i].keyboard()
        &&& after.slots[i].generation() == state.slots[i].generation()
        &&& (after.slots[i] is Running <==> state.slots[i] is Running)
        &&& (after.slots[i] is Recovering <==> state.slots[i] is Recovering)
    } by {}
}

proof fn lemma_slot_replaced_keeps_distinct(
    state: ManagerView,
    i: int,
    after: ManagerView,
)
    requires
        state.keyboards_distinct(),
        state.generations_distinct(),
        0 <= i < state.slots.len(),
        after.next_generation == state.next_generation,
        after.slots == state.slots.remove(i) || (after.slots.len() == state.slots.len()
            && after.slots.drop_last() == state.slots.remove(i) && after.slots.last().keyboard()
            == state.slots[i].keyboard() && (after.slots.last().generation() is None
            || after.slots.last().generation() == state.slots[i].generation())),
    ensures
        after.keyboards_distinct(),
        after.generations_distinct(),
{
    let rest = state.slots.remove(i);
    assert forall|k: int| 0 <= k < rest.len() implies #[trigger] rest[k] == state.slots[if k < i {
        k
    } else {
        k + 1
    }] by {}
    if after.slots != rest {
        assert forall|k: int| 0 <= k < rest.len() implies #[trigger] after.slots[k] == rest[k] by {
            assert(after.slots.drop_last()[k] == rest[k]);
        }
    }
}

/// Taking in that something ended keeps the state well formed.
pub proof fn law_event_keeps_state_well_formed(
    state: ManagerView,
    event: ManagerEvent,
    published: Seq<LinkView>,
    terminal: bool,
    now: int,
)
    requires
        state.well_formed(),
    ensures
        state.after_event(event, published, terminal, now).well_formed(),
{
    let after = state.after_event(event, published, terminal, now);
    match event {
        ManagerEvent::Session(completion) => {
            lemma_running_index(state.slots, completion.generation);
            match host_switch_model::running_index(state.slots, completion.generation) {
                Some(i) => {
                    assert(state.slots[i] is Running);
                    assert(state.slots.remove(i).push(after.slots.last()).drop_last()
                        =~= state.slots.remove(i));
                    lemma_slot_replaced_keeps_distinct(state, i, after);
                },
                None => {},
            }
        },
        ManagerEvent::Restore(completion) => {
            lemma_recovering_index(state.slots, completion.generation);
            match host_switch_model::recovering_index(state.slots, completion.generation) {
                Some(i) => {
                    assert(state.slots[i] is Recovering);
                    assert(state.slots.remove(i).push(after.slots.last()).drop_last()
                        =~= state.slots.remove(i));
                    lemma_slot_replaced_keeps_distinct(state, i, after);
                },
                None => {},
            }
        },
        ManagerEvent::Transition(_) => {},
    }
}

/// What is settled never becomes unsettled, and no ask is forgotten.
pub proof fn law_settlement_never_goes_back(
    state: ManagerView,
    inputs: RoundInputs,
    event: ManagerEvent,
    published: Seq<LinkView>,
    terminal: bool,
    wanted: Seq<LinkView>,
    granted: nat,
    at: u64,
)
    ensures
        state.settled <= state.after_opening(inputs, published, terminal).settled,
        state.seen <= state.after_opening(inputs, published, terminal).seen,
        state.after_event(event, published, terminal, at as int).settled == state.settled,
        state.after_event(event, published, terminal, at as int).seen == state.seen,
        state.after_begin(terminal).settled == state.settled,
        state.after_begin(terminal).seen == state.seen,
        state.after_expedite(at).settled == state.settled,
        state.after_expedite(at).seen == state.seen,
        state.armed(wanted, granted).0.settled == state.settled,
        state.armed(wanted, granted).0.seen == state.seen,
{
    lemma_arming_touches_only_slots(state, wanted, granted);
}

proof fn lemma_arming_touches_only_slots(state: ManagerView, wanted: Seq<LinkView>, granted: nat)
    ensures
        state.armed(wanted, granted).0 == (ManagerView {
            slots: state.armed(wanted, granted).0.slots,
            next_generation: state.armed(wanted, granted).0.next_generation,
            ..state
        }),
    decreases wanted.len(),
{
    if wanted.len() > 0 {
        let rest = wanted.drop_first();
        if host_switch_model::keyboard_owned(state.slots, wanted.first().keyboard) {
            lemma_arming_touches_only_slots(state, rest, granted);
        } else if granted > 0 {
            lemma_arming_touches_only_slots(
                state.with_session(wanted.first()),
                rest,
                (granted - 1) as nat,
            );
        }
    }
}

/// Once no ask is outstanding, the caller of every ask ever taken on has been
/// released; while one is outstanding, only its own caller still waits.
pub proof fn law_no_caller_is_left_waiting(state: ManagerView, serial: u64)
    requires
        state.well_formed(),
        serial <= state.seen,
    ensures
        state.request is None ==> serial <= state.settled,
        state.request is Some && serial != state.request->0.serial ==> serial < state.request->0.serial,
{
}

/// Reading the same ask again, at whatever time and against whatever links, is
/// not new work.
pub proof fn law_re_reading_an_ask_changes_nothing(
    state: ManagerView,
    ask: HostRequest,
    published: Seq<LinkView>,
    now: int,
    published_later: Seq<LinkView>,
    later: int,
)
    ensures
        state.after_ask(ask, published, now).after_ask(ask, published_later, later)
            == state.after_ask(ask, published, now),
{
}

/// A later ask releases the caller of the ask it supersedes and leaves no
/// intent of that ask behind.
pub proof fn law_a_later_ask_supersedes_the_outstanding_one(
    state: ManagerView,
    ask: HostRequest,
    published: Seq<LinkView>,
    now: int,
)
    requires
        ask.serial > state.seen,
        state.request is Some,
    ensures
        state.after_ask(ask, published, now).settled >= state.request->0.serial,
        !state.after_ask(ask, published, now).waits_for_ask(),
        state.after_ask(ask, published, now).backoff == state.backoff,
        state.after_ask(ask, published, now).request is Some ==> state.after_ask(
            ask,
            published,
            now,
        ).request->0.serial == ask.serial,
{
}

/// The outcome of a superseded ask's transition is not charged to the ask that
/// replaced it.
pub proof fn law_a_superseded_outcome_is_not_charged(
    state: ManagerView,
    ask: HostRequest,
    published: Seq<LinkView>,
    now: int,
    superseded: u64,
    outcome: TransitionOutcome,
)
    requires
        superseded <= state.seen < ask.serial,
    ensures
        state.after_ask(ask, published, now).after_outcome(
            TransitionSource::Request { serial: superseded },
            outcome,
        ) == state.after_ask(ask, published, now),
{
}

/// A throttled ask is settled at once: it takes no transition slot and so no
/// receiver lease.
pub proof fn law_a_throttled_ask_costs_nothing(
    state: ManagerView,
    ask: HostRequest,
    published: Seq<LinkView>,
    now: int,
)
    requires
        state.well_formed(),
        ask.serial > state.seen,
        state.backoff.refuses(ask.host, now),
    ensures
        state.after_ask(ask, published, now).request is None,
        state.after_ask(ask, published, now).settled == ask.serial,
        !state.after_ask(ask, published, now).waits_for_ask(),
        state.after_ask(ask, published, now).slots == state.slots,
{
}

pub(crate) proof fn lemma_last_published(links: Seq<LinkView>, published: Seq<LinkView>)
    ensures
        match host_switch_model::last_published(links, published) {
            Some(i) => {
                &&& 0 <= i < links.len()
                &&& published.contains(links[i])
                &&& forall|k: int|
                    i < k < links.len() ==> !published.contains(#[trigger] links[k])
            },
            None => forall|k: int|
                0 <= k < links.len() ==> !published.contains(#[trigger] links[k]),
        },
    decreases links.len(),
{
    if links.len() > 0 && !published.contains(links.last()) {
        lemma_last_published(links.drop_last(), published);
        assert forall|k: int| 0 <= k < links.len() - 1 implies links.drop_last()[k]
            == #[trigger] links[k] by {}
    }
}

/// An outstanding ask with a free transition slot gets on: it hands over its
/// next published link, or, where none of its links is published any more, it
/// ends and its caller is released.
pub proof fn law_an_outstanding_ask_gets_on(
    state: ManagerView,
    published: Seq<LinkView>,
    now: int,
)
    requires
        state.request is Some,
        state.transition is None,
    ensures
        ({
            let request = state.request->0;
            let after = state.after_promotion(published, false, now);
            if exists|k: int|
                0 <= k < request.remaining.len() && published.contains(
                    #[trigger] request.remaining[k],
                ) {
                &&& after.transition matches Some(TransitionView::Waiting(intent))
                &&& published.contains(intent.link)
                &&& request.remaining.contains(intent.link)
                &&& intent.host == request.host
                &&& intent.source == (TransitionSource::Request { serial: request.serial })
                &&& after.request matches Some(rest)
                &&& rest.serial == request.serial
                &&& rest.remaining.len() < request.remaining.len()
                &&& after.settled == state.settled
            } else {
                &&& after.transition is None
                &&& after.request is None
                &&& after.settled >= request.serial
                &&& after.backoff == state.backoff.recorded(request.host, request.failed, now)
            }
        }),
{
    lemma_last_published(state.request->0.remaining, published);
}

/// A leaving manager releases the outstanding caller in its next turn.
pub proof fn law_a_leaving_manager_releases_its_caller(
    state: ManagerView,
    ask: Option<HostRequest>,
    published: Seq<LinkView>,
    now: int,
)
    requires
        state.well_formed(),
    ensures
        state.after_inputs(ask, published, true, now).request is None,
        state.after_inputs(ask, published, true, now).settled == state.after_inputs(
            ask,
            published,
            true,
            now,
        ).seen,
        !(state.after_inputs(ask, published, true, now).transition matches Some(
            TransitionView::Waiting(_),
        )),
{
}

/// There is one transition at a time: while it runs no other can start, and
/// nothing but its own landing takes it out of its slot.
pub proof fn law_a_running_transition_stays_until_it_lands(
    state: ManagerView,
    inputs: RoundInputs,
    event: ManagerEvent,
    published: Seq<LinkView>,
    terminal: bool,
    now: u64,
)
    requires
        state.well_formed(),
        state.transition matches Some(TransitionView::Running(_)),
        !(event is Transition),
    ensures
        state.startable(terminal) is None,
        state.completion(terminal) is None,
        !state.may_arm(inputs.io_allowed, terminal),
        state.after_begin(terminal).transition == state.transition,
        state.after_opening(inputs, published, terminal).transition == state.transition,
        state.after_event(event, published, terminal, now as int).transition == state.transition,
        state.after_expedite(now).transition == state.transition,
{
    match event {
        ManagerEvent::Session(completion) => {
            lemma_running_index(state.slots, completion.generation);
        },
        ManagerEvent::Restore(completion) => {
            lemma_recovering_index(state.slots, completion.generation);
        },
        ManagerEvent::Transition(_) => {},
    }
}

/// A completion whose generation no slot waits for changes nothing.
pub proof fn law_a_stale_completion_changes_nothing(
    state: ManagerView,
    generation: u64,
    session: Result<SessionResult, TaskFailed>,
    restore: Result<HostSwitchRestoreOutcome, TaskFailed>,
    published: Seq<LinkView>,
    terminal: bool,
    now: int,
)
    requires
        forall|i: int|
            0 <= i < state.slots.len() ==> (#[trigger] state.slots[i]).generation() != Some(
                generation,
            ),
    ensures
        state.after_session(generation, session, published, terminal, now) == state,
        state.after_restore(generation, restore, published, terminal, now) == state,
{
    lemma_running_index(state.slots, generation);
    lemma_recovering_index(state.slots, generation);
}

/// A slot keeps its keyboard to itself: no session starts on it, whatever link
/// asks for one. Firmware that is left to restore is held in the same way.
pub proof fn law_a_held_keyboard_is_not_armed(
    state: ManagerView,
    wanted: Seq<LinkView>,
    granted: nat,
    i: int,
    k: int,
)
    requires
        0 <= i < state.slots.len(),
        0 <= k < state.armed(wanted, granted).1.len(),
    ensures
        state.armed(wanted, granted).1[k].keyboard != state.slots[i].keyboard(),
    decreases wanted.len(),
{
    if wanted.len() > 0 {
        let rest = wanted.drop_first();
        if host_switch_model::keyboard_owned(state.slots, wanted.first().keyboard) {
            law_a_held_keyboard_is_not_armed(state, rest, granted, i, k);
        } else if granted > 0 && k > 0 {
            let next = state.with_session(wanted.first());
            assert(next.slots[i] == state.slots[i]);
            law_a_held_keyboard_is_not_armed(next, rest, (granted - 1) as nat, i, k - 1);
        }
    }
}

/// Telling a session to stop does not free its keyboard: the slot stays until
/// the session has ended.
pub proof fn law_stopping_keeps_keyboards_owned(
    state: ManagerView,
    wanted: Seq<LinkView>,
    terminal: bool,
    keyboard: RouteView,
)
    ensures
        host_switch_model::keyboard_owned(state.after_stops(wanted, terminal).slots, keyboard)
            == host_switch_model::keyboard_owned(state.slots, keyboard),
{
    let after = state.after_stops(wanted, terminal);
    assert forall|i: int| 0 <= i < state.slots.len() implies (
    #[trigger] after.slots[i]).keyboard() == (#[trigger] state.slots[i]).keyboard() by {}
    if host_switch_model::keyboard_owned(state.slots, keyboard) {
        let i = choose|i: int|
            0 <= i < state.slots.len() && #[trigger] state.slots[i].keyboard() == keyboard;
        assert(after.slots[i].keyboard() == keyboard);
    }
    if host_switch_model::keyboard_owned(after.slots, keyboard) {
        let i = choose|i: int|
            0 <= i < after.slots.len() && #[trigger] after.slots[i].keyboard() == keyboard;
        assert(state.slots[i].keyboard() == keyboard);
    }
}

proof fn lemma_restores_due_from_front(slots: Seq<SlotView>, requested: bool, now: int)
    requires
        slots.len() > 0,
    ensures
        host_switch_model::restores_due(slots, requested, now) == host_switch_model::restores_due(
            slots.drop_first(),
            requested,
            now,
        ) + if slots.first().restore_due(requested, now) {
            1nat
        } else {
            0nat
        },
    decreases slots.len(),
{
    if slots.len() > 1 {
        lemma_restores_due_from_front(slots.drop_last(), requested, now);
        assert(slots.drop_last().drop_first() =~= slots.drop_first().drop_last());
    } else {
        assert(slots.drop_last() =~= Seq::empty());
        assert(slots.drop_first() =~= Seq::empty());
    }
}

proof fn lemma_restores_started_count(
    slots: Seq<SlotView>,
    published: Seq<LinkView>,
    requested: bool,
    granted: nat,
    now: int,
)
    ensures
        ({
            let due = host_switch_model::restores_due(slots, requested, now);
            host_switch_model::restores_started(slots, published, requested, granted, now).1.len()
                == if granted < due {
                granted
            } else {
                due
            }
        }),
    decreases slots.len(),
{
    if slots.len() > 0 {
        lemma_restores_due_from_front(slots, requested, now);
        let head = slots.first().unwanted_move_dropped(published);
        assert(head.restore_due(requested, now) == slots.first().restore_due(requested, now));
        if head.restore_due(requested, now) {
            if granted > 0 {
                lemma_restores_started_count(
                    slots.drop_first(),
                    published,
                    requested,
                    (granted - 1) as nat,
                    now,
                );
            }
        } else {
            lemma_restores_started_count(slots.drop_first(), published, requested, granted, now);
        }
    }
}

proof fn lemma_lapsed_restarts_are_not_due(
    slots: Seq<SlotView>,
    published: Seq<LinkView>,
    requested: bool,
    now: int,
    terminal: bool,
)
    ensures
        host_switch_model::restores_due(
            host_switch_model::outliving(slots, published, requested, now, terminal),
            requested,
            now,
        ) == host_switch_model::restores_due(slots, requested, now),
    decreases slots.len(),
{
    if slots.len() > 0 {
        let shorter = slots.drop_last();
        lemma_lapsed_restarts_are_not_due(shorter, published, requested, now, terminal);
        let before = host_switch_model::outliving(shorter, published, requested, now, terminal);
        assert(before.push(slots.last()).drop_last() =~= before);
    }
}

/// Every due restore starts, as far as there are leases: the number that
/// `due_restores` reports is exactly what a pass can use.
pub proof fn law_a_pass_starts_as_many_restores_as_it_has_leases_for(
    state: ManagerView,
    published: Seq<LinkView>,
    requested: bool,
    granted: nat,
    now: int,
    terminal: bool,
)
    ensures
        ({
            let due = host_switch_model::restores_due(state.slots, requested, now);
            state.recovery_pass(published, requested, granted, now, terminal).1.len() == if granted
                < due {
                granted
            } else {
                due
            }
        }),
{
    lemma_lapsed_restarts_are_not_due(state.slots, published, requested, now, terminal);
    lemma_restores_started_count(
        state.recovery_slots(published, requested, now, terminal),
        published,
        requested,
        granted,
        now,
    );
}

proof fn lemma_outliving_restarts_are_not_due(
    slots: Seq<SlotView>,
    published: Seq<LinkView>,
    now: int,
    terminal: bool,
)
    ensures
        ({
            let kept = host_switch_model::outliving(slots, published, false, now, terminal);
            forall|i: int|
                0 <= i < kept.len() && (#[trigger] kept[i]) is Restarting ==> kept[i].retry_at()->0
                    > now
        }),
    decreases slots.len(),
{
    if slots.len() > 0 {
        lemma_outliving_restarts_are_not_due(slots.drop_last(), published, now, terminal);
        let before = host_switch_model::outliving(
            slots.drop_last(),
            published,
            false,
            now,
            terminal,
        );
        let kept = host_switch_model::outliving(slots, published, false, now, terminal);
        assert forall|i: int| 0 <= i < kept.len() && (#[trigger] kept[i]) is Restarting implies kept[i].retry_at()->0
            > now by {
            if i < before.len() {
                assert(before[i] == kept[i]);
            }
        }
    }
}

proof fn lemma_started_restores_are_not_due(
    slots: Seq<SlotView>,
    published: Seq<LinkView>,
    granted: nat,
    now: int,
)
    requires
        granted >= host_switch_model::restores_due(slots, false, now),
        forall|i: int|
            0 <= i < slots.len() && (#[trigger] slots[i]) is Restarting ==> slots[i].retry_at()->0
                > now,
    ensures
        ({
            let after = host_switch_model::restores_started(
                slots,
                published,
                false,
                granted,
                now,
            ).0;
            forall|i: int|
                0 <= i < after.len() ==> ((#[trigger] after[i].retry_at()) matches Some(at)
                    ==> at > now)
        }),
    decreases slots.len(),
{
    if slots.len() > 0 {
        lemma_restores_due_from_front(slots, false, now);
        let head = slots.first().unwanted_move_dropped(published);
        let tail = slots.drop_first();
        let due = head.restore_due(false, now);
        assert(due == slots.first().restore_due(false, now));
        let left = if due {
            (granted - 1) as nat
        } else {
            granted
        };
        assert forall|i: int| 0 <= i < tail.len() && (#[trigger] tail[i]) is Restarting implies tail[i].retry_at()->0
            > now by {
            assert(tail[i] == slots[i + 1]);
        }
        lemma_started_restores_are_not_due(tail, published, left, now);
        let rest = host_switch_model::restores_started(tail, published, false, left, now).0;
        let after = host_switch_model::restores_started(slots, published, false, granted, now).0;
        assert forall|i: int| 0 <= i < after.len() implies ((#[trigger] after[i].retry_at())
            matches Some(at) ==> at > now) by {
            if i > 0 {
                assert(after[i] == rest[i - 1]);
                assert(rest[i - 1].retry_at() == after[i].retry_at());
            } else {
                assert(slots[0] == slots.first());
            }
        }
    }
}

/// A turn never leaves a deadline behind that is already due, so the manager
/// does not spin: while the receiver is spoken for there is none, and
/// otherwise, with a lease for each due restore, the earliest lies ahead.
pub proof fn law_a_turn_leaves_no_due_deadline_behind(
    state: ManagerView,
    published: Seq<LinkView>,
    requested: bool,
    granted: nat,
    now: int,
    terminal: bool,
    deadline: Option<u64>,
)
    requires
        granted >= host_switch_model::restores_due(state.slots, requested, now),
        (ManagerView {
            slots: state.recovery_pass(published, requested, granted, now, terminal).0,
            ..state
        }).wakes_at(requested, true, deadline),
    ensures
        requested ==> deadline is None,
        deadline matches Some(at) ==> at > now,
{
    if !requested {
        let kept = state.recovery_slots(published, requested, now, terminal);
        lemma_lapsed_restarts_are_not_due(state.slots, published, requested, now, terminal);
        lemma_outliving_restarts_are_not_due(state.slots, published, now, terminal);
        lemma_started_restores_are_not_due(kept, published, granted, now);
    }
}

proof fn lemma_sessions_missing_from_front(slots: Seq<SlotView>, wanted: Seq<LinkView>, fresh: u64)
    requires
        wanted.len() > 0,
    ensures
        host_switch_model::sessions_missing(slots, wanted) == if host_switch_model::keyboard_owned(
            slots,
            wanted.first().keyboard,
        ) {
            host_switch_model::sessions_missing(slots, wanted.drop_first())
        } else {
            1 + host_switch_model::sessions_missing(
                slots.push(host_switch_model::fresh_session(wanted.first(), fresh)),
                wanted.drop_first(),
            )
        },
    decreases wanted.len(),
{
    let first = wanted.first();
    let grown = slots.push(host_switch_model::fresh_session(first, fresh));
    assert(grown.last().keyboard() == first.keyboard);
    if wanted.len() > 1 {
        let shorter = wanted.drop_last();
        let keyboard = wanted.last().keyboard;
        lemma_sessions_missing_from_front(slots, shorter, fresh);
        assert(shorter.drop_first() =~= wanted.drop_first().drop_last());
        assert(shorter.first() == first);
        let inner = wanted.drop_first().drop_last();
        assert(wanted.drop_first().last() == wanted.last());
        assert(host_switch_model::keyboard_named(shorter, keyboard) <==> (first.keyboard == keyboard
            || host_switch_model::keyboard_named(inner, keyboard))) by {
            if host_switch_model::keyboard_named(shorter, keyboard) {
                let i = choose|i: int|
                    0 <= i < shorter.len() && #[trigger] shorter[i].keyboard == keyboard;
                if i > 0 {
                    assert(inner[i - 1].keyboard == keyboard);
                }
            }
            if host_switch_model::keyboard_named(inner, keyboard) {
                let i = choose|i: int|
                    0 <= i < inner.len() && #[trigger] inner[i].keyboard == keyboard;
                assert(shorter[i + 1].keyboard == keyboard);
            }
            if first.keyboard == keyboard {
                assert(shorter[0].keyboard == keyboard);
            }
        }
        assert(host_switch_model::keyboard_owned(grown, keyboard) <==> (
        host_switch_model::keyboard_owned(slots, keyboard) || first.keyboard == keyboard)) by {
            if host_switch_model::keyboard_owned(slots, keyboard) {
                let i = choose|i: int|
                    0 <= i < slots.len() && #[trigger] slots[i].keyboard() == keyboard;
                assert(grown[i].keyboard() == keyboard);
            }
            if host_switch_model::keyboard_owned(grown, keyboard) {
                let i = choose|i: int|
                    0 <= i < grown.len() && #[trigger] grown[i].keyboard() == keyboard;
                if i < slots.len() {
                    assert(slots[i].keyboard() == keyboard);
                }
            }
            if first.keyboard == keyboard {
                assert(grown[slots.len() as int].keyboard() == keyboard);
            }
        }
    } else {
        assert(wanted.drop_last() =~= Seq::empty());
        assert(wanted.drop_first() =~= Seq::empty());
        assert(!host_switch_model::keyboard_named(wanted.drop_last(), first.keyboard));
        assert(host_switch_model::sessions_missing(slots, wanted.drop_last()) == 0);
    }
}

/// Every missing session starts, as far as there are leases: the number that
/// `missing_sessions` reports is exactly what a turn can use.
pub proof fn law_a_turn_starts_as_many_sessions_as_it_has_leases_for(
    state: ManagerView,
    wanted: Seq<LinkView>,
    granted: nat,
)
    ensures
        ({
            let missing = host_switch_model::sessions_missing(state.slots, wanted);
            state.armed(wanted, granted).1.len() == if granted < missing {
                granted
            } else {
                missing
            }
        }),
    decreases wanted.len(),
{
    if wanted.len() > 0 {
        let rest = wanted.drop_first();
        let next = state.with_session(wanted.first());
        lemma_sessions_missing_from_front(state.slots, wanted, next.next_generation);
        if host_switch_model::keyboard_owned(state.slots, wanted.first().keyboard) {
            law_a_turn_starts_as_many_sessions_as_it_has_leases_for(state, rest, granted);
        } else if granted > 0 {
            law_a_turn_starts_as_many_sessions_as_it_has_leases_for(
                next,
                rest,
                (granted - 1) as nat,
            );
        }
    }
}

} // verus!
