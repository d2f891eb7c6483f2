//! One turn of the host-switch manager, and what the tasks around it decide.
//!
//! A turn reads the published inputs, settles what it can, stops and starts
//! sessions, and then waits. The caller reads the inputs, takes receiver
//! leases, runs the tasks and waits; everything decided in between is here.

use vstd::prelude::*;

use crate::host_switch::{
    handle_manager_event, HostRequest, HostSwitchManagerState, HostSwitchSlot, ManagerCompletion,
    ManagerEvent, SessionPhase, SessionResult, SessionStart, TransitionIntent, TransitionOutcome,
};
use crate::host_switch;
use crate::host_switch_model;
use crate::host_switch_model::{ManagerView, StartView};
use crate::host_switch_outcomes;
use crate::link::{contains_link, DeviceRoute, HostSwitchLink, LinkView};

verus! {

/// What the caller read at the top of a turn.
#[derive(Debug, Clone, Copy, PartialEq, Eq)]
pub struct RoundInputs {
    /// The ask that stands in the request slot.
    pub ask: Option<HostRequest>,
    /// Whether an exclusive operation is queued or active on the receiver.
    pub requested: bool,
    /// Whether device I/O is allowed.
    pub io_allowed: bool,
    /// Nanoseconds on the monotonic clock.
    pub now: u64,
}

/// What the caller has to do first in a turn.
#[derive(Debug)]
pub struct RoundPlan {
    /// Highest ask serial the manager is finished with.
    pub settled: u64,
    /// Sessions to signal, by generation.
    pub stopped: Vec<u64>,
}

/// How a turn ends.
#[derive(Debug)]
pub enum RoundEnd {
    /// The manager is done.
    Ended(ManagerCompletion),
    /// The caller runs the transition, where there is one, and waits.
    Open(Option<TransitionIntent>),
}

/// Why the manager woke up.
#[derive(Debug, Clone, Copy, PartialEq, Eq)]
pub enum Wake {
    /// The manager was told to leave.
    Shutdown,
    /// Something the manager started has ended.
    Finished(ManagerEvent),
    /// An ask was published.
    Asked,
    /// Every requester is gone.
    AsksClosed,
    /// The published links changed.
    LinksChanged,
    /// Nothing publishes links any more.
    LinksClosed,
    /// The receiver's queue changed.
    ReceiverChanged,
    /// Nothing reports the receiver's queue any more.
    ReceiverClosed,
    /// The device I/O gate changed.
    IoChanged,
    /// The device I/O gate is gone.
    IoClosed,
    /// The set of devices changed.
    RegistryChanged,
    /// Nothing reports the set of devices any more.
    RegistryClosed,
    /// The deadline passed.
    DeadlineReached,
}

/// The manager between two waits.
#[derive(Debug)]
pub struct HostSwitchManager {
    pub state: HostSwitchManagerState,
    /// Whether the manager was told to leave.
    pub terminal: bool,
    /// Whether some requester may still publish an ask.
    pub requests_open: bool,
}

impl ManagerView {
    /// The links that sessions should serve: none while the manager leaves, the
    /// receiver is spoken for or a transition is under way.
    pub open spec fn wanted(
        self,
        published: Seq<LinkView>,
        requested: bool,
        terminal: bool,
    ) -> Seq<LinkView> {
        if terminal || requested || self.transition is Some {
            Seq::empty()
        } else {
            published
        }
    }

    /// The state once the ask, the waiting intent and the outstanding request
    /// agree with what is published.
    pub open spec fn after_inputs(
        self,
        ask: Option<HostRequest>,
        published: Seq<LinkView>,
        terminal: bool,
        now: int,
    ) -> ManagerView {
        let asked = match ask {
            Some(ask) => self.after_ask(ask, published, now),
            None => self,
        };
        asked.after_reconciled_transition(published, terminal).after_promotion(
            published,
            terminal,
            now,
        )
    }

    /// The state at the end of the first part of a turn.
    pub open spec fn after_opening(
        self,
        inputs: RoundInputs,
        published: Seq<LinkView>,
        terminal: bool,
    ) -> ManagerView {
        let next = self.after_inputs(inputs.ask, published, terminal, inputs.now as int);
        if inputs.io_allowed || terminal {
            next.after_stops(next.wanted(published, inputs.requested, terminal), terminal)
        } else {
            next
        }
    }

    /// Whether sessions may start in this turn.
    pub open spec fn may_arm(self, io_allowed: bool, terminal: bool) -> bool {
        io_allowed && !terminal && self.transition is None
    }
}

impl HostSwitchManager {
    /// A manager that has done nothing yet.
    #[must_use]
    pub fn new() -> (manager: Self)
        ensures
            manager.state@ == ManagerView::initial(),
            !manager.terminal,
            manager.requests_open,
    {
        HostSwitchManager {
            state: HostSwitchManagerState::new(),
            terminal: false,
            requests_open: true,
        }
    }

    fn wanted<'a>(&self, published: &'a [HostSwitchLink], requested: bool) -> (wanted:
        &'a [HostSwitchLink])
        ensures
            LinkView::each(wanted@) == self.state@.wanted(
                LinkView::each(published@),
                requested,
                self.terminal,
            ),
    {
        if self.terminal || requested || self.state.transition.is_some() {
            let none = vstd::slice::slice_subrange(published, 0, 0);
            assert(LinkView::each(none@) =~= Seq::empty());
            none
        } else {
            published
        }
    }

    /// Take in the inputs, settle what can be settled, and stop the sessions
    /// that are no longer wanted.
    pub fn open_round(&mut self, published: &[HostSwitchLink], inputs: RoundInputs) -> (plan:
        RoundPlan)
        requires
            host_switch::clock_has_room(inputs.now),
        ensures
            final(self).state@ == old(self).state@.after_opening(
                inputs,
                LinkView::each(published@),
                old(self).terminal,
            ),
            final(self).terminal == old(self).terminal,
            final(self).requests_open == old(self).requests_open,
            plan.settled == final(self).state@.settled,
            plan.stopped@ == ({
                let next = old(self).state@.after_inputs(
                    inputs.ask,
                    LinkView::each(published@),
                    old(self).terminal,
                    inputs.now as int,
                );
                if inputs.io_allowed || old(self).terminal {
                    host_switch_model::sessions_to_stop(
                        next.slots,
                        next.wanted(LinkView::each(published@), inputs.requested, old(self).terminal),
                        old(self).terminal,
                    )
                } else {
                    Seq::empty()
                }
            }),
            inputs.io_allowed && (inputs.requested || old(self).terminal) ==> forall|i: int|
                0 <= i < final(self).state.slots@.len() ==> ((
                #[trigger] final(self).state.slots@[i]) matches HostSwitchSlot::Running(session)
                    ==> session.phase == SessionPhase::Draining),
    {
        proof {
            if inputs.requested || self.terminal {
                host_switch_outcomes::law_a_claimed_receiver_is_given_up(
                    self.state@,
                    inputs,
                    LinkView::each(published@),
                    self.terminal,
                    0,
                );
            }
        }
        if let Some(ask) = inputs.ask {
            self.state.accept_request(ask, published, inputs.now);
        }
        self.state.reconcile_transition(published, self.terminal);
        self.state.promote_request(published, self.terminal, inputs.now);
        let stopped = if inputs.io_allowed || self.terminal {
            let wanted = self.wanted(published, inputs.requested);
            self.state.stop_sessions(wanted, self.terminal)
        } else {
            Vec::new()
        };
        proof {
            assert forall|i: int|
                0 <= i < self.state.slots@.len() && inputs.io_allowed && (inputs.requested
                    || self.terminal) implies ((#[trigger] self.state.slots@[i])
                matches HostSwitchSlot::Running(session) ==> session.phase
                == SessionPhase::Draining) by {
                assert(self.state@.slots[i] == self.state.slots@[i]@);
            }
        }
        RoundPlan { settled: self.state.settled, stopped }
    }

    /// How many leases the restores of this turn ask for.
    #[must_use]
    pub fn restore_leases(&self, inputs: RoundInputs, now: u64) -> (leases: usize)
        ensures
            leases == if inputs.io_allowed {
                host_switch_model::restores_due(self.state@.slots, inputs.requested, now as int)
            } else {
                0
            },
    {
        if inputs.io_allowed {
            self.state.due_restores(inputs.requested, now)
        } else {
            0
        }
    }

    /// Start the restores that are due. Returns their generations.
    pub fn restore_round(
        &mut self,
        published: &[HostSwitchLink],
        inputs: RoundInputs,
        granted: usize,
        now: u64,
    ) -> (started: Vec<u64>)
        ensures
            ({
                let pass = old(self).state@.recovery_pass(
                    LinkView::each(published@),
                    inputs.requested,
                    granted as nat,
                    now as int,
                    old(self).terminal,
                );
                if inputs.io_allowed {
                    &&& final(self).state@ == (ManagerView { slots: pass.0, ..old(self).state@ })
                    &&& started@ == pass.1
                } else {
                    &&& final(self).state@ == old(self).state@
                    &&& started@ == Seq::<u64>::empty()
                }
            }),
            final(self).terminal == old(self).terminal,
            final(self).requests_open == old(self).requests_open,
    {
        if inputs.io_allowed {
            self.state.reconcile_recoveries(
                published,
                inputs.requested,
                granted,
                now,
                self.terminal,
            )
        } else {
            Vec::new()
        }
    }

    /// How many leases the sessions of this turn ask for.
    #[must_use]
    pub fn session_leases(&self, published: &[HostSwitchLink], inputs: RoundInputs) -> (leases:
        usize)
        ensures
            leases == if self.state@.may_arm(inputs.io_allowed, self.terminal) {
                host_switch_model::sessions_missing(
                    self.state@.slots,
                    self.state@.wanted(
                        LinkView::each(published@),
                        inputs.requested,
                        self.terminal,
                    ),
                )
            } else {
                0
            },
            inputs.requested || self.terminal || !inputs.io_allowed ==> leases == 0,
    {
        proof {
            if inputs.requested || self.terminal {
                host_switch_outcomes::law_a_claimed_receiver_is_given_up(
                    self.state@,
                    inputs,
                    LinkView::each(published@),
                    self.terminal,
                    0,
                );
            }
        }
        if inputs.io_allowed && !self.terminal && self.state.transition.is_none() {
            let wanted = self.wanted(published, inputs.requested);
            self.state.missing_sessions(wanted)
        } else {
            0
        }
    }

    /// Start the sessions that are missing.
    pub fn arm_round(
        &mut self,
        published: &[HostSwitchLink],
        inputs: RoundInputs,
        granted: usize,
    ) -> (starts: Vec<SessionStart>)
        ensures
            ({
                let armed = old(self).state@.armed(
                    old(self).state@.wanted(
                        LinkView::each(published@),
                        inputs.requested,
                        old(self).terminal,
                    ),
                    granted as nat,
                );
                if old(self).state@.may_arm(inputs.io_allowed, old(self).terminal) {
                    &&& final(self).state@ == armed.0
                    &&& StartView::each(starts@) == armed.1
                } else {
                    &&& final(self).state@ == old(self).state@
                    &&& starts@ == Seq::<SessionStart>::empty()
                }
            }),
            inputs.requested || old(self).terminal || !inputs.io_allowed ==> starts@.len() == 0
                && final(self).state@ == old(self).state@,
            final(self).terminal == old(self).terminal,
            final(self).requests_open == old(self).requests_open,
    {
        proof {
            if inputs.requested || self.terminal {
                host_switch_outcomes::law_a_claimed_receiver_is_given_up(
                    self.state@,
                    inputs,
                    LinkView::each(published@),
                    self.terminal,
                    granted as nat,
                );
            }
        }
        if inputs.io_allowed && !self.terminal && self.state.transition.is_none() {
            let wanted = self.wanted(published, inputs.requested);
            let starts = self.state.spawn_successors(wanted, granted);
            assert(StartView::each(starts@).len() == starts@.len());
            starts
        } else {
            Vec::new()
        }
    }

    /// End the turn: leave, or start the transition that is free to go.
    pub fn close_round(&mut self) -> (end: RoundEnd)
        ensures
            match old(self).state@.completion(old(self).terminal) {
                Some(completion) => {
                    &&& end == RoundEnd::Ended(completion)
                    &&& final(self).state@ == old(self).state@
                },
                None => {
                    &&& final(self).state@ == old(self).state@.after_begin(old(self).terminal)
                    &&& match (end, old(self).state@.startable(old(self).terminal)) {
                        (RoundEnd::Open(Some(intent)), Some(expected)) => intent@ == expected,
                        (RoundEnd::Open(None), None) => true,
                        _ => false,
                    }
                },
            },
            final(self).terminal == old(self).terminal,
            final(self).requests_open == old(self).requests_open,
    {
        match self.state.terminal_completion(self.terminal) {
            Some(completion) => RoundEnd::Ended(completion),
            None => RoundEnd::Open(self.state.begin_transition(self.terminal)),
        }
    }

    /// Take in what ended the wait. The result is set when the manager ends
    /// with it.
    pub fn wake(&mut self, wake: Wake, published: &[HostSwitchLink], now: u64) -> (ended: Option<
        ManagerCompletion,
    >)
        requires
            wake is Finished ==> host_switch::retry_fits(now),
        ensures
            final(self).state@ == match wake {
                Wake::Finished(event) => old(self).state@.after_event(
                    event,
                    LinkView::each(published@),
                    old(self).terminal,
                    now as int,
                ),
                Wake::RegistryChanged => old(self).state@.after_expedite(now),
                _ => old(self).state@,
            },
            final(self).terminal == (old(self).terminal || wake is Shutdown),
            final(self).requests_open == (old(self).requests_open && !(wake is AsksClosed)),
            ended == match wake {
                Wake::LinksClosed | Wake::ReceiverClosed | Wake::IoClosed | Wake::RegistryClosed =>
                    Some(ManagerCompletion::Unexpected),
                _ => None,
            },
    {
        match wake {
            Wake::Shutdown => {
                self.terminal = true;
                None
            },
            Wake::Finished(event) => {
                handle_manager_event(&mut self.state, event, published, self.terminal, now);
                None
            },
            Wake::AsksClosed => {
                // Every requester is gone, so Easy-Switch key presses are the
                // only trigger left. A closed input resolves instantly and
                // would otherwise spin the loop.
                self.requests_open = false;
                None
            },
            Wake::RegistryChanged => {
                self.state.expedite_pending_restores(now);
                None
            },
            Wake::LinksClosed | Wake::ReceiverClosed | Wake::IoClosed | Wake::RegistryClosed => {
                Some(ManagerCompletion::Unexpected)
            },
            Wake::Asked | Wake::LinksChanged | Wake::ReceiverChanged | Wake::IoChanged
            | Wake::DeadlineReached => None,
        }
    }
}

/// Whether the manager takes another turn at once instead of waiting.
#[must_use]
pub fn turn_is_due(deadline: Option<u64>, now: u64) -> (due: bool)
    ensures
        due == (deadline matches Some(at) && at <= now),
{
    match deadline {
        Some(at) => at <= now,
        None => false,
    }
}

/// What the manager reports as settled, where that is news: a report never
/// goes back.
#[must_use]
pub fn settlement_to_report(reported: u64, settled: u64) -> (report: Option<u64>)
    ensures
        report == if reported < settled {
            Some(settled)
        } else {
            None
        },
{
    if reported < settled {
        Some(settled)
    } else {
        None
    }
}

/// The ask that replaces `slot`: a later serial, so that asking for the same
/// host again still reads as new work.
#[must_use]
pub fn next_ask(slot: Option<HostRequest>, host: u8) -> (ask: HostRequest)
    ensures
        ask.host == host,
        ask.serial == match slot {
            Some(previous) => if previous.serial < u64::MAX {
                (previous.serial + 1) as u64
            } else {
                u64::MAX
            },
            None => 1,
        },
{
    let serial: u64 = match slot {
        Some(previous) => previous.serial.saturating_add(1),
        None => 1,
    };
    HostRequest { serial, host }
}

/// Whether a caller that waits for `serial` is released.
#[must_use]
pub fn ask_is_settled(settled: u64, serial: u64) -> (released: bool)
    ensures
        released == (settled >= serial),
{
    !(settled < serial)
}

/// Whether a transition may write to the devices: the bus must be awake and
/// the link still published once the receiver is held.
#[must_use]
pub fn transition_may_write(
    io_allowed: bool,
    published: &[HostSwitchLink],
    intent: &TransitionIntent,
) -> (may: bool)
    ensures
        may == (io_allowed && LinkView::each(published@).contains(intent@.link)),
{
    io_allowed && contains_link(published, &intent.link)
}

/// What the switch itself reported.
#[derive(Debug, Clone, Copy, PartialEq, Eq, Structural)]
pub enum SwitchReport {
    /// The devices were told to move.
    Moved,
    /// They were on that host already.
    AlreadyThere,
    /// The write was rejected.
    Rejected,
}

/// What a transition does after the switch was written.
#[derive(Debug, Clone, Copy, PartialEq, Eq, Structural)]
pub enum AfterSwitch {
    /// Wait for the keyboard to leave this host.
    AwaitDeparture,
    /// The transition is over.
    Done(TransitionOutcome),
}

/// What follows a switch.
#[must_use]
pub fn after_switch(report: SwitchReport) -> (next: AfterSwitch)
    ensures
        next == match report {
            SwitchReport::Moved => AfterSwitch::AwaitDeparture,
            SwitchReport::AlreadyThere => AfterSwitch::Done(TransitionOutcome::Settled),
            SwitchReport::Rejected => AfterSwitch::Done(TransitionOutcome::Failed),
        },
{
    match report {
        SwitchReport::Moved => AfterSwitch::AwaitDeparture,
        // Already on that host: nothing moved, and nothing is wrong.
        SwitchReport::AlreadyThere => AfterSwitch::Done(TransitionOutcome::Settled),
        SwitchReport::Rejected => AfterSwitch::Done(TransitionOutcome::Failed),
    }
}

/// The outcome of a transition that waited for the keyboard to leave.
#[must_use]
pub fn departure_outcome(departed: bool) -> (outcome: TransitionOutcome)
    ensures
        outcome == if departed {
            TransitionOutcome::Settled
        } else {
            TransitionOutcome::Failed
        },
{
    if departed {
        TransitionOutcome::Settled
    } else {
        TransitionOutcome::Failed
    }
}

/// Whether the keyboard has left this host: no published link names it.
#[must_use]
pub fn has_departed(published: &[HostSwitchLink], keyboard: &DeviceRoute) -> (departed: bool)
    ensures
        departed == !host_switch_model::keyboard_named(LinkView::each(published@), keyboard@),
        departed <==> (forall|i: int|
            0 <= i < published@.len() ==> (#[trigger] published@[i]).keyboard@ != keyboard@),
{
    let mut i: usize = 0;
    while i < published.len()
        invariant
            i <= published.len(),
            forall|k: int|
                0 <= k < i ==> #[trigger] LinkView::each(published@)[k].keyboard != keyboard@,
        decreases published.len() - i,
    {
        assert(LinkView::each(published@)[i as int] == published@[i as int]@);
        if published[i].keyboard.same_as(keyboard) {
            return false;
        }
        i = i + 1;
    }
    proof {
        assert forall|k: int| 0 <= k < published@.len() implies (
        #[trigger] published@[k]).keyboard@ != keyboard@ by {
            assert(LinkView::each(published@)[k].keyboard != keyboard@);
        }
    }
    true
}

/// What ends one wait for a departure.
#[derive(Debug, Clone, Copy, PartialEq, Eq, Structural)]
pub enum DepartureWake {
    /// The published links changed.
    LinksChanged,
    /// Nothing publishes links any more.
    LinksClosed,
    /// The time for the departure is up.
    TimedOut,
}

/// Whether the wait for a departure is over, and how. `wake` is what ended the
/// last wait; a departure that is already published needs none.
#[must_use]
pub fn departure_step(
    wake: Option<DepartureWake>,
    published: &[HostSwitchLink],
    keyboard: &DeviceRoute,
) -> (over: Option<bool>)
    ensures
        over == match wake {
            Some(DepartureWake::LinksClosed) | Some(DepartureWake::TimedOut) => Some(false),
            _ => if host_switch_model::keyboard_named(LinkView::each(published@), keyboard@) {
                None
            } else {
                Some(true)
            },
        },
{
    match wake {
        Some(DepartureWake::LinksClosed) | Some(DepartureWake::TimedOut) => Some(false),
        _ => if has_departed(published, keyboard) {
            Some(true)
        } else {
            None
        },
    }
}

/// What a capture session leaves behind: a host that a key asked for where it
/// ended well, and firmware to restore either way.
#[must_use]
pub fn session_result(
    ended: Result<Option<u8>, ()>,
    pending_restore: bool,
) -> (result: SessionResult)
    ensures
        result.requested_host == match ended {
            Ok(host) => host,
            Err(_) => None,
        },
        result.pending_restore == pending_restore,
        result.failed == ended is Err,
{
    match ended {
        Ok(requested_host) => SessionResult { requested_host, pending_restore, failed: false },
        Err(_) => SessionResult { requested_host: None, pending_restore, failed: true },
    }
}

} // verus!
