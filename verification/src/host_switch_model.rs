//! What the host-switch manager's state means and how each operation moves it.

use vstd::prelude::*;

use crate::backoff::RequestBackoff;
use crate::host_switch::{
    HostRequest, HostSwitchRestoreOutcome, ManagerCompletion, RestorePhase, SessionPhase,
    SessionResult, TaskFailed, TransitionOutcome, TransitionSource, RETRY_DELAY,
};
use crate::link::{LinkView, RouteView};

verus! {

/// One keyboard's place in the manager.
#[verifier::ext_equal]
pub enum SlotView {
    /// A capture session holds the keyboard.
    Running { link: LinkView, generation: u64, phase: SessionPhase },
    /// The session ended and left firmware to restore.
    Recovering {
        link: LinkView,
        generation: u64,
        requested_host: Option<u8>,
        restore: RestorePhase,
    },
    /// The session failed; another may start at `retry_at`.
    Restarting { link: LinkView, retry_at: u64 },
}

impl SlotView {
    pub open spec fn link(self) -> LinkView {
        match self {
            SlotView::Running { link, .. } => link,
            SlotView::Recovering { link, .. } => link,
            SlotView::Restarting { link, .. } => link,
        }
    }

    pub open spec fn keyboard(self) -> RouteView {
        self.link().keyboard
    }

    /// The generation of the session or restore that the slot waits for.
    pub open spec fn generation(self) -> Option<u64> {
        match self {
            SlotView::Running { generation, .. } => Some(generation),
            SlotView::Recovering { generation, .. } => Some(generation),
            SlotView::Restarting { .. } => None,
        }
    }

    /// When the slot wants the manager to look at it again.
    pub open spec fn retry_at(self) -> Option<u64> {
        match self {
            SlotView::Recovering { restore: RestorePhase::Ready { retry_at }, .. } => Some(
                retry_at,
            ),
            SlotView::Restarting { retry_at, .. } => Some(retry_at),
            _ => None,
        }
    }

    /// Whether the slot holds a session that must be told to stop.
    pub open spec fn must_stop(self, wanted: Seq<LinkView>, terminal: bool) -> bool {
        match self {
            SlotView::Running { link, phase, .. } => phase is Active && (terminal
                || !wanted.contains(link)),
            _ => false,
        }
    }

    /// The slot once its session has been told to stop.
    pub open spec fn draining(self) -> SlotView {
        match self {
            SlotView::Running { link, generation, .. } => SlotView::Running {
                link,
                generation,
                phase: SessionPhase::Draining,
            },
            _ => self,
        }
    }

    /// Whether the slot outlives a round. Only a pending restart can lapse: it
    /// goes when its link is gone, when the manager is leaving, or when it is
    /// due and nothing else holds the receiver.
    pub open spec fn outlives(
        self,
        published: Seq<LinkView>,
        requested: bool,
        now: int,
        terminal: bool,
    ) -> bool {
        match self {
            SlotView::Restarting { link, retry_at } => !terminal && published.contains(link) && (
            retry_at > now || requested),
            _ => true,
        }
    }

    /// The slot without the host move that its session asked for, where its
    /// link is no longer published.
    pub open spec fn unwanted_move_dropped(self, published: Seq<LinkView>) -> SlotView {
        match self {
            SlotView::Recovering { link, generation, requested_host, restore } => if published.contains(
                link,
            ) {
                self
            } else {
                SlotView::Recovering { link, generation, requested_host: None, restore }
            },
            _ => self,
        }
    }

    /// Whether the slot waits for a restore attempt that may start at `now`.
    pub open spec fn restore_due(self, requested: bool, now: int) -> bool {
        match self {
            SlotView::Recovering { restore: RestorePhase::Ready { retry_at }, .. } => retry_at
                <= now && !requested,
            _ => false,
        }
    }

    /// The slot while its restore attempt runs.
    pub open spec fn restoring(self) -> SlotView {
        match self {
            SlotView::Recovering { link, generation, requested_host, .. } => SlotView::Recovering {
                link,
                generation,
                requested_host,
                restore: RestorePhase::Restoring,
            },
            _ => self,
        }
    }

    /// The slot with a waiting restore made due at `now`.
    pub open spec fn expedited(self, now: u64) -> SlotView {
        match self {
            SlotView::Recovering {
                link,
                generation,
                requested_host,
                restore: RestorePhase::Ready { .. },
            } => SlotView::Recovering {
                link,
                generation,
                requested_host,
                restore: RestorePhase::Ready { retry_at: now },
            },
            _ => self,
        }
    }
}

/// One intended move of a link.
#[verifier::ext_equal]
pub struct IntentView {
    pub link: LinkView,
    pub host: u8,
    pub source: TransitionSource,
}

/// Where the single transition stands.
#[verifier::ext_equal]
pub enum TransitionView {
    Waiting(IntentView),
    Running(TransitionSource),
}

/// An outstanding ask and the links it has yet to move.
#[verifier::ext_equal]
pub struct PendingView {
    pub serial: u64,
    pub host: u8,
    pub remaining: Seq<LinkView>,
    pub failed: bool,
}

/// A session that a round starts.
#[verifier::ext_equal]
pub struct StartView {
    pub generation: u64,
    pub keyboard: RouteView,
}

/// The manager's state.
#[verifier::ext_equal]
pub struct ManagerView {
    pub slots: Seq<SlotView>,
    pub next_generation: u64,
    pub transition: Option<TransitionView>,
    pub request: Option<PendingView>,
    pub backoff: RequestBackoff,
    pub seen: u64,
    pub settled: u64,
    pub task_failed: bool,
}

pub open spec fn later(a: u64, b: u64) -> u64 {
    if a < b {
        b
    } else {
        a
    }
}

/// The index of the last of `links` that is still published.
pub open spec fn last_published(links: Seq<LinkView>, published: Seq<LinkView>) -> Option<int>
    decreases links.len(),
{
    if links.len() == 0 {
        None
    } else if published.contains(links.last()) {
        Some(links.len() - 1)
    } else {
        last_published(links.drop_last(), published)
    }
}

/// The index of the first slot whose capture session has this generation.
pub open spec fn running_index(slots: Seq<SlotView>, generation: u64) -> Option<int>
    decreases slots.len(),
{
    if slots.len() == 0 {
        None
    } else {
        match running_index(slots.drop_last(), generation) {
            Some(i) => Some(i),
            None => if slots.last() is Running && slots.last().generation() == Some(generation) {
                Some(slots.len() - 1)
            } else {
                None
            },
        }
    }
}

/// The index of the first slot whose restore has this generation.
pub open spec fn recovering_index(slots: Seq<SlotView>, generation: u64) -> Option<int>
    decreases slots.len(),
{
    if slots.len() == 0 {
        None
    } else {
        match recovering_index(slots.drop_last(), generation) {
            Some(i) => Some(i),
            None => if slots.last() is Recovering && slots.last().generation() == Some(generation) {
                Some(slots.len() - 1)
            } else {
                None
            },
        }
    }
}

/// The generations of the sessions that must be told to stop, in slot order.
pub open spec fn sessions_to_stop(
    slots: Seq<SlotView>,
    wanted: Seq<LinkView>,
    terminal: bool,
) -> Seq<u64>
    decreases slots.len(),
{
    if slots.len() == 0 {
        Seq::empty()
    } else {
        let before = sessions_to_stop(slots.drop_last(), wanted, terminal);
        if slots.last().must_stop(wanted, terminal) {
            before.push(slots.last().generation()->0)
        } else {
            before
        }
    }
}

/// The slots that outlive a round.
pub open spec fn outliving(
    slots: Seq<SlotView>,
    published: Seq<LinkView>,
    requested: bool,
    now: int,
    terminal: bool,
) -> Seq<SlotView>
    decreases slots.len(),
{
    if slots.len() == 0 {
        Seq::empty()
    } else {
        let before = outliving(slots.drop_last(), published, requested, now, terminal);
        if slots.last().outlives(published, requested, now, terminal) {
            before.push(slots.last())
        } else {
            before
        }
    }
}

/// How many restore attempts are due.
pub open spec fn restores_due(slots: Seq<SlotView>, requested: bool, now: int) -> nat
    decreases slots.len(),
{
    if slots.len() == 0 {
        0
    } else {
        restores_due(slots.drop_last(), requested, now) + if slots.last().restore_due(
            requested,
            now,
        ) {
            1nat
        } else {
            0nat
        }
    }
}

/// The slots after the due restores have been started in slot order, each
/// against one of `granted` leases, and the generations that were started.
/// The first refused lease ends the pass: later slots stay as they are.
pub open spec fn restores_started(
    slots: Seq<SlotView>,
    published: Seq<LinkView>,
    requested: bool,
    granted: nat,
    now: int,
) -> (Seq<SlotView>, Seq<u64>)
    decreases slots.len(),
{
    if slots.len() == 0 {
        (Seq::empty(), Seq::empty())
    } else {
        let head = slots.first().unwanted_move_dropped(published);
        let tail = slots.drop_first();
        if head.restore_due(requested, now) {
            if granted == 0 {
                (seq![head] + tail, Seq::empty())
            } else {
                let rest = restores_started(tail, published, requested, (granted - 1) as nat, now);
                (seq![head.restoring()] + rest.0, seq![head.generation()->0] + rest.1)
            }
        } else {
            let rest = restores_started(tail, published, requested, granted, now);
            (seq![head] + rest.0, rest.1)
        }
    }
}

/// Whether some slot holds the keyboard.
pub open spec fn keyboard_owned(slots: Seq<SlotView>, keyboard: RouteView) -> bool {
    exists|i: int| 0 <= i < slots.len() && #[trigger] slots[i].keyboard() == keyboard
}

/// A slot for a session that has just been started.
pub open spec fn fresh_session(link: LinkView, generation: u64) -> SlotView {
    SlotView::Running { link, generation, phase: SessionPhase::Active }
}

/// The generation that follows `generation`.
pub open spec fn generation_after(generation: u64) -> u64 {
    if generation == u64::MAX {
        0
    } else {
        (generation + 1) as u64
    }
}

/// Whether one of `links` names the keyboard.
pub open spec fn keyboard_named(links: Seq<LinkView>, keyboard: RouteView) -> bool {
    exists|i: int| 0 <= i < links.len() && #[trigger] links[i].keyboard == keyboard
}

/// How many keyboards of `wanted` no slot holds. A keyboard named twice counts
/// once.
pub open spec fn sessions_missing(slots: Seq<SlotView>, wanted: Seq<LinkView>) -> nat
    decreases wanted.len(),
{
    if wanted.len() == 0 {
        0
    } else {
        let keyboard = wanted.last().keyboard;
        sessions_missing(slots, wanted.drop_last()) + if keyboard_owned(slots, keyboard)
            || keyboard_named(wanted.drop_last(), keyboard) {
            0nat
        } else {
            1nat
        }
    }
}

impl ManagerView {
    /// A manager that has done nothing yet.
    pub open spec fn initial() -> ManagerView {
        ManagerView {
            slots: Seq::empty(),
            next_generation: 0,
            transition: None,
            request: None,
            backoff: RequestBackoff::idle(),
            seen: 0,
            settled: 0,
            task_failed: false,
        }
    }

    /// Whether some slot holds a capture session.
    pub open spec fn sessions_running(self) -> bool {
        exists|i: int| 0 <= i < self.slots.len() && #[trigger] self.slots[i] is Running
    }

    /// Whether some slot has firmware to restore.
    pub open spec fn restores_pending(self) -> bool {
        exists|i: int| 0 <= i < self.slots.len() && #[trigger] self.slots[i] is Recovering
    }

    /// Whether the transition slot holds an intent that an ask put there.
    pub open spec fn waits_for_ask(self) -> bool {
        self.transition matches Some(TransitionView::Waiting(intent)) && intent.source is Request
    }

    /// The state after reading the published ask.
    ///
    /// Only an ask past the highest serial already taken on is new work. It
    /// replaces an older ask, whose caller is released, and an intent that the
    /// older ask left waiting. A throttled ask is settled on the spot.
    pub open spec fn after_ask(
        self,
        ask: HostRequest,
        published: Seq<LinkView>,
        now: int,
    ) -> ManagerView {
        if ask.serial <= self.seen {
            self
        } else {
            let released = match self.request {
                Some(superseded) => later(self.settled, superseded.serial),
                None => self.settled,
            };
            let transition = if self.waits_for_ask() {
                None
            } else {
                self.transition
            };
            if self.backoff.refuses(ask.host, now) {
                ManagerView {
                    seen: ask.serial,
                    settled: later(released, ask.serial),
                    transition,
                    request: None,
                    ..self
                }
            } else {
                ManagerView {
                    seen: ask.serial,
                    settled: released,
                    transition,
                    request: Some(
                        PendingView {
                            serial: ask.serial,
                            host: ask.host,
                            remaining: published,
                            failed: false,
                        },
                    ),
                    ..self
                }
            }
        }
    }

    /// The state after the outstanding ask has ended.
    pub open spec fn after_finish(self, now: int) -> ManagerView {
        match self.request {
            Some(request) => ManagerView {
                backoff: self.backoff.recorded(request.host, request.failed, now),
                settled: later(self.settled, request.serial),
                request: None,
                ..self
            },
            None => self,
        }
    }

    /// The state after the outstanding ask was offered the transition slot.
    pub open spec fn after_promotion(
        self,
        published: Seq<LinkView>,
        terminal: bool,
        now: int,
    ) -> ManagerView {
        match self.request {
            None => self,
            Some(request) => if terminal {
                ManagerView {
                    settled: later(self.settled, request.serial),
                    request: None,
                    ..self
                }
            } else if self.transition is Some {
                self
            } else {
                match last_published(request.remaining, published) {
                    Some(i) => ManagerView {
                        transition: Some(
                            TransitionView::Waiting(
                                IntentView {
                                    link: request.remaining[i],
                                    host: request.host,
                                    source: TransitionSource::Request { serial: request.serial },
                                },
                            ),
                        ),
                        request: Some(
                            PendingView { remaining: request.remaining.take(i), ..request },
                        ),
                        ..self
                    },
                    None => self.after_finish(now),
                }
            },
        }
    }

    /// The state after a landed transition was folded into its ask.
    pub open spec fn after_outcome(
        self,
        source: TransitionSource,
        outcome: TransitionOutcome,
    ) -> ManagerView {
        match (source, self.request) {
            (TransitionSource::Request { serial }, Some(request)) => if request.serial == serial {
                ManagerView {
                    request: Some(
                        PendingView { failed: request.failed || outcome is Failed, ..request },
                    ),
                    ..self
                }
            } else {
                self
            },
            _ => self,
        }
    }

    /// The state without an intent that nothing published supports any more.
    pub open spec fn after_reconciled_transition(
        self,
        published: Seq<LinkView>,
        terminal: bool,
    ) -> ManagerView {
        match self.transition {
            Some(TransitionView::Waiting(intent)) => if terminal || !published.contains(
                intent.link,
            ) {
                ManagerView { transition: None, ..self }
            } else {
                self
            },
            _ => self,
        }
    }

    /// The intent that may start now: the waiting one, once no session runs and
    /// no firmware is left to restore.
    pub open spec fn startable(self, terminal: bool) -> Option<IntentView> {
        if terminal || self.sessions_running() || self.restores_pending() {
            None
        } else {
            match self.transition {
                Some(TransitionView::Waiting(intent)) => Some(intent),
                _ => None,
            }
        }
    }

    /// The state once a startable intent has started.
    pub open spec fn after_begin(self, terminal: bool) -> ManagerView {
        match self.startable(terminal) {
            Some(intent) => ManagerView {
                transition: Some(TransitionView::Running(intent.source)),
                ..self
            },
            None => self,
        }
    }

    /// How the manager ends, once it may.
    pub open spec fn completion(self, terminal: bool) -> Option<ManagerCompletion> {
        if terminal && !self.sessions_running() && !self.restores_pending()
            && self.transition is None {
            Some(
                if self.task_failed {
                    ManagerCompletion::Unexpected
                } else {
                    ManagerCompletion::Graceful
                },
            )
        } else {
            None
        }
    }

    /// Whether `deadline` is when the manager must look at its slots again: the
    /// earliest retry, unless the receiver is spoken for or the bus is asleep.
    pub open spec fn wakes_at(
        self,
        requested: bool,
        device_io_allowed: bool,
        deadline: Option<u64>,
    ) -> bool {
        let gated = requested || !device_io_allowed;
        match deadline {
            Some(at) => {
                &&& !gated
                &&& exists|i: int|
                    0 <= i < self.slots.len() && #[trigger] self.slots[i].retry_at() == Some(at)
                &&& forall|i: int|
                    0 <= i < self.slots.len() && (#[trigger] self.slots[i].retry_at()) is Some ==> at
                        <= self.slots[i].retry_at()->0
            },
            None => gated || forall|i: int|
                0 <= i < self.slots.len() ==> (#[trigger] self.slots[i].retry_at()) is None,
        }
    }

    /// The state once every session that must stop was told to.
    pub open spec fn after_stops(self, wanted: Seq<LinkView>, terminal: bool) -> ManagerView {
        ManagerView {
            slots: Seq::new(
                self.slots.len(),
                |i: int|
                    if self.slots[i].must_stop(wanted, terminal) {
                        self.slots[i].draining()
                    } else {
                        self.slots[i]
                    },
            ),
            ..self
        }
    }

    /// The slots that a recovery pass works on.
    pub open spec fn recovery_slots(
        self,
        published: Seq<LinkView>,
        requested: bool,
        now: int,
        terminal: bool,
    ) -> Seq<SlotView> {
        outliving(self.slots, published, requested, now, terminal)
    }

    /// What a recovery pass leaves and starts.
    pub open spec fn recovery_pass(
        self,
        published: Seq<LinkView>,
        requested: bool,
        granted: nat,
        now: int,
        terminal: bool,
    ) -> (Seq<SlotView>, Seq<u64>) {
        restores_started(
            self.recovery_slots(published, requested, now, terminal),
            published,
            requested,
            granted,
            now,
        )
    }

    /// The state after starting one session.
    pub open spec fn with_session(self, link: LinkView) -> ManagerView {
        let generation = generation_after(self.next_generation);
        ManagerView {
            slots: self.slots.push(fresh_session(link, generation)),
            next_generation: generation,
            ..self
        }
    }

    /// The state after starting a session for each wanted link whose keyboard
    /// no slot holds, in order, until a lease is refused; and the sessions.
    pub open spec fn armed(self, wanted: Seq<LinkView>, granted: nat) -> (
        ManagerView,
        Seq<StartView>,
    )
        decreases wanted.len(),
    {
        if wanted.len() == 0 {
            (self, Seq::empty())
        } else if keyboard_owned(self.slots, wanted.first().keyboard) {
            self.armed(wanted.drop_first(), granted)
        } else if granted == 0 {
            (self, Seq::empty())
        } else {
            let next = self.with_session(wanted.first());
            let rest = next.armed(wanted.drop_first(), (granted - 1) as nat);
            let start = StartView {
                generation: next.next_generation,
                keyboard: wanted.first().keyboard,
            };
            (rest.0, seq![start] + rest.1)
        }
    }

    /// The state after a capture session ended.
    pub open spec fn after_session(
        self,
        generation: u64,
        result: Result<SessionResult, TaskFailed>,
        published: Seq<LinkView>,
        terminal: bool,
        now: int,
    ) -> ManagerView {
        match running_index(self.slots, generation) {
            None => self,
            Some(i) => {
                let link = self.slots[i].link();
                let rest = ManagerView { slots: self.slots.remove(i), ..self };
                match result {
                    Err(_) => ManagerView { task_failed: true, ..rest },
                    Ok(result) => {
                        let current = !terminal && published.contains(link);
                        let requested_host = if current {
                            result.requested_host
                        } else {
                            None
                        };
                        if result.pending_restore {
                            ManagerView {
                                slots: rest.slots.push(
                                    SlotView::Recovering {
                                        link,
                                        generation,
                                        requested_host,
                                        restore: RestorePhase::Ready {
                                            retry_at: (now + RETRY_DELAY) as u64,
                                        },
                                    },
                                ),
                                ..rest
                            }
                        } else if requested_host is Some {
                            ManagerView {
                                transition: Some(
                                    TransitionView::Waiting(
                                        IntentView {
                                            link,
                                            host: requested_host->0,
                                            source: TransitionSource::KeyPress,
                                        },
                                    ),
                                ),
                                ..rest
                            }
                        } else if result.failed && current {
                            ManagerView {
                                slots: rest.slots.push(
                                    SlotView::Restarting {
                                        link,
                                        retry_at: (now + RETRY_DELAY) as u64,
                                    },
                                ),
                                ..rest
                            }
                        } else {
                            rest
                        }
                    },
                }
            },
        }
    }

    /// The state after a restore attempt ended.
    pub open spec fn after_restore(
        self,
        generation: u64,
        result: Result<HostSwitchRestoreOutcome, TaskFailed>,
        published: Seq<LinkView>,
        terminal: bool,
        now: int,
    ) -> ManagerView {
        match recovering_index(self.slots, generation) {
            None => self,
            Some(i) => {
                let slot = self.slots[i];
                let link = slot.link();
                let requested_host = slot->Recovering_requested_host;
                let rest = ManagerView { slots: self.slots.remove(i), ..self };
                match result {
                    Err(_) => ManagerView { task_failed: true, ..rest },
                    Ok(HostSwitchRestoreOutcome::RestorePending) => ManagerView {
                        slots: rest.slots.push(
                            SlotView::Recovering {
                                link,
                                generation,
                                requested_host,
                                restore: RestorePhase::Ready {
                                    retry_at: (now + RETRY_DELAY) as u64,
                                },
                            },
                        ),
                        ..rest
                    },
                    Ok(HostSwitchRestoreOutcome::Restored) => if requested_host is Some && !terminal
                        && published.contains(link) {
                        ManagerView {
                            transition: Some(
                                TransitionView::Waiting(
                                    IntentView {
                                        link,
                                        host: requested_host->0,
                                        source: TransitionSource::KeyPress,
                                    },
                                ),
                            ),
                            ..rest
                        }
                    } else {
                        rest
                    },
                }
            },
        }
    }

    /// The state after the running transition landed.
    pub open spec fn after_transition(
        self,
        result: Result<TransitionOutcome, TaskFailed>,
    ) -> ManagerView {
        match self.transition {
            Some(TransitionView::Running(source)) => {
                let freed = ManagerView { transition: None, ..self };
                match result {
                    Ok(outcome) => freed.after_outcome(source, outcome),
                    Err(_) => ManagerView { task_failed: true, ..freed }.after_outcome(
                        source,
                        TransitionOutcome::Failed,
                    ),
                }
            },
            _ => self,
        }
    }

    /// The state with every waiting restore made due at `now`.
    pub open spec fn after_expedite(self, now: u64) -> ManagerView {
        ManagerView {
            slots: Seq::new(self.slots.len(), |i: int| self.slots[i].expedited(now)),
            ..self
        }
    }
}

} // verus!
