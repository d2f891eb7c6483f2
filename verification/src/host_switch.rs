//! Keep configured keyboard to pointing-device host-switch links armed.
//!
//! The manager's state and every decision about it. Sessions, restores and
//! transitions themselves are carried out by the caller, which reports back how
//! they ended.

use vstd::prelude::*;

use crate::backoff::{RequestBackoff, REQUEST_BACKOFF_MAX};
use crate::host_switch_model;
use crate::host_switch_model::{
    IntentView, ManagerView, PendingView, SlotView, StartView, TransitionView,
};
use crate::link::{contains_link, copy_links, DeviceRoute, HostSwitchLink, LinkView};

verus! {

/// How long a keyboard may take to leave this host, in nanoseconds.
pub const DEPARTURE_TIMEOUT: u64 = 10_000_000_000;

/// Pause before a failed session or restore is tried again, in nanoseconds.
pub const RETRY_DELAY: u64 = 1_000_000_000;

/// Whether the longest dead time that starts at `now` still fits the clock.
pub open spec fn clock_has_room(now: u64) -> bool {
    now + REQUEST_BACKOFF_MAX <= u64::MAX
}

/// Whether a retry that is put off at `now` still fits the clock.
pub open spec fn retry_fits(now: u64) -> bool {
    now + RETRY_DELAY <= u64::MAX
}

/// One ask, tagged so that repeating the same host still reads as new work.
#[derive(Debug, Clone, Copy, PartialEq, Eq, Structural)]
pub struct HostRequest {
    /// Monotonic id. Also what a caller waits to see settled.
    pub serial: u64,
    /// 1-based Easy-Switch channel.
    pub host: u8,
}

/// Whether a capture session still captures.
#[derive(Debug, Clone, Copy, PartialEq, Eq, Structural)]
pub enum SessionPhase {
    /// Capturing.
    Active,
    /// Told to stop, not yet ended.
    Draining,
}

/// A capture session and the link it serves.
#[derive(Debug)]
pub struct RunningSession {
    pub link: HostSwitchLink,
    pub generation: u64,
    pub phase: SessionPhase,
}

/// Where the restore of a keyboard's firmware stands.
#[derive(Debug, Clone, Copy, PartialEq, Eq, Structural)]
pub enum RestorePhase {
    /// An attempt may start at `retry_at`.
    Ready {
        /// Nanoseconds on the monotonic clock.
        retry_at: u64,
    },
    /// An attempt is running.
    Restoring,
}

/// A keyboard whose firmware has yet to be restored.
#[derive(Debug)]
pub struct Recovery {
    pub link: HostSwitchLink,
    pub generation: u64,
    pub requested_host: Option<u8>,
    pub restore: RestorePhase,
}

/// One keyboard's place in the manager.
#[derive(Debug)]
pub enum HostSwitchSlot {
    Running(RunningSession),
    Recovering(Recovery),
    Restarting { link: HostSwitchLink, retry_at: u64 },
}

impl View for HostSwitchSlot {
    type V = SlotView;

    open spec fn view(&self) -> SlotView {
        match self {
            HostSwitchSlot::Running(session) => SlotView::Running {
                link: session.link@,
                generation: session.generation,
                phase: session.phase,
            },
            HostSwitchSlot::Recovering(recovery) => SlotView::Recovering {
                link: recovery.link@,
                generation: recovery.generation,
                requested_host: recovery.requested_host,
                restore: recovery.restore,
            },
            HostSwitchSlot::Restarting { link, retry_at } => SlotView::Restarting {
                link: link@,
                retry_at: *retry_at,
            },
        }
    }
}

impl HostSwitchSlot {
    /// The keyboard that the slot holds.
    #[must_use]
    pub fn keyboard(&self) -> (keyboard: &DeviceRoute)
        ensures
            keyboard@ == self@.keyboard(),
    {
        match self {
            HostSwitchSlot::Running(session) => &session.link.keyboard,
            HostSwitchSlot::Recovering(recovery) => &recovery.link.keyboard,
            HostSwitchSlot::Restarting { link, .. } => &link.keyboard,
        }
    }
}

impl SlotView {
    /// The values of a sequence of slots.
    pub open spec fn each(slots: Seq<HostSwitchSlot>) -> Seq<SlotView> {
        Seq::new(slots.len(), |i: int| slots[i]@)
    }
}

/// What asked for a transition.
///
/// A request carries the ask's serial so a completion cannot be charged to the
/// ask that superseded it.
#[derive(Debug, Clone, Copy, PartialEq, Eq, Structural)]
pub enum TransitionSource {
    /// An Easy-Switch key press observed by a capture session.
    KeyPress,
    /// An external ask.
    Request {
        /// Serial of the ask this transition belongs to.
        serial: u64,
    },
}

/// What one transition attempt achieved.
#[derive(Debug, Clone, Copy, PartialEq, Eq, Structural)]
pub enum TransitionOutcome {
    /// The keyboard left this host, or there was nothing to do.
    Settled,
    /// The write was rejected, or the keyboard never left within the budget.
    Failed,
}

/// One link and the host it is to move to.
#[derive(Debug)]
pub struct TransitionIntent {
    pub link: HostSwitchLink,
    pub host: u8,
    pub source: TransitionSource,
}

impl View for TransitionIntent {
    type V = IntentView;

    open spec fn view(&self) -> IntentView {
        IntentView { link: self.link@, host: self.host, source: self.source }
    }
}

/// Where the single transition stands.
#[derive(Debug)]
pub enum TransitionPhase {
    Waiting(TransitionIntent),
    Running(TransitionSource),
}

impl View for TransitionPhase {
    type V = TransitionView;

    open spec fn view(&self) -> TransitionView {
        match self {
            TransitionPhase::Waiting(intent) => TransitionView::Waiting(intent@),
            TransitionPhase::Running(source) => TransitionView::Running(*source),
        }
    }
}

/// A task ended without a result.
#[derive(Debug, Clone, Copy, PartialEq, Eq, Structural)]
pub struct TaskFailed;

/// What a capture session left behind.
#[derive(Debug, Clone, Copy, PartialEq, Eq)]
pub struct SessionResult {
    /// The host that an Easy-Switch key asked for.
    pub requested_host: Option<u8>,
    /// Whether firmware is left to restore.
    pub pending_restore: bool,
    /// Whether the session ended in an error.
    pub failed: bool,
}

/// How a capture session ended.
#[derive(Debug, Clone, Copy, PartialEq, Eq)]
pub struct SessionCompletion {
    pub generation: u64,
    pub result: Result<SessionResult, TaskFailed>,
}

/// What a restore attempt achieved.
#[derive(Debug, Clone, Copy, PartialEq, Eq, Structural)]
pub enum HostSwitchRestoreOutcome {
    /// The firmware is as it was.
    Restored,
    /// The attempt did not get through; another is owed.
    RestorePending,
}

/// How a restore attempt ended.
#[derive(Debug, Clone, Copy, PartialEq, Eq)]
pub struct RestoreCompletion {
    pub generation: u64,
    pub result: Result<HostSwitchRestoreOutcome, TaskFailed>,
}

/// Something the manager started has ended.
#[derive(Debug, Clone, Copy, PartialEq, Eq)]
pub enum ManagerEvent {
    Session(SessionCompletion),
    Restore(RestoreCompletion),
    Transition(Result<TransitionOutcome, TaskFailed>),
}

/// How the manager ended.
#[derive(Debug, Clone, Copy, PartialEq, Eq, Structural)]
pub enum ManagerCompletion {
    /// Everything was drained.
    Graceful,
    /// A task failed or an input closed under the manager.
    Unexpected,
}

/// An outstanding request to move every link to one host.
///
/// Links move one at a time through the same transition slot an Easy-Switch
/// press uses, so `remaining` is what is left of one ask, not a queue of asks.
#[derive(Debug)]
pub struct PendingRequest {
    pub serial: u64,
    pub host: u8,
    pub remaining: Vec<HostSwitchLink>,
    pub failed: bool,
}

impl View for PendingRequest {
    type V = PendingView;

    open spec fn view(&self) -> PendingView {
        PendingView {
            serial: self.serial,
            host: self.host,
            remaining: LinkView::each(self.remaining@),
            failed: self.failed,
        }
    }
}

/// A session that the caller is to start.
#[derive(Debug)]
pub struct SessionStart {
    pub generation: u64,
    pub keyboard: DeviceRoute,
}

impl View for SessionStart {
    type V = StartView;

    open spec fn view(&self) -> StartView {
        StartView { generation: self.generation, keyboard: self.keyboard@ }
    }
}

impl StartView {
    /// The values of a sequence of session starts.
    pub open spec fn each(starts: Seq<SessionStart>) -> Seq<StartView> {
        Seq::new(starts.len(), |i: int| starts[i]@)
    }
}

/// Everything the manager remembers.
#[derive(Debug)]
pub struct HostSwitchManagerState {
    pub slots: Vec<HostSwitchSlot>,
    pub next_generation: u64,
    pub transition: Option<TransitionPhase>,
    pub request: Option<PendingRequest>,
    pub backoff: RequestBackoff,
    /// Highest ask serial already taken on, so re-reads are idempotent.
    pub seen: u64,
    /// Highest ask serial the manager is finished with.
    pub settled: u64,
    pub task_failed: bool,
}

impl TransitionView {
    /// The value of the transition slot.
    pub open spec fn of(transition: Option<TransitionPhase>) -> Option<TransitionView> {
        match transition {
            Some(phase) => Some(phase@),
            None => None,
        }
    }
}

impl PendingView {
    /// The value of the outstanding ask.
    pub open spec fn of(request: Option<PendingRequest>) -> Option<PendingView> {
        match request {
            Some(request) => Some(request@),
            None => None,
        }
    }
}

impl View for HostSwitchManagerState {
    type V = ManagerView;

    open spec fn view(&self) -> ManagerView {
        ManagerView {
            slots: SlotView::each(self.slots@),
            next_generation: self.next_generation,
            transition: TransitionView::of(self.transition),
            request: PendingView::of(self.request),
            backoff: self.backoff,
            seen: self.seen,
            settled: self.settled,
            task_failed: self.task_failed,
        }
    }
}

fn later_of(a: u64, b: u64) -> (later: u64)
    ensures
        later == host_switch_model::later(a, b),
{
    if a < b {
        b
    } else {
        a
    }
}

impl HostSwitchManagerState {
    /// A manager that has done nothing yet.
    #[must_use]
    pub fn new() -> (state: Self)
        ensures
            state@ == ManagerView::initial(),
    {
        let state = HostSwitchManagerState {
            slots: Vec::new(),
            next_generation: 0,
            transition: None,
            request: None,
            backoff: RequestBackoff::default(),
            seen: 0,
            settled: 0,
            task_failed: false,
        };
        assert(state@ =~= ManagerView::initial());
        state
    }

    /// Take on an externally requested move, superseding any earlier one.
    ///
    /// Re-reading the published ask is a no-op: only a serial past the highest
    /// one already taken on is new work.
    pub fn accept_request(&mut self, ask: HostRequest, published: &[HostSwitchLink], now: u64)
        ensures
            final(self)@ == old(self)@.after_ask(ask, LinkView::each(published@), now as int),
    {
        if ask.serial <= self.seen {
            return ;
        }
        self.seen = ask.serial;
        // Only the latest ask matters. Retiring the older one releases its
        // caller; it says nothing about the host, so it does not charge the
        // throttle. A transition already running for it keeps its own serial
        // and its outcome is discarded when it lands.
        if let Some(superseded) = self.request.take() {
            self.settled = later_of(self.settled, superseded.serial);
        }
        let stale = match &self.transition {
            Some(TransitionPhase::Waiting(intent)) => match intent.source {
                TransitionSource::Request { .. } => true,
                TransitionSource::KeyPress => false,
            },
            _ => false,
        };
        if stale {
            self.transition = None;
        }
        if self.backoff.blocks(ask.host, now) {
            self.settled = later_of(self.settled, ask.serial);
            return ;
        }
        self.request = Some(
            PendingRequest {
                serial: ask.serial,
                host: ask.host,
                remaining: copy_links(published),
                failed: false,
            },
        );
    }

    /// Charge the throttle for the finished ask and release its caller.
    pub fn finish_request(&mut self, now: u64)
        requires
            clock_has_room(now),
        ensures
            final(self)@ == old(self)@.after_finish(now as int),
    {
        if let Some(request) = self.request.take() {
            self.backoff.record(request.host, request.failed, now);
            self.settled = later_of(self.settled, request.serial);
        }
    }

    /// Hand the outstanding request's next still-published link to the
    /// transition slot, so it travels the same path a key press does, and
    /// retire the request once nothing is left to move.
    pub fn promote_request(&mut self, published: &[HostSwitchLink], terminal: bool, now: u64)
        requires
            clock_has_room(now),
        ensures
            final(self)@ == old(self)@.after_promotion(
                LinkView::each(published@),
                terminal,
                now as int,
            ),
    {
        if terminal {
            if let Some(abandoned) = self.request.take() {
                self.settled = later_of(self.settled, abandoned.serial);
            }
            return ;
        }
        if self.transition.is_some() {
            return ;
        }
        let mut request = match self.request.take() {
            Some(request) => request,
            None => {
                return ;
            },
        };
        let ghost all = LinkView::each(request.remaining@);
        let ghost live = LinkView::each(published@);
        let ghost before = request;
        assert(all.take(all.len() as int) =~= all);
        while request.remaining.len() > 0
            invariant
                LinkView::each(request.remaining@) == all.take(request.remaining@.len() as int),
                request.remaining@.len() <= all.len(),
                host_switch_model::last_published(LinkView::each(request.remaining@), live)
                    == host_switch_model::last_published(all, live),
                live == LinkView::each(published@),
                all == LinkView::each(before.remaining@),
                request.serial == before.serial,
                request.host == before.host,
                request.failed == before.failed,
                old(self)@.request == Some(before@),
                old(self)@.transition is None,
                !terminal,
                self@ == (ManagerView { request: None, ..old(self)@ }),
            decreases request.remaining.len(),
        {
            let ghost held = LinkView::each(request.remaining@);
            if let Some(link) = request.remaining.pop() {
                assert(LinkView::each(request.remaining@) =~= held.drop_last());
                assert(held.last() == link@);
                assert(held.drop_last() =~= all.take(held.len() - 1));
                if contains_link(published, &link) {
                    assert(all[held.len() - 1] == link@);
                    self.transition = Some(
                        TransitionPhase::Waiting(
                            TransitionIntent {
                                link,
                                host: request.host,
                                source: TransitionSource::Request { serial: request.serial },
                            },
                        ),
                    );
                    self.request = Some(request);
                    return ;
                }
            }
        }
        self.request = Some(request);
        self.finish_request(now);
    }

    /// Fold a landed transition into the ask that started it.
    ///
    /// A completion for a superseded ask is dropped: the successor owns the
    /// slot and must not inherit its predecessor's verdict.
    pub fn record_transition_outcome(
        &mut self,
        source: TransitionSource,
        outcome: TransitionOutcome,
    )
        ensures
            final(self)@ == old(self)@.after_outcome(source, outcome),
    {
        if let TransitionSource::Request { serial } = source {
            if let Some(mut request) = self.request.take() {
                if request.serial == serial {
                    request.failed = request.failed || outcome == TransitionOutcome::Failed;
                }
                self.request = Some(request);
            }
        }
    }

    /// Whether some keyboard's firmware has yet to be restored.
    #[must_use]
    pub fn has_pending_restores(&self) -> (pending: bool)
        ensures
            pending == self@.restores_pending(),
    {
        let mut i: usize = 0;
        while i < self.slots.len()
            invariant
                i <= self.slots.len(),
                forall|k: int| 0 <= k < i ==> !(#[trigger] self@.slots[k] is Recovering),
            decreases self.slots.len() - i,
        {
            if let HostSwitchSlot::Recovering(_) = &self.slots[i] {
                assert(self@.slots[i as int] is Recovering);
                return true;
            }
            i = i + 1;
        }
        false
    }

    /// Whether some capture session has not ended.
    #[must_use]
    pub fn has_running_sessions(&self) -> (running: bool)
        ensures
            running == self@.sessions_running(),
    {
        let mut i: usize = 0;
        while i < self.slots.len()
            invariant
                i <= self.slots.len(),
                forall|k: int| 0 <= k < i ==> !(#[trigger] self@.slots[k] is Running),
            decreases self.slots.len() - i,
        {
            if let HostSwitchSlot::Running(_) = &self.slots[i] {
                assert(self@.slots[i as int] is Running);
                return true;
            }
            i = i + 1;
        }
        false
    }

    /// Whether some slot holds the keyboard, so that no session may start on it.
    #[must_use]
    pub fn owns_keyboard(&self, keyboard: &DeviceRoute) -> (owned: bool)
        ensures
            owned == host_switch_model::keyboard_owned(self@.slots, keyboard@),
    {
        let mut i: usize = 0;
        while i < self.slots.len()
            invariant
                i <= self.slots.len(),
                forall|k: int| 0 <= k < i ==> #[trigger] self@.slots[k].keyboard() != keyboard@,
            decreases self.slots.len() - i,
        {
            if self.slots[i].keyboard().same_as(keyboard) {
                assert(self@.slots[i as int].keyboard() == keyboard@);
                return true;
            }
            i = i + 1;
        }
        false
    }

    /// Drop a waiting intent whose link is gone, or any once the manager leaves.
    pub fn reconcile_transition(&mut self, published: &[HostSwitchLink], terminal: bool)
        ensures
            final(self)@ == old(self)@.after_reconciled_transition(
                LinkView::each(published@),
                terminal,
            ),
    {
        let stale = match &self.transition {
            Some(TransitionPhase::Waiting(intent)) => terminal || !contains_link(
                published,
                &intent.link,
            ),
            _ => false,
        };
        if stale {
            self.transition = None;
        }
    }

    /// Start the waiting intent, unless a session or a restore is in the way.
    pub fn begin_transition(&mut self, terminal: bool) -> (started: Option<TransitionIntent>)
        ensures
            final(self)@ == old(self)@.after_begin(terminal),
            match (started, old(self)@.startable(terminal)) {
                (Some(intent), Some(expected)) => intent@ == expected,
                (None, None) => true,
                _ => false,
            },
    {
        if terminal || self.has_running_sessions() || self.has_pending_restores() {
            return None;
        }
        match self.transition.take() {
            Some(TransitionPhase::Waiting(intent)) => {
                self.transition = Some(TransitionPhase::Running(intent.source));
                Some(intent)
            },
            other => {
                self.transition = other;
                None
            },
        }
    }

    /// How a leaving manager ends, once nothing it started is left.
    #[must_use]
    pub fn terminal_completion(&self, terminal: bool) -> (completion: Option<ManagerCompletion>)
        ensures
            completion == self@.completion(terminal),
    {
        if terminal && !self.has_running_sessions() && !self.has_pending_restores()
            && self.transition.is_none() {
            if self.task_failed {
                Some(ManagerCompletion::Unexpected)
            } else {
                Some(ManagerCompletion::Graceful)
            }
        } else {
            None
        }
    }

    /// When the manager must look at its slots again.
    #[must_use]
    pub fn deadline(&self, requested: bool, device_io_allowed: bool) -> (deadline: Option<u64>)
        ensures
            self@.wakes_at(requested, device_io_allowed, deadline),
    {
        if requested || !device_io_allowed {
            return None;
        }
        let mut earliest: Option<u64> = None;
        let mut i: usize = 0;
        while i < self.slots.len()
            invariant
                i <= self.slots.len(),
                match earliest {
                    Some(at) => {
                        &&& exists|k: int|
                            0 <= k < i && #[trigger] self@.slots[k].retry_at() == Some(at)
                        &&& forall|k: int|
                            0 <= k < i && (#[trigger] self@.slots[k].retry_at()) is Some ==> at
                                <= self@.slots[k].retry_at()->0
                    },
                    None => forall|k: int|
                        0 <= k < i ==> (#[trigger] self@.slots[k].retry_at()) is None,
                },
            decreases self.slots.len() - i,
        {
            let retry: Option<u64> = match &self.slots[i] {
                HostSwitchSlot::Recovering(recovery) => match recovery.restore {
                    RestorePhase::Ready { retry_at } => Some(retry_at),
                    RestorePhase::Restoring => None,
                },
                HostSwitchSlot::Restarting { retry_at, .. } => Some(*retry_at),
                HostSwitchSlot::Running(_) => None,
            };
            assert(self@.slots[i as int].retry_at() == retry);
            if let Some(at) = retry {
                earliest = match earliest {
                    Some(found) => if at < found {
                        Some(at)
                    } else {
                        Some(found)
                    },
                    None => Some(at),
                };
            }
            i = i + 1;
        }
        earliest
    }

    /// Tell every session that is no longer wanted to stop. The caller signals
    /// the returned generations; their slots stay until the sessions end.
    pub fn stop_sessions(&mut self, wanted: &[HostSwitchLink], terminal: bool) -> (stopped: Vec<
        u64,
    >)
        ensures
            final(self)@ == old(self)@.after_stops(LinkView::each(wanted@), terminal),
            stopped@ == host_switch_model::sessions_to_stop(
                old(self)@.slots,
                LinkView::each(wanted@),
                terminal,
            ),
    {
        let ghost links = LinkView::each(wanted@);
        let ghost start = self@;
        let mut stopped: Vec<u64> = Vec::new();
        let mut i: usize = 0;
        assert(start.slots.take(0) =~= Seq::empty());
        while i < self.slots.len()
            invariant
                i <= self.slots.len(),
                links == LinkView::each(wanted@),
                self.slots.len() == start.slots.len(),
                self@ == (ManagerView { slots: self@.slots, ..start }),
                forall|k: int|
                    0 <= k < i ==> #[trigger] self@.slots[k] == start.after_stops(
                        links,
                        terminal,
                    ).slots[k],
                forall|k: int| i <= k < start.slots.len() ==> #[trigger] self@.slots[k] == start.slots[k],
                stopped@ == host_switch_model::sessions_to_stop(
                    start.slots.take(i as int),
                    links,
                    terminal,
                ),
            decreases self.slots.len() - i,
        {
            let ghost before = self@.slots;
            proof {
                assert(before[i as int] == start.slots[i as int]);
                assert(start.slots.take(i + 1).drop_last() =~= start.slots.take(i as int));
                assert(start.slots.take(i + 1).last() == start.slots[i as int]);
            }
            if let HostSwitchSlot::Running(session) = &mut self.slots[i] {
                if session.phase == SessionPhase::Active && (terminal || !contains_link(
                    wanted,
                    &session.link,
                )) {
                    session.phase = SessionPhase::Draining;
                    stopped.push(session.generation);
                }
            }
            assert(self@.slots =~= before.update(i as int, self@.slots[i as int]));
            i = i + 1;
        }
        assert(start.slots.take(start.slots.len() as int) =~= start.slots);
        assert(self@.slots =~= start.after_stops(links, terminal).slots);
        stopped
    }

    /// How many restore attempts could start now. The caller takes up to that
    /// many leases, stopping at the first refusal, and hands their number to
    /// [`Self::reconcile_recoveries`].
    #[must_use]
    pub fn due_restores(&self, requested: bool, now: u64) -> (due: usize)
        ensures
            due == host_switch_model::restores_due(self@.slots, requested, now as int),
    {
        let mut due: usize = 0;
        let mut i: usize = 0;
        assert(self@.slots.take(0) =~= Seq::empty());
        while i < self.slots.len()
            invariant
                due <= i <= self.slots.len(),
                due == host_switch_model::restores_due(
                    self@.slots.take(i as int),
                    requested,
                    now as int,
                ),
            decreases self.slots.len() - i,
        {
            assert(self@.slots.take(i + 1).drop_last() =~= self@.slots.take(i as int));
            assert(self@.slots[i as int] == self.slots@[i as int]@);
            if let HostSwitchSlot::Recovering(recovery) = &self.slots[i] {
                if let RestorePhase::Ready { retry_at } = recovery.restore {
                    if retry_at <= now && !requested {
                        due = due + 1;
                    }
                }
            }
            i = i + 1;
        }
        assert(self@.slots.take(self@.slots.len() as int) =~= self@.slots);
        due
    }

    fn drop_lapsed_restarts(
        &mut self,
        published: &[HostSwitchLink],
        requested: bool,
        now: u64,
        terminal: bool,
    )
        ensures
            final(self)@ == (ManagerView {
                slots: old(self)@.recovery_slots(
                    LinkView::each(published@),
                    requested,
                    now as int,
                    terminal,
                ),
                ..old(self)@
            }),
    {
        let ghost links = LinkView::each(published@);
        let ghost start = self@;
        let ghost mut done: int = 0;
        let mut i: usize = 0;
        assert(start.slots.take(0) =~= Seq::empty());
        assert(self@.slots =~= Seq::empty() + start.slots.skip(0));
        while i < self.slots.len()
            invariant
                0 <= done <= start.slots.len(),
                links == LinkView::each(published@),
                self@ == (ManagerView { slots: self@.slots, ..start }),
                i == host_switch_model::outliving(
                    start.slots.take(done),
                    links,
                    requested,
                    now as int,
                    terminal,
                ).len(),
                self@.slots == host_switch_model::outliving(
                    start.slots.take(done),
                    links,
                    requested,
                    now as int,
                    terminal,
                ) + start.slots.skip(done),
                i <= self.slots.len(),
            decreases self.slots.len() - i,
        {
            let ghost kept = host_switch_model::outliving(
                start.slots.take(done),
                links,
                requested,
                now as int,
                terminal,
            );
            let ghost before = self@.slots;
            proof {
                assert(start.slots.take(done + 1).drop_last() =~= start.slots.take(done));
                assert(before[i as int] == start.slots[done]);
                assert(before[i as int] == self.slots@[i as int]@);
            }
            let outlives = match &self.slots[i] {
                HostSwitchSlot::Restarting { link, retry_at } => !terminal && contains_link(
                    published,
                    link,
                ) && (*retry_at > now || requested),
                _ => true,
            };
            if outlives {
                proof {
                    assert(kept + start.slots.skip(done) =~= kept.push(start.slots[done])
                        + start.slots.skip(done + 1));
                }
                i = i + 1;
            } else {
                let _lapsed = self.slots.remove(i);
                proof {
                    assert(self@.slots =~= before.remove(i as int));
                    assert(self@.slots =~= kept + start.slots.skip(done + 1));
                }
            }
            proof {
                done = done + 1;
            }
        }
        proof {
            assert(start.slots.skip(done).len() == 0);
            assert(start.slots.take(done) =~= start.slots);
            assert(self@.slots =~= host_switch_model::outliving(
                start.slots,
                links,
                requested,
                now as int,
                terminal,
            ));
        }
    }

    /// Let lapsed restarts go and start the restores that are due, one lease
    /// each. Returns the generations whose restore the caller is to run.
    pub fn reconcile_recoveries(
        &mut self,
        published: &[HostSwitchLink],
        requested: bool,
        granted: usize,
        now: u64,
        terminal: bool,
    ) -> (started: Vec<u64>)
        ensures
            final(self)@ == (ManagerView {
                slots: old(self)@.recovery_pass(
                    LinkView::each(published@),
                    requested,
                    granted as nat,
                    now as int,
                    terminal,
                ).0,
                ..old(self)@
            }),
            started@ == old(self)@.recovery_pass(
                LinkView::each(published@),
                requested,
                granted as nat,
                now as int,
                terminal,
            ).1,
    {
        self.drop_lapsed_restarts(published, requested, now, terminal);
        let ghost links = LinkView::each(published@);
        let ghost start = self@;
        let mut started: Vec<u64> = Vec::new();
        let mut leases: usize = granted;
        let mut i: usize = 0;
        proof {
            let whole = host_switch_model::restores_started(
                start.slots,
                links,
                requested,
                granted as nat,
                now as int,
            );
            assert(start.slots.skip(0) =~= start.slots);
            assert(self@.slots.take(0) + whole.0 =~= whole.0);
            assert(started@ + whole.1 =~= whole.1);
        }
        while i < self.slots.len()
            invariant
                i <= self.slots.len(),
                links == LinkView::each(published@),
                start == (ManagerView {
                    slots: old(self)@.recovery_slots(links, requested, now as int, terminal),
                    ..old(self)@
                }),
                self.slots.len() == start.slots.len(),
                self@ == (ManagerView { slots: self@.slots, ..start }),
                self@.slots.skip(i as int) == start.slots.skip(i as int),
                ({
                    let whole = host_switch_model::restores_started(
                        start.slots,
                        links,
                        requested,
                        granted as nat,
                        now as int,
                    );
                    let rest = host_switch_model::restores_started(
                        start.slots.skip(i as int),
                        links,
                        requested,
                        leases as nat,
                        now as int,
                    );
                    &&& whole.0 == self@.slots.take(i as int) + rest.0
                    &&& whole.1 == started@ + rest.1
                }),
            decreases self.slots.len() - i,
        {
            let ghost before = self@.slots;
            let ghost begun = started@;
            let ghost rest = host_switch_model::restores_started(
                start.slots.skip(i as int),
                links,
                requested,
                leases as nat,
                now as int,
            );
            let ghost head = start.slots[i as int].unwanted_move_dropped(links);
            let ghost tail = start.slots.skip(i + 1);
            proof {
                assert(start.slots.skip(i as int).drop_first() =~= tail);
                assert(start.slots.skip(i as int).first() == start.slots[i as int]);
                assert(before.skip(i as int)[0] == start.slots.skip(i as int)[0]);
                assert(before[i as int] == self.slots@[i as int]@);
            }
            let mut refused = false;
            if let HostSwitchSlot::Recovering(recovery) = &mut self.slots[i] {
                if !contains_link(published, &recovery.link) {
                    recovery.requested_host = None;
                }
                if let RestorePhase::Ready { retry_at } = recovery.restore {
                    if retry_at <= now && !requested {
                        if leases == 0 {
                            refused = true;
                        } else {
                            leases = leases - 1;
                            recovery.restore = RestorePhase::Restoring;
                            started.push(recovery.generation);
                        }
                    }
                }
            }
            proof {
                let slot = self@.slots[i as int];
                assert(self@.slots =~= before.update(i as int, slot));
                assert(self@.slots.skip(i + 1) =~= before.skip(i as int).drop_first());
                assert(before.take(i as int) + (seq![slot] + tail) =~= self@.slots);
                if !refused {
                    let next = host_switch_model::restores_started(
                        tail,
                        links,
                        requested,
                        leases as nat,
                        now as int,
                    );
                    assert(rest.0 == seq![slot] + next.0);
                    assert(before.take(i as int) + (seq![slot] + next.0) =~= self@.slots.take(i + 1)
                        + next.0);
                    if head.restore_due(requested, now as int) {
                        assert(begun + rest.1 =~= started@ + next.1);
                    }
                }
            }
            if refused {
                assert(begun + rest.1 =~= started@);
                return started;
            }
            i = i + 1;
        }
        proof {
            let rest = host_switch_model::restores_started(
                start.slots.skip(i as int),
                links,
                requested,
                leases as nat,
                now as int,
            );
            assert(start.slots.skip(i as int).len() == 0);
            assert(self@.slots.take(i as int) + rest.0 =~= self@.slots);
            assert(started@ + rest.1 =~= started@);
        }
        started
    }

    /// How many sessions are missing. The caller takes up to that many leases,
    /// stopping at the first refusal, and hands their number to
    /// [`Self::spawn_successors`].
    #[must_use]
    pub fn missing_sessions(&self, wanted: &[HostSwitchLink]) -> (missing: usize)
        ensures
            missing == host_switch_model::sessions_missing(self@.slots, LinkView::each(wanted@)),
    {
        let ghost links = LinkView::each(wanted@);
        let mut missing: usize = 0;
        let mut i: usize = 0;
        assert(links.take(0) =~= Seq::empty());
        while i < wanted.len()
            invariant
                missing <= i <= wanted.len(),
                links == LinkView::each(wanted@),
                missing == host_switch_model::sessions_missing(self@.slots, links.take(i as int)),
            decreases wanted.len() - i,
        {
            let keyboard = &wanted[i].keyboard;
            let mut named = false;
            let mut k: usize = 0;
            while k < i && !named
                invariant
                    k <= i < wanted.len(),
                    links == LinkView::each(wanted@),
                    named ==> host_switch_model::keyboard_named(links.take(i as int), keyboard@),
                    !named ==> forall|j: int|
                        0 <= j < k ==> #[trigger] links.take(i as int)[j].keyboard != keyboard@,
                decreases i - k + if named {
                    0int
                } else {
                    1int
                },
            {
                assert(links.take(i as int)[k as int] == wanted@[k as int]@);
                if wanted[k].keyboard.same_as(keyboard) {
                    named = true;
                } else {
                    k = k + 1;
                }
            }
            assert(links.take(i + 1).drop_last() =~= links.take(i as int));
            assert(links.take(i + 1).last().keyboard == keyboard@);
            if !self.owns_keyboard(keyboard) && !named {
                missing = missing + 1;
            }
            i = i + 1;
        }
        assert(links.take(links.len() as int) =~= links);
        missing
    }

    /// Start a session for each wanted link whose keyboard no slot holds, one
    /// lease each. Returns the sessions that the caller is to run.
    pub fn spawn_successors(&mut self, wanted: &[HostSwitchLink], granted: usize) -> (starts: Vec<
        SessionStart,
    >)
        ensures
            final(self)@ == old(self)@.armed(LinkView::each(wanted@), granted as nat).0,
            StartView::each(starts@) == old(self)@.armed(
                LinkView::each(wanted@),
                granted as nat,
            ).1,
    {
        let ghost links = LinkView::each(wanted@);
        let ghost whole = self@.armed(links, granted as nat);
        let mut starts: Vec<SessionStart> = Vec::new();
        let mut leases: usize = granted;
        let mut i: usize = 0;
        proof {
            assert(links.skip(0) =~= links);
            assert(StartView::each(starts@) + whole.1 =~= whole.1);
        }
        while i < wanted.len()
            invariant
                i <= wanted.len(),
                links == LinkView::each(wanted@),
                whole == old(self)@.armed(links, granted as nat),
                whole.0 == self@.armed(links.skip(i as int), leases as nat).0,
                whole.1 == StartView::each(starts@) + self@.armed(
                    links.skip(i as int),
                    leases as nat,
                ).1,
            decreases wanted.len() - i,
        {
            let ghost before = self@;
            let ghost begun = StartView::each(starts@);
            proof {
                assert(links.skip(i as int).drop_first() =~= links.skip(i + 1));
                assert(links.skip(i as int).first() == wanted@[i as int]@);
            }
            let link = &wanted[i];
            if !self.owns_keyboard(&link.keyboard) {
                if leases == 0 {
                    assert(begun + Seq::<StartView>::empty() =~= begun);
                    return starts;
                }
                leases = leases - 1;
                self.next_generation = self.next_generation.wrapping_add(1);
                self.slots.push(
                    HostSwitchSlot::Running(
                        RunningSession {
                            link: link.clone(),
                            generation: self.next_generation,
                            phase: SessionPhase::Active,
                        },
                    ),
                );
                starts.push(
                    SessionStart {
                        generation: self.next_generation,
                        keyboard: link.keyboard.clone(),
                    },
                );
                proof {
                    assert(self@ =~= before.with_session(link@));
                    let start = StartView {
                        generation: self@.next_generation,
                        keyboard: link@.keyboard,
                    };
                    let rest = self@.armed(links.skip(i + 1), leases as nat);
                    assert(StartView::each(starts@) =~= begun.push(start));
                    assert(begun + (seq![start] + rest.1) =~= begun.push(start) + rest.1);
                }
            }
            i = i + 1;
        }
        proof {
            assert(links.skip(i as int).len() == 0);
            assert(StartView::each(starts@) + Seq::<StartView>::empty() =~= StartView::each(starts@));
        }
        starts
    }

    fn position_of_session(&self, generation: u64) -> (position: Option<usize>)
        ensures
            match (position, host_switch_model::running_index(self@.slots, generation)) {
                (Some(i), Some(k)) => i == k && 0 <= k < self@.slots.len() && self@.slots[k] is Running
                    && self@.slots[k].generation() == Some(generation),
                (None, None) => true,
                _ => false,
            },
    {
        let mut found: Option<usize> = None;
        let mut i: usize = 0;
        assert(self@.slots.take(0) =~= Seq::empty());
        while i < self.slots.len()
            invariant
                i <= self.slots.len(),
                match (
                    found,
                    host_switch_model::running_index(self@.slots.take(i as int), generation),
                ) {
                    (Some(a), Some(b)) => a == b && 0 <= b < i && self@.slots[b] is Running
                        && self@.slots[b].generation() == Some(generation),
                    (None, None) => true,
                    _ => false,
                },
            decreases self.slots.len() - i,
        {
            assert(self@.slots.take(i + 1).drop_last() =~= self@.slots.take(i as int));
            assert(self@.slots.take(i + 1).last() == self.slots@[i as int]@);
            if found.is_none() {
                if let HostSwitchSlot::Running(session) = &self.slots[i] {
                    if session.generation == generation {
                        found = Some(i);
                    }
                }
            }
            i = i + 1;
        }
        assert(self@.slots.take(self@.slots.len() as int) =~= self@.slots);
        found
    }

    fn position_of_restore(&self, generation: u64) -> (position: Option<usize>)
        ensures
            match (position, host_switch_model::recovering_index(self@.slots, generation)) {
                (Some(i), Some(k)) => i == k && 0 <= k < self@.slots.len()
                    && self@.slots[k] is Recovering && self@.slots[k].generation() == Some(
                    generation,
                ),
                (None, None) => true,
                _ => false,
            },
    {
        let mut found: Option<usize> = None;
        let mut i: usize = 0;
        assert(self@.slots.take(0) =~= Seq::empty());
        while i < self.slots.len()
            invariant
                i <= self.slots.len(),
                match (
                    found,
                    host_switch_model::recovering_index(self@.slots.take(i as int), generation),
                ) {
                    (Some(a), Some(b)) => a == b && 0 <= b < i && self@.slots[b] is Recovering
                        && self@.slots[b].generation() == Some(generation),
                    (None, None) => true,
                    _ => false,
                },
            decreases self.slots.len() - i,
        {
            assert(self@.slots.take(i + 1).drop_last() =~= self@.slots.take(i as int));
            assert(self@.slots.take(i + 1).last() == self.slots@[i as int]@);
            if found.is_none() {
                if let HostSwitchSlot::Recovering(recovery) = &self.slots[i] {
                    if recovery.generation == generation {
                        found = Some(i);
                    }
                }
            }
            i = i + 1;
        }
        assert(self@.slots.take(self@.slots.len() as int) =~= self@.slots);
        found
    }

    /// Take in how a capture session ended.
    ///
    /// Firmware that is left to restore comes first: the keyboard stays owned
    /// until that is done. Otherwise a key press that still has a published
    /// link becomes the waiting intent, and a failed session of a published
    /// link is started again after a pause.
    pub fn handle_session_completion(
        &mut self,
        completion: SessionCompletion,
        published: &[HostSwitchLink],
        terminal: bool,
        now: u64,
    )
        requires
            retry_fits(now),
        ensures
            final(self)@ == old(self)@.after_session(
                completion.generation,
                completion.result,
                LinkView::each(published@),
                terminal,
                now as int,
            ),
    {
        let ghost start = self@;
        let index: usize = match self.position_of_session(completion.generation) {
            Some(index) => index,
            None => {
                return ;
            },
        };
        let session = match self.slots.remove(index) {
            HostSwitchSlot::Running(session) => session,
            _ => {
                return ;
            },
        };
        assert(self@.slots =~= start.slots.remove(index as int));
        let result = match completion.result {
            Ok(result) => result,
            Err(_) => {
                self.task_failed = true;
                return ;
            },
        };
        let request_is_current = !terminal && contains_link(published, &session.link);
        let requested_host: Option<u8> = if request_is_current {
            result.requested_host
        } else {
            None
        };
        let ghost rest = self@;
        if result.pending_restore {
            self.slots.push(
                HostSwitchSlot::Recovering(
                    Recovery {
                        link: session.link,
                        generation: session.generation,
                        requested_host,
                        restore: RestorePhase::Ready { retry_at: now + RETRY_DELAY },
                    },
                ),
            );
            assert(self@.slots =~= rest.slots.push(self@.slots.last()));
        } else if let Some(host) = requested_host {
            self.transition = Some(
                TransitionPhase::Waiting(
                    TransitionIntent {
                        link: session.link,
                        host,
                        source: TransitionSource::KeyPress,
                    },
                ),
            );
        } else if result.failed && request_is_current {
            self.slots.push(
                HostSwitchSlot::Restarting { link: session.link, retry_at: now + RETRY_DELAY },
            );
            assert(self@.slots =~= rest.slots.push(self@.slots.last()));
        }
    }

    /// Take in how a restore attempt ended.
    pub fn handle_restore_completion(
        &mut self,
        completion: RestoreCompletion,
        published: &[HostSwitchLink],
        terminal: bool,
        now: u64,
    )
        requires
            retry_fits(now),
        ensures
            final(self)@ == old(self)@.after_restore(
                completion.generation,
                completion.result,
                LinkView::each(published@),
                terminal,
                now as int,
            ),
    {
        let ghost start = self@;
        let index: usize = match self.position_of_restore(completion.generation) {
            Some(index) => index,
            None => {
                return ;
            },
        };
        let mut recovery = match self.slots.remove(index) {
            HostSwitchSlot::Recovering(recovery) => recovery,
            _ => {
                return ;
            },
        };
        assert(self@.slots =~= start.slots.remove(index as int));
        let ghost rest = self@;
        match completion.result {
            Ok(HostSwitchRestoreOutcome::RestorePending) => {
                recovery.restore = RestorePhase::Ready { retry_at: now + RETRY_DELAY };
                self.slots.push(HostSwitchSlot::Recovering(recovery));
                assert(self@.slots =~= rest.slots.push(self@.slots.last()));
            },
            Ok(HostSwitchRestoreOutcome::Restored) => {
                if let Some(host) = recovery.requested_host {
                    if !terminal && contains_link(published, &recovery.link) {
                        self.transition = Some(
                            TransitionPhase::Waiting(
                                TransitionIntent {
                                    link: recovery.link,
                                    host,
                                    source: TransitionSource::KeyPress,
                                },
                            ),
                        );
                    }
                }
            },
            Err(_) => {
                self.task_failed = true;
            },
        }
    }

    /// Take in how the running transition landed.
    pub fn handle_transition(&mut self, result: Result<TransitionOutcome, TaskFailed>)
        ensures
            final(self)@ == old(self)@.after_transition(result),
    {
        match self.transition.take() {
            Some(TransitionPhase::Running(source)) => match result {
                Ok(outcome) => {
                    self.record_transition_outcome(source, outcome);
                },
                Err(_) => {
                    self.task_failed = true;
                    self.record_transition_outcome(source, TransitionOutcome::Failed);
                },
            },
            // Only `begin_transition` starts a transition, and it always
            // installs `Running`; anything else means the slot no longer
            // describes this completion, so leave it as it stands.
            other => {
                self.transition = other;
            },
        }
    }

    /// Make every waiting restore due: the devices have just changed.
    pub fn expedite_pending_restores(&mut self, now: u64)
        ensures
            final(self)@ == old(self)@.after_expedite(now),
    {
        let ghost start = self@;
        let mut i: usize = 0;
        while i < self.slots.len()
            invariant
                i <= self.slots.len(),
                self.slots.len() == start.slots.len(),
                self@ == (ManagerView { slots: self@.slots, ..start }),
                forall|k: int| 0 <= k < i ==> #[trigger] self@.slots[k] == start.slots[k].expedited(now),
                forall|k: int|
                    i <= k < start.slots.len() ==> #[trigger] self@.slots[k] == start.slots[k],
            decreases self.slots.len() - i,
        {
            let ghost before = self@.slots;
            assert(before[i as int] == start.slots[i as int]);
            if let HostSwitchSlot::Recovering(recovery) = &mut self.slots[i] {
                if let RestorePhase::Ready { .. } = recovery.restore {
                    recovery.restore = RestorePhase::Ready { retry_at: now };
                }
            }
            assert(self@.slots =~= before.update(i as int, self@.slots[i as int]));
            i = i + 1;
        }
        assert(self@.slots =~= start.after_expedite(now).slots);
    }
}

impl ManagerView {
    /// The state after something the manager started has ended.
    pub open spec fn after_event(
        self,
        event: ManagerEvent,
        published: Seq<LinkView>,
        terminal: bool,
        now: int,
    ) -> ManagerView {
        match event {
            ManagerEvent::Session(completion) => self.after_session(
                completion.generation,
                completion.result,
                published,
                terminal,
                now,
            ),
            ManagerEvent::Restore(completion) => self.after_restore(
                completion.generation,
                completion.result,
                published,
                terminal,
                now,
            ),
            ManagerEvent::Transition(result) => self.after_transition(result),
        }
    }
}

/// Take in that something the manager started has ended.
pub fn handle_manager_event(
    state: &mut HostSwitchManagerState,
    event: ManagerEvent,
    published: &[HostSwitchLink],
    terminal: bool,
    now: u64,
)
    requires
        retry_fits(now),
    ensures
        final(state)@ == old(state)@.after_event(
            event,
            LinkView::each(published@),
            terminal,
            now as int,
        ),
{
    match event {
        ManagerEvent::Session(completion) => {
            state.handle_session_completion(completion, published, terminal, now);
        },
        ManagerEvent::Restore(completion) => {
            state.handle_restore_completion(completion, published, terminal, now);
        },
        ManagerEvent::Transition(result) => {
            state.handle_transition(result);
        },
    }
}

} // verus!
