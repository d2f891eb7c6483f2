//! The decisions of the pointer-edge watcher between its reads.
//!
//! The watcher parks while the section asks for nothing, opens a pointer when
//! it has none, and otherwise reads the pointer once per poll interval. It
//! performs each step it is told and comes back with what happened.

use crate::config::{FlowConfig, FlowEdges, HostChannel, Edge};
use crate::edge_switch;
use crate::edge_switch::EdgeTracker;
use crate::pointer::Sample;
use vstd::prelude::*;

verus! {

/// What the watcher does next.
#[derive(Debug, Clone, Copy, PartialEq, Eq, Structural)]
pub enum WatchStep {
    /// Wait until the section changes, then begin again.
    Park,
    /// Open the pointer and report whether that worked.
    Connect,
    /// Read the pointer and report what came of it.
    Read,
}

/// A pointer that crossed an edge.
#[derive(Debug, Clone, Copy, PartialEq, Eq)]
pub struct Crossing {
    /// The edge it crossed.
    pub edge: Edge,
    /// The host past that edge, which is asked for.
    pub host: HostChannel,
    /// Where to pull the pointer back to.
    pub rebound: (i32, i32),
}

/// The watcher between two steps.
#[derive(Debug, Clone, Copy, PartialEq, Eq)]
pub struct EdgeWatcher {
    /// Whether a pointer is open.
    pub connected: bool,
    /// Dwell and cooldown.
    pub tracker: EdgeTracker,
}

impl EdgeWatcher {
    /// A watcher that has done nothing yet.
    #[must_use]
    pub fn new() -> (watcher: Self)
        ensures
            watcher == (EdgeWatcher { connected: false, tracker: EdgeTracker::idle() }),
    {
        EdgeWatcher { connected: false, tracker: EdgeTracker::default() }
    }

    /// A watcher that lost its pointer and any partial dwell.
    pub open spec fn disconnected(self) -> EdgeWatcher {
        EdgeWatcher { connected: false, tracker: self.tracker.forgetful() }
    }

    /// Begin a turn with the section as it is now.
    pub fn begin(&mut self, config: &FlowConfig) -> (step: WatchStep)
        ensures
            ({
                let active = config.enabled && config.edges != FlowEdges::unset();
                &&& step == if !active {
                    WatchStep::Park
                } else if !old(self).connected {
                    WatchStep::Connect
                } else {
                    WatchStep::Read
                }
                &&& *final(self) == if active {
                    *old(self)
                } else {
                    old(self).disconnected()
                }
                &&& !active ==> {
                    &&& !final(self).connected
                    &&& final(self).tracker.contact is None
                    &&& final(self).tracker.cooldown_until == old(self).tracker.cooldown_until
                }
            }),
    {
        if !config.is_active() {
            self.connected = false;
            self.tracker.reset();
            return WatchStep::Park;
        }
        if !self.connected {
            return WatchStep::Connect;
        }
        WatchStep::Read
    }

    /// Take note of whether the pointer could be opened. One that could not
    /// leaves edge switching off until the section changes.
    pub fn on_connect(&mut self, opened: bool) -> (step: WatchStep)
        ensures
            step == if opened {
                WatchStep::Read
            } else {
                WatchStep::Park
            },
            *final(self) == (EdgeWatcher {
                connected: old(self).connected || opened,
                tracker: old(self).tracker,
            }),
    {
        if opened {
            self.connected = true;
            WatchStep::Read
        } else {
            WatchStep::Park
        }
    }

    /// Take note of one read. A failed one drops the pointer, to be opened
    /// again on the next turn.
    pub fn on_read(&mut self, read: Option<Sample>, now: u64, config: &FlowConfig) -> (crossed:
        Option<Crossing>)
        requires
            now + edge_switch::cooldown(*config) <= u64::MAX,
            read matches Some(sample) ==> (old(self).tracker.crossing(
                now,
                edge_switch::contact_of(sample, config.edges),
                *config,
            ) matches Some(edge) ==> edge_switch::has_coordinates(
                edge_switch::rebound_place(sample, edge, config.rebound_px as int),
            )),
        ensures
            match read {
                Some(sample) => {
                    let at = edge_switch::contact_of(sample, config.edges);
                    &&& final(self).connected == old(self).connected
                    &&& final(self).tracker == old(self).tracker.after(now, at, *config)
                    &&& match crossed {
                        Some(crossing) => {
                            &&& old(self).tracker.crossing(now, at, *config) == Some(crossing.edge)
                            &&& config.edges.spec_host_for(crossing.edge) == Some(
                                crossing.host.number(),
                            )
                            &&& (crossing.rebound.0 as int, crossing.rebound.1 as int)
                                == edge_switch::rebound_place(
                                sample,
                                crossing.edge,
                                config.rebound_px as int,
                            )
                        },
                        None => old(self).tracker.crossing(now, at, *config) is None,
                    }
                },
                None => {
                    &&& *final(self) == old(self).disconnected()
                    &&& crossed is None
                    &&& !final(self).connected
                    &&& final(self).tracker.contact is None
                    &&& final(self).tracker.cooldown_until == old(self).tracker.cooldown_until
                },
            },
    {
        match read {
            Some(sample) => {
                let at: Option<Edge> = edge_switch::edge_at(sample, config);
                match self.tracker.observe(now, at, config) {
                    Some((edge, host)) => Some(
                        Crossing {
                            edge,
                            host,
                            rebound: edge_switch::rebound_to(sample, edge, config),
                        },
                    ),
                    None => None,
                }
            },
            None => {
                self.connected = false;
                self.tracker.reset();
                None
            },
        }
    }
}

impl Default for EdgeWatcher {
    fn default() -> (watcher: Self)
        ensures
            watcher == (EdgeWatcher { connected: false, tracker: EdgeTracker::idle() }),
    {
        EdgeWatcher::new()
    }
}

} // verus!
