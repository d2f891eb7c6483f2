//! Move the linked devices to another host when the pointer leaves the desktop.
//!
//! Easy-Switch needs a key press; the watcher reads the pointer instead, so
//! walking off the right edge lands the keyboard and mouse on the machine that
//! sits to the right. The transition itself belongs to the host-switch manager:
//! here it is only decided *when* and *where*.
//!
//! Times are nanoseconds of the monotonic clock.

use crate::config::{Edge, FlowConfig, FlowEdges, HostChannel};
use crate::pointer::Sample;
use vstd::prelude::*;

verus! {

/// Nanoseconds in a millisecond.
pub const MILLISECOND: u64 = 1_000_000;

/// Whether a sample lies on or past an edge of its desktop.
pub open spec fn touches(sample: Sample, edge: Edge) -> bool {
    match edge {
        Edge::Left => sample.x <= sample.bounds.min_x,
        Edge::Right => sample.x >= sample.bounds.max_x,
        Edge::Top => sample.y <= sample.bounds.min_y,
        Edge::Bottom => sample.y >= sample.bounds.max_y,
    }
}

/// Whether a sample touches an edge that leads somewhere.
pub open spec fn in_contact(sample: Sample, edges: FlowEdges, edge: Edge) -> bool {
    edges.leads_somewhere(edge) && touches(sample, edge)
}

/// The edge a sample is touching, restricted to edges that lead somewhere. In
/// a corner the left and right edges come before the top and bottom ones.
pub open spec fn contact_of(sample: Sample, edges: FlowEdges) -> Option<Edge> {
    if in_contact(sample, edges, Edge::Left) {
        Some(Edge::Left)
    } else if in_contact(sample, edges, Edge::Right) {
        Some(Edge::Right)
    } else if in_contact(sample, edges, Edge::Top) {
        Some(Edge::Top)
    } else if in_contact(sample, edges, Edge::Bottom) {
        Some(Edge::Bottom)
    } else {
        None
    }
}

fn touching(sample: Sample, edge: Edge) -> (touching: bool)
    ensures
        touching == touches(sample, edge),
{
    match edge {
        Edge::Left => sample.x <= sample.bounds.min_x,
        Edge::Right => sample.x >= sample.bounds.max_x,
        Edge::Top => sample.y <= sample.bounds.min_y,
        Edge::Bottom => sample.y >= sample.bounds.max_y,
    }
}

/// Which edge `sample` is touching, restricted to edges that lead somewhere.
#[must_use]
pub fn edge_at(sample: Sample, config: &FlowConfig) -> (at: Option<Edge>)
    ensures
        at == contact_of(sample, config.edges),
        at == Some(Edge::Left) ==> sample.x <= sample.bounds.min_x,
        at == Some(Edge::Right) ==> sample.x >= sample.bounds.max_x,
        at == Some(Edge::Top) ==> sample.y <= sample.bounds.min_y,
        at == Some(Edge::Bottom) ==> sample.y >= sample.bounds.max_y,
        at is None && config.edges.left is Some && config.edges.left->0 > 0 ==> sample.x
            > sample.bounds.min_x,
        at is None && config.edges.right is Some && config.edges.right->0 > 0 ==> sample.x
            < sample.bounds.max_x,
        at is None && config.edges.top is Some && config.edges.top->0 > 0 ==> sample.y
            > sample.bounds.min_y,
        at is None && config.edges.bottom is Some && config.edges.bottom->0 > 0 ==> sample.y
            < sample.bounds.max_y,
{
    let all: [Edge; 4] = Edge::ALL;
    let mut index: usize = 0;
    while index < 4
        invariant
            index <= 4,
            all@ == seq![Edge::Left, Edge::Right, Edge::Top, Edge::Bottom],
            forall|i: int| 0 <= i < index ==> !in_contact(sample, config.edges, #[trigger] all@[i]),
        decreases 4 - index,
    {
        let edge: Edge = all[index];
        if config.edges.channel_for(edge).is_some() && touching(sample, edge) {
            assert(forall|i: int| 0 <= i < index ==> #[trigger] all@[i] != edge);
            return Some(edge);
        }
        index = index + 1;
    }
    assert(!in_contact(sample, config.edges, all@[0]));
    assert(!in_contact(sample, config.edges, all@[1]));
    assert(!in_contact(sample, config.edges, all@[2]));
    assert(!in_contact(sample, config.edges, all@[3]));
    None
}

/// The place `back` pixels inward of an edge, level with the sample.
pub open spec fn rebound_place(sample: Sample, edge: Edge, back: int) -> (int, int) {
    match edge {
        Edge::Left => (sample.bounds.min_x + back, sample.y as int),
        Edge::Right => (sample.bounds.max_x - back, sample.y as int),
        Edge::Top => (sample.x as int, sample.bounds.min_y + back),
        Edge::Bottom => (sample.x as int, sample.bounds.max_y - back),
    }
}

/// Whether a place has coordinates an `i32` can hold.
pub open spec fn has_coordinates(place: (int, int)) -> bool {
    &&& i32::MIN <= place.0 <= i32::MAX
    &&& i32::MIN <= place.1 <= i32::MAX
}

/// Whether the place to pull the pointer back to has coordinates an `i32` can
/// hold. On a desktop anywhere near the origin it has.
#[must_use]
pub fn can_rebound(sample: Sample, edge: Edge, config: &FlowConfig) -> (can: bool)
    ensures
        can == has_coordinates(rebound_place(sample, edge, config.rebound_px as int)),
{
    let back: i32 = config.rebound_px as i32;
    match edge {
        Edge::Left => sample.bounds.min_x <= i32::MAX - back,
        Edge::Right => sample.bounds.max_x >= i32::MIN + back,
        Edge::Top => sample.bounds.min_y <= i32::MAX - back,
        Edge::Bottom => sample.bounds.max_y >= i32::MIN + back,
    }
}

/// Where to drop the pointer after a switch, pulled inward off the edge.
#[must_use]
pub fn rebound_to(sample: Sample, edge: Edge, config: &FlowConfig) -> (place: (i32, i32))
    requires
        has_coordinates(rebound_place(sample, edge, config.rebound_px as int)),
    ensures
        (place.0 as int, place.1 as int) == rebound_place(sample, edge, config.rebound_px as int),
{
    let back: i32 = config.rebound_px as i32;
    match edge {
        Edge::Left => (sample.bounds.min_x + back, sample.y),
        Edge::Right => (sample.bounds.max_x - back, sample.y),
        Edge::Top => (sample.x, sample.bounds.min_y + back),
        Edge::Bottom => (sample.x, sample.bounds.max_y - back),
    }
}

/// Dwell and cooldown state machine.
#[derive(Debug, Clone, Copy, PartialEq, Eq)]
pub struct EdgeTracker {
    /// The edge the pointer holds against, and since when.
    pub contact: Option<(Edge, u64)>,
    /// Until when a switch is still settling.
    pub cooldown_until: Option<u64>,
}

impl Default for EdgeTracker {
    fn default() -> (tracker: Self)
        ensures
            tracker == EdgeTracker::idle(),
            tracker.contact is None,
            tracker.cooldown_until is None,
    {
        EdgeTracker { contact: None, cooldown_until: None }
    }
}

/// How long the pointer must hold against an edge, in nanoseconds.
pub open spec fn dwell(config: FlowConfig) -> int {
    config.dwell_ms * MILLISECOND
}

/// How long a switch settles, in nanoseconds.
pub open spec fn cooldown(config: FlowConfig) -> int {
    config.cooldown_ms * MILLISECOND
}

impl EdgeTracker {
    /// A tracker that has seen nothing.
    pub open spec fn idle() -> EdgeTracker {
        EdgeTracker { contact: None, cooldown_until: None }
    }

    /// Whether the last switch is still settling.
    pub open spec fn settling(self, now: u64) -> bool {
        self.cooldown_until matches Some(until) && now < until
    }

    /// Since when the pointer holds against `edge`, if it is observed there
    /// now.
    pub open spec fn held_since(self, edge: Edge, now: u64) -> u64 {
        match self.contact {
            Some((held, since)) => if held == edge {
                since
            } else {
                now
            },
            None => now,
        }
    }

    /// The edge that an observation carries the pointer across, if any.
    pub open spec fn crossing(self, now: u64, at: Option<Edge>, config: FlowConfig) -> Option<
        Edge,
    > {
        match at {
            Some(edge) => {
                let held = now - self.held_since(edge, now);
                let long_enough = held >= dwell(config) || dwell(config) == 0;
                if !self.settling(now) && long_enough && config.edges.leads_somewhere(edge) {
                    Some(edge)
                } else {
                    None
                }
            },
            None => None,
        }
    }

    /// The tracker after an observation.
    pub open spec fn after(self, now: u64, at: Option<Edge>, config: FlowConfig) -> EdgeTracker {
        if self.settling(now) {
            EdgeTracker { contact: None, cooldown_until: self.cooldown_until }
        } else if self.crossing(now, at, config) is Some {
            EdgeTracker {
                contact: None,
                cooldown_until: Some((now + cooldown(config)) as u64),
            }
        } else {
            EdgeTracker {
                contact: match at {
                    Some(edge) => Some((edge, self.held_since(edge, now))),
                    None => None,
                },
                cooldown_until: None,
            }
        }
    }

    /// Feed one observation; yields the edge and host once the dwell completes.
    pub fn observe(&mut self, now: u64, at: Option<Edge>, config: &FlowConfig) -> (crossed: Option<
        (Edge, HostChannel),
    >)
        requires
            now + cooldown(*config) <= u64::MAX,
        ensures
            match crossed {
                Some((edge, host)) => {
                    &&& old(self).crossing(now, at, *config) == Some(edge)
                    &&& config.edges.spec_host_for(edge) == Some(host.number())
                    &&& at == Some(edge)
                    &&& final(self).contact is None
                    &&& final(self).cooldown_until is Some
                    &&& final(self).cooldown_until->0 == now + config.cooldown_ms * 1_000_000
                    &&& config.dwell_ms > 0 ==> {
                        &&& old(self).contact matches Some((held, since))
                        &&& held == edge
                        &&& now - since >= config.dwell_ms * 1_000_000
                    }
                },
                None => old(self).crossing(now, at, *config) is None,
            },
            *final(self) == old(self).after(now, at, *config),
    {
        if let Some(until) = self.cooldown_until {
            if now < until {
                // Still settling from the last switch. Clearing the contact
                // means a pointer parked on the edge owes a full fresh dwell
                // afterwards, rather than firing again the instant the
                // cooldown lapses.
                self.contact = None;
                return None;
            }
        }
        self.cooldown_until = None;

        let edge: Edge = match at {
            Some(edge) => edge,
            None => {
                // Leaving the edge forfeits the dwell; a later contact starts
                // over.
                self.contact = None;
                return None;
            },
        };
        let mut since: u64 = now;
        if let Some((held, from)) = self.contact {
            if held == edge {
                since = from;
            }
        }
        self.contact = Some((edge, since));
        if now.saturating_sub(since) < config.dwell_ms as u64 * MILLISECOND {
            return None;
        }
        let host: HostChannel = match config.edges.channel_for(edge) {
            Some(host) => host,
            None => return None,
        };
        self.contact = None;
        self.cooldown_until = Some(now + config.cooldown_ms as u64 * MILLISECOND);
        Some((edge, host))
    }

    /// Forget any partial dwell, e.g. after the config changed underneath.
    pub fn reset(&mut self)
        ensures
            *final(self) == old(self).forgetful(),
            final(self).contact is None,
            final(self).cooldown_until == old(self).cooldown_until,
    {
        self.contact = None;
    }

    /// The tracker without any partial dwell.
    pub open spec fn forgetful(self) -> EdgeTracker {
        EdgeTracker { contact: None, cooldown_until: self.cooldown_until }
    }
}

} // verus!
