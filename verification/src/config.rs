//! Pointer-driven host switching: which host lies past each screen edge.
//!
//! Easy-Switch moves the devices when a *key* is pressed. Flow moves them when
//! the pointer leaves the desktop, so the host change follows the direction the
//! user was already heading.

use vstd::prelude::*;

verus! {

/// One edge of the desktop's bounding box.
#[derive(Debug, Clone, Copy, PartialEq, Eq, Hash, Structural)]
pub enum Edge {
    /// Minimum x.
    Left,
    /// Maximum x.
    Right,
    /// Minimum y.
    Top,
    /// Maximum y.
    Bottom,
}

/// The edge a wire byte names, if it names one.
pub open spec fn edge_of_code(code: u8) -> Option<Edge> {
    if code == 0 {
        Some(Edge::Left)
    } else if code == 1 {
        Some(Edge::Right)
    } else if code == 2 {
        Some(Edge::Top)
    } else if code == 3 {
        Some(Edge::Bottom)
    } else {
        None
    }
}

impl Edge {
    /// Every edge, in the order the watcher tests them.
    pub const ALL: [Edge; 4] = [Edge::Left, Edge::Right, Edge::Top, Edge::Bottom];

    /// The byte this edge travels as.
    pub open spec fn spec_code(self) -> u8 {
        match self {
            Edge::Left => 0,
            Edge::Right => 1,
            Edge::Top => 2,
            Edge::Bottom => 3,
        }
    }

    /// The byte this edge travels as.
    #[must_use]
    pub fn code(self) -> (code: u8)
        ensures
            code == self.spec_code(),
            edge_of_code(code) == Some(self),
            code == 0 <==> self == Edge::Left,
            code == 1 <==> self == Edge::Right,
            code == 2 <==> self == Edge::Top,
            code == 3 <==> self == Edge::Bottom,
    {
        match self {
            Edge::Left => 0,
            Edge::Right => 1,
            Edge::Top => 2,
            Edge::Bottom => 3,
        }
    }

    /// The edge a wire byte names, if this build knows it.
    #[must_use]
    pub fn from_code(code: u8) -> (edge: Option<Edge>)
        ensures
            edge == edge_of_code(code),
            edge is Some ==> edge->0.spec_code() == code,
            edge == Some(Edge::Left) <==> code == 0,
            edge == Some(Edge::Right) <==> code == 1,
            edge == Some(Edge::Top) <==> code == 2,
            edge == Some(Edge::Bottom) <==> code == 3,
            edge is None <==> code > 3,
    {
        match code {
            0 => Some(Edge::Left),
            1 => Some(Edge::Right),
            2 => Some(Edge::Top),
            3 => Some(Edge::Bottom),
            _ => None,
        }
    }
}

/// A host by its 1-based Easy-Switch channel, the number printed on the device.
#[derive(Debug, Clone, Copy, PartialEq, Eq, Structural)]
pub struct HostChannel {
    number: u8,
}

impl HostChannel {
    /// The 1-based channel number.
    pub closed spec fn number(self) -> u8 {
        self.number
    }

    #[verifier::type_invariant]
    spec fn counts_from_one(self) -> bool {
        self.number >= 1
    }

    /// A channel, unless `number` is zero: channels count from one.
    #[must_use]
    pub fn new(number: u8) -> (channel: Option<HostChannel>)
        ensures
            channel is Some <==> number != 0,
            channel is Some ==> channel->0.number() == number,
    {
        if number == 0 {
            None
        } else {
            Some(HostChannel { number })
        }
    }

    /// The 1-based channel printed on the device.
    #[must_use]
    pub fn channel(self) -> (number: u8)
        ensures
            number == self.number(),
            number >= 1,
    {
        proof {
            use_type_invariant(&self);
        }
        self.number
    }

    /// The 0-based slot index of the same host.
    #[must_use]
    pub fn index(self) -> (index: u8)
        ensures
            index == self.number() - 1,
    {
        proof {
            use_type_invariant(&self);
        }
        self.number - 1
    }
}

/// The host each edge leads to.
///
/// Values are 1-based Easy-Switch channels, matching the numbers printed on the
/// devices. An edge left unset never triggers a switch, which is what makes a
/// two-machine left/right setup expressible without naming the other two edges.
#[derive(Debug, Clone, Copy, PartialEq, Eq)]
pub struct FlowEdges {
    /// Host reached by leaving through the left edge.
    pub left: Option<u8>,
    /// Host reached by leaving through the right edge.
    pub right: Option<u8>,
    /// Host reached by leaving through the top edge.
    pub top: Option<u8>,
    /// Host reached by leaving through the bottom edge.
    pub bottom: Option<u8>,
}

impl Default for FlowEdges {
    fn default() -> (edges: Self)
        ensures
            edges == FlowEdges::unset(),
            edges.left is None && edges.right is None && edges.top is None && edges.bottom is None,
    {
        FlowEdges { left: None, right: None, top: None, bottom: None }
    }
}

impl FlowEdges {
    /// No edge is set.
    pub open spec fn unset() -> FlowEdges {
        FlowEdges { left: None, right: None, top: None, bottom: None }
    }

    /// The configured value of one edge.
    pub open spec fn spec_host_for(self, edge: Edge) -> Option<u8> {
        match edge {
            Edge::Left => self.left,
            Edge::Right => self.right,
            Edge::Top => self.top,
            Edge::Bottom => self.bottom,
        }
    }

    /// Whether an edge names a channel, and so leads to a host.
    pub open spec fn leads_somewhere(self, edge: Edge) -> bool {
        self.spec_host_for(edge) matches Some(number) && number != 0
    }

    /// The host configured for `edge`, if any.
    #[must_use]
    pub fn host_for(self, edge: Edge) -> (host: Option<u8>)
        ensures
            host == self.spec_host_for(edge),
            edge == Edge::Left ==> host == self.left,
            edge == Edge::Right ==> host == self.right,
            edge == Edge::Top ==> host == self.top,
            edge == Edge::Bottom ==> host == self.bottom,
    {
        match edge {
            Edge::Left => self.left,
            Edge::Right => self.right,
            Edge::Top => self.top,
            Edge::Bottom => self.bottom,
        }
    }

    /// The host configured for `edge` as a channel. No device prints a channel
    /// zero, so an edge set to zero leads nowhere.
    #[must_use]
    pub fn channel_for(self, edge: Edge) -> (channel: Option<HostChannel>)
        ensures
            channel is Some <==> self.leads_somewhere(edge),
            channel is Some ==> Some(channel->0.number()) == self.spec_host_for(edge),
    {
        match self.host_for(edge) {
            Some(number) => HostChannel::new(number),
            None => None,
        }
    }

    /// Whether no edge is set.
    #[must_use]
    pub fn is_empty(&self) -> (empty: bool)
        ensures
            empty == (*self == FlowEdges::unset()),
            empty <==> self.left is None && self.right is None && self.top is None && self.bottom
                is None,
    {
        self.left.is_none() && self.right.is_none() && self.top.is_none() && self.bottom.is_none()
    }
}

/// A span of time between two pointer reads.
#[derive(Debug, Clone, Copy, PartialEq, Eq, Structural)]
pub struct PollInterval {
    /// Whole microseconds.
    pub micros: u64,
}

impl PollInterval {
    /// The interval in whole microseconds.
    #[must_use]
    pub fn as_micros(self) -> (micros: u64)
        ensures
            micros == self.micros,
    {
        self.micros
    }
}

/// Pointer-driven host switching.
///
/// Disabled by default: an edge that silently moves the keyboard to another
/// machine is hostile to a user who never asked for it.
#[derive(Debug, Clone, Copy, PartialEq, Eq)]
pub struct FlowConfig {
    /// Master switch for the edge watcher.
    pub enabled: bool,
    /// Which host each edge leads to.
    pub edges: FlowEdges,
    /// How long the pointer must hold against an edge before it counts.
    /// Guards against overshooting a maximize button on the far monitor.
    pub dwell_ms: u16,
    /// How far to pull the pointer back after switching, so the next frame does
    /// not read as a fresh edge contact.
    pub rebound_px: u16,
    /// Dead time after a switch. Covers the device reconnect, which is hundreds
    /// of milliseconds on Bluetooth and during which a second trigger is noise.
    pub cooldown_ms: u16,
    /// Pointer sampling rate.
    pub poll_hz: u16,
}

impl Default for FlowConfig {
    fn default() -> (config: Self)
        ensures
            config == FlowConfig::factory(),
            !config.enabled,
            config.edges.left is None && config.edges.right is None,
            config.edges.top is None && config.edges.bottom is None,
            config.dwell_ms == 120,
            config.rebound_px == 8,
            config.cooldown_ms == 1500,
            config.poll_hz == 60,
    {
        FlowConfig {
            enabled: false,
            edges: FlowEdges::default(),
            dwell_ms: 120,
            rebound_px: 8,
            cooldown_ms: 1500,
            poll_hz: 60,
        }
    }
}

impl FlowConfig {
    /// The section as it stands before anyone edits it.
    pub open spec fn factory() -> FlowConfig {
        FlowConfig {
            enabled: false,
            edges: FlowEdges::unset(),
            dwell_ms: 120,
            rebound_px: 8,
            cooldown_ms: 1500,
            poll_hz: 60,
        }
    }

    /// The sampling rate that is used: at least one and at most 240 reads a
    /// second, whatever the section says.
    pub open spec fn effective_hz(self) -> int {
        if self.poll_hz < 1 {
            1
        } else if self.poll_hz > 240 {
            240
        } else {
            self.poll_hz as int
        }
    }

    /// Whether every field still holds its default, so the section can be left
    /// out of the written file.
    #[must_use]
    pub fn is_default(&self) -> (default: bool)
        ensures
            default == (*self == FlowConfig::factory()),
    {
        !self.enabled && self.edges.is_empty() && self.dwell_ms == 120 && self.rebound_px == 8
            && self.cooldown_ms == 1500 && self.poll_hz == 60
    }

    /// Whether the watcher has anything to do.
    #[must_use]
    pub fn is_active(&self) -> (active: bool)
        ensures
            active == (self.enabled && self.edges != FlowEdges::unset()),
            active <==> self.enabled && (self.edges.left is Some || self.edges.right is Some
                || self.edges.top is Some || self.edges.bottom is Some),
    {
        self.enabled && !self.edges.is_empty()
    }

    /// Sampling interval, clamped so a zero or absurd `poll_hz` cannot spin the
    /// watcher thread.
    #[must_use]
    pub fn poll_interval(&self) -> (interval: PollInterval)
        ensures
            interval.micros == 1_000_000int / self.effective_hz(),
            4_166 <= interval.micros <= 1_000_000,
            self.poll_hz == 0 ==> interval.micros == 1_000_000,
            1 <= self.poll_hz <= 240 ==> interval.micros == 1_000_000int / (self.poll_hz as int),
            self.poll_hz > 240 ==> interval.micros == 4_166,
    {
        let hz: u16 = if self.poll_hz < 1 {
            1
        } else if self.poll_hz > 240 {
            240
        } else {
            self.poll_hz
        };
        let micros: u64 = 1_000_000 / (hz as u64);
        assert(4_166 <= micros <= 1_000_000) by (nonlinear_arith)
            requires
                1 <= hz <= 240,
                micros == 1_000_000u64 / (hz as u64),
        ;
        PollInterval { micros }
    }
}

/// Each edge leads to the host of its own field, and to none where that is
/// unset or zero.
pub proof fn law_each_edge_leads_to_its_own_host(edges: FlowEdges)
    ensures
        edges.spec_host_for(Edge::Left) == edges.left,
        edges.spec_host_for(Edge::Right) == edges.right,
        edges.spec_host_for(Edge::Top) == edges.top,
        edges.spec_host_for(Edge::Bottom) == edges.bottom,
        edges.leads_somewhere(Edge::Left) <==> edges.left is Some && edges.left->0 > 0,
        edges.leads_somewhere(Edge::Right) <==> edges.right is Some && edges.right->0 > 0,
        edges.leads_somewhere(Edge::Top) <==> edges.top is Some && edges.top->0 > 0,
        edges.leads_somewhere(Edge::Bottom) <==> edges.bottom is Some && edges.bottom->0 > 0,
{
}

/// Every edge travels as a byte of its own, and no other byte names an edge.
pub proof fn law_an_edge_is_named_by_its_byte(edge: Edge, code: u8)
    ensures
        edge_of_code(code) == Some(edge) <==> code == edge.spec_code(),
        edge_of_code(code) is Some <==> code < 4,
        Edge::Left.spec_code() == 0,
        Edge::Right.spec_code() == 1,
        Edge::Top.spec_code() == 2,
        Edge::Bottom.spec_code() == 3,
{
}

/// Nothing is switched before anyone asks for it: the section starts disabled,
/// with no edge set.
pub proof fn law_switching_is_off_until_asked_for()
    ensures
        !FlowConfig::factory().enabled,
        forall|edge: Edge| FlowConfig::factory().edges.spec_host_for(edge) is None,
        FlowConfig::factory().edges == FlowEdges::unset(),
{
}

} // verus!
