//! What holds of edge crossings whatever the pointer does.

use crate::config::{Edge, FlowConfig, FlowEdges};
use crate::edge_switch;
use crate::edge_switch::EdgeTracker;
use crate::flow;
use crate::pointer::Sample;
use vstd::prelude::*;

verus! {

/// One look at the pointer: when, and which edge it touched.
pub struct Observation {
    pub now: u64,
    pub at: Option<Edge>,
}

/// The tracker after a run of observations.
pub open spec fn after_observations(
    tracker: EdgeTracker,
    observations: Seq<Observation>,
    config: FlowConfig,
) -> EdgeTracker
    decreases observations.len(),
{
    if observations.len() == 0 {
        tracker
    } else {
        let last = observations.last();
        after_observations(tracker, observations.drop_last(), config).after(
            last.now,
            last.at,
            config,
        )
    }
}

/// The edge that the observation at `index` of a run carries the pointer
/// across, if any.
pub open spec fn crossing_at(
    tracker: EdgeTracker,
    observations: Seq<Observation>,
    index: int,
    config: FlowConfig,
) -> Option<Edge> {
    after_observations(tracker, observations.take(index), config).crossing(
        observations[index].now,
        observations[index].at,
        config,
    )
}

/// Whether the times of a run do not go back.
pub open spec fn in_order(observations: Seq<Observation>) -> bool {
    forall|i: int, j: int|
        0 <= i <= j < observations.len() ==> (#[trigger] observations[i]).now <= (
        #[trigger] observations[j]).now
}

/// Only an edge that leads somewhere reports contact.
pub proof fn law_only_configured_edges_report_contact(sample: Sample, edges: FlowEdges)
    ensures
        edge_switch::contact_of(sample, edges) matches Some(edge) ==> {
            &&& edges.leads_somewhere(edge)
            &&& edge_switch::touches(sample, edge)
        },
        edge_switch::contact_of(sample, edges) is None ==> forall|edge: Edge|
            edges.leads_somewhere(edge) ==> !edge_switch::touches(sample, edge),
{
}

/// Whether an edge is given a host. Hosts count from one.
pub open spec fn names_host(host: Option<u8>) -> bool {
    host matches Some(number) && number > 0
}

/// A pointer within its desktop is in contact exactly on a boundary pixel of
/// an edge that is given a host: at the least or greatest coordinate, whichever
/// edge it is. Strictly inside there is no contact.
pub proof fn law_a_pointer_on_the_boundary_is_in_contact(sample: Sample, edges: FlowEdges)
    requires
        sample.bounds.min_x <= sample.x <= sample.bounds.max_x,
        sample.bounds.min_y <= sample.y <= sample.bounds.max_y,
    ensures
        ({
            let at = edge_switch::contact_of(sample, edges);
            let left = sample.x == sample.bounds.min_x;
            let right = sample.x == sample.bounds.max_x;
            let top = sample.y == sample.bounds.min_y;
            let bottom = sample.y == sample.bounds.max_y;
            &&& left && !right && !top && !bottom ==> (at == if names_host(edges.left) {
                Some(Edge::Left)
            } else {
                None
            })
            &&& right && !left && !top && !bottom ==> (at == if names_host(edges.right) {
                Some(Edge::Right)
            } else {
                None
            })
            &&& top && !left && !right && !bottom ==> (at == if names_host(edges.top) {
                Some(Edge::Top)
            } else {
                None
            })
            &&& bottom && !left && !right && !top ==> (at == if names_host(edges.bottom) {
                Some(Edge::Bottom)
            } else {
                None
            })
            &&& !left && !right && !top && !bottom ==> at is None
        }),
{
}

/// Contact, told by the coordinates alone, also off the desktop and in a
/// corner: the sides come before the top and the bottom, and the left before
/// the right.
pub proof fn law_contact_is_told_by_the_coordinates(sample: Sample, edges: FlowEdges)
    ensures
        ({
            let at = edge_switch::contact_of(sample, edges);
            let left = sample.x <= sample.bounds.min_x && names_host(edges.left);
            let right = sample.x >= sample.bounds.max_x && names_host(edges.right);
            let top = sample.y <= sample.bounds.min_y && names_host(edges.top);
            let bottom = sample.y >= sample.bounds.max_y && names_host(edges.bottom);
            &&& at == Some(Edge::Left) <==> left
            &&& at == Some(Edge::Right) <==> right && !left
            &&& at == Some(Edge::Top) <==> top && !left && !right
            &&& at == Some(Edge::Bottom) <==> bottom && !left && !right && !top
            &&& at is None <==> !left && !right && !top && !bottom
        }),
{
}

/// A rebound pulls the pointer straight inward: it lies as many pixels inside
/// the edge as the section says, and has not moved along it.
pub proof fn law_a_rebound_is_straight_inward(sample: Sample, back: int)
    ensures
        edge_switch::rebound_place(sample, Edge::Left, back).0 - sample.bounds.min_x == back,
        edge_switch::rebound_place(sample, Edge::Left, back).1 == sample.y,
        sample.bounds.max_x - edge_switch::rebound_place(sample, Edge::Right, back).0 == back,
        edge_switch::rebound_place(sample, Edge::Right, back).1 == sample.y,
        edge_switch::rebound_place(sample, Edge::Top, back).1 - sample.bounds.min_y == back,
        edge_switch::rebound_place(sample, Edge::Top, back).0 == sample.x,
        sample.bounds.max_y - edge_switch::rebound_place(sample, Edge::Bottom, back).1 == back,
        edge_switch::rebound_place(sample, Edge::Bottom, back).0 == sample.x,
{
}

/// A place has coordinates exactly if both fit 32 bits with a sign.
pub proof fn law_coordinates_take_32_bits(place: (int, int))
    ensures
        edge_switch::has_coordinates(place) <==> -0x8000_0000 <= place.0 < 0x8000_0000
            && -0x8000_0000 <= place.1 < 0x8000_0000,
{
}

/// An unbroken hold of the whole dwell crosses: with no switch settling and
/// nothing crossed meanwhile, a pointer that was seen on an edge with a host at
/// every look since one that lies the section's dwell back has crossed it.
pub proof fn law_a_whole_dwell_crosses(
    tracker: EdgeTracker,
    observations: Seq<Observation>,
    start: int,
    edge: Edge,
    config: FlowConfig,
)
    requires
        tracker.contact is None,
        tracker.cooldown_until is None,
        in_order(observations),
        0 <= start < observations.len(),
        forall|i: int|
            start <= i < observations.len() ==> (#[trigger] observations[i]).at == Some(edge),
        match edge {
            Edge::Left => names_host(config.edges.left),
            Edge::Right => names_host(config.edges.right),
            Edge::Top => names_host(config.edges.top),
            Edge::Bottom => names_host(config.edges.bottom),
        },
        observations.last().now - observations[start].now >= config.dwell_ms * 1_000_000,
        forall|i: int|
            0 <= i < observations.len() - 1 ==> #[trigger] crossing_at(
                tracker,
                observations,
                i,
                config,
            ) is None,
    ensures
        crossing_at(tracker, observations, observations.len() - 1, config) == Some(edge),
{
    let last = (observations.len() - 1) as int;
    lemma_a_hold_is_remembered(tracker, observations, start, last, edge, config);
    assert(observations[start].now <= observations[last].now);
}

proof fn lemma_a_hold_is_remembered(
    tracker: EdgeTracker,
    observations: Seq<Observation>,
    start: int,
    end: int,
    edge: Edge,
    config: FlowConfig,
)
    requires
        tracker.contact is None,
        tracker.cooldown_until is None,
        in_order(observations),
        0 <= start < observations.len(),
        0 <= end <= observations.len(),
        forall|i: int|
            start <= i < observations.len() ==> (#[trigger] observations[i]).at == Some(edge),
        forall|i: int|
            0 <= i < end ==> #[trigger] crossing_at(tracker, observations, i, config) is None,
    ensures
        ({
            let now = after_observations(tracker, observations.take(end), config);
            &&& now.cooldown_until is None
            &&& end > start ==> {
                &&& now.contact matches Some((held, since))
                &&& held == edge
                &&& since <= observations[start].now
            }
        }),
    decreases end,
{
    if end > 0 {
        let whole = observations.take(end);
        assert(whole.drop_last() =~= observations.take(end - 1));
        lemma_a_hold_is_remembered(tracker, observations, start, end - 1, edge, config);
        assert(whole.last() == observations[end - 1]);
        assert(crossing_at(tracker, observations, end - 1, config) is None);
        let before = after_observations(tracker, observations.take(end - 1), config);
        assert(after_observations(tracker, whole, config) == before.after(
            observations[end - 1].now,
            observations[end - 1].at,
            config,
        ));
        if end - 1 == start {
            lemma_contact_is_not_ahead(tracker, observations, end - 1, config);
        }
    }
}

/// A contact was never noted later than the last look.
proof fn lemma_contact_is_not_ahead(
    tracker: EdgeTracker,
    observations: Seq<Observation>,
    end: int,
    config: FlowConfig,
)
    requires
        tracker.contact is None,
        in_order(observations),
        0 <= end < observations.len(),
    ensures
        after_observations(tracker, observations.take(end), config).contact matches Some((_, since))
            ==> since <= observations[end].now,
{
    let whole = observations.take(end);
    lemma_contact_is_held(tracker, whole, config);
    if let Some((edge, since)) = after_observations(tracker, whole, config).contact {
        let start = choose|start: int|
            #![trigger whole[start]]
            0 <= start < whole.len() && held_from(whole, start, edge) && whole[start].now == since;
        assert(observations[start].now <= observations[end].now);
    }
}

/// A crossing starts the cooldown of the section and forgets the contact.
/// Until the cooldown is over nothing crosses; from then on a look at an edge
/// is where its dwell starts.
pub proof fn law_a_cooldown_lasts_as_long_as_the_section_says(
    tracker: EdgeTracker,
    crossed_at: u64,
    at: Option<Edge>,
    later: u64,
    seen: Edge,
    config: FlowConfig,
)
    requires
        tracker.crossing(crossed_at, at, config) is Some,
        crossed_at + config.cooldown_ms * 1_000_000 <= u64::MAX,
    ensures
        ({
            let after = tracker.after(crossed_at, at, config);
            let over = crossed_at + config.cooldown_ms * 1_000_000;
            &&& after.contact is None
            &&& after.cooldown_until == Some(over as u64)
            &&& later < over ==> {
                &&& after.crossing(later, Some(seen), config) is None
                &&& after.after(later, Some(seen), config) == after
            }
            &&& later >= over && config.dwell_ms > 0 ==> {
                &&& after.crossing(later, Some(seen), config) is None
                &&& after.after(later, Some(seen), config).contact == Some((seen, later))
                &&& after.after(later, Some(seen), config).cooldown_until is None
            }
        }),
{
}

/// Looking away from every edge forgets the contact; so does a reset, which
/// leaves a settling switch alone.
pub proof fn law_leaving_the_edge_forgets_the_contact(
    tracker: EdgeTracker,
    now: u64,
    config: FlowConfig,
)
    ensures
        tracker.after(now, None, config).contact is None,
        tracker.crossing(now, None, config) is None,
        tracker.forgetful().contact is None,
        tracker.forgetful().cooldown_until == tracker.cooldown_until,
{
}

/// While a switch settles nothing crosses, and what the pointer holds against
/// meanwhile does not count.
pub proof fn law_nothing_crosses_while_a_switch_settles(
    tracker: EdgeTracker,
    now: u64,
    at: Option<Edge>,
    config: FlowConfig,
)
    requires
        tracker.settling(now),
    ensures
        tracker.crossing(now, at, config) is None,
        tracker.after(now, at, config).contact is None,
        tracker.after(now, at, config).cooldown_until == tracker.cooldown_until,
{
}

/// A pointer pulled back off an edge no longer touches it.
pub proof fn law_a_rebound_leaves_the_edge(sample: Sample, edge: Edge, back: int, after: Sample)
    requires
        back > 0,
        (after.x as int, after.y as int) == edge_switch::rebound_place(sample, edge, back),
        after.bounds == sample.bounds,
    ensures
        !edge_switch::touches(after, edge),
{
}

/// An arrival does not read as a departure: a pointer that lands with an inset
/// touches neither the edge it enters through nor the one across from it, on
/// any desktop with a pixel between the two.
pub proof fn law_an_arrival_is_no_departure(
    left_through: Edge,
    units: nat,
    inset: int,
    landed: Sample,
)
    requires
        inset > 0,
        (landed.x as int, landed.y as int) == flow::landing_place(
            left_through,
            units,
            landed.bounds.spec_corners(),
            inset,
        ),
        left_through is Left || left_through is Right ==> landed.bounds.max_x
            - landed.bounds.min_x >= 2,
        left_through is Top || left_through is Bottom ==> landed.bounds.max_y
            - landed.bounds.min_y >= 2,
    ensures
        !edge_switch::touches(landed, flow::facing(left_through)),
        !edge_switch::touches(landed, left_through),
{
}

/// A crossing is earned: the pointer was seen on that edge, without a look in
/// between that saw it elsewhere, for the whole dwell. Leaving the edge or
/// moving to another one starts the dwell over.
pub proof fn law_a_crossing_takes_a_whole_dwell(
    tracker: EdgeTracker,
    observations: Seq<Observation>,
    config: FlowConfig,
)
    requires
        tracker.contact is None,
        in_order(observations),
        observations.len() > 0,
    ensures
        crossing_at(tracker, observations, observations.len() - 1, config) matches Some(edge)
            ==> exists|start: int|
            #![trigger observations[start]]
            0 <= start < observations.len() && held_from(observations, start, edge)
                && observations.last().now - observations[start].now >= config.dwell_ms * 1_000_000,
{
    let last = (observations.len() - 1) as int;
    let front = observations.take(last);
    assert(front =~= observations.drop_last());
    let before = after_observations(tracker, front, config);
    match crossing_at(tracker, observations, last, config) {
        Some(edge) => {
            lemma_contact_is_held(tracker, front, config);
            match before.contact {
                Some((held, since)) => {
                    if held == edge {
                        let start = choose|start: int|
                            #![trigger front[start]]
                            0 <= start < front.len() && held_from(front, start, held)
                                && front[start].now == since;
                        assert(observations[start].now == since);
                        assert forall|i: int| start <= i < observations.len() implies (
                        #[trigger] observations[i]).at == Some(edge) by {
                            if i < last {
                                assert(front[i].at == Some(edge));
                            }
                        }
                        assert(held_from(observations, start, edge));
                        assert(observations[start].now <= observations[last].now);
                    } else {
                        assert(held_from(observations, last, edge));
                    }
                },
                None => {
                    assert(held_from(observations, last, edge));
                },
            }
        },
        None => {},
    }
}

/// Whether every observation from `start` on saw the pointer on `edge`.
pub open spec fn held_from(observations: Seq<Observation>, start: int, edge: Edge) -> bool {
    forall|i: int|
        start <= i < observations.len() ==> (#[trigger] observations[i]).at == Some(edge)
}

proof fn lemma_contact_is_held(
    tracker: EdgeTracker,
    observations: Seq<Observation>,
    config: FlowConfig,
)
    requires
        tracker.contact is None,
    ensures
        after_observations(tracker, observations, config).contact matches Some((edge, since))
            ==> exists|start: int|
            #![trigger observations[start]]
            0 <= start < observations.len() && held_from(observations, start, edge)
                && observations[start].now == since,
    decreases observations.len(),
{
    if observations.len() > 0 {
        let front = observations.drop_last();
        let last = (observations.len() - 1) as int;
        lemma_contact_is_held(tracker, front, config);
        let before = after_observations(tracker, front, config);
        match after_observations(tracker, observations, config).contact {
            Some((edge, since)) => {
                assert(observations[last].at == Some(edge));
                let continued = match before.contact {
                    Some((held, from)) => held == edge,
                    None => false,
                };
                if continued {
                    let start = choose|start: int|
                        #![trigger front[start]]
                        0 <= start < front.len() && held_from(front, start, edge)
                            && front[start].now == since;
                    assert(observations[start].now == since);
                    assert forall|i: int| start <= i < observations.len() implies (
                    #[trigger] observations[i]).at == Some(edge) by {
                        if i < last {
                            assert(front[i].at == Some(edge));
                        }
                    }
                    assert(held_from(observations, start, edge));
                } else {
                    assert(held_from(observations, last, edge));
                }
            },
            None => {},
        }
    }
}

/// After a crossing the next one is at least a cooldown and a whole fresh
/// dwell away, though the pointer is held against the edge throughout.
pub proof fn law_the_next_crossing_waits_out_cooldown_and_dwell(
    tracker: EdgeTracker,
    crossed_at: u64,
    at: Option<Edge>,
    observations: Seq<Observation>,
    config: FlowConfig,
)
    requires
        tracker.crossing(crossed_at, at, config) is Some,
        crossed_at + config.cooldown_ms * 1_000_000 <= u64::MAX,
        in_order(observations),
        observations.len() > 0,
        forall|i: int|
            0 <= i < observations.len() - 1 ==> crossing_at(
                tracker.after(crossed_at, at, config),
                observations,
                i,
                config,
            ) is None,
        crossing_at(
            tracker.after(crossed_at, at, config),
            observations,
            observations.len() - 1,
            config,
        ) is Some,
    ensures
        observations.last().now >= crossed_at + (config.cooldown_ms + config.dwell_ms) * 1_000_000,
{
    let start = tracker.after(crossed_at, at, config);
    let until = (crossed_at + edge_switch::cooldown(config)) as u64;
    let last = (observations.len() - 1) as int;
    let front = observations.take(last);
    assert(front =~= observations.drop_last());
    assert forall|i: int| 0 <= i < front.len() implies #[trigger] crossing_at(
        start,
        front,
        i,
        config,
    ) is None by {
        assert(front.take(i) =~= observations.take(i));
        assert(crossing_at(start, observations, i, config) is None);
    }
    lemma_cooldown_is_waited_out(start, front, until, config);
    let before = after_observations(start, front, config);
    if before.cooldown_until is None && before.contact is None {
        assert(front.last().now <= observations[last].now) by {
            assert(front[front.len() - 1] == observations[front.len() - 1]);
        }
    }
}

proof fn lemma_cooldown_is_waited_out(
    start: EdgeTracker,
    observations: Seq<Observation>,
    until: u64,
    config: FlowConfig,
)
    requires
        start == (EdgeTracker { contact: None, cooldown_until: Some(until) }),
        in_order(observations),
        forall|i: int|
            0 <= i < observations.len() ==> #[trigger] crossing_at(start, observations, i, config)
                is None,
    ensures
        ({
            let now = after_observations(start, observations, config);
            &&& now.cooldown_until == Some(until) ==> now.contact is None
            &&& now.cooldown_until is None ==> {
                &&& observations.len() > 0
                &&& observations.last().now >= until
                &&& now.contact matches Some((edge, since)) ==> {
                    &&& until <= since <= observations.last().now
                    &&& edge_switch::dwell(config) > 0 || !config.edges.leads_somewhere(edge)
                }
            }
            &&& now.cooldown_until is Some ==> now.cooldown_until == Some(until)
        }),
    decreases observations.len(),
{
    if observations.len() > 0 {
        let front = observations.drop_last();
        let last = (observations.len() - 1) as int;
        assert(front =~= observations.take(last));
        assert forall|i: int| 0 <= i < front.len() implies #[trigger] crossing_at(
            start,
            front,
            i,
            config,
        ) is None by {
            assert(front.take(i) =~= observations.take(i));
            assert(crossing_at(start, observations, i, config) is None);
        }
        assert forall|i: int, j: int| 0 <= i <= j < front.len() implies (#[trigger] front[i]).now
            <= (#[trigger] front[j]).now by {
            assert(observations[i].now <= observations[j].now);
        }
        lemma_cooldown_is_waited_out(start, front, until, config);
        assert(crossing_at(start, observations, last, config) is None);
        if front.len() > 0 {
            assert(observations[front.len() - 1].now <= observations[last].now);
        }
    }
}

} // verus!
