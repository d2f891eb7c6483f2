//! Peer handoff for pointer-edge host switching.
//!
//! Switching the devices to another host costs a radio reconnect that nothing
//! in software can shorten. What a peer link buys is not speed but *cover*:
//! the arriving host places its own pointer where the pointer left, over the
//! LAN, while the radio is still catching up. The user sees the cursor land
//! immediately and has usually not moved the mouse again by the time input
//! actually arrives.
//!
//! Here stand the message and the geometry. How it is signed, laid out and
//! acted on stands in the modules beside this one.

use crate::config::Edge;
use crate::fraction;
use crate::fraction::EdgeFraction;
use crate::fraction_laws;
use crate::single;
use vstd::arithmetic::power2;
use vstd::prelude::*;

verus! {

/// The edge facing `edge`.
pub open spec fn facing(edge: Edge) -> Edge {
    match edge {
        Edge::Left => Edge::Right,
        Edge::Right => Edge::Left,
        Edge::Top => Edge::Bottom,
        Edge::Bottom => Edge::Top,
    }
}

/// The edge the pointer enters through on the arriving host.
///
/// Leaving through one side means entering through the opposite one. The two
/// desktops face each other, so the sender states where it left and the
/// receiver derives where that lands.
#[must_use]
pub fn opposite(edge: Edge) -> (entered: Edge)
    ensures
        entered == facing(edge),
        edge == Edge::Left ==> entered == Edge::Right,
        edge == Edge::Right ==> entered == Edge::Left,
        edge == Edge::Top ==> entered == Edge::Bottom,
        edge == Edge::Bottom ==> entered == Edge::Top,
{
    match edge {
        Edge::Left => Edge::Right,
        Edge::Right => Edge::Left,
        Edge::Top => Edge::Bottom,
        Edge::Bottom => Edge::Top,
    }
}

/// One host handing the pointer to another.
#[derive(Debug, Clone, Copy)]
pub struct Handoff {
    /// The 0-based host slot the devices were told to move to. The receiver
    /// checks this against its own slot before acting, so a message meant for
    /// a third machine is ignored rather than obeyed.
    pub host: u8,
    /// The edge the pointer left through, on the *sending* host.
    pub left_through: Edge,
    /// How far along that edge it crossed.
    pub at: EdgeFraction,
}

impl PartialEq for Handoff {
    fn eq(&self, other: &Self) -> (same: bool) {
        self.host == other.host && self.left_through == other.left_through && self.at == other.at
    }
}

impl vstd::std_specs::cmp::PartialEqSpecImpl for Handoff {
    open spec fn obeys_eq_spec() -> bool {
        true
    }

    open spec fn eq_spec(&self, other: &Self) -> bool {
        &&& self.host == other.host
        &&& self.left_through == other.left_through
        &&& self.at.bits() % fraction::SIGN == other.at.bits() % fraction::SIGN
    }
}

/// How far a landing is pulled in on a span of `length`: by `inset`, but
/// neither outward nor past the middle.
pub open spec fn pulled_in(inset: int, length: int) -> int {
    let middle = if length > 0 {
        length / 2
    } else {
        0
    };
    if inset < 0 {
        0
    } else if inset > middle {
        middle
    } else {
        inset
    }
}

/// Where a pointer lands that left through `left_through` at a fraction worth
/// `units`, on a desktop with the given corners.
pub open spec fn landing_place(
    left_through: Edge,
    units: nat,
    bounds: (i32, i32, i32, i32),
    inset: int,
) -> (int, int) {
    let (min_x, min_y, max_x, max_y) = bounds;
    let across = pulled_in(inset, max_x - min_x);
    let down = pulled_in(inset, max_y - min_y);
    match facing(left_through) {
        Edge::Left => (
            min_x + across,
            fraction::projected(units, min_y as int, max_y as int),
        ),
        Edge::Right => (
            max_x - across,
            fraction::projected(units, min_y as int, max_y as int),
        ),
        Edge::Top => (
            fraction::projected(units, min_x as int, max_x as int),
            min_y + down,
        ),
        Edge::Bottom => (
            fraction::projected(units, min_x as int, max_x as int),
            max_y - down,
        ),
    }
}

/// Whether the extents of a desktop can be measured in `i32`.
pub open spec fn measurable(bounds: (i32, i32, i32, i32)) -> bool {
    &&& i32::MIN <= bounds.2 - bounds.0 <= i32::MAX
    &&& i32::MIN <= bounds.3 - bounds.1 <= i32::MAX
}

fn pull_in(inset: i32, length: i32) -> (pulled: i32)
    ensures
        pulled == pulled_in(inset as int, length as int),
        0 <= pulled,
        length > 0 ==> pulled <= length,
        length <= 0 ==> pulled == 0,
{
    let middle: i32 = if length > 0 {
        length / 2
    } else {
        0
    };
    if inset < 0 {
        0
    } else if inset > middle {
        middle
    } else {
        inset
    }
}

impl Handoff {
    /// Where the arriving host should place its pointer, given its own bounds.
    ///
    /// `inset` pulls the landing just inside the screen instead of onto the
    /// boundary pixel. Landing exactly on the edge is what the local edge
    /// watcher is watching for, so an arrival there reads as a departure and
    /// the two hosts bounce the pointer back and forth forever.
    #[must_use]
    pub fn landing(&self, bounds: (i32, i32, i32, i32), inset: i32) -> (place: (i32, i32))
        requires
            measurable(bounds),
        ensures
            (place.0 as int, place.1 as int) == landing_place(
                self.left_through,
                fraction::units(self.at.bits()),
                bounds,
                inset as int,
            ),
            self.left_through == Edge::Left || self.left_through == Edge::Right ==> place.1
                == fraction::projected(
                fraction::units(self.at.bits()),
                bounds.1 as int,
                bounds.3 as int,
            ),
            self.left_through == Edge::Top || self.left_through == Edge::Bottom ==> place.0
                == fraction::projected(
                fraction::units(self.at.bits()),
                bounds.0 as int,
                bounds.2 as int,
            ),
            self.at.bits() == 0 ==> match self.left_through {
                Edge::Left | Edge::Right => place.1 == bounds.1,
                Edge::Top | Edge::Bottom => place.0 == bounds.0,
            },
            self.at.bits() == 0x3f80_0000 ==> match self.left_through {
                Edge::Left | Edge::Right => 0 <= bounds.3 - bounds.1 <= 0x0100_0000 ==> place.1
                    == bounds.3,
                Edge::Top | Edge::Bottom => 0 <= bounds.2 - bounds.0 <= 0x0100_0000 ==> place.0
                    == bounds.2,
            },
            inset >= 0 && 2 * inset <= bounds.2 - bounds.0 ==> {
                &&& self.left_through == Edge::Left ==> place.0 == bounds.2 - inset
                &&& self.left_through == Edge::Right ==> place.0 == bounds.0 + inset
            },
            inset >= 0 && 2 * inset <= bounds.3 - bounds.1 ==> {
                &&& self.left_through == Edge::Top ==> place.1 == bounds.3 - inset
                &&& self.left_through == Edge::Bottom ==> place.1 == bounds.1 + inset
            },
    {
        proof {
            lemma_ends_of(self.at.bits(), bounds.0 as int, bounds.2 as int);
            lemma_ends_of(self.at.bits(), bounds.1 as int, bounds.3 as int);
        }
        let (min_x, min_y, max_x, max_y) = bounds;
        // Never inset past the middle: a desktop narrower than twice the inset
        // would otherwise land the pointer on the far edge.
        let across: i32 = pull_in(inset, max_x - min_x);
        let down: i32 = pull_in(inset, max_y - min_y);
        match opposite(self.left_through) {
            Edge::Left => (min_x + across, self.at.project(min_y, max_y)),
            Edge::Right => (max_x - across, self.at.project(min_y, max_y)),
            Edge::Top => (self.at.project(min_x, max_x), min_y + down),
            Edge::Bottom => (self.at.project(min_x, max_x), max_y - down),
        }
    }
}

proof fn lemma_ends_of(bits: u32, min: int, max: int)
    requires
        i32::MIN <= min <= i32::MAX,
        i32::MIN <= max - min <= i32::MAX,
    ensures
        bits == 0 ==> fraction::projected(fraction::units(bits), min, max) == min,
        bits == 0x3f80_0000 && 0 <= max - min <= 0x0100_0000 && max <= i32::MAX
            ==> fraction::projected(fraction::units(bits), min, max) == max,
{
    fraction::lemma_units_of_one_and_half();
    if max > min {
        let span = (max - min) as nat;
        fraction_laws::lemma_offset_along_is_bounded(0, span);
        if span <= 0x0100_0000 {
            fraction_laws::law_screen_spans_are_exact(span);
            fraction_laws::lemma_offset_along_is_bounded(power2::pow2(149), span);
        }
    }
}

/// The edge facing the facing edge is the edge itself, and never the facing
/// one.
pub proof fn law_facing_edges_come_in_pairs(edge: Edge)
    ensures
        facing(facing(edge)) == edge,
        facing(edge) != edge,
{
}

/// A pointer lands on the desktop, wherever single precision does not
/// lengthen its spans.
pub proof fn law_a_landing_lies_on_the_desktop(
    left_through: Edge,
    units: nat,
    bounds: (i32, i32, i32, i32),
    inset: int,
)
    requires
        units <= power2::pow2(149),
        bounds.0 <= bounds.2,
        bounds.1 <= bounds.3,
        single::nearest((bounds.2 - bounds.0) as nat, 1) <= bounds.2 - bounds.0,
        single::nearest((bounds.3 - bounds.1) as nat, 1) <= bounds.3 - bounds.1,
    ensures
        bounds.0 <= landing_place(left_through, units, bounds, inset).0 <= bounds.2,
        bounds.1 <= landing_place(left_through, units, bounds, inset).1 <= bounds.3,
{
    fraction_laws::law_a_projection_stays_on_the_span(units, bounds.0 as int, bounds.2 as int);
    fraction_laws::law_a_projection_stays_on_the_span(units, bounds.1 as int, bounds.3 as int);
}

/// A pointer enters through the side across from the one it left through.
pub proof fn law_a_pointer_enters_from_across(edge: Edge)
    ensures
        edge == Edge::Left ==> facing(edge) == Edge::Right,
        edge == Edge::Right ==> facing(edge) == Edge::Left,
        edge == Edge::Top ==> facing(edge) == Edge::Bottom,
        edge == Edge::Bottom ==> facing(edge) == Edge::Top,
{
}

/// A landing keeps the fraction it left at, on all four edges: at the start of
/// the edge it lands on the first pixel, at the end on the last, and in the
/// middle on the middle one, wherever single precision holds the span exactly.
/// A pointer that left through a side keeps its height, one that left through
/// the top or bottom its width.
pub proof fn law_a_landing_keeps_its_fraction(
    left_through: Edge,
    bounds: (i32, i32, i32, i32),
    inset: int,
)
    ensures
        ({
            let first = landing_place(left_through, 0, bounds, inset);
            let last = landing_place(left_through, power2::pow2(149), bounds, inset);
            let half = landing_place(left_through, power2::pow2(148), bounds, inset);
            let width = bounds.2 - bounds.0;
            let height = bounds.3 - bounds.1;
            match left_through {
                Edge::Left | Edge::Right => 0 <= height <= 0x0100_0000 ==> {
                    &&& first.1 == bounds.1
                    &&& last.1 == bounds.3
                    &&& half.1 == bounds.1 + (height + 1) / 2
                },
                Edge::Top | Edge::Bottom => 0 <= width <= 0x0100_0000 ==> {
                    &&& first.0 == bounds.0
                    &&& last.0 == bounds.2
                    &&& half.0 == bounds.0 + (width + 1) / 2
                },
            }
        }),
{
    lemma_ends_and_middle(bounds.0 as int, bounds.2 as int);
    lemma_ends_and_middle(bounds.1 as int, bounds.3 as int);
}

proof fn lemma_ends_and_middle(min: int, max: int)
    requires
        i32::MIN <= min <= i32::MAX,
        i32::MIN <= max <= i32::MAX,
    ensures
        0 <= max - min <= 0x0100_0000 ==> {
            &&& fraction::projected(0, min, max) == min
            &&& fraction::projected(power2::pow2(149), min, max) == max
            &&& fraction::projected(power2::pow2(148), min, max) == min + (max - min + 1) / 2
        },
{
    if 0 <= max - min <= 0x0100_0000 {
        let span = (max - min) as nat;
        fraction_laws::law_screen_spans_are_exact(span);
        fraction_laws::lemma_offset_along_is_bounded(0, span);
        fraction_laws::lemma_offset_along_is_bounded(power2::pow2(149), span);
        fraction_laws::lemma_offset_along_half(span);
    }
}

/// A pointer that leaves a desktop at some pixel of an edge lands at that very
/// pixel of a desktop of the same extent, wherever the two start and whichever
/// edge it was.
pub proof fn law_a_pointer_lands_at_the_pixel_it_left(
    left_through: Edge,
    position: int,
    start: int,
    bounds: (i32, i32, i32, i32),
    inset: int,
)
    ensures
        ({
            let width = bounds.2 - bounds.0;
            let height = bounds.3 - bounds.1;
            match left_through {
                Edge::Left | Edge::Right => 0 <= position - start <= height <= 0x0040_0000
                    ==> landing_place(
                    left_through,
                    fraction::units_between(position, start, start + height),
                    bounds,
                    inset,
                ).1 - bounds.1 == position - start,
                Edge::Top | Edge::Bottom => 0 <= position - start <= width <= 0x0040_0000
                    ==> landing_place(
                    left_through,
                    fraction::units_between(position, start, start + width),
                    bounds,
                    inset,
                ).0 - bounds.0 == position - start,
            }
        }),
{
    let (min, max) = match left_through {
        Edge::Left | Edge::Right => (bounds.1 as int, bounds.3 as int),
        Edge::Top | Edge::Bottom => (bounds.0 as int, bounds.2 as int),
    };
    if 0 <= position - start <= max - min <= 0x0040_0000 {
        fraction_laws::law_a_fraction_leads_back_to_its_pixel(position - start + min, min, max);
    }
}

/// Along its edge a landing lies where the fraction says: on a span of at most
/// `2^22` pixels it is less than one pixel off the exact place, whatever the
/// fraction.
pub proof fn law_a_landing_is_where_the_fraction_says(
    left_through: Edge,
    units: nat,
    bounds: (i32, i32, i32, i32),
    inset: int,
)
    requires
        units <= power2::pow2(149),
    ensures
        ({
            let (x, y) = landing_place(left_through, units, bounds, inset);
            let width = bounds.2 - bounds.0;
            let height = bounds.3 - bounds.1;
            let one = power2::pow2(149);
            match left_through {
                Edge::Left | Edge::Right => 0 <= height <= 0x0040_0000 ==> -one < (y - bounds.1)
                    * one - units * height < one,
                Edge::Top | Edge::Bottom => 0 <= width <= 0x0040_0000 ==> -one < (x - bounds.0)
                    * one - units * width < one,
            }
        }),
{
    let (min, max) = match left_through {
        Edge::Left | Edge::Right => (bounds.1 as int, bounds.3 as int),
        Edge::Top | Edge::Bottom => (bounds.0 as int, bounds.2 as int),
    };
    if 0 <= max - min <= 0x0040_0000 {
        let span = (max - min) as nat;
        fraction_laws::law_screen_spans_are_exact(span);
        fraction_laws::lemma_offset_along_is_bounded(units, span);
        fraction_laws::lemma_offset_along_is_near(units, span);
        power2::lemma_pow2_pos(149);
        if span == 0 {
            assert(units * 0 == 0) by (nonlinear_arith);
            assert(0 * power2::pow2(149) == 0) by (nonlinear_arith);
        }
    }
}

/// A landing keeps its inset from the edge it enters through, unless half of
/// the desktop is less; then it lands in the middle. Either way it stays on
/// its own side of the middle. A negative inset is none.
pub proof fn law_an_arrival_keeps_clear_of_its_edge(
    left_through: Edge,
    units: nat,
    bounds: (i32, i32, i32, i32),
    inset: int,
)
    requires
        bounds.0 <= bounds.2,
        bounds.1 <= bounds.3,
        inset >= 0,
    ensures
        landing_place(left_through, units, bounds, -inset) == landing_place(
            left_through,
            units,
            bounds,
            0,
        ),
        ({
            let (x, y) = landing_place(left_through, units, bounds, inset);
            let across = (bounds.2 - bounds.0) / 2;
            let down = (bounds.3 - bounds.1) / 2;
            match facing(left_through) {
                Edge::Left => x - bounds.0 == if inset <= across {
                    inset
                } else {
                    across
                },
                Edge::Right => bounds.2 - x == if inset <= across {
                    inset
                } else {
                    across
                },
                Edge::Top => y - bounds.1 == if inset <= down {
                    inset
                } else {
                    down
                },
                Edge::Bottom => bounds.3 - y == if inset <= down {
                    inset
                } else {
                    down
                },
            }
        }),
{
}

} // verus!
