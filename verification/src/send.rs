//! Handing the pointer to a peer.
//!
//! The whole value of this is ordering: the frame goes out *before* the write
//! that moves the devices. A LAN hop is about a millisecond and the radio
//! reconnect is hundreds, so the pointer is already sitting on the other
//! screen by the time the devices arrive. Reverse the two and the peer would
//! land the pointer after the user had already noticed the gap.

use crate::clock;
use crate::flow::Handoff;
use crate::seal;
use crate::seal::Seal;
use crate::wire;
use vstd::prelude::*;

verus! {

/// How long a peer has to accept the handoff before it is abandoned, in
/// milliseconds.
///
/// Short on purpose. A peer that is asleep, gone, or on another network must
/// not hold up the switch: the devices move either way, and a late handoff is
/// worth nothing once the user has already seen the gap it was hiding.
pub const SEND_TIMEOUT: u64 = 400;

/// A nonce for one handoff.
///
/// Uniqueness within the freshness window is all that is required: the nonce
/// stops a captured frame being replayed, and the tag is what stops forgery,
/// so this does not have to be unpredictable. Nanoseconds since the epoch are
/// unique at any rate a pointer can cross an edge.
///
/// Two readings of the clock may differ in any way, so nothing is claimed of
/// the number; what is made of one reading is stated by [`clock::nanos_of`].
#[must_use]
pub fn nonce() -> u64 {
    clock::nanos_of(clock::since_epoch())
}

/// The frame that hands the pointer over, sealed at `sent_at` with `nonce`.
#[must_use]
pub fn sealed_frame(handoff: &Handoff, seal: &Seal, sent_at: u64, nonce: u64) -> (frame: [u8; 61])
    ensures
        frame@ == wire::frame_of(seal::sealed_view(*handoff, sent_at, nonce, seal.secret())),
{
    wire::encode(&seal.seal(handoff, sent_at, nonce))
}

/// Where a delivery stands.
#[derive(Debug, Clone, Copy, PartialEq, Eq, Structural)]
pub enum Delivery {
    /// Offer the frame to the candidate at this place of the list.
    Offer(usize),
    /// A peer took the handoff.
    Taken,
    /// No peer took the handoff: the switch goes on without cover.
    Abandoned,
}

/// The first step of a delivery to `candidates` addresses.
///
/// They are tried in order because a device stores a bare host name and only
/// mDNS answers for it, so the same peer is reachable under more than one
/// spelling.
#[must_use]
pub fn first_offer(candidates: usize) -> (delivery: Delivery)
    ensures
        delivery == if candidates > 0 {
            Delivery::Offer(0)
        } else {
            Delivery::Abandoned
        },
{
    if candidates > 0 {
        Delivery::Offer(0)
    } else {
        Delivery::Abandoned
    }
}

/// The step after an offer. The first success wins; there is nothing to retry,
/// since the switch has already happened by the time a retry could land.
#[must_use]
pub fn after_offer(offered: usize, taken: bool, candidates: usize) -> (delivery: Delivery)
    requires
        offered < candidates,
    ensures
        delivery == next_delivery(offered, taken, candidates),
        taken <==> delivery == Delivery::Taken,
        !taken && offered + 1 < candidates ==> (delivery matches Delivery::Offer(next) && next
            == offered + 1),
        !taken && offered + 1 == candidates ==> delivery == Delivery::Abandoned,
{
    if taken {
        Delivery::Taken
    } else if offered + 1 < candidates {
        Delivery::Offer(offered + 1)
    } else {
        Delivery::Abandoned
    }
}

/// The step after an offer to the candidate at `offered`.
pub open spec fn next_delivery(offered: usize, taken: bool, candidates: usize) -> Delivery {
    if taken {
        Delivery::Taken
    } else if offered + 1 < candidates {
        Delivery::Offer((offered + 1) as usize)
    } else {
        Delivery::Abandoned
    }
}

/// The candidates that are offered the frame from `from` on, where `takes`
/// says of each whether it would take it.
pub open spec fn offered_from(from: usize, takes: Seq<bool>) -> Seq<usize>
    decreases takes.len() - from,
{
    if from < takes.len() && takes.len() <= usize::MAX {
        match next_delivery(from, takes[from as int], takes.len() as usize) {
            Delivery::Offer(next) => if next > from {
                seq![from] + offered_from(next, takes)
            } else {
                seq![from]
            },
            _ => seq![from],
        }
    } else {
        Seq::empty()
    }
}

/// A delivery offers the frame to each candidate in order, up to and including
/// the first that takes it, and to none after that.
pub proof fn law_the_first_success_wins(from: usize, takes: Seq<bool>)
    requires
        from < takes.len() <= usize::MAX,
    ensures
        ({
            let offered = offered_from(from, takes);
            &&& 0 < offered.len() <= takes.len() - from
            &&& forall|i: int| 0 <= i < offered.len() ==> #[trigger] offered[i] == from + i
            &&& forall|i: int| from <= i < from + offered.len() - 1 ==> !#[trigger] takes[i]
            &&& offered.len() < takes.len() - from ==> takes[from + offered.len() - 1]
        }),
    decreases takes.len() - from,
{
    if !takes[from as int] && from + 1 < takes.len() {
        let next = (from + 1) as usize;
        law_the_first_success_wins(next, takes);
        let later = offered_from(next, takes);
        let offered = offered_from(from, takes);
        assert(offered == seq![from] + later);
        assert forall|i: int| 0 <= i < offered.len() implies #[trigger] offered[i] == from + i by {
            if i > 0 {
                assert(offered[i] == later[i - 1]);
            }
        }
    }
}

} // verus!
