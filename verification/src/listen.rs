//! Receiving handoffs from a peer and landing the pointer.
//!
//! The listener exists only while a secret is configured. An unauthenticated
//! service that moves the user's pointer would be worse than the delay it is
//! meant to hide, so "no secret" means "no socket", not "an open socket".

use crate::config::FlowConfig;
use crate::flow;
use crate::flow::Handoff;
use crate::fraction;
use crate::pointer::Bounds;
use crate::seal;
use crate::seal_laws;
use crate::seal::{ReplayGuard, Seal, SealError, Sealed};
use crate::wire;
use crate::wire::FrameError;
use vstd::prelude::*;

verus! {

/// How long a connection may take to deliver its frame, in milliseconds.
///
/// A handoff is 61 bytes on a LAN. Anything slower is not a peer in a hurry to
/// hand over the pointer, and holding the accept loop for it is how one stalled
/// connection would deny every real one.
pub const READ_TIMEOUT: u64 = 2_000;

/// What the listener serves with.
pub struct Listening {
    /// Verifies what peers send.
    pub seal: Seal,
    /// The port to listen on.
    pub port: u16,
    /// How far clear of an edge an arriving pointer is placed: the same
    /// distance the watcher rebounds by, so one knob serves both sides.
    pub inset: i32,
}

/// What to listen with, or `None` where no secret is configured: then there is
/// no socket.
#[must_use]
pub fn listening(secret: Option<&str>, port: u16, config: &FlowConfig) -> (listening: Option<
    Listening,
>)
    ensures
        match listening {
            Some(listening) => {
                &&& secret is Some
                &&& secret->0@.len() > 0
                &&& listening.seal.secret() == vstd::utf8::encode_utf8(secret->0@)
                &&& listening.port == port
                &&& listening.inset == config.rebound_px
            },
            None => secret is None || secret->0@.len() == 0,
        },
{
    match secret {
        Some(secret) => {
            if secret.unicode_len() == 0 {
                return None;
            }
            Some(
                Listening { seal: Seal::new(secret), port, inset: config.rebound_px as i32 },
            )
        },
        None => None,
    }
}

/// What the listener does next.
#[derive(Debug, Clone, Copy, PartialEq, Eq, Structural)]
pub enum ServeStep {
    /// Read the section again and begin anew.
    Reread,
    /// Wait until the section changes.
    AwaitChange,
    /// Open the socket, with a guard that remembers nothing.
    Bind,
    /// Wait for a peer or for the section to change, whichever is first.
    Accept,
    /// Read one frame from the peer and act on it.
    Receive,
    /// The section will not change any more: leave.
    Stop,
}

/// What happened to the listener.
#[derive(Debug, Clone, Copy, PartialEq, Eq, Structural)]
pub enum ServeEvent {
    /// The section was read; whether there is anything to listen with.
    Read(bool),
    /// The socket was opened, or could not be.
    Bound(bool),
    /// The section changed.
    Changed,
    /// The section's owner is gone.
    Closed,
    /// A peer connected, or accepting it failed.
    Accepted(bool),
    /// A peer was dealt with.
    Received,
}

/// The step that an event leads to.
pub open spec fn step_after(event: ServeEvent) -> ServeStep {
    match event {
        ServeEvent::Read(true) => ServeStep::Bind,
        ServeEvent::Read(false) => ServeStep::AwaitChange,
        ServeEvent::Bound(true) => ServeStep::Accept,
        ServeEvent::Bound(false) => ServeStep::AwaitChange,
        ServeEvent::Changed => ServeStep::Reread,
        ServeEvent::Closed => ServeStep::Stop,
        ServeEvent::Accepted(true) => ServeStep::Receive,
        ServeEvent::Accepted(false) => ServeStep::Reread,
        ServeEvent::Received => ServeStep::Accept,
    }
}

/// The step that an event leads to.
///
/// A change of the section retires the socket: the secret or the port may have
/// moved, and serving on the old one would be serving something the user has
/// already revoked.
#[must_use]
pub fn serve_step(event: ServeEvent) -> (step: ServeStep)
    ensures
        step == step_after(event),
{
    match event {
        ServeEvent::Read(configured) => if configured {
            ServeStep::Bind
        } else {
            ServeStep::AwaitChange
        },
        ServeEvent::Bound(bound) => if bound {
            ServeStep::Accept
        } else {
            ServeStep::AwaitChange
        },
        ServeEvent::Changed => ServeStep::Reread,
        ServeEvent::Closed => ServeStep::Stop,
        ServeEvent::Accepted(connected) => if connected {
            ServeStep::Receive
        } else {
            ServeStep::Reread
        },
        ServeEvent::Received => ServeStep::Accept,
    }
}

/// No secret means no socket: one is opened only after the section was read
/// and found to hold a secret.
pub proof fn law_no_secret_means_no_socket(event: ServeEvent)
    ensures
        step_after(event) == ServeStep::Bind <==> event == ServeEvent::Read(true),
{
}

/// What each step of the listener comes of, and nothing else: it waits where
/// there is no secret or no socket, serves one peer after the other on a socket
/// it has, begins anew once the section changes or accepting fails, and leaves
/// once the section's owner is gone.
pub proof fn law_each_step_has_its_causes(event: ServeEvent)
    ensures
        step_after(event) == ServeStep::AwaitChange <==> event == ServeEvent::Read(false) || event
            == ServeEvent::Bound(false),
        step_after(event) == ServeStep::Accept <==> event == ServeEvent::Bound(true) || event
            == ServeEvent::Received,
        step_after(event) == ServeStep::Receive <==> event == ServeEvent::Accepted(true),
        step_after(event) == ServeStep::Reread <==> event == ServeEvent::Changed || event
            == ServeEvent::Accepted(false),
        step_after(event) == ServeStep::Stop <==> event == ServeEvent::Closed,
{
}

/// What came of a received frame.
#[derive(Debug, Clone, Copy)]
pub enum Received {
    /// It is no frame of ours.
    Rejected(FrameError),
    /// It does not prove itself.
    Refused(SealError),
    /// It was meant for another host.
    Elsewhere {
        /// The slot this host occupies.
        own: u8,
        /// The slot the handoff was meant for.
        meant_for: u8,
    },
    /// The pointer arrives here.
    Arrived(Handoff),
}

/// Sort out an opened handoff by whom it is for.
///
/// A handoff names the slot it is for. Knowing our own turns a peer's mistake
/// into a discarded message instead of a pointer that jumps on the wrong
/// machine; not knowing it is not fatal, because the sender addressed us
/// directly, so an unknown slot accepts.
#[must_use]
pub fn addressed(opened: Result<Handoff, SealError>, own: Option<u8>) -> (received: Received)
    ensures
        received == match opened {
            Ok(handoff) => match own {
                Some(own) => if own != handoff.host {
                    Received::Elsewhere { own, meant_for: handoff.host }
                } else {
                    Received::Arrived(handoff)
                },
                None => Received::Arrived(handoff),
            },
            Err(error) => Received::Refused(error),
        },
{
    match opened {
        Ok(handoff) => {
            if let Some(own) = own {
                if own != handoff.host {
                    return Received::Elsewhere { own, meant_for: handoff.host };
                }
            }
            Received::Arrived(handoff)
        },
        Err(error) => Received::Refused(error),
    }
}

/// Whether the tag in a frame is that of its signed bytes.
pub open spec fn frame_is_authentic(frame: Seq<u8>, secret: Seq<u8>) -> bool {
    let sealed = wire::sealed_of(frame);
    sealed.tag == seal::hmac_sha256(secret, sealed.preimage())
}

/// Read one frame and decide what it asks of this host.
pub fn receive(
    frame: &[u8],
    seal: &Seal,
    own: Option<u8>,
    now: u64,
    guard: &mut ReplayGuard,
) -> (received: Received)
    ensures
        ({
            let sealed = wire::sealed_of(frame@);
            let authentic = frame_is_authentic(frame@, seal.secret());
            match wire::frame_refusal(frame@) {
                Some(error) => {
                    &&& received == Received::Rejected(error)
                    &&& final(guard)@ == old(guard)@
                },
                None => {
                    &&& final(guard)@ == sealed.remembered_after(authentic, now, old(guard)@)
                    &&& match sealed.refusal(authentic, now, old(guard)@) {
                        Some(error) => received == Received::Refused(error),
                        None => match received {
                            Received::Elsewhere { own: slot, meant_for } => {
                                &&& own == Some(slot)
                                &&& meant_for == sealed.host
                                &&& slot != meant_for
                            },
                            Received::Arrived(handoff) => {
                                &&& own is None || own == Some(sealed.host)
                                &&& sealed.carries(handoff)
                            },
                            _ => false,
                        },
                    }
                },
            }
        }),
        received is Arrived || received is Elsewhere ==> {
            &&& frame@.len() == 61
            &&& frame@.subrange(27, 59) == seal::hmac_sha256(
                seal.secret(),
                frame@.subrange(5, 27),
            )
        },
        received is Elsewhere ==> own is Some && own->0 != frame@[21],
        received is Arrived ==> own is None || own->0 == frame@[21],
{
    proof {
        if frame@.len() == 61 {
            wire::law_a_frame_is_read_as_its_bytes_spell(frame@);
        }
    }
    let sealed: Sealed = match wire::decode(frame) {
        Ok(sealed) => sealed,
        Err(error) => return Received::Rejected(error),
    };
    addressed(seal.open(&sealed, now, guard), own)
}

/// What one host sends, its peer receives: the frame of a sealed handoff is
/// read, proves itself to whoever shares the secret, and carries that handoff,
/// while the clocks are within the window and the nonce is new. A tag has 32
/// bytes.
pub proof fn law_a_sent_handoff_arrives(
    handoff: Handoff,
    sent_at: u64,
    nonce: u64,
    secret: Seq<u8>,
    now: u64,
    seen: Seq<(u64, u64)>,
)
    requires
        fraction::in_range(handoff.at.bits()),
        seal::within_window(sent_at, now),
        !seal::remembers(seal::still_fresh(seen, now), nonce),
    ensures
        seal::sealed_view(handoff, sent_at, nonce, secret).tag.len() == 32 ==> ({
            let frame = wire::frame_of(seal::sealed_view(handoff, sent_at, nonce, secret));
            let sealed = wire::sealed_of(frame);
            let authentic = frame_is_authentic(frame, secret);
            &&& wire::frame_refusal(frame) is None
            &&& sealed.refusal(authentic, now, seen) is None
            &&& sealed.carries(handoff)
        }),
{
    let sealed = seal::sealed_view(handoff, sent_at, nonce, secret);
    if sealed.tag.len() == 32 {
        wire::law_a_frame_round_trips_every_field(sealed);
    }
    seal_laws::law_a_sealed_handoff_opens_with_the_same_secret(
        secret,
        handoff,
        sent_at,
        nonce,
        now,
        seen,
    );
}

/// Where an arriving pointer is placed on this host's desktop, or `None` where
/// the extents of the desktop cannot be measured.
#[must_use]
pub fn landing_on(handoff: &Handoff, bounds: Bounds, inset: i32) -> (place: Option<(i32, i32)>)
    ensures
        match place {
            Some((x, y)) => {
                &&& bounds.spec_is_measurable()
                &&& (x as int, y as int) == flow::landing_place(
                    handoff.left_through,
                    fraction::units(handoff.at.bits()),
                    bounds.spec_corners(),
                    inset as int,
                )
            },
            None => !bounds.spec_is_measurable(),
        },
{
    if bounds.is_measurable() {
        Some(handoff.landing(bounds.corners(), inset))
    } else {
        None
    }
}

} // verus!
