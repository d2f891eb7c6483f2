//! Proving a handoff came from a peer that knows the shared secret.
//!
//! A handoff moves the user's pointer, so anything on the LAN that can send
//! one can yank the cursor around. The peers therefore share a secret and
//! every message carries an HMAC over its canonical bytes, a send time, and a
//! nonce: the tag stops forgery, the time and nonce stop replay.
//!
//! This is deliberately not a key exchange. It defends the realistic attack
//! (another machine on the network sending handoffs) without inventing a
//! pairing flow before the feature has users.

use crate::clock;
use crate::config;
use crate::config::Edge;
use crate::flow::Handoff;
use crate::fraction;
use crate::fraction::EdgeFraction;
use crate::little_endian;
use hmac::{Hmac, Mac};
use sha2::Sha256;
use vstd::prelude::*;

verus! {

/// How far apart two clocks may be before a handoff is refused, in seconds.
///
/// Wide enough for hosts that only sync by NTP, short enough that a captured
/// packet is worthless by the time it could be replayed by hand.
pub const FRESHNESS: u64 = 30;

/// The canonical byte length of a signed handoff's preimage.
pub const PREIMAGE_LEN: usize = 22;

/// Why a received handoff was not acted on.
#[derive(Debug, Clone, Copy, PartialEq, Eq, Structural)]
pub enum SealError {
    /// The tag did not match: the sender does not share the secret.
    BadSignature,
    /// The send time is outside [`FRESHNESS`] of now.
    Stale,
    /// The nonce was already used, so this is a replay.
    Replayed,
    /// The edge byte names no edge this build knows.
    UnknownEdge,
}

/// A handoff plus the proof it came from a peer that knows the secret.
#[derive(Debug, Clone, Copy, PartialEq, Eq)]
pub struct Sealed {
    /// Unix seconds at which the sender built the message.
    pub sent_at: u64,
    /// Per-message value, so two handoffs in the same second differ.
    pub nonce: u64,
    /// Target host slot, as in [`Handoff::host`].
    pub host: u8,
    /// Wire byte of the edge the pointer left through.
    pub edge: u8,
    /// Bit pattern of the crossing fraction.
    pub fraction_bits: u32,
    /// HMAC-SHA256 over the canonical preimage.
    pub tag: [u8; 32],
}

/// What a [`Sealed`] handoff holds.
#[verifier::ext_equal]
pub struct SealedView {
    pub sent_at: u64,
    pub nonce: u64,
    pub host: u8,
    pub edge: u8,
    pub fraction_bits: u32,
    pub tag: Seq<u8>,
}

impl View for Sealed {
    type V = SealedView;

    open spec fn view(&self) -> SealedView {
        SealedView {
            sent_at: self.sent_at,
            nonce: self.nonce,
            host: self.host,
            edge: self.edge,
            fraction_bits: self.fraction_bits,
            tag: self.tag@,
        }
    }
}

impl SealedView {
    /// The bytes the tag covers: send time, nonce, host, edge and fraction.
    pub open spec fn preimage(self) -> Seq<u8> {
        little_endian::bytes_of(self.sent_at as nat, 8) + little_endian::bytes_of(
            self.nonce as nat,
            8,
        ) + seq![self.host, self.edge] + little_endian::bytes_of(self.fraction_bits as nat, 4)
    }

    /// Whether the send time lies within the freshness window of `now`.
    pub open spec fn is_fresh(self, now: u64) -> bool {
        within_window(self.sent_at, now)
    }

    /// Whether a handoff is the one this carries.
    pub open spec fn carries(self, handoff: Handoff) -> bool {
        &&& handoff.host == self.host
        &&& config::edge_of_code(self.edge) == Some(handoff.left_through)
        &&& handoff.at.bits() == fraction::clamped(self.fraction_bits)
    }

    /// Why the handoff is not acted on at `now` by a guard that remembers
    /// `seen`, if it is not. Whether its tag matches is `authentic`.
    pub open spec fn refusal(
        self,
        authentic: bool,
        now: u64,
        seen: Seq<(u64, u64)>,
    ) -> Option<SealError> {
        if !authentic {
            Some(SealError::BadSignature)
        } else if !self.is_fresh(now) {
            Some(SealError::Stale)
        } else if remembers(still_fresh(seen, now), self.nonce) {
            Some(SealError::Replayed)
        } else if config::edge_of_code(self.edge) is None {
            Some(SealError::UnknownEdge)
        } else {
            None
        }
    }

    /// What a guard that remembers `seen` remembers afterwards.
    pub open spec fn remembered_after(
        self,
        authentic: bool,
        now: u64,
        seen: Seq<(u64, u64)>,
    ) -> Seq<(u64, u64)> {
        if authentic && self.is_fresh(now) {
            after_accept(seen, self.nonce, self.sent_at, now)
        } else {
            seen
        }
    }
}

/// Whether two times are no further apart than [`FRESHNESS`].
pub open spec fn within_window(stamped: u64, now: u64) -> bool {
    -FRESHNESS <= now - stamped <= FRESHNESS
}

/// The entries stamped within the freshness window of `now`, in order.
pub open spec fn still_fresh(seen: Seq<(u64, u64)>, now: u64) -> Seq<(u64, u64)> {
    seen.filter(|entry: (u64, u64)| within_window(entry.1, now))
}

/// Whether a nonce is among the entries.
pub open spec fn remembers(seen: Seq<(u64, u64)>, nonce: u64) -> bool {
    exists|i: int| 0 <= i < seen.len() && (#[trigger] seen[i]).0 == nonce
}

/// What is remembered after a nonce was offered at `now`.
pub open spec fn after_accept(
    seen: Seq<(u64, u64)>,
    nonce: u64,
    sent_at: u64,
    now: u64,
) -> Seq<(u64, u64)> {
    let kept = still_fresh(seen, now);
    if remembers(kept, nonce) {
        kept
    } else {
        kept.push((nonce, sent_at))
    }
}

impl Sealed {
    /// The bytes the tag covers.
    ///
    /// Laid out by hand rather than by a serializer: the preimage must stay
    /// byte-identical across versions of every crate involved, and a
    /// serializer's layout is not a promise this depends on.
    #[must_use]
    pub fn preimage(&self) -> (bytes: [u8; 22])
        ensures
            bytes@ == self@.preimage(),
    {
        let mut bytes: [u8; 22] = [0; 22];
        little_endian::put(&mut bytes, 0, self.sent_at, 8);
        little_endian::put(&mut bytes, 8, self.nonce, 8);
        bytes[16] = self.host;
        bytes[17] = self.edge;
        little_endian::put(&mut bytes, 18, self.fraction_bits as u64, 4);
        proof {
            little_endian::lemma_width(self.sent_at as nat, 8);
            little_endian::lemma_width(self.nonce as nat, 8);
            little_endian::lemma_width(self.fraction_bits as nat, 4);
            assert(bytes@ =~= self@.preimage());
        }
        bytes
    }

    /// The handoff this carries, once the edge byte is known.
    fn handoff(&self) -> (carried: Result<Handoff, SealError>)
        ensures
            match carried {
                Ok(handoff) => self@.carries(handoff),
                Err(error) => {
                    &&& config::edge_of_code(self.edge) is None
                    &&& error == SealError::UnknownEdge
                },
            },
    {
        match Edge::from_code(self.edge) {
            Some(left_through) => Ok(
                Handoff {
                    host: self.host,
                    left_through,
                    at: EdgeFraction::new(self.fraction_bits),
                },
            ),
            None => Err(SealError::UnknownEdge),
        }
    }
}

fn is_within_window(stamped: u64, now: u64) -> (within: bool)
    ensures
        within == within_window(stamped, now),
{
    if now >= stamped {
        now - stamped <= FRESHNESS
    } else {
        stamped - now <= FRESHNESS
    }
}

/// Remembers recently accepted nonces so a captured packet cannot be reused
/// inside the freshness window.
///
/// Entries older than the window are dropped on each accept, so the set stays
/// bounded by how many handoffs a peer can send in [`FRESHNESS`]: a handful,
/// given a switch takes a second and has a cooldown.
#[derive(Debug)]
pub struct ReplayGuard {
    seen: Vec<(u64, u64)>,
}

impl View for ReplayGuard {
    type V = Seq<(u64, u64)>;

    /// The accepted nonces, each with the send time of its handoff.
    closed spec fn view(&self) -> Seq<(u64, u64)> {
        self.seen@
    }
}

impl Default for ReplayGuard {
    fn default() -> (guard: Self)
        ensures
            guard@ == Seq::<(u64, u64)>::empty(),
    {
        ReplayGuard { seen: Vec::new() }
    }
}

impl ReplayGuard {
    /// Record `nonce` unless it was already seen; returns whether it is new.
    fn accept(&mut self, nonce: u64, sent_at: u64, now: u64) -> (new: bool)
        ensures
            new == !remembers(still_fresh(old(self)@, now), nonce),
            final(self)@ == after_accept(old(self)@, nonce, sent_at, now),
    {
        let ghost wanted = |entry: (u64, u64)| within_window(entry.1, now);
        let mut kept: Vec<(u64, u64)> = Vec::new();
        let mut known: bool = false;
        let mut index: usize = 0;
        proof {
            reveal(Seq::filter);
            assert(self.seen@.take(0) =~= Seq::empty());
        }
        while index < self.seen.len()
            invariant
                index <= self.seen@.len(),
                wanted == |entry: (u64, u64)| within_window(entry.1, now),
                kept@ == self.seen@.take(index as int).filter(wanted),
                known == remembers(kept@, nonce),
            decreases self.seen@.len() - index,
        {
            let entry: (u64, u64) = self.seen[index];
            proof {
                reveal(Seq::filter);
                let next = self.seen@.take(index + 1);
                assert(next.drop_last() =~= self.seen@.take(index as int));
                assert(next.last() == entry);
            }
            if is_within_window(entry.1, now) {
                let ghost before = kept@;
                kept.push(entry);
                if entry.0 == nonce {
                    known = true;
                }
                proof {
                    assert forall|i: int| 0 <= i < before.len() implies #[trigger] kept@[i]
                        == before[i] by {}
                    if remembers(before, nonce) {
                        let i = choose|i: int|
                            0 <= i < before.len() && (#[trigger] before[i]).0 == nonce;
                        assert(kept@[i].0 == nonce);
                    }
                    if entry.0 == nonce {
                        assert(kept@[before.len() as int].0 == nonce);
                    }
                }
            }
            index = index + 1;
        }
        proof {
            assert(self.seen@.take(index as int) =~= self.seen@);
        }
        self.seen = kept;
        if known {
            return false;
        }
        self.seen.push((nonce, sent_at));
        true
    }

    /// How many nonces are currently remembered.
    #[must_use]
    pub fn remembered(&self) -> (count: usize)
        ensures
            count == self@.len(),
    {
        self.seen.len()
    }
}

/// The HMAC-SHA256 of a message under a key.
pub uninterp spec fn hmac_sha256(key: Seq<u8>, message: Seq<u8>) -> Seq<u8>;

/// `hmac::Hmac<Sha256>`, given a key by `new_from_slice` and a message by
/// `update`, and asked for its tag by `finalize`.
///
/// HMAC takes a key of any length, so `new_from_slice` does not fail. What
/// the tag is on given bytes is left to its name; it depends on the key and
/// the message alone.
#[verifier::external_body]
fn authentication_tag(key: &[u8], message: &[u8]) -> (tag: [u8; 32])
    ensures
        tag@ == hmac_sha256(key@, message@),
{
    let mut mac = <Hmac<Sha256> as Mac>::new_from_slice(key).expect("HMAC takes any key");
    mac.update(message);
    mac.finalize().into_bytes().into()
}

/// `hmac::Hmac<Sha256>`, given a key and a message as above, and asked by
/// `verify_slice` whether a tag is the message's own.
///
/// It compares all bytes of the tag, in constant time, with the tag that
/// `finalize` would give.
#[verifier::external_body]
fn authentication_tag_matches(key: &[u8], message: &[u8], tag: &[u8; 32]) -> (matches: bool)
    ensures
        matches == (tag@ == hmac_sha256(key@, message@)),
{
    let mut mac = <Hmac<Sha256> as Mac>::new_from_slice(key).expect("HMAC takes any key");
    mac.update(message);
    mac.verify_slice(tag).is_ok()
}

/// Signs and verifies handoffs against one shared secret.
///
/// What is printed of it is [`Seal::debug_text`], which is the same for every
/// secret.
pub struct Seal {
    secret: Vec<u8>,
}

impl Clone for Seal {
    fn clone(&self) -> (copy: Self)
        ensures
            copy.secret() == self.secret(),
    {
        Seal { secret: vstd::slice::slice_to_vec(self.secret.as_slice()) }
    }
}

/// A handoff laid out for sending with a tag of the caller's.
#[must_use]
pub fn stamped(handoff: &Handoff, sent_at: u64, nonce: u64, tag: [u8; 32]) -> (sealed: Sealed)
    ensures
        sealed@ == stamped_view(*handoff, sent_at, nonce, tag@),
        sealed@.carries(*handoff),
{
    Sealed {
        sent_at,
        nonce,
        host: handoff.host,
        edge: handoff.left_through.code(),
        fraction_bits: handoff.at.value(),
        tag,
    }
}

/// What a handoff holds once it is laid out for sending.
pub open spec fn stamped_view(
    handoff: Handoff,
    sent_at: u64,
    nonce: u64,
    tag: Seq<u8>,
) -> SealedView {
    SealedView {
        sent_at,
        nonce,
        host: handoff.host,
        edge: handoff.left_through.spec_code(),
        fraction_bits: handoff.at.bits(),
        tag,
    }
}

/// What a handoff holds once it is sealed: its tag is that of its canonical
/// bytes.
pub open spec fn sealed_view(
    handoff: Handoff,
    sent_at: u64,
    nonce: u64,
    secret: Seq<u8>,
) -> SealedView {
    let unsigned = stamped_view(handoff, sent_at, nonce, Seq::empty());
    stamped_view(handoff, sent_at, nonce, hmac_sha256(secret, unsigned.preimage()))
}

/// Decide on a received handoff, once it is known whether its tag matches.
///
/// The signature comes before anything else: an unauthenticated message
/// should not be able to probe the replay guard or the clock.
pub fn decide(sealed: &Sealed, authentic: bool, now: u64, guard: &mut ReplayGuard) -> (opened: Result<
    Handoff,
    SealError,
>)
    ensures
        match opened {
            Ok(handoff) => {
                &&& sealed@.refusal(authentic, now, old(guard)@) is None
                &&& sealed@.carries(handoff)
            },
            Err(error) => sealed@.refusal(authentic, now, old(guard)@) == Some(error),
        },
        final(guard)@ == sealed@.remembered_after(authentic, now, old(guard)@),
{
    if !authentic {
        return Err(SealError::BadSignature);
    }
    if !is_within_window(sealed.sent_at, now) {
        return Err(SealError::Stale);
    }
    if !guard.accept(sealed.nonce, sealed.sent_at, now) {
        return Err(SealError::Replayed);
    }
    sealed.handoff()
}

impl Seal {
    /// The bytes of the shared secret.
    pub closed spec fn secret(self) -> Seq<u8> {
        self.secret@
    }

    /// Build a seal from the configured shared secret.
    #[must_use]
    pub fn new(secret: &str) -> (seal: Self)
        ensures
            seal.secret() == vstd::utf8::encode_utf8(secret@),
    {
        Seal { secret: vstd::slice::slice_to_vec(secret.as_bytes()) }
    }

    /// Never holds the secret; a log line is not a place to leak it.
    #[must_use]
    pub fn debug_text(&self) -> (text: String)
        ensures
            text@ == "Seal(<secret>)"@,
    {
        "Seal(<secret>)".to_owned()
    }

    fn tag(&self, preimage: &[u8]) -> (tag: [u8; 32])
        ensures
            tag@ == hmac_sha256(self.secret(), preimage@),
    {
        authentication_tag(self.secret.as_slice(), preimage)
    }

    /// Seal `handoff` for sending, stamped at `sent_at` with `nonce`.
    ///
    /// Both are parameters rather than read here so the caller owns the clock
    /// and the randomness.
    #[must_use]
    pub fn seal(&self, handoff: &Handoff, sent_at: u64, nonce: u64) -> (sealed: Sealed)
        ensures
            sealed@ == sealed_view(*handoff, sent_at, nonce, self.secret()),
            sealed@.carries(*handoff),
    {
        let mut sealed: Sealed = stamped(handoff, sent_at, nonce, [0; 32]);
        sealed.tag = self.tag(&sealed.preimage());
        sealed
    }

    /// Verify a received handoff against the secret and the clock.
    ///
    /// The signature is checked before anything else: an unauthenticated
    /// message should not be able to probe the replay guard or the clock.
    pub fn open(&self, sealed: &Sealed, now: u64, guard: &mut ReplayGuard) -> (opened: Result<
        Handoff,
        SealError,
    >)
        ensures
            ({
                let authentic = sealed@.tag == hmac_sha256(self.secret(), sealed@.preimage());
                &&& match opened {
                    Ok(handoff) => {
                        &&& sealed@.refusal(authentic, now, old(guard)@) is None
                        &&& sealed@.carries(handoff)
                    },
                    Err(error) => sealed@.refusal(authentic, now, old(guard)@) == Some(error),
                }
                &&& final(guard)@ == sealed@.remembered_after(authentic, now, old(guard)@)
            }),
    {
        let authentic: bool = authentication_tag_matches(
            self.secret.as_slice(),
            &sealed.preimage(),
            &sealed.tag,
        );
        decide(sealed, authentic, now, guard)
    }
}

/// Unix seconds now, or zero if the clock predates the epoch.
///
/// Two readings of the clock may differ in any way, so nothing is claimed of
/// the number; what is made of one reading is stated by
/// [`clock::seconds_of`].
#[must_use]
pub fn unix_now() -> u64 {
    clock::seconds_of(clock::since_epoch())
}

} // verus!
