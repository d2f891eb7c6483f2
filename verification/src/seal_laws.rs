//! What holds of sealed handoffs whatever is sent.

use crate::config::Edge;
use crate::flow::Handoff;
use crate::fraction;
use crate::little_endian;
use crate::seal;
use crate::seal::{SealError, SealedView};
use vstd::arithmetic::power;
use vstd::prelude::*;

verus! {

/// A sealed handoff opens with the same secret: whoever shares it gets back
/// the handoff that was sealed, while the two clocks are within the window and
/// the nonce is new.
pub proof fn law_a_sealed_handoff_opens_with_the_same_secret(
    secret: Seq<u8>,
    handoff: Handoff,
    sent_at: u64,
    nonce: u64,
    now: u64,
    seen: Seq<(u64, u64)>,
)
    requires
        fraction::in_range(handoff.at.bits()),
        seal::within_window(sent_at, now),
        !seal::remembers(seal::still_fresh(seen, now), nonce),
    ensures
        ({
            let sealed = seal::sealed_view(handoff, sent_at, nonce, secret);
            let authentic = sealed.tag == seal::hmac_sha256(secret, sealed.preimage());
            &&& sealed.refusal(authentic, now, seen) is None
            &&& sealed.carries(handoff)
        }),
{
}

/// Two sealed handoffs with the same canonical bytes agree in every signed
/// field, so a change to any of them changes what the tag is computed over.
pub proof fn law_the_canonical_bytes_cover_every_signed_field(a: SealedView, b: SealedView)
    requires
        a.preimage() == b.preimage(),
    ensures
        a.sent_at == b.sent_at,
        a.nonce == b.nonce,
        a.host == b.host,
        a.edge == b.edge,
        a.fraction_bits == b.fraction_bits,
{
    lemma_preimage_parts(a);
    lemma_preimage_parts(b);
}

pub(crate) proof fn lemma_preimage_parts(sealed: SealedView)
    ensures
        ({
            let bytes = sealed.preimage();
            &&& bytes.len() == seal::PREIMAGE_LEN
            &&& bytes.subrange(0, 8) == little_endian::bytes_of(sealed.sent_at as nat, 8)
            &&& bytes.subrange(8, 16) == little_endian::bytes_of(sealed.nonce as nat, 8)
            &&& bytes.subrange(18, 22) == little_endian::bytes_of(sealed.fraction_bits as nat, 4)
            &&& little_endian::number_of(bytes.subrange(0, 8)) == sealed.sent_at
            &&& little_endian::number_of(bytes.subrange(8, 16)) == sealed.nonce
            &&& bytes[16] == sealed.host
            &&& bytes[17] == sealed.edge
            &&& little_endian::number_of(bytes.subrange(18, 22)) == sealed.fraction_bits
        }),
{
    let bytes = sealed.preimage();
    little_endian::lemma_width(sealed.sent_at as nat, 8);
    little_endian::lemma_width(sealed.nonce as nat, 8);
    little_endian::lemma_width(sealed.fraction_bits as nat, 4);
    little_endian::lemma_widths();
    little_endian::law_a_number_survives_its_bytes(sealed.sent_at as nat, 8);
    little_endian::law_a_number_survives_its_bytes(sealed.nonce as nat, 8);
    little_endian::law_a_number_survives_its_bytes(sealed.fraction_bits as nat, 4);
    assert(bytes.subrange(0, 8) =~= little_endian::bytes_of(sealed.sent_at as nat, 8));
    assert(bytes.subrange(8, 16) =~= little_endian::bytes_of(sealed.nonce as nat, 8));
    assert(bytes.subrange(18, 22) =~= little_endian::bytes_of(sealed.fraction_bits as nat, 4));
}

/// The canonical bytes in their order: send time, nonce, host, edge and
/// fraction, numbers with their least significant byte first.
pub proof fn law_the_canonical_bytes_in_their_order(sealed: SealedView, index: nat)
    ensures
        sealed.preimage().len() == 22,
        index < 8 ==> {
            let worth = power::pow(256, index);
            &&& sealed.preimage()[index as int] == sealed.sent_at as int / worth % 256
            &&& sealed.preimage()[8 + index as int] == sealed.nonce as int / worth % 256
        },
        sealed.preimage()[16] == sealed.host,
        sealed.preimage()[17] == sealed.edge,
        index < 4 ==> sealed.preimage()[18 + index as int] == sealed.fraction_bits as int / power::pow(
            256,
            index,
        ) % 256,
{
    lemma_preimage_parts(sealed);
    let bytes = sealed.preimage();
    if index < 8 {
        little_endian::law_the_least_significant_byte_comes_first(
            sealed.sent_at as nat,
            8,
            index,
        );
        little_endian::law_the_least_significant_byte_comes_first(sealed.nonce as nat, 8, index);
        assert(bytes[index as int] == bytes.subrange(0, 8)[index as int]);
        assert(bytes[8 + index as int] == bytes.subrange(8, 16)[index as int]);
    }
    if index < 4 {
        little_endian::law_the_least_significant_byte_comes_first(
            sealed.fraction_bits as nat,
            4,
            index,
        );
        assert(bytes[18 + index as int] == bytes.subrange(18, 22)[index as int]);
    }
}

/// A sealed handoff holds the handoff, its stamp and its nonce, and the tag of
/// its canonical bytes under the secret.
pub proof fn law_a_sealed_handoff_holds_what_was_sealed(
    handoff: Handoff,
    sent_at: u64,
    nonce: u64,
    secret: Seq<u8>,
)
    ensures
        ({
            let sealed = seal::sealed_view(handoff, sent_at, nonce, secret);
            &&& sealed.sent_at == sent_at
            &&& sealed.nonce == nonce
            &&& sealed.host == handoff.host
            &&& sealed.fraction_bits == handoff.at.bits()
            &&& sealed.edge == match handoff.left_through {
                Edge::Left => 0u8,
                Edge::Right => 1u8,
                Edge::Top => 2u8,
                Edge::Bottom => 3u8,
            }
            &&& sealed.tag == seal::hmac_sha256(secret, sealed.preimage())
        }),
{
}

/// What a sealed handoff carries is read from its own fields: the host as it
/// stands, the edge by its byte, and the fraction pulled into range.
pub proof fn law_a_carried_handoff_is_read_from_its_fields(sealed: SealedView, handoff: Handoff)
    requires
        sealed.carries(handoff),
    ensures
        handoff.host == sealed.host,
        handoff.left_through == Edge::Left <==> sealed.edge == 0,
        handoff.left_through == Edge::Right <==> sealed.edge == 1,
        handoff.left_through == Edge::Top <==> sealed.edge == 2,
        handoff.left_through == Edge::Bottom <==> sealed.edge == 3,
        fraction::in_range(sealed.fraction_bits) ==> handoff.at.bits() == sealed.fraction_bits,
        handoff.at.bits() == fraction::clamped(sealed.fraction_bits),
{
}

/// A handoff is acted on exactly if its tag matches, it was sent within half a
/// minute of now, no handoff with its nonce and a stamp within half a minute of
/// now got through before, and its edge byte names an edge. What fails first in
/// that order is the error.
pub proof fn law_a_handoff_must_prove_itself(
    sealed: SealedView,
    authentic: bool,
    now: u64,
    seen: Seq<(u64, u64)>,
)
    ensures
        ({
            let refusal = sealed.refusal(authentic, now, seen);
            let fresh = -30 <= now - sealed.sent_at <= 30;
            let used = exists|i: int|
                0 <= i < seen.len() && (#[trigger] seen[i]).0 == sealed.nonce && -30 <= now
                    - seen[i].1 <= 30;
            &&& refusal == Some(SealError::BadSignature) <==> !authentic
            &&& refusal == Some(SealError::Stale) <==> authentic && !fresh
            &&& refusal == Some(SealError::Replayed) <==> authentic && fresh && used
            &&& refusal == Some(SealError::UnknownEdge) <==> authentic && fresh && !used
                && sealed.edge > 3
            &&& refusal is None <==> authentic && fresh && !used && sealed.edge <= 3
        }),
{
    lemma_used_nonces(seen, sealed.nonce, now);
}

/// A guard that a genuine, fresh handoff reaches keeps of what it remembered
/// exactly what was stamped within half a minute of now, and adds the handoff's
/// nonce unless it has it. Any other message leaves it as it was.
pub proof fn law_the_guard_remembers_what_got_through(
    sealed: SealedView,
    authentic: bool,
    now: u64,
    seen: Seq<(u64, u64)>,
    entry: (u64, u64),
)
    ensures
        ({
            let after = sealed.remembered_after(authentic, now, seen);
            let fresh = -30 <= now - sealed.sent_at <= 30;
            let used = exists|i: int|
                0 <= i < seen.len() && (#[trigger] seen[i]).0 == sealed.nonce && -30 <= now
                    - seen[i].1 <= 30;
            &&& !authentic || !fresh ==> after == seen
            &&& authentic && fresh ==> (after.contains(entry) <==> (seen.contains(entry) && -30
                <= now - entry.1 <= 30) || (!used && entry == (sealed.nonce, sealed.sent_at)))
        }),
{
    lemma_used_nonces(seen, sealed.nonce, now);
    let kept = seal::still_fresh(seen, now);
    let after = sealed.remembered_after(authentic, now, seen);
    let wanted = |entry: (u64, u64)| seal::within_window(entry.1, now);
    broadcast use vstd::seq_lib::group_filter_ensures;

    if authentic && sealed.is_fresh(now) {
        if kept.contains(entry) {
            let k = choose|k: int| 0 <= k < kept.len() && kept[k] == entry;
            assert(wanted(kept[k]));
            seen.lemma_filter_contains_rev(wanted, entry);
            assert(after[k] == entry);
        } else if seen.contains(entry) && seal::within_window(entry.1, now) {
            lemma_an_entry_stays_fresh(seen, entry, now);
        }
        if !seal::remembers(kept, sealed.nonce) {
            assert(after[kept.len() as int] == (sealed.nonce, sealed.sent_at));
        }
        if after.contains(entry) {
            let k = choose|k: int| 0 <= k < after.len() && after[k] == entry;
            if k < kept.len() {
                assert(kept[k] == entry);
            }
        }
    }
}

proof fn lemma_used_nonces(seen: Seq<(u64, u64)>, nonce: u64, now: u64)
    ensures
        seal::remembers(seal::still_fresh(seen, now), nonce) <==> exists|i: int|
            0 <= i < seen.len() && (#[trigger] seen[i]).0 == nonce && -30 <= now - seen[i].1 <= 30,
{
    let kept = seal::still_fresh(seen, now);
    let wanted = |entry: (u64, u64)| seal::within_window(entry.1, now);
    broadcast use vstd::seq_lib::group_filter_ensures;

    if seal::remembers(kept, nonce) {
        let k = choose|k: int| 0 <= k < kept.len() && (#[trigger] kept[k]).0 == nonce;
        assert(wanted(kept[k]));
        seen.lemma_filter_contains_rev(wanted, kept[k]);
        let i = choose|i: int| 0 <= i < seen.len() && seen[i] == kept[k];
        assert(seen[i].0 == nonce);
    }
    if exists|i: int|
        0 <= i < seen.len() && (#[trigger] seen[i]).0 == nonce && -30 <= now - seen[i].1 <= 30 {
        let i = choose|i: int|
            0 <= i < seen.len() && (#[trigger] seen[i]).0 == nonce && -30 <= now - seen[i].1 <= 30;
        assert(seen.contains(seen[i]));
        lemma_an_entry_stays_fresh(seen, seen[i], now);
        let k = choose|k: int| 0 <= k < kept.len() && kept[k] == seen[i];
        assert(kept[k].0 == nonce);
    }
}

/// A forged message is refused as such whatever else is wrong with it, and
/// never reaches the replay guard. Nor does a stale one.
pub proof fn law_a_forged_message_never_reaches_the_guard(
    sealed: SealedView,
    now: u64,
    seen: Seq<(u64, u64)>,
)
    ensures
        sealed.refusal(false, now, seen) == Some(SealError::BadSignature),
        sealed.remembered_after(false, now, seen) == seen,
        !sealed.is_fresh(now) ==> sealed.refusal(true, now, seen) == Some(SealError::Stale)
            && sealed.remembered_after(true, now, seen) == seen,
{
}

/// A message is as stale from the future as it is from the past.
pub proof fn law_the_window_lies_on_both_sides(stamped: u64, now: u64)
    ensures
        seal::within_window(stamped, now) == seal::within_window(now, stamped),
        seal::within_window(now, now),
{
}

/// After an accept the guard remembers only nonces whose handoffs were sent
/// within the window, and the nonce just offered, if that was fresh.
pub proof fn law_the_guard_forgets_what_is_older_than_the_window(
    seen: Seq<(u64, u64)>,
    nonce: u64,
    sent_at: u64,
    now: u64,
    i: int,
)
    requires
        seal::within_window(sent_at, now),
        0 <= i < seal::after_accept(seen, nonce, sent_at, now).len(),
    ensures
        seal::within_window(seal::after_accept(seen, nonce, sent_at, now)[i].1, now),
{
    broadcast use vstd::seq_lib::group_filter_ensures;
}

/// An accept lets the guard grow by at most one nonce.
pub proof fn law_the_guard_grows_by_at_most_one(
    seen: Seq<(u64, u64)>,
    nonce: u64,
    sent_at: u64,
    now: u64,
)
    ensures
        seal::after_accept(seen, nonce, sent_at, now).len() <= seen.len() + 1,
{
    seen.lemma_filter_len(|entry: (u64, u64)| seal::within_window(entry.1, now));
}

/// Whether no nonce is remembered twice.
pub open spec fn nonces_distinct(seen: Seq<(u64, u64)>) -> bool {
    forall|i: int, j: int|
        0 <= i < j < seen.len() ==> (#[trigger] seen[i]).0 != (#[trigger] seen[j]).0
}

/// The guard never remembers a nonce twice.
pub proof fn law_remembered_nonces_stay_distinct(
    seen: Seq<(u64, u64)>,
    nonce: u64,
    sent_at: u64,
    now: u64,
)
    requires
        nonces_distinct(seen),
    ensures
        nonces_distinct(seal::after_accept(seen, nonce, sent_at, now)),
{
    let kept = seal::still_fresh(seen, now);
    lemma_filter_keeps_distinct(seen, |entry: (u64, u64)| seal::within_window(entry.1, now));
    if !seal::remembers(kept, nonce) {
        let after = seal::after_accept(seen, nonce, sent_at, now);
        assert forall|i: int, j: int| 0 <= i < j < after.len() implies (#[trigger] after[i]).0 != (
        #[trigger] after[j]).0 by {
            assert(after[i] == kept[i]);
            if j < kept.len() {
                assert(after[j] == kept[j]);
            }
        }
    }
}

proof fn lemma_filter_keeps_distinct(seen: Seq<(u64, u64)>, wanted: spec_fn((u64, u64)) -> bool)
    requires
        nonces_distinct(seen),
    ensures
        nonces_distinct(seen.filter(wanted)),
    decreases seen.len(),
{
    reveal(Seq::filter);
    if seen.len() > 0 {
        let front = seen.drop_last();
        lemma_filter_keeps_distinct(front, wanted);
        if wanted(seen.last()) {
            let kept = front.filter(wanted);
            let all = seen.filter(wanted);
            assert forall|i: int, j: int| 0 <= i < j < all.len() implies (#[trigger] all[i]).0 != (
            #[trigger] all[j]).0 by {
                assert(all[i] == kept[i]);
                if j < kept.len() {
                    assert(all[j] == kept[j]);
                } else {
                    front.lemma_filter_contains_rev(wanted, kept[i]);
                    let k = choose|k: int| 0 <= k < front.len() && front[k] == kept[i];
                    assert(seen[k] == kept[i]);
                    assert(seen[seen.len() - 1].0 != seen[k].0);
                }
            }
        }
    }
}

/// One received message: what it holds, whether its tag matches, and when it
/// is looked at.
pub struct Offer {
    pub sealed: SealedView,
    pub authentic: bool,
    pub now: u64,
}

/// What a guard remembers after a run of received messages.
pub open spec fn after_offers(seen: Seq<(u64, u64)>, offers: Seq<Offer>) -> Seq<(u64, u64)>
    decreases offers.len(),
{
    if offers.len() == 0 {
        seen
    } else {
        let last = offers.last();
        last.sealed.remembered_after(
            last.authentic,
            last.now,
            after_offers(seen, offers.drop_last()),
        )
    }
}

/// A handoff cannot be replayed. Once it has reached the guard, whatever else
/// arrives in between, offering it again is refused: as a replay while it is
/// fresh, and as stale after that. The clock must not go back meanwhile.
pub proof fn law_the_same_handoff_cannot_be_replayed(
    sealed: SealedView,
    first: u64,
    between: Seq<Offer>,
    again: u64,
    seen: Seq<(u64, u64)>,
)
    requires
        sealed.refusal(true, first, seen) is None || sealed.refusal(true, first, seen) == Some(
            SealError::UnknownEdge,
        ),
        first <= again,
        forall|i: int|
            0 <= i < between.len() ==> first <= (#[trigger] between[i]).now <= again,
    ensures
        sealed.refusal(
            true,
            again,
            after_offers(sealed.remembered_after(true, first, seen), between),
        ) == if sealed.is_fresh(again) {
            Some(SealError::Replayed)
        } else {
            Some(SealError::Stale)
        },
{
    if sealed.is_fresh(again) {
        let after_first = sealed.remembered_after(true, first, seen);
        let entry = (sealed.nonce, sealed.sent_at);
        assert(after_first.last() == entry);
        assert(after_first.contains(entry));
        lemma_an_entry_outlasts_offers(after_first, entry, between);
        let later = after_offers(after_first, between);
        lemma_an_entry_stays_fresh(later, entry, again);
        let kept = seal::still_fresh(later, again);
        let i = choose|i: int| 0 <= i < kept.len() && kept[i] == entry;
        assert(kept[i].0 == sealed.nonce);
    }
}

proof fn lemma_an_entry_stays_fresh(seen: Seq<(u64, u64)>, entry: (u64, u64), now: u64)
    requires
        seen.contains(entry),
        seal::within_window(entry.1, now),
    ensures
        seal::still_fresh(seen, now).contains(entry),
{
    let wanted = |entry: (u64, u64)| seal::within_window(entry.1, now);
    let i = choose|i: int| 0 <= i < seen.len() && seen[i] == entry;
    broadcast use vstd::seq_lib::group_filter_ensures;
    assert(wanted(seen[i]));
}

proof fn lemma_an_entry_outlasts_offers(
    seen: Seq<(u64, u64)>,
    entry: (u64, u64),
    offers: Seq<Offer>,
)
    requires
        seen.contains(entry),
        forall|i: int|
            0 <= i < offers.len() ==> seal::within_window(entry.1, (#[trigger] offers[i]).now),
    ensures
        after_offers(seen, offers).contains(entry),
    decreases offers.len(),
{
    if offers.len() > 0 {
        let front = offers.drop_last();
        let last = offers.last();
        assert forall|i: int| 0 <= i < front.len() implies seal::within_window(
            entry.1,
            (#[trigger] front[i]).now,
        ) by {
            assert(front[i] == offers[i]);
        }
        lemma_an_entry_outlasts_offers(seen, entry, front);
        let before = after_offers(seen, front);
        assert(offers[offers.len() - 1] == last);
        lemma_an_entry_stays_fresh(before, entry, last.now);
        let kept = seal::still_fresh(before, last.now);
        let i = choose|i: int| 0 <= i < kept.len() && kept[i] == entry;
        let after = last.sealed.remembered_after(last.authentic, last.now, before);
        if last.authentic && last.sealed.is_fresh(last.now) {
            assert(after[i] == entry);
        }
    }
}

} // verus!
