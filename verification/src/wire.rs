//! The bytes a sealed handoff travels as.
//!
//! A fixed 61-byte frame rather than a serializer: both ends must agree on it
//! across independent builds, and a length-prefixed self-describing format
//! would buy nothing here. Every field is a fixed-width integer, and the
//! preimage the signature covers is already laid out by hand.

use crate::little_endian;
use crate::seal::{Sealed, SealedView};
use crate::seal_laws;
use vstd::prelude::*;

verus! {

/// Magic prefix, so a stray connection is rejected before anything is parsed:
/// the letters `OLFL`.
pub const MAGIC: [u8; 4] = [0x4f, 0x4c, 0x46, 0x4c];

/// Frame version. A peer speaking another one is refused rather than guessed
/// at: the pointer is not a thing to move on a maybe.
pub const VERSION: u8 = 1;

/// Total size of one framed handoff.
pub const FRAME_LEN: usize = 61;

/// Why a received frame could not be read.
#[derive(Debug, Clone, Copy, PartialEq, Eq, Structural)]
pub enum FrameError {
    /// The frame is not the fixed length.
    Length,
    /// The magic prefix is absent: this is not one of our frames.
    Magic,
    /// The peer speaks a frame version this build does not.
    Version(u8),
}

/// The magic prefix.
pub open spec fn magic() -> Seq<u8> {
    seq![0x4fu8, 0x4cu8, 0x46u8, 0x4cu8]
}

/// A sealed handoff laid out: magic, version, signed fields, tag, and two
/// bytes of room.
pub open spec fn frame_of(sealed: SealedView) -> Seq<u8> {
    magic() + seq![VERSION] + sealed.preimage() + sealed.tag + seq![0u8, 0u8]
}

/// Why bytes are no frame, if they are none.
pub open spec fn frame_refusal(bytes: Seq<u8>) -> Option<FrameError> {
    if bytes.len() != FRAME_LEN {
        Some(FrameError::Length)
    } else if bytes.subrange(0, 4) != magic() {
        Some(FrameError::Magic)
    } else if bytes[4] != VERSION {
        Some(FrameError::Version(bytes[4]))
    } else {
        None
    }
}

/// What a frame holds.
pub open spec fn sealed_of(frame: Seq<u8>) -> SealedView {
    SealedView {
        sent_at: little_endian::number_of(frame.subrange(5, 13)) as u64,
        nonce: little_endian::number_of(frame.subrange(13, 21)) as u64,
        host: frame[21],
        edge: frame[22],
        fraction_bits: little_endian::number_of(frame.subrange(23, 27)) as u32,
        tag: frame.subrange(27, 59),
    }
}

/// Lay `sealed` out as bytes.
#[must_use]
pub fn encode(sealed: &Sealed) -> (frame: [u8; 61])
    ensures
        frame@ == frame_of(sealed@),
{
    let mut frame: [u8; 61] = [0; 61];
    frame[0] = MAGIC[0];
    frame[1] = MAGIC[1];
    frame[2] = MAGIC[2];
    frame[3] = MAGIC[3];
    frame[4] = VERSION;
    little_endian::put(&mut frame, 5, sealed.sent_at, 8);
    little_endian::put(&mut frame, 13, sealed.nonce, 8);
    frame[21] = sealed.host;
    frame[22] = sealed.edge;
    little_endian::put(&mut frame, 23, sealed.fraction_bits as u64, 4);
    let ghost head = frame@;
    let mut index: usize = 0;
    while index < 32
        invariant
            index <= 32,
            head.len() == 61,
            frame@ == little_endian::overwritten(head, 27, sealed.tag@.take(index as int)),
        decreases 32 - index,
    {
        frame[27 + index] = sealed.tag[index];
        index = index + 1;
        assert(frame@ =~= little_endian::overwritten(head, 27, sealed.tag@.take(index as int)));
    }
    // The last two bytes stay zero: room for a field that does not exist yet,
    // so adding one later does not have to move every offset above it.
    proof {
        little_endian::lemma_width(sealed.sent_at as nat, 8);
        little_endian::lemma_width(sealed.nonce as nat, 8);
        little_endian::lemma_width(sealed.fraction_bits as nat, 4);
        assert(frame@ =~= frame_of(sealed@));
    }
    frame
}

/// Read a frame back, checking only its shape: the signature is the seal's
/// business, and this must not decide anything a forged frame could influence.
pub fn decode(bytes: &[u8]) -> (decoded: Result<Sealed, FrameError>)
    ensures
        match decoded {
            Ok(sealed) => frame_refusal(bytes@) is None && sealed@ == sealed_of(bytes@),
            Err(error) => frame_refusal(bytes@) == Some(error),
        },
{
    if bytes.len() != FRAME_LEN {
        return Err(FrameError::Length);
    }
    let ours: bool = bytes[0] == MAGIC[0] && bytes[1] == MAGIC[1] && bytes[2] == MAGIC[2]
        && bytes[3] == MAGIC[3];
    proof {
        let prefix = bytes@.subrange(0, 4);
        if ours {
            assert(prefix =~= magic());
        } else {
            assert(prefix[0] != magic()[0] || prefix[1] != magic()[1] || prefix[2] != magic()[2]
                || prefix[3] != magic()[3]);
        }
    }
    if !ours {
        return Err(FrameError::Magic);
    }
    if bytes[4] != VERSION {
        return Err(FrameError::Version(bytes[4]));
    }
    let sent_at: u64 = little_endian::get(bytes, 5, 8);
    let nonce: u64 = little_endian::get(bytes, 13, 8);
    let fraction_bits: u64 = little_endian::get(bytes, 23, 4);
    let mut tag: [u8; 32] = [0; 32];
    let mut index: usize = 0;
    while index < 32
        invariant
            index <= 32,
            bytes@.len() == 61,
            forall|i: int| 0 <= i < index ==> tag@[i] == bytes@[27 + i],
        decreases 32 - index,
    {
        tag[index] = bytes[27 + index];
        index = index + 1;
    }
    proof {
        little_endian::law_bytes_survive_their_number(bytes@.subrange(23, 27));
        little_endian::lemma_widths();
        assert(tag@ =~= bytes@.subrange(27, 59));
    }
    Ok(
        Sealed {
            sent_at,
            nonce,
            host: bytes[21],
            edge: bytes[22],
            fraction_bits: fraction_bits as u32,
            tag,
        },
    )
}

/// Bytes are a frame exactly if there are 61 of them, they start with the
/// letters `OLFL` and the next byte is one. What fails first in that order is
/// the error.
pub proof fn law_a_frame_is_told_by_its_first_bytes(bytes: Seq<u8>)
    ensures
        ({
            let refusal = frame_refusal(bytes);
            let marked = bytes[0] == 0x4f && bytes[1] == 0x4c && bytes[2] == 0x46 && bytes[3]
                == 0x4c;
            &&& refusal == Some(FrameError::Length) <==> bytes.len() != 61
            &&& refusal == Some(FrameError::Magic) <==> bytes.len() == 61 && !marked
            &&& refusal == Some(FrameError::Version(bytes[4])) <==> bytes.len() == 61 && marked
                && bytes[4] != 1
            &&& refusal is None <==> bytes.len() == 61 && marked && bytes[4] == 1
        }),
{
    if bytes.len() == 61 {
        let prefix = bytes.subrange(0, 4);
        assert(prefix[0] == bytes[0] && prefix[1] == bytes[1] && prefix[2] == bytes[2] && prefix[3]
            == bytes[3]);
        if prefix == magic() {
            assert(magic()[0] == 0x4f && magic()[1] == 0x4c && magic()[2] == 0x46 && magic()[3]
                == 0x4c);
        } else if bytes[0] == 0x4f && bytes[1] == 0x4c && bytes[2] == 0x46 && bytes[3] == 0x4c {
            assert(prefix =~= magic());
        }
    }
}

/// Where a frame holds what: after the letters and the version the signed
/// bytes, then the tag, then two zeros.
pub proof fn law_a_frame_holds_signed_bytes_and_tag(sealed: SealedView)
    requires
        sealed.tag.len() == 32,
    ensures
        frame_of(sealed).len() == 61,
        frame_of(sealed).take(5) == seq![0x4fu8, 0x4cu8, 0x46u8, 0x4cu8, 1u8],
        frame_of(sealed).subrange(5, 27) == sealed.preimage(),
        frame_of(sealed).subrange(27, 59) == sealed.tag,
        frame_of(sealed).skip(59) == seq![0u8, 0u8],
{
    seal_laws::lemma_preimage_parts(sealed);
    let frame = frame_of(sealed);
    assert(frame.take(5) =~= seq![0x4fu8, 0x4cu8, 0x46u8, 0x4cu8, 1u8]);
    assert(frame.subrange(5, 27) =~= sealed.preimage());
    assert(frame.subrange(27, 59) =~= sealed.tag);
    assert(frame.skip(59) =~= seq![0u8, 0u8]);
}

/// What is read from a frame is what its bytes spell: the signed bytes are its
/// own bytes 5 to 26, the tag its bytes 27 to 58.
pub proof fn law_a_frame_is_read_as_its_bytes_spell(bytes: Seq<u8>)
    requires
        bytes.len() == 61,
    ensures
        sealed_of(bytes).preimage() == bytes.subrange(5, 27),
        sealed_of(bytes).tag == bytes.subrange(27, 59),
        sealed_of(bytes).host == bytes[21],
        sealed_of(bytes).edge == bytes[22],
{
    little_endian::lemma_widths();
    little_endian::law_bytes_survive_their_number(bytes.subrange(5, 13));
    little_endian::law_bytes_survive_their_number(bytes.subrange(13, 21));
    little_endian::law_bytes_survive_their_number(bytes.subrange(23, 27));
    assert(sealed_of(bytes).preimage() =~= bytes.subrange(5, 27));
}

/// Every field survives the frame: what was laid out is read back.
pub proof fn law_a_frame_round_trips_every_field(sealed: SealedView)
    requires
        sealed.tag.len() == 32,
    ensures
        frame_of(sealed).len() == FRAME_LEN,
        frame_refusal(frame_of(sealed)) is None,
        sealed_of(frame_of(sealed)) == sealed,
{
    let frame = frame_of(sealed);
    let signed = sealed.preimage();
    seal_laws::lemma_preimage_parts(sealed);
    assert(frame.subrange(0, 4) =~= magic());
    assert(frame.subrange(5, 13) =~= signed.subrange(0, 8));
    assert(frame.subrange(13, 21) =~= signed.subrange(8, 16));
    assert(frame[21] == signed[16] && frame[22] == signed[17]);
    assert(frame.subrange(23, 27) =~= signed.subrange(18, 22));
    assert(frame.subrange(27, 59) =~= sealed.tag);
}

/// A frame is laid out again as it was read, apart from the two bytes of room
/// at its end.
pub proof fn law_a_read_frame_is_laid_out_as_it_was(bytes: Seq<u8>)
    requires
        frame_refusal(bytes) is None,
    ensures
        frame_of(sealed_of(bytes)).take(59) == bytes.take(59),
        frame_of(sealed_of(bytes)).len() == FRAME_LEN,
{
    let sealed = sealed_of(bytes);
    let frame = frame_of(sealed);
    law_a_frame_is_read_as_its_bytes_spell(bytes);
    assert(bytes.take(59) =~= magic() + seq![VERSION] + bytes.subrange(5, 27) + bytes.subrange(
        27,
        59,
    )) by {
        assert(forall|i: int| 0 <= i < 4 ==> bytes[i] == #[trigger] bytes.subrange(0, 4)[i]);
    }
    assert(frame.take(59) =~= bytes.take(59));
}

} // verus!
