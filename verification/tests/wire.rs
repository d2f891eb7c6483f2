use openlogi_flow::config::Edge;
use openlogi_flow::flow::Handoff;
use openlogi_flow::fraction::EdgeFraction;
use openlogi_flow::seal::{Seal, Sealed};
use openlogi_flow::wire::{decode, encode, FrameError, FRAME_LEN};

fn sealed() -> Sealed {
    Seal::new("shared").seal(
        &Handoff {
            host: 2,
            left_through: Edge::Right,
            at: EdgeFraction::new(0.25_f32.to_bits()),
        },
        1_700_000_000,
        42,
    )
}

#[test]
fn a_frame_round_trips_every_field() {
    let original = sealed();
    let decoded = decode(&encode(&original)).expect("our own frame decodes");
    assert_eq!(decoded, original);
}

#[test]
fn the_frame_is_the_documented_size() {
    assert_eq!(encode(&sealed()).len(), FRAME_LEN);
}

#[test]
fn a_short_or_long_frame_is_refused() {
    let frame = encode(&sealed());
    assert_eq!(decode(&frame[..FRAME_LEN - 1]), Err(FrameError::Length));
    let mut long = frame.to_vec();
    long.push(0);
    assert_eq!(decode(&long), Err(FrameError::Length));
    assert_eq!(decode(&[]), Err(FrameError::Length));
}

#[test]
fn something_that_is_not_our_frame_is_refused_before_parsing() {
    let mut frame = encode(&sealed());
    frame[0] = b'X';
    assert_eq!(decode(&frame), Err(FrameError::Magic));
}

#[test]
fn another_frame_version_is_refused_rather_than_guessed() {
    let mut frame = encode(&sealed());
    frame[4] = 2;
    assert_eq!(decode(&frame), Err(FrameError::Version(2)));
}

#[test]
fn decoding_never_validates_the_signature() {
    // Framing and authentication are separate jobs; a frame with a
    // worthless tag still decodes, and the seal is what rejects it.
    let mut original = sealed();
    original.tag = [0; 32];
    let decoded = decode(&encode(&original)).expect("shape is fine, tag is not");
    assert_eq!(decoded.tag, [0; 32]);
}

#[test]
fn the_layout_is_the_documented_one() {
    let mut tag = [0; 32];
    for (index, byte) in tag.iter_mut().enumerate() {
        *byte = 100 + index as u8;
    }
    let frame = encode(&Sealed {
        sent_at: 0x0102_0304_0506_0708,
        nonce: 0x1112_1314_1516_1718,
        host: 0x21,
        edge: 3,
        fraction_bits: 0x3132_3334,
        tag,
    });
    assert_eq!(&frame[0..4], b"OLFL");
    assert_eq!(frame[4], 1);
    assert_eq!(frame[5..13], [8, 7, 6, 5, 4, 3, 2, 1]);
    assert_eq!(
        frame[13..21],
        [0x18, 0x17, 0x16, 0x15, 0x14, 0x13, 0x12, 0x11]
    );
    assert_eq!(frame[21..23], [0x21, 3]);
    assert_eq!(frame[23..27], [0x34, 0x33, 0x32, 0x31]);
    assert_eq!(frame[27..59], tag);
    assert_eq!(frame[59..61], [0, 0]);
}

#[test]
fn a_read_frame_is_laid_out_as_it_was_but_for_its_room() {
    let mut frame = encode(&sealed());
    frame[59] = 7;
    frame[60] = 8;
    let again = encode(&decode(&frame).expect("the room is not looked at"));
    assert_eq!(again[..59], frame[..59]);
    assert_eq!(again[59..], [0, 0]);
}

#[test]
fn the_magic_is_checked_before_the_version() {
    let mut frame = encode(&sealed());
    frame[3] = b'X';
    frame[4] = 2;
    assert_eq!(decode(&frame), Err(FrameError::Magic));
}
