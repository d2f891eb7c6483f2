use hmac::{Hmac, Mac};
use openlogi_flow::clock::{nanos_of, seconds_of, since_epoch, SinceEpoch};
use openlogi_flow::config::Edge;
use openlogi_flow::flow::Handoff;
use openlogi_flow::fraction::EdgeFraction;
use openlogi_flow::seal::{decide, stamped, unix_now, ReplayGuard, Seal, SealError, Sealed, FRESHNESS};
use sha2::Sha256;

const NOW: u64 = 1_700_000_000;

fn fraction(value: f32) -> EdgeFraction {
    EdgeFraction::new(value.to_bits())
}

fn handoff() -> Handoff {
    Handoff {
        host: 2,
        left_through: Edge::Right,
        at: fraction(0.25),
    }
}

#[test]
fn a_sealed_handoff_opens_with_the_same_secret() {
    let seal = Seal::new("shared");
    let sealed = seal.seal(&handoff(), NOW, 1);
    let opened = seal
        .open(&sealed, NOW, &mut ReplayGuard::default())
        .expect("a freshly sealed handoff opens");
    assert_eq!(opened, handoff());
}

#[test]
fn a_different_secret_is_refused() {
    let sealed = Seal::new("shared").seal(&handoff(), NOW, 1);
    assert_eq!(
        Seal::new("other").open(&sealed, NOW, &mut ReplayGuard::default()),
        Err(SealError::BadSignature)
    );
}

#[test]
fn every_signed_field_is_covered_by_the_tag() {
    let seal = Seal::new("shared");
    let original = seal.seal(&handoff(), NOW, 1);
    for tampered in [
        Sealed {
            host: 0,
            ..original.clone()
        },
        Sealed {
            edge: Edge::Left.code(),
            ..original.clone()
        },
        Sealed {
            fraction_bits: 0.9_f32.to_bits(),
            ..original.clone()
        },
        Sealed {
            sent_at: NOW + 1,
            ..original.clone()
        },
        Sealed {
            nonce: 99,
            ..original.clone()
        },
    ] {
        assert_eq!(
            seal.open(&tampered, NOW, &mut ReplayGuard::default()),
            Err(SealError::BadSignature),
            "a changed field must invalidate the tag"
        );
    }
}

#[test]
fn an_old_handoff_is_stale_in_both_directions() {
    let seal = Seal::new("shared");
    let sealed = seal.seal(&handoff(), NOW, 1);
    assert_eq!(
        seal.open(&sealed, NOW + 31, &mut ReplayGuard::default()),
        Err(SealError::Stale)
    );
    // A peer whose clock runs ahead is equally untrusted.
    assert_eq!(
        seal.open(&sealed, NOW - 31, &mut ReplayGuard::default()),
        Err(SealError::Stale)
    );
    seal.open(&sealed, NOW + 29, &mut ReplayGuard::default())
        .expect("just inside the window is still fresh");
}

#[test]
fn the_same_handoff_cannot_be_replayed() {
    let seal = Seal::new("shared");
    let sealed = seal.seal(&handoff(), NOW, 7);
    let mut guard = ReplayGuard::default();
    seal.open(&sealed, NOW, &mut guard)
        .expect("the first delivery is accepted");
    assert_eq!(
        seal.open(&sealed, NOW, &mut guard),
        Err(SealError::Replayed)
    );
}

#[test]
fn a_forged_message_never_reaches_the_replay_guard() {
    // Order matters: an unauthenticated sender must not be able to fill
    // the guard, or refusing forgeries would become a denial of service.
    let seal = Seal::new("shared");
    let mut forged = seal.seal(&handoff(), NOW, 1);
    forged.tag[0] ^= 0xff;
    let mut guard = ReplayGuard::default();
    assert_eq!(
        seal.open(&forged, NOW, &mut guard),
        Err(SealError::BadSignature)
    );
    assert_eq!(guard.remembered(), 0);
}

#[test]
fn the_guard_forgets_nonces_older_than_the_window() {
    let seal = Seal::new("shared");
    let mut guard = ReplayGuard::default();
    seal.open(&seal.seal(&handoff(), NOW, 1), NOW, &mut guard)
        .expect("the first nonce is accepted");
    assert_eq!(guard.remembered(), 1);
    // Far enough later that the old nonce is no longer worth remembering.
    let later = NOW + 120;
    seal.open(&seal.seal(&handoff(), later, 2), later, &mut guard)
        .expect("a later nonce is accepted");
    assert_eq!(guard.remembered(), 1);
}

#[test]
fn an_unknown_edge_byte_is_refused_rather_than_guessed() {
    let seal = Seal::new("shared");
    let mut sealed = seal.seal(&handoff(), NOW, 1);
    sealed.edge = 9;
    // Re-sign so the failure is the edge, not the tampering.
    let resealed = Seal::new("shared").seal(
        &Handoff {
            host: sealed.host,
            left_through: Edge::Right,
            at: fraction(0.25),
        },
        NOW,
        1,
    );
    sealed.tag = resealed.tag;
    // The tag covers the edge byte, so a changed edge is a bad signature,
    // which is the stronger of the two refusals, and the point.
    assert_eq!(
        seal.open(&sealed, NOW, &mut ReplayGuard::default()),
        Err(SealError::BadSignature)
    );
}

fn reference_tag(secret: &[u8], message: &[u8]) -> [u8; 32] {
    let mut mac = <Hmac<Sha256> as Mac>::new_from_slice(secret).expect("any key will do");
    mac.update(message);
    mac.finalize().into_bytes().into()
}

#[test]
fn an_authentic_unknown_edge_is_refused_for_its_edge() {
    let seal = Seal::new("shared");
    let mut sealed = seal.seal(&handoff(), NOW, 1);
    sealed.edge = 9;
    sealed.tag = reference_tag(b"shared", &sealed.preimage());
    let mut guard = ReplayGuard::default();
    assert_eq!(
        seal.open(&sealed, NOW, &mut guard),
        Err(SealError::UnknownEdge)
    );
    // It proved itself, so its nonce is spent.
    assert_eq!(guard.remembered(), 1);
}

#[test]
fn the_tag_is_an_hmac_over_the_canonical_bytes() {
    let sealed = Seal::new("shared").seal(&handoff(), NOW, 0x0102_0304_0506_0708);
    let preimage = sealed.preimage();
    assert_eq!(
        preimage,
        [
            0x00, 0xf1, 0x53, 0x65, 0, 0, 0, 0, 8, 7, 6, 5, 4, 3, 2, 1, 2, 1, 0, 0, 0x80, 0x3e
        ]
    );
    assert_eq!(sealed.tag, reference_tag(b"shared", &preimage));
    assert_ne!(sealed.tag, reference_tag(b"other", &preimage));
}

#[test]
fn an_empty_or_long_secret_still_signs() {
    for secret in ["", "k", "a secret longer than one block of the hash: sixty-four bytes at least"] {
        let seal = Seal::new(secret);
        let sealed = seal.seal(&handoff(), NOW, 3);
        assert_eq!(sealed.tag, reference_tag(secret.as_bytes(), &sealed.preimage()));
        assert_eq!(seal.clone().open(&sealed, NOW, &mut ReplayGuard::default()), Ok(handoff()));
    }
}

#[test]
fn the_window_is_inclusive_on_both_sides() {
    let seal = Seal::new("shared");
    let sealed = seal.seal(&handoff(), NOW, 1);
    for now in [NOW - FRESHNESS, NOW + FRESHNESS] {
        assert_eq!(
            seal.open(&sealed, now, &mut ReplayGuard::default()),
            Ok(handoff())
        );
    }
}

#[test]
fn a_decision_depends_on_whether_the_tag_matched() {
    let sealed = stamped(&handoff(), NOW, 5, [0; 32]);
    let mut guard = ReplayGuard::default();
    assert_eq!(
        decide(&sealed, false, NOW, &mut guard),
        Err(SealError::BadSignature)
    );
    assert_eq!(decide(&sealed, true, NOW + 31, &mut guard), Err(SealError::Stale));
    assert_eq!(guard.remembered(), 0);
    assert_eq!(decide(&sealed, true, NOW, &mut guard), Ok(handoff()));
    assert_eq!(decide(&sealed, true, NOW, &mut guard), Err(SealError::Replayed));
    let unknown = Sealed {
        edge: 4,
        nonce: 6,
        ..sealed
    };
    assert_eq!(
        decide(&unknown, true, NOW, &mut guard),
        Err(SealError::UnknownEdge)
    );
    assert_eq!(guard.remembered(), 2);
}

#[test]
fn a_nonce_outlasts_other_arrivals_while_its_handoff_is_fresh() {
    let mut guard = ReplayGuard::default();
    let first = stamped(&handoff(), NOW + 20, 1, [0; 32]);
    assert!(decide(&first, true, NOW, &mut guard).is_ok());
    for nonce in 2..40 {
        let now = NOW + nonce;
        let other = stamped(&handoff(), now, nonce, [0; 32]);
        assert!(decide(&other, true, now, &mut guard).is_ok());
        assert_eq!(decide(&first, true, now, &mut guard), Err(SealError::Replayed));
    }
    assert_eq!(decide(&first, true, NOW + 51, &mut guard), Err(SealError::Stale));
}

#[test]
fn a_peers_fraction_is_clamped() {
    let mut sealed = stamped(&handoff(), NOW, 5, [0; 32]);
    sealed.fraction_bits = 7.5_f32.to_bits();
    let opened = decide(&sealed, true, NOW, &mut ReplayGuard::default()).expect("it is authentic");
    assert_eq!(opened.at, fraction(1.0));
}

#[test]
fn a_clock_before_the_epoch_reads_zero() {
    assert_eq!(seconds_of(None), 0);
    assert_eq!(nanos_of(None), 0);
}

#[test]
fn a_reading_is_counted_in_seconds_and_nanoseconds() {
    let reading = Some(SinceEpoch {
        seconds: 1_700_000_000,
        nanos: 123_456_789,
    });
    assert_eq!(seconds_of(reading), 1_700_000_000);
    assert_eq!(nanos_of(reading), 1_700_000_000_123_456_789);
    let far = Some(SinceEpoch {
        seconds: u64::MAX,
        nanos: 0,
    });
    assert_eq!(nanos_of(far), u64::MAX);
}

#[test]
fn a_seal_never_prints_its_secret() {
    assert_eq!(Seal::new("shared").debug_text(), "Seal(<secret>)");
    assert_eq!(Seal::new("other").debug_text(), "Seal(<secret>)");
}

#[test]
fn the_clock_reads_the_present() {
    let before = std::time::SystemTime::now()
        .duration_since(std::time::UNIX_EPOCH)
        .expect("the clock is past the epoch");
    let read = since_epoch().expect("the clock is past the epoch");
    let after = std::time::SystemTime::now()
        .duration_since(std::time::UNIX_EPOCH)
        .expect("the clock is past the epoch");
    let read_at = std::time::Duration::new(read.seconds, read.nanos);
    assert!(before <= read_at && read_at <= after);
    assert!(unix_now() >= before.as_secs());
}
