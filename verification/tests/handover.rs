use openlogi_flow::config::{Edge, FlowConfig, FlowEdges};
use openlogi_flow::edge_switch::edge_at;
use openlogi_flow::flow::Handoff;
use openlogi_flow::fraction::EdgeFraction;
use openlogi_flow::listen::{
    addressed, landing_on, listening, receive, serve_step, Received, ServeEvent, ServeStep,
};
use openlogi_flow::pointer::{Bounds, Sample};
use openlogi_flow::seal::{ReplayGuard, Seal, SealError};
use openlogi_flow::send::{after_offer, first_offer, nonce, sealed_frame, Delivery};
use openlogi_flow::wire::{decode, FrameError};

const NOW: u64 = 1_700_000_000;

fn handoff() -> Handoff {
    Handoff {
        host: 2,
        left_through: Edge::Right,
        at: EdgeFraction::new(0.25_f32.to_bits()),
    }
}

#[test]
fn nonces_differ_between_calls() {
    // Two handoffs in the same second must not share a nonce, or the
    // second would be refused as a replay of the first.
    let first = nonce();
    let second = nonce();
    assert_ne!(first, second);
}

#[test]
fn a_sent_handoff_arrives() {
    let seal = Seal::new("shared");
    let frame = sealed_frame(&handoff(), &seal, NOW, 9);
    let mut guard = ReplayGuard::default();
    match receive(&frame, &Seal::new("shared"), Some(2), NOW + 1, &mut guard) {
        Received::Arrived(arrived) => assert_eq!(arrived, handoff()),
        other => panic!("{other:?}"),
    }
    assert_eq!(guard.remembered(), 1);
    match receive(&frame, &seal, Some(2), NOW + 2, &mut guard) {
        Received::Refused(error) => assert_eq!(error, SealError::Replayed),
        other => panic!("{other:?}"),
    }
}

#[test]
fn a_handoff_for_another_host_is_discarded() {
    let seal = Seal::new("shared");
    let frame = sealed_frame(&handoff(), &seal, NOW, 9);
    match receive(&frame, &seal, Some(0), NOW, &mut ReplayGuard::default()) {
        Received::Elsewhere { own, meant_for } => assert_eq!((own, meant_for), (0, 2)),
        other => panic!("{other:?}"),
    }
    // Not knowing our own slot is not fatal.
    assert!(matches!(
        receive(&frame, &seal, None, NOW, &mut ReplayGuard::default()),
        Received::Arrived(_)
    ));
}

#[test]
fn a_frame_that_is_none_is_rejected_before_the_seal() {
    let seal = Seal::new("shared");
    let mut guard = ReplayGuard::default();
    assert!(matches!(
        receive(&[1, 2, 3], &seal, None, NOW, &mut guard),
        Received::Rejected(FrameError::Length)
    ));
    let mut frame = sealed_frame(&handoff(), &seal, NOW, 9);
    frame[4] = 3;
    assert!(matches!(
        receive(&frame, &seal, None, NOW, &mut guard),
        Received::Rejected(FrameError::Version(3))
    ));
    assert_eq!(guard.remembered(), 0);
}

#[test]
fn a_refusal_is_passed_on() {
    assert!(matches!(
        addressed(Err(SealError::Stale), Some(1)),
        Received::Refused(SealError::Stale)
    ));
}

#[test]
fn a_sealed_frame_holds_the_handoff() {
    let seal = Seal::new("shared");
    let sealed = decode(&sealed_frame(&handoff(), &seal, NOW, 11)).expect("our own frame");
    assert_eq!(sealed, seal.seal(&handoff(), NOW, 11));
}

#[test]
fn no_secret_means_no_socket() {
    let config = FlowConfig::default();
    assert!(listening(None, 4242, &config).is_none());
    assert!(listening(Some(""), 4242, &config).is_none());
    let plan = listening(Some("shared"), 4242, &config).expect("a secret is configured");
    assert_eq!(plan.port, 4242);
    assert_eq!(plan.inset, 8);
    let sealed = Seal::new("shared").seal(&handoff(), NOW, 1);
    assert_eq!(
        plan.seal.open(&sealed, NOW, &mut ReplayGuard::default()),
        Ok(handoff())
    );
    assert_eq!(serve_step(ServeEvent::Read(false)), ServeStep::AwaitChange);
    assert_eq!(serve_step(ServeEvent::Read(true)), ServeStep::Bind);
}

#[test]
fn a_change_retires_the_socket() {
    assert_eq!(serve_step(ServeEvent::Bound(true)), ServeStep::Accept);
    assert_eq!(serve_step(ServeEvent::Bound(false)), ServeStep::AwaitChange);
    assert_eq!(serve_step(ServeEvent::Changed), ServeStep::Reread);
    assert_eq!(serve_step(ServeEvent::Closed), ServeStep::Stop);
    assert_eq!(serve_step(ServeEvent::Accepted(true)), ServeStep::Receive);
    assert_eq!(serve_step(ServeEvent::Accepted(false)), ServeStep::Reread);
    assert_eq!(serve_step(ServeEvent::Received), ServeStep::Accept);
}

#[test]
fn an_arriving_pointer_lands_clear_of_its_edge() {
    let bounds = Bounds::of_root_window(2560, 1440);
    assert_eq!(landing_on(&handoff(), bounds, 8), Some((8, 360)));
    let endless = Bounds {
        min_x: i32::MIN,
        min_y: 0,
        max_x: i32::MAX,
        max_y: 1439,
    };
    assert_eq!(landing_on(&handoff(), endless, 8), None);
}

#[test]
fn an_arrival_is_no_departure() {
    let config = FlowConfig {
        edges: FlowEdges {
            left: Some(1),
            right: Some(2),
            top: Some(3),
            bottom: Some(4),
        },
        ..FlowConfig::default()
    };
    for (width, height) in [(2560, 1440), (3, 3)] {
        let bounds = Bounds::of_root_window(width, height);
        for left_through in Edge::ALL {
            let arriving = Handoff {
                left_through,
                at: EdgeFraction::new(0.5_f32.to_bits()),
                ..handoff()
            };
            let (x, y) = landing_on(&arriving, bounds, 8).expect("a screen is measurable");
            assert_eq!(edge_at(Sample { x, y, bounds }, &config), None);
        }
    }
}

#[test]
fn the_first_success_wins() {
    let takes = [false, false, true, true];
    let mut offered = Vec::new();
    let mut delivery = first_offer(takes.len());
    while let Delivery::Offer(index) = delivery {
        offered.push(index);
        delivery = after_offer(index, takes[index], takes.len());
    }
    assert_eq!(offered, vec![0, 1, 2]);
    assert_eq!(delivery, Delivery::Taken);
}

#[test]
fn a_handoff_nobody_takes_is_abandoned() {
    assert_eq!(first_offer(0), Delivery::Abandoned);
    assert_eq!(first_offer(2), Delivery::Offer(0));
    assert_eq!(after_offer(0, false, 2), Delivery::Offer(1));
    assert_eq!(after_offer(1, false, 2), Delivery::Abandoned);
}
