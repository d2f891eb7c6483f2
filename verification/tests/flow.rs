use openlogi_flow::config::Edge;
use openlogi_flow::flow::{opposite, Handoff};
use openlogi_flow::fraction::EdgeFraction;

fn fraction(value: f32) -> EdgeFraction {
    EdgeFraction::new(value.to_bits())
}

fn handoff(left_through: Edge, at: f32) -> Handoff {
    Handoff {
        host: 0,
        left_through,
        at: fraction(at),
    }
}

#[test]
fn leaving_one_side_arrives_on_the_other() {
    assert_eq!(opposite(Edge::Left), Edge::Right);
    assert_eq!(opposite(Edge::Right), Edge::Left);
    assert_eq!(opposite(Edge::Top), Edge::Bottom);
    assert_eq!(opposite(Edge::Bottom), Edge::Top);
}

#[test]
fn a_fraction_survives_a_resolution_change() {
    // Halfway down 1080p must land halfway down 1440p, not at pixel 540.
    let leaving = EdgeFraction::between(540, 0, 1079);
    assert_eq!(leaving.project(0, 1439), 720);
}

#[test]
fn the_ends_of_an_edge_stay_at_the_ends() {
    let top = EdgeFraction::between(0, 0, 1079);
    let bottom = EdgeFraction::between(1079, 0, 1079);
    assert_eq!(top.project(0, 1439), 0);
    assert_eq!(bottom.project(0, 1439), 1439);
}

#[test]
fn a_negative_origin_is_handled() {
    // Windows virtual screens can start left of zero.
    let middle = EdgeFraction::between(0, -1920, 1919);
    assert_eq!(middle.project(-1920, 1919), 0);
}

#[test]
fn hostile_fractions_are_clamped_not_trusted() {
    // Asserted through the projection so the check stays on integers: a
    // peer-supplied float is exactly the value not to compare exactly.
    assert_eq!(fraction(-5.0).project(0, 100), 0);
    assert_eq!(fraction(9.0).project(0, 100), 100);
    assert_eq!(fraction(f32::NAN).project(0, 100), 50);
    assert_eq!(fraction(f32::INFINITY).project(0, 100), 50);
    assert_eq!(fraction(f32::NEG_INFINITY).project(0, 100), 50);
}

#[test]
fn a_degenerate_span_does_not_divide_by_zero() {
    assert_eq!(EdgeFraction::between(10, 5, 5).project(0, 100), 50);
    assert_eq!(fraction(0.7).project(5, 5), 5);
}

#[test]
fn leaving_right_lands_on_the_left_edge_at_the_same_height() {
    let landing = handoff(Edge::Right, 0.25).landing((0, 0, 2559, 1439), 0);
    assert_eq!(landing, (0, 360));
}

#[test]
fn leaving_the_top_lands_on_the_bottom_at_the_same_width() {
    let landing = handoff(Edge::Top, 0.5).landing((0, 0, 1919, 1079), 0);
    assert_eq!(landing, (960, 1079));
}

#[test]
fn an_inset_keeps_the_arrival_clear_of_the_local_edge() {
    // Landing on the boundary pixel would make the arriving host's own edge
    // watcher fire and hand the pointer straight back.
    assert_eq!(
        handoff(Edge::Right, 0.25).landing((0, 0, 2559, 1439), 12),
        (12, 360)
    );
    assert_eq!(
        handoff(Edge::Left, 0.25).landing((0, 0, 2559, 1439), 12),
        (2547, 360)
    );
    assert_eq!(
        handoff(Edge::Top, 0.5).landing((0, 0, 1919, 1079), 12),
        (960, 1067)
    );
    assert_eq!(
        handoff(Edge::Bottom, 0.5).landing((0, 0, 1919, 1079), 12),
        (960, 12)
    );
}

#[test]
fn an_inset_never_overshoots_a_narrow_desktop() {
    // A silly inset must not push the pointer out the far side.
    let landing = handoff(Edge::Right, 0.5).landing((0, 0, 20, 20), 500);
    assert_eq!(landing, (10, 10));
}

#[test]
fn a_negative_inset_is_treated_as_none() {
    let landing = handoff(Edge::Right, 0.25).landing((0, 0, 2559, 1439), -50);
    assert_eq!(landing, (0, 360));
}

#[test]
fn landings_lie_on_the_desktop() {
    for edge in Edge::ALL {
        for step in 0..=20 {
            let at = step as f32 / 20.0;
            for inset in [-3, 0, 8, 4000] {
                let (x, y) = handoff(edge, at).landing((-1920, -200, 2559, 1439), inset);
                assert!((-1920..=2559).contains(&x));
                assert!((-200..=1439).contains(&y));
            }
        }
    }
}

#[test]
fn facing_edges_come_in_pairs() {
    for edge in Edge::ALL {
        assert_eq!(opposite(opposite(edge)), edge);
        assert_ne!(opposite(edge), edge);
    }
}

#[test]
fn both_zeros_are_the_same_place() {
    assert_eq!(fraction(-0.0), fraction(0.0));
    assert_eq!(fraction(-0.0).value(), 0x8000_0000);
    assert_eq!(handoff(Edge::Left, -0.0), handoff(Edge::Left, 0.0));
    assert_ne!(fraction(0.25), fraction(0.5));
    assert_ne!(handoff(Edge::Left, 0.0), handoff(Edge::Right, 0.0));
}
