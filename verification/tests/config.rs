use openlogi_flow::config::{Edge, FlowConfig, FlowEdges, HostChannel};

#[test]
fn default_section_is_omitted_and_inert() {
    let config = FlowConfig::default();
    assert!(config.is_default());
    assert!(!config.is_active());
    assert!(config.edges.is_empty());
}

#[test]
fn enabled_without_edges_stays_inert() {
    let config = FlowConfig {
        enabled: true,
        ..FlowConfig::default()
    };
    assert!(!config.is_active());
}

#[test]
fn edges_map_to_hosts() {
    let edges = FlowEdges {
        left: Some(1),
        right: Some(3),
        ..FlowEdges::default()
    };
    assert_eq!(edges.host_for(Edge::Left), Some(1));
    assert_eq!(edges.host_for(Edge::Right), Some(3));
    assert_eq!(edges.host_for(Edge::Top), None);
    assert!(!edges.is_empty());
}

#[test]
fn poll_interval_survives_nonsense_rates() {
    let slowest = FlowConfig {
        poll_hz: 0,
        ..FlowConfig::default()
    };
    assert_eq!(slowest.poll_interval().as_micros(), 1_000_000);
    let fastest = FlowConfig {
        poll_hz: u16::MAX,
        ..FlowConfig::default()
    };
    assert!(fastest.poll_interval().as_micros() >= 4_166);
}

#[test]
fn the_default_rate_is_sixty_reads_a_second() {
    assert_eq!(FlowConfig::default().poll_interval().as_micros(), 16_666);
}

#[test]
fn any_edited_field_makes_the_section_worth_writing() {
    let factory = FlowConfig::default();
    let edges = FlowEdges {
        bottom: Some(2),
        ..FlowEdges::default()
    };
    for edited in [
        FlowConfig { enabled: true, ..factory },
        FlowConfig { edges, ..factory },
        FlowConfig { dwell_ms: 121, ..factory },
        FlowConfig { rebound_px: 9, ..factory },
        FlowConfig { cooldown_ms: 1501, ..factory },
        FlowConfig { poll_hz: 61, ..factory },
    ] {
        assert!(!edited.is_default());
    }
}

#[test]
fn an_enabled_section_with_an_edge_is_active() {
    let config = FlowConfig {
        enabled: true,
        edges: FlowEdges {
            top: Some(2),
            ..FlowEdges::default()
        },
        ..FlowConfig::default()
    };
    assert!(config.is_active());
}

#[test]
fn channels_count_from_one() {
    assert_eq!(HostChannel::new(0), None);
    let third = HostChannel::new(3).expect("three is a channel");
    assert_eq!(third.channel(), 3);
    assert_eq!(third.index(), 2);
}

#[test]
fn an_edge_set_to_zero_leads_nowhere() {
    let edges = FlowEdges {
        left: Some(0),
        right: Some(2),
        ..FlowEdges::default()
    };
    assert_eq!(edges.host_for(Edge::Left), Some(0));
    assert_eq!(edges.channel_for(Edge::Left), None);
    assert_eq!(edges.channel_for(Edge::Right), HostChannel::new(2));
    assert_eq!(edges.channel_for(Edge::Top), None);
}

#[test]
fn every_edge_has_its_own_wire_byte() {
    for edge in Edge::ALL {
        assert_eq!(Edge::from_code(edge.code()), Some(edge));
    }
    assert_eq!(Edge::from_code(9), None);
    assert_eq!(Edge::from_code(255), None);
}
