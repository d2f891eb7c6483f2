use openlogi_flow::config::{Edge, FlowConfig, FlowEdges, HostChannel};
use openlogi_flow::edge_switch::{can_rebound, edge_at, rebound_to, EdgeTracker, MILLISECOND};
use openlogi_flow::edge_watch::{Crossing, EdgeWatcher, WatchStep};
use openlogi_flow::pointer::{Bounds, Sample};

const START: u64 = 5_000_000_000;

fn after(millis: u64) -> u64 {
    START + millis * MILLISECOND
}

fn channel(value: u8) -> HostChannel {
    HostChannel::new(value).expect("test channels are 1-based and non-zero")
}

const BOUNDS: Bounds = Bounds {
    min_x: 0,
    min_y: 0,
    max_x: 1919,
    max_y: 1079,
};

fn config() -> FlowConfig {
    FlowConfig {
        enabled: true,
        edges: FlowEdges {
            left: Some(1),
            right: Some(3),
            ..FlowEdges::default()
        },
        dwell_ms: 100,
        cooldown_ms: 1000,
        ..FlowConfig::default()
    }
}

fn at(x: i32, y: i32) -> Sample {
    Sample {
        x,
        y,
        bounds: BOUNDS,
    }
}

#[test]
fn only_configured_edges_report_contact() {
    let config = config();
    assert_eq!(edge_at(at(0, 500), &config), Some(Edge::Left));
    assert_eq!(edge_at(at(1919, 500), &config), Some(Edge::Right));
    // Top is unset, so touching it is not an edge at all.
    assert_eq!(edge_at(at(900, 0), &config), None);
    assert_eq!(edge_at(at(900, 500), &config), None);
}

#[test]
fn dwell_must_elapse_before_switching() {
    let config = config();
    let mut tracker = EdgeTracker::default();
    assert_eq!(tracker.observe(START, Some(Edge::Right), &config), None);
    assert_eq!(tracker.observe(after(50), Some(Edge::Right), &config), None);
    assert_eq!(
        tracker.observe(after(120), Some(Edge::Right), &config),
        Some((Edge::Right, channel(3)))
    );
}

#[test]
fn leaving_the_edge_restarts_the_dwell() {
    let config = config();
    let mut tracker = EdgeTracker::default();
    assert_eq!(tracker.observe(START, Some(Edge::Right), &config), None);
    assert_eq!(tracker.observe(after(50), None, &config), None);
    // Back on the edge at 60ms: the original 50ms of dwell must not count.
    assert_eq!(tracker.observe(after(60), Some(Edge::Right), &config), None);
    assert_eq!(tracker.observe(after(120), Some(Edge::Right), &config), None);
    assert_eq!(
        tracker.observe(after(170), Some(Edge::Right), &config),
        Some((Edge::Right, channel(3)))
    );
}

#[test]
fn switching_edges_restarts_the_dwell() {
    let config = config();
    let mut tracker = EdgeTracker::default();
    assert_eq!(tracker.observe(START, Some(Edge::Right), &config), None);
    assert_eq!(tracker.observe(after(90), Some(Edge::Left), &config), None);
    // 110ms total, but only 20ms on the left edge.
    assert_eq!(tracker.observe(after(110), Some(Edge::Left), &config), None);
    assert_eq!(
        tracker.observe(after(200), Some(Edge::Left), &config),
        Some((Edge::Left, channel(1)))
    );
}

#[test]
fn cooldown_suppresses_a_held_edge() {
    let config = config();
    let mut tracker = EdgeTracker::default();
    tracker.observe(START, Some(Edge::Right), &config);
    assert_eq!(
        tracker.observe(after(100), Some(Edge::Right), &config),
        Some((Edge::Right, channel(3)))
    );
    // Holding against the edge through the cooldown must not fire again.
    // The switch landed at 100ms, so the cooldown runs to 1100ms.
    assert_eq!(tracker.observe(after(600), Some(Edge::Right), &config), None);
    assert_eq!(tracker.observe(after(1_050), Some(Edge::Right), &config), None);
    // Past the cooldown a still-parked pointer owes a full fresh dwell,
    // so this contact only re-arms the timer.
    assert_eq!(tracker.observe(after(1_200), Some(Edge::Right), &config), None);
    assert_eq!(
        tracker.observe(after(1_310), Some(Edge::Right), &config),
        Some((Edge::Right, channel(3)))
    );
}

#[test]
fn rebound_pulls_inward_off_each_edge() {
    let config = FlowConfig {
        rebound_px: 10,
        ..config()
    };
    assert_eq!(rebound_to(at(0, 500), Edge::Left, &config), (10, 500));
    assert_eq!(rebound_to(at(1919, 500), Edge::Right, &config), (1909, 500));
    assert_eq!(rebound_to(at(900, 0), Edge::Top, &config), (900, 10));
    assert_eq!(
        rebound_to(at(900, 1079), Edge::Bottom, &config),
        (900, 1069)
    );
}

#[test]
fn a_corner_belongs_to_the_side_edges_first() {
    let config = FlowConfig {
        edges: FlowEdges {
            left: Some(1),
            right: Some(2),
            top: Some(3),
            bottom: Some(4),
        },
        ..config()
    };
    assert_eq!(edge_at(at(0, 0), &config), Some(Edge::Left));
    assert_eq!(edge_at(at(1919, 1079), &config), Some(Edge::Right));
    assert_eq!(edge_at(at(900, -1), &config), Some(Edge::Top));
    assert_eq!(edge_at(at(900, 2000), &config), Some(Edge::Bottom));
}

#[test]
fn no_dwell_crosses_at_once() {
    let config = FlowConfig {
        dwell_ms: 0,
        ..config()
    };
    let mut tracker = EdgeTracker::default();
    assert_eq!(
        tracker.observe(START, Some(Edge::Left), &config),
        Some((Edge::Left, channel(1)))
    );
}

#[test]
fn an_edge_without_a_host_is_never_crossed() {
    let mut tracker = EdgeTracker::default();
    assert_eq!(tracker.observe(START, Some(Edge::Top), &config()), None);
    assert_eq!(tracker.observe(after(5_000), Some(Edge::Top), &config()), None);
}

#[test]
fn a_reset_forfeits_the_dwell_but_not_the_cooldown() {
    let config = config();
    let mut tracker = EdgeTracker::default();
    tracker.observe(START, Some(Edge::Right), &config);
    tracker.reset();
    assert_eq!(tracker.observe(after(100), Some(Edge::Right), &config), None);
    assert!(tracker.observe(after(200), Some(Edge::Right), &config).is_some());
    let cooling = tracker.cooldown_until;
    tracker.reset();
    assert_eq!(tracker.cooldown_until, cooling);
    assert_eq!(cooling, Some(after(1_200)));
}

#[test]
fn a_held_pointer_crosses_once_per_cooldown_and_dwell() {
    let config = config();
    let mut tracker = EdgeTracker::default();
    let mut crossings = Vec::new();
    for millis in 0..4_000 {
        if tracker.observe(after(millis), Some(Edge::Right), &config).is_some() {
            crossings.push(millis);
        }
    }
    assert_eq!(crossings, vec![100, 1_200, 2_300, 3_400]);
}

#[test]
fn a_rebound_leaves_the_edge() {
    let config = config();
    for edge in [Edge::Left, Edge::Right] {
        let (x, y) = rebound_to(at(0, 500), edge, &config);
        assert_eq!(edge_at(at(x, y), &config), None);
    }
}

#[test]
fn a_rebound_past_the_last_coordinate_is_noticed() {
    let mut sample = at(0, 0);
    sample.bounds.min_x = i32::MAX - 3;
    assert!(!can_rebound(sample, Edge::Left, &config()));
    assert!(can_rebound(sample, Edge::Right, &config()));
    sample.bounds.max_y = i32::MIN + 7;
    assert!(!can_rebound(sample, Edge::Bottom, &config()));
    assert!(can_rebound(sample, Edge::Top, &config()));
}

#[test]
fn an_inert_section_parks_the_watcher_and_drops_the_pointer() {
    let mut watcher = EdgeWatcher::new();
    let config = config();
    assert_eq!(watcher.begin(&config), WatchStep::Connect);
    assert_eq!(watcher.on_connect(true), WatchStep::Read);
    assert_eq!(watcher.begin(&config), WatchStep::Read);
    watcher.on_read(Some(at(1919, 5)), START, &config);
    assert!(watcher.tracker.contact.is_some());
    let off = FlowConfig {
        enabled: false,
        ..config
    };
    assert_eq!(watcher.begin(&off), WatchStep::Park);
    assert!(!watcher.connected);
    assert!(watcher.tracker.contact.is_none());
}

#[test]
fn a_pointer_that_cannot_be_opened_parks_the_watcher() {
    let mut watcher = EdgeWatcher::new();
    assert_eq!(watcher.on_connect(false), WatchStep::Park);
    assert_eq!(watcher, EdgeWatcher::default());
}

#[test]
fn a_failed_read_reconnects_and_forfeits_the_dwell() {
    let mut watcher = EdgeWatcher::new();
    let config = config();
    watcher.on_connect(true);
    watcher.on_read(Some(at(1919, 5)), START, &config);
    assert_eq!(watcher.on_read(None, after(50), &config), None);
    assert_eq!(watcher.begin(&config), WatchStep::Connect);
    assert!(watcher.tracker.contact.is_none());
}

#[test]
fn a_crossing_names_the_host_and_the_rebound() {
    let mut watcher = EdgeWatcher::new();
    let config = config();
    watcher.on_connect(true);
    assert_eq!(watcher.on_read(Some(at(1919, 5)), START, &config), None);
    assert_eq!(
        watcher.on_read(Some(at(1919, 77)), after(100), &config),
        Some(Crossing {
            edge: Edge::Right,
            host: channel(3),
            rebound: (1911, 77),
        })
    );
}
