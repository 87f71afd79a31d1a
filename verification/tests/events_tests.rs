use std::time::Duration;

use davbox::events::{event_copies, keep_delivered, EventBus, Metrics, ServerEvent};

fn completed(path: &str, status: u16, bytes_in: u64, bytes_out: u64) -> ServerEvent {
    ServerEvent::RequestCompleted {
        method: "GET".to_string(),
        path: path.to_string(),
        status,
        bytes_in,
        bytes_out,
        duration: Duration::from_millis(3),
    }
}

#[test]
fn metrics_track_requests_and_clients() {
    let mut metrics = Metrics::new();
    metrics.apply(ServerEvent::ClientConnected { peer: "127.0.0.1:1234".to_string() });
    assert_eq!(metrics.active_requests(), 1);
    assert_eq!(metrics.total_connections(), 1);

    metrics.apply(ServerEvent::RequestCompleted {
        method: "GET".to_string(),
        path: "/hello.txt".to_string(),
        status: 200,
        bytes_in: 0,
        bytes_out: 11,
        duration: Duration::from_millis(3),
    });

    assert_eq!(metrics.active_requests(), 0);
    assert_eq!(metrics.total_requests(), 1);
    assert_eq!(metrics.total_bytes_out(), 11);
    assert_eq!(metrics.recent().count(), 1);
}

#[test]
fn activity_keeps_the_eight_newest_first() {
    let mut metrics = Metrics::new();
    for i in 0..10 {
        metrics.apply(completed(&format!("/f{i}"), 200, 1, 2));
    }
    let paths: Vec<String> = metrics.recent().map(|e| e.path.clone()).collect();
    assert_eq!(paths, vec!["/f9", "/f8", "/f7", "/f6", "/f5", "/f4", "/f3", "/f2"]);
    assert_eq!(metrics.total_requests(), 10);
    assert_eq!(metrics.total_bytes_in(), 10);
    assert_eq!(metrics.total_bytes_out(), 20);
}

#[test]
fn active_requests_never_go_below_zero() {
    let mut metrics = Metrics::new();
    metrics.apply(completed("/x", 200, 0, 0));
    assert_eq!(metrics.active_requests(), 0);
}

#[test]
fn server_stop_clears_active_requests() {
    let mut metrics = Metrics::new();
    metrics.apply(ServerEvent::ClientConnected { peer: "a".to_string() });
    metrics.apply(ServerEvent::ClientConnected { peer: "b".to_string() });
    metrics.apply(ServerEvent::ServerStopped);
    assert_eq!(metrics.active_requests(), 0);
    assert_eq!(metrics.total_connections(), 2);
}

#[test]
fn rate_window_sums_recent_traffic() {
    let mut metrics = Metrics::new();
    metrics.apply(completed("/a", 200, 100, 1000));
    metrics.apply(completed("/b", 200, 5, 50));
    assert_eq!(metrics.window_totals(), (105, 1050));
}

#[test]
fn samples_older_than_the_window_are_dropped() {
    let mut metrics = Metrics::new();
    metrics.apply_at(completed("/a", 200, 100, 1000), 0);
    metrics.apply_at(completed("/b", 200, 5, 50), 6_000_000_000);
    assert_eq!(metrics.window_totals(), (5, 50));
}

#[test]
fn event_bus_delivers_to_every_subscriber() {
    let mut bus = EventBus::new();
    let a = bus.subscribe();
    let b = bus.subscribe();
    bus.emit(ServerEvent::ServerStopped);
    assert!(matches!(a.try_recv(), Ok(ServerEvent::ServerStopped)));
    assert!(matches!(b.try_recv(), Ok(ServerEvent::ServerStopped)));
}

#[test]
fn event_bus_forgets_closed_subscribers() {
    let mut bus = EventBus::default();
    let a = bus.subscribe();
    drop(bus.subscribe());
    bus.emit(ServerEvent::ServerStopped);
    bus.emit(ServerEvent::ClientConnected { peer: "p".to_string() });
    assert!(matches!(a.try_recv(), Ok(ServerEvent::ServerStopped)));
    assert!(matches!(a.try_recv(), Ok(ServerEvent::ClientConnected { .. })));
}

#[test]
fn keep_delivered_keeps_flagged_senders_in_order() {
    let (a, ra) = std::sync::mpsc::channel();
    let (b, _rb) = std::sync::mpsc::channel();
    let (c, rc) = std::sync::mpsc::channel();
    let kept = keep_delivered(vec![a, b, c], &vec![true, false, true]);
    assert_eq!(kept.len(), 2);
    kept[0].send(ServerEvent::ServerStopped).unwrap();
    kept[1].send(ServerEvent::ServerStopped).unwrap();
    assert!(ra.try_recv().is_ok());
    assert!(rc.try_recv().is_ok());
}

#[test]
fn cloned_metrics_keep_the_activity() {
    let mut metrics = Metrics::new();
    metrics.apply(completed("/a", 200, 1, 2));
    metrics.apply(completed("/b", 404, 3, 4));
    let copy = metrics.clone();
    let paths: Vec<String> = copy.recent().map(|e| e.path.clone()).collect();
    assert_eq!(paths, vec!["/b", "/a"]);
    assert_eq!(copy.total_requests(), 2);
    assert_eq!(copy.window_totals(), metrics.window_totals());
}

#[test]
fn event_copies_repeat_the_event() {
    let copies = event_copies(&completed("/c", 201, 4, 5), 3);
    assert_eq!(copies.len(), 3);
    for copy in &copies {
        match copy {
            ServerEvent::RequestCompleted { method, path, status, bytes_in, bytes_out, duration } => {
                assert_eq!(method, "GET");
                assert_eq!(path, "/c");
                assert_eq!(*status, 201);
                assert_eq!((*bytes_in, *bytes_out), (4, 5));
                assert_eq!(*duration, Duration::from_millis(3));
            }
            _ => panic!("expected a completed request"),
        }
    }
    assert!(event_copies(&ServerEvent::ServerStopped, 0).is_empty());
}

#[test]
fn recent_requests_are_indexed_newest_first() {
    let mut metrics = Metrics::new();
    metrics.apply(completed("/a", 200, 1, 2));
    metrics.apply(completed("/b", 200, 1, 2));
    assert_eq!(metrics.recent_len(), 2);
    assert_eq!(metrics.recent_at(0).path, "/b");
    assert_eq!(metrics.recent_at(1).path, "/a");
}
