use videoinfo::notifier::{stream_step, StreamAction, StreamEvent, StreamState, IDLE_TIMEOUT_SECS};

#[test]
fn cached_file_streams_snapshot_then_closes() {
    let (mut s, a) = stream_step(StreamState::Checking, StreamEvent::Looked { cached: true });
    assert_eq!(s, StreamState::Snapshot);
    assert!(matches!(a, StreamAction::StartWalk));
    let mut sent = Vec::new();
    let (s2, a) = stream_step(s, StreamEvent::Walked { is_file: false, path: "/out/m/png".to_string() });
    s = s2;
    assert!(matches!(a, StreamAction::Skip));
    for i in 1..=25 {
        let path = format!("/out/m/png/{:04}.png", i);
        let (s2, a) = stream_step(s, StreamEvent::Walked { is_file: true, path });
        s = s2;
        if let StreamAction::Emit(p) = a {
            sent.push(p);
        }
    }
    let (s2, a) = stream_step(s, StreamEvent::WalkEnded);
    assert_eq!(s2, StreamState::Closed);
    assert!(matches!(a, StreamAction::Close));
    assert_eq!(sent.len(), 25);
    assert_eq!(sent[0], "/out/m/png/0001.png");
    assert_eq!(sent[24], "/out/m/png/0025.png");
}

#[test]
fn uncached_file_streams_creations_until_idle() {
    assert_eq!(IDLE_TIMEOUT_SECS, 10);
    let (mut s, a) = stream_step(StreamState::Checking, StreamEvent::Looked { cached: false });
    assert_eq!(s, StreamState::Generating);
    assert!(matches!(a, StreamAction::StartGenerationAndWatch));
    let mut sent = Vec::new();
    let events = vec![
        StreamEvent::Watched { created: true, path: "/out/m/png/0001.png".to_string() },
        StreamEvent::Watched { created: false, path: "/out/m/png/0001.png".to_string() },
        StreamEvent::Watched { created: true, path: "/out/m/png/0002.png".to_string() },
    ];
    for e in events {
        let (s2, a) = stream_step(s, e);
        s = s2;
        if let StreamAction::Emit(p) = a {
            sent.push(p);
        }
    }
    let (s2, a) = stream_step(s, StreamEvent::IdleTimeout);
    assert_eq!(s2, StreamState::Closed);
    assert!(matches!(a, StreamAction::UnwatchAndClose));
    assert_eq!(sent, vec!["/out/m/png/0001.png", "/out/m/png/0002.png"]);
}

#[test]
fn closed_stream_stays_closed() {
    let (s, a) = stream_step(StreamState::Closed, StreamEvent::Watched { created: true, path: "x".to_string() });
    assert_eq!(s, StreamState::Closed);
    assert!(matches!(a, StreamAction::Skip));
    let (s, a) = stream_step(StreamState::Generating, StreamEvent::WatchEnded);
    assert_eq!(s, StreamState::Closed);
    assert!(matches!(a, StreamAction::UnwatchAndClose));
}
