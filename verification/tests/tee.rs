use caching_proxy::tee::{Flow, Routing, Tee};

#[test]
fn chunks_go_both_ways() {
    let mut tee = Tee::new(true);
    assert!(tee.is_running());
    for _ in 0..3 {
        assert_eq!(tee.feed(Flow::Chunk), Routing::Route { to_sink: true, to_client: true });
    }
    assert_eq!(tee.feed(Flow::SourceEnded), Routing::Complete { commit: true });
    assert!(!tee.is_running());
}

#[test]
fn without_a_sink_chunks_go_to_the_client_only() {
    let mut tee = Tee::new(false);
    assert_eq!(tee.feed(Flow::Chunk), Routing::Route { to_sink: false, to_client: true });
    assert_eq!(tee.feed(Flow::SinkFailed), Routing::Idle);
    assert_eq!(tee.feed(Flow::SourceEnded), Routing::Complete { commit: false });
}

#[test]
fn a_failed_sink_does_not_stop_delivery() {
    let mut tee = Tee::new(true);
    assert_eq!(tee.feed(Flow::Chunk), Routing::Route { to_sink: true, to_client: true });
    assert_eq!(tee.feed(Flow::SinkFailed), Routing::DropSink);
    assert!(tee.is_running());
    assert_eq!(tee.feed(Flow::Chunk), Routing::Route { to_sink: false, to_client: true });
    assert_eq!(tee.feed(Flow::SinkFailed), Routing::Idle);
    assert_eq!(tee.feed(Flow::SourceEnded), Routing::Complete { commit: false });
}

#[test]
fn a_client_that_left_does_not_stop_the_sink() {
    let mut tee = Tee::new(true);
    assert_eq!(tee.feed(Flow::ClientGone), Routing::Idle);
    assert!(tee.is_running());
    assert_eq!(tee.feed(Flow::Chunk), Routing::Route { to_sink: true, to_client: false });
    assert_eq!(tee.feed(Flow::ClientGone), Routing::Idle);
    assert_eq!(tee.feed(Flow::SourceEnded), Routing::Complete { commit: true });
}

#[test]
fn a_broken_source_stops_both() {
    let mut tee = Tee::new(true);
    assert_eq!(tee.feed(Flow::Chunk), Routing::Route { to_sink: true, to_client: true });
    assert_eq!(tee.feed(Flow::SourceFailed), Routing::Abort { abandon_sink: true });
    assert!(!tee.is_running());
}

#[test]
fn a_broken_source_after_a_failed_sink_has_no_sink_to_abandon() {
    let mut tee = Tee::new(true);
    assert_eq!(tee.feed(Flow::SinkFailed), Routing::DropSink);
    assert_eq!(tee.feed(Flow::SourceFailed), Routing::Abort { abandon_sink: false });
}

#[test]
fn losing_both_takers_stops_the_stream() {
    let mut tee = Tee::new(true);
    assert_eq!(tee.feed(Flow::SinkFailed), Routing::DropSink);
    assert_eq!(tee.feed(Flow::ClientGone), Routing::Abort { abandon_sink: false });
    assert!(!tee.is_running());

    let mut tee = Tee::new(true);
    assert_eq!(tee.feed(Flow::ClientGone), Routing::Idle);
    assert_eq!(tee.feed(Flow::SinkFailed), Routing::Abort { abandon_sink: true });
    assert!(!tee.is_running());

    let mut tee = Tee::new(false);
    assert_eq!(tee.feed(Flow::ClientGone), Routing::Abort { abandon_sink: false });
    assert!(!tee.is_running());
}

#[test]
fn a_stopped_tee_asks_for_nothing() {
    let mut tee = Tee::new(true);
    assert_eq!(tee.feed(Flow::SourceEnded), Routing::Complete { commit: true });
    let flows =
        [Flow::Chunk, Flow::SinkFailed, Flow::ClientGone, Flow::SourceEnded, Flow::SourceFailed];
    for flow in flows {
        assert_eq!(tee.feed(flow), Routing::Idle);
        assert!(!tee.is_running());
    }
}
