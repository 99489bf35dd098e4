use caching_proxy::dispatcher::{Config, Dispatcher};
use caching_proxy::exchange::{Exchange, Phase};
use caching_proxy::key::CacheKey;
use caching_proxy::protocol::{Action, Entry, Event, Lookup, Probe, UpstreamFailure};

fn dispatcher() -> Dispatcher {
    Dispatcher::new(Config::new(b"snapshot.debian.org", true, b"/var/lib/simple_http_cache", 30))
}

fn release(d: &mut Dispatcher) -> Exchange {
    d.accept(b"/dists/stable/Release", None)
}

fn forwarding(d: &mut Dispatcher) -> Exchange {
    let mut x = release(d);
    x.step(Event::Arrived);
    x.step(Event::RedirectRead(Lookup::Absent));
    x.step(Event::BodyOpened(Probe::Absent));
    assert_eq!(x.phase(), Phase::Forwarding);
    x
}

fn streaming(d: &mut Dispatcher) -> Exchange {
    let mut x = forwarding(d);
    x.step(Event::UpstreamReplied { status: 200, location: None });
    assert_eq!(x.phase(), Phase::Streaming);
    x
}

fn all_events() -> Vec<Event<Vec<u8>>> {
    vec![
        Event::Arrived,
        Event::RedirectRead(Lookup::Found(b"/x".to_vec())),
        Event::RedirectRead(Lookup::Absent),
        Event::BodyOpened(Probe::Found),
        Event::BodyOpened(Probe::Absent),
        Event::UpstreamFailed { kind: UpstreamFailure::Connect, description: b"x".to_vec() },
        Event::UpstreamReplied { status: 200, location: None },
        Event::Chunk,
        Event::SinkFailed,
        Event::ClientGone,
        Event::SourceEnded,
        Event::SourceFailed,
    ]
}

#[test]
fn a_request_starts_with_the_redirect_lookup() {
    let mut d = dispatcher();
    let mut x = release(&mut d);
    assert_eq!(x.phase(), Phase::Start);
    assert!(!x.is_over());
    assert_eq!(
        x.step(Event::Arrived),
        Action::ReadRedirect { name: b"r-_2Fdists_2Fstable_2FRelease".to_vec() }
    );
    assert_eq!(x.phase(), Phase::RedirectLookup);
}

#[test]
fn a_stored_redirect_is_served_with_302() {
    let mut d = dispatcher();
    let mut x = release(&mut d);
    x.step(Event::Arrived);
    assert_eq!(
        x.step(Event::RedirectRead(Lookup::Found(b"http://example.test/x".to_vec()))),
        Action::ServeRedirect { status: 302, location: b"http://example.test/x".to_vec() }
    );
    assert_eq!(x.phase(), Phase::RedirectHit);
    assert!(x.is_over());
}

#[test]
fn an_unusable_redirect_leads_on_to_the_body() {
    let mut d = dispatcher();
    let mut x = release(&mut d);
    x.step(Event::Arrived);
    assert_eq!(
        x.step(Event::RedirectRead(Lookup::Found(b"bad\nvalue".to_vec()))),
        Action::OpenBody { name: b"b-_2Fdists_2Fstable_2FRelease".to_vec() }
    );
    assert_eq!(x.phase(), Phase::BodyLookup);
}

#[test]
fn a_failed_redirect_lookup_is_a_miss() {
    for outcome in [Lookup::Absent, Lookup::Failed] {
        let mut d = dispatcher();
        let mut x = release(&mut d);
        x.step(Event::Arrived);
        assert_eq!(
            x.step(Event::RedirectRead(outcome)),
            Action::OpenBody { name: b"b-_2Fdists_2Fstable_2FRelease".to_vec() }
        );
        assert_eq!(x.phase(), Phase::BodyLookup);
    }
}

#[test]
fn a_stored_body_is_served() {
    let mut d = dispatcher();
    let mut x = release(&mut d);
    x.step(Event::Arrived);
    x.step(Event::RedirectRead(Lookup::Absent));
    assert_eq!(
        x.step(Event::BodyOpened(Probe::Found)),
        Action::ServeBody { status: 200, name: b"b-_2Fdists_2Fstable_2FRelease".to_vec() }
    );
    assert_eq!(x.phase(), Phase::BodyHit);
    assert!(x.is_over());
}

#[test]
fn a_miss_is_forwarded_to_the_upstream_target() {
    for outcome in [Probe::Absent, Probe::Failed] {
        let mut d = dispatcher();
        let mut x = d.accept(b"/dists/stable/Release", Some(b"a=1"));
        x.step(Event::Arrived);
        x.step(Event::RedirectRead(Lookup::Absent));
        assert_eq!(
            x.step(Event::BodyOpened(outcome)),
            Action::Forward {
                target: b"https://snapshot.debian.org/dists/stable/Release?a=1".to_vec(),
                within: 30
            }
        );
        assert_eq!(x.phase(), Phase::Forwarding);
    }
}

#[test]
fn plain_deployment_forwards_over_http() {
    let mut d = Dispatcher::new(Config::new(b"127.0.0.1:9000", false, b"/tmp/cache", 30));
    let mut x = d.accept(b"/a", None);
    x.step(Event::Arrived);
    x.step(Event::RedirectRead(Lookup::Absent));
    assert_eq!(
        x.step(Event::BodyOpened(Probe::Absent)),
        Action::Forward { target: b"http://127.0.0.1:9000/a".to_vec(), within: 30 }
    );
}

#[test]
fn a_target_that_is_no_uri_is_answered_with_502() {
    let mut d = Dispatcher::new(Config::new(b"bad host", true, b"/tmp/cache", 30));
    let mut x = d.accept(b"/a", None);
    x.step(Event::Arrived);
    x.step(Event::RedirectRead(Lookup::Absent));
    assert_eq!(
        x.step(Event::BodyOpened(Probe::Absent)),
        Action::ServeError { status: 502, body: b"Error: invalid upstream target".to_vec() }
    );
    assert_eq!(x.phase(), Phase::UpstreamError);
    assert!(x.is_over());
}

#[test]
fn a_target_that_is_no_uri_still_serves_what_is_stored() {
    let mut d = Dispatcher::new(Config::new(b"bad host", true, b"/tmp/cache", 30));
    let mut x = d.accept(b"/a", None);
    x.step(Event::Arrived);
    x.step(Event::RedirectRead(Lookup::Absent));
    assert_eq!(
        x.step(Event::BodyOpened(Probe::Found)),
        Action::ServeBody { status: 200, name: b"b-_2Fa".to_vec() }
    );
}

#[test]
fn the_caller_says_whether_the_target_is_a_uri() {
    let key = CacheKey::derive(b"/a", None);
    let mut x = Exchange::open(key, Some(3), b"http://h/a".to_vec(), false, 5);
    x.step(Event::Arrived);
    x.step(Event::RedirectRead(Lookup::Absent));
    assert_eq!(
        x.step(Event::BodyOpened(Probe::Absent)),
        Action::ServeError { status: 502, body: b"Error: invalid upstream target".to_vec() }
    );
    let key = CacheKey::derive(b"/a", None);
    let mut x = Exchange::open(key, Some(3), b"anything at all".to_vec(), true, 5);
    x.step(Event::Arrived);
    x.step(Event::RedirectRead(Lookup::Absent));
    assert_eq!(
        x.step(Event::BodyOpened(Probe::Absent)),
        Action::Forward { target: b"anything at all".to_vec(), within: 5 }
    );
}

#[test]
fn an_upstream_failure_is_answered_with_502() {
    for kind in [UpstreamFailure::Connect, UpstreamFailure::Protocol] {
        let mut d = dispatcher();
        let mut x = forwarding(&mut d);
        assert_eq!(
            x.step(Event::UpstreamFailed { kind, description: b"connection refused".to_vec() }),
            Action::ServeError { status: 502, body: b"Error: connection refused".to_vec() }
        );
        assert_eq!(x.phase(), Phase::UpstreamError);
        assert!(x.is_over());
    }
}

#[test]
fn a_redirection_with_location_is_relayed_and_recorded() {
    for status in [300u16, 301, 302, 307, 308, 399] {
        let mut d = dispatcher();
        let mut x = forwarding(&mut d);
        assert_eq!(
            x.step(Event::UpstreamReplied {
                status,
                location: Some(b"http://example.test/x".to_vec())
            }),
            Action::RelayRedirect {
                record: Some(Entry {
                    name: b"r-_2Fdists_2Fstable_2FRelease".to_vec(),
                    content: b"http://example.test/x".to_vec()
                })
            }
        );
        assert_eq!(x.phase(), Phase::RedirectStore);
        assert!(x.is_over());
    }
}

#[test]
fn a_redirection_whose_location_is_no_text_is_relayed_only() {
    let mut d = dispatcher();
    let mut x = forwarding(&mut d);
    assert_eq!(
        x.step(Event::UpstreamReplied { status: 302, location: Some(vec![b'/', 0xe9]) }),
        Action::RelayRedirect { record: None }
    );
    assert_eq!(x.phase(), Phase::RedirectStore);
}

#[test]
fn a_redirection_without_location_is_streamed() {
    let mut d = dispatcher();
    let mut x = forwarding(&mut d);
    assert_eq!(
        x.step(Event::UpstreamReplied { status: 304, location: None }),
        Action::BeginStream {
            status: 200,
            pending: Some(b"p-0-_2Fdists_2Fstable_2FRelease".to_vec())
        }
    );
    assert_eq!(x.phase(), Phase::Streaming);
}

#[test]
fn other_statuses_are_streamed_even_with_location() {
    for status in [0u16, 99, 100, 200, 201, 299, 400, 404, 500, 999, 1000, 65535] {
        let mut d = dispatcher();
        let mut x = forwarding(&mut d);
        assert_eq!(
            x.step(Event::UpstreamReplied { status, location: Some(b"/x".to_vec()) }),
            Action::BeginStream {
                status: 200,
                pending: Some(b"p-0-_2Fdists_2Fstable_2FRelease".to_vec())
            }
        );
        assert_eq!(x.phase(), Phase::Streaming);
    }
}

#[test]
fn a_stream_that_ends_is_committed() {
    let mut d = dispatcher();
    let mut x = streaming(&mut d);
    assert_eq!(x.step(Event::Chunk), Action::Route { to_sink: true, to_client: true });
    assert_eq!(x.step(Event::Chunk), Action::Route { to_sink: true, to_client: true });
    assert_eq!(x.phase(), Phase::Streaming);
    assert_eq!(
        x.step(Event::SourceEnded),
        Action::Commit {
            from: b"p-0-_2Fdists_2Fstable_2FRelease".to_vec(),
            to: b"b-_2Fdists_2Fstable_2FRelease".to_vec()
        }
    );
    assert_eq!(x.phase(), Phase::Committed);
    assert!(x.is_over());
}

#[test]
fn a_stream_that_breaks_is_abandoned() {
    let mut d = dispatcher();
    let mut x = streaming(&mut d);
    assert_eq!(x.step(Event::Chunk), Action::Route { to_sink: true, to_client: true });
    assert_eq!(
        x.step(Event::SourceFailed),
        Action::Abort { discard: Some(b"p-0-_2Fdists_2Fstable_2FRelease".to_vec()) }
    );
    assert_eq!(x.phase(), Phase::Abandoned);
    assert!(x.is_over());
}

#[test]
fn a_failed_sink_is_discarded_and_the_stream_goes_on() {
    let mut d = dispatcher();
    let mut x = streaming(&mut d);
    assert_eq!(x.step(Event::Chunk), Action::Route { to_sink: true, to_client: true });
    assert_eq!(
        x.step(Event::SinkFailed),
        Action::Discard { name: b"p-0-_2Fdists_2Fstable_2FRelease".to_vec() }
    );
    assert_eq!(x.phase(), Phase::Streaming);
    assert_eq!(x.step(Event::Chunk), Action::Route { to_sink: false, to_client: true });
    assert_eq!(x.step(Event::SinkFailed), Action::Idle);
    assert_eq!(x.step(Event::SourceEnded), Action::Finish);
    assert_eq!(x.phase(), Phase::Abandoned);
}

#[test]
fn a_failed_sink_then_a_broken_source() {
    let mut d = dispatcher();
    let mut x = streaming(&mut d);
    x.step(Event::SinkFailed);
    assert_eq!(x.step(Event::SourceFailed), Action::Abort { discard: None });
    assert_eq!(x.phase(), Phase::Abandoned);
}

#[test]
fn a_client_that_left_does_not_stop_caching() {
    let mut d = dispatcher();
    let mut x = streaming(&mut d);
    assert_eq!(x.step(Event::Chunk), Action::Route { to_sink: true, to_client: true });
    assert_eq!(x.step(Event::ClientGone), Action::Idle);
    assert_eq!(x.phase(), Phase::Streaming);
    assert_eq!(x.step(Event::Chunk), Action::Route { to_sink: true, to_client: false });
    assert_eq!(
        x.step(Event::SourceEnded),
        Action::Commit {
            from: b"p-0-_2Fdists_2Fstable_2FRelease".to_vec(),
            to: b"b-_2Fdists_2Fstable_2FRelease".to_vec()
        }
    );
    assert_eq!(x.phase(), Phase::Committed);
}

#[test]
fn losing_client_and_sink_stops_the_stream() {
    let mut d = dispatcher();
    let mut x = streaming(&mut d);
    x.step(Event::ClientGone);
    assert_eq!(
        x.step(Event::SinkFailed),
        Action::Abort { discard: Some(b"p-0-_2Fdists_2Fstable_2FRelease".to_vec()) }
    );
    assert_eq!(x.phase(), Phase::Abandoned);

    let mut x = streaming(&mut d);
    x.step(Event::SinkFailed);
    assert_eq!(x.step(Event::ClientGone), Action::Abort { discard: None });
    assert_eq!(x.phase(), Phase::Abandoned);
}

#[test]
fn without_a_ticket_nothing_is_stored() {
    let key = CacheKey::derive(b"/a", None);
    let mut x = Exchange::open(key, None, b"http://h/a".to_vec(), true, 5);
    x.step(Event::Arrived);
    x.step(Event::RedirectRead(Lookup::Absent));
    x.step(Event::BodyOpened(Probe::Absent));
    assert_eq!(
        x.step(Event::UpstreamReplied { status: 200, location: None }),
        Action::BeginStream { status: 200, pending: None }
    );
    assert_eq!(x.step(Event::Chunk), Action::Route { to_sink: false, to_client: true });
    assert_eq!(x.step(Event::SourceEnded), Action::Finish);
    assert_eq!(x.phase(), Phase::Abandoned);
}

#[test]
fn tickets_are_given_in_order() {
    let mut d = dispatcher();
    for ticket in 0u64..5 {
        let mut x = forwarding(&mut d);
        let mut expected = b"p-".to_vec();
        expected.extend_from_slice(format!("{}", ticket).as_bytes());
        expected.extend_from_slice(b"-_2Fdists_2Fstable_2FRelease");
        assert_eq!(
            x.step(Event::UpstreamReplied { status: 200, location: None }),
            Action::BeginStream { status: 200, pending: Some(expected) }
        );
    }
}

#[test]
fn events_out_of_place_change_nothing() {
    let mut d = dispatcher();
    let mut x = release(&mut d);
    for event in all_events() {
        if event != Event::Arrived {
            assert_eq!(x.step(event), Action::Idle);
            assert_eq!(x.phase(), Phase::Start);
        }
    }
    x.step(Event::Arrived);
    for event in all_events() {
        if !matches!(event, Event::RedirectRead(_)) {
            assert_eq!(x.step(event), Action::Idle);
            assert_eq!(x.phase(), Phase::RedirectLookup);
        }
    }
    x.step(Event::RedirectRead(Lookup::Absent));
    for event in all_events() {
        if !matches!(event, Event::BodyOpened(_)) {
            assert_eq!(x.step(event), Action::Idle);
            assert_eq!(x.phase(), Phase::BodyLookup);
        }
    }
    x.step(Event::BodyOpened(Probe::Absent));
    for event in all_events() {
        if !matches!(event, Event::UpstreamFailed { .. } | Event::UpstreamReplied { .. }) {
            assert_eq!(x.step(event), Action::Idle);
            assert_eq!(x.phase(), Phase::Forwarding);
        }
    }
    x.step(Event::UpstreamReplied { status: 200, location: None });
    for event in all_events() {
        if !matches!(
            event,
            Event::Chunk
                | Event::SinkFailed
                | Event::ClientGone
                | Event::SourceEnded
                | Event::SourceFailed
        ) {
            assert_eq!(x.step(event), Action::Idle);
            assert_eq!(x.phase(), Phase::Streaming);
        }
    }
}

#[test]
fn an_outcome_is_final() {
    let mut d = dispatcher();
    let mut over: Vec<Exchange> = Vec::new();

    let mut x = release(&mut d);
    x.step(Event::Arrived);
    x.step(Event::RedirectRead(Lookup::Found(b"/x".to_vec())));
    over.push(x);

    let mut x = release(&mut d);
    x.step(Event::Arrived);
    x.step(Event::RedirectRead(Lookup::Absent));
    x.step(Event::BodyOpened(Probe::Found));
    over.push(x);

    let mut x = forwarding(&mut d);
    x.step(Event::UpstreamReplied { status: 301, location: Some(b"/x".to_vec()) });
    over.push(x);

    let mut x = forwarding(&mut d);
    x.step(Event::UpstreamFailed { kind: UpstreamFailure::Connect, description: Vec::new() });
    over.push(x);

    let mut x = streaming(&mut d);
    x.step(Event::SourceEnded);
    over.push(x);

    let mut x = streaming(&mut d);
    x.step(Event::SourceFailed);
    over.push(x);

    let phases: Vec<Phase> = over.iter().map(|x| x.phase()).collect();
    assert_eq!(
        phases,
        vec![
            Phase::RedirectHit,
            Phase::BodyHit,
            Phase::RedirectStore,
            Phase::UpstreamError,
            Phase::Committed,
            Phase::Abandoned
        ]
    );
    for mut x in over {
        let phase = x.phase();
        assert!(x.is_over());
        for event in all_events() {
            assert_eq!(x.step(event), Action::Idle);
            assert_eq!(x.phase(), phase);
        }
    }
}

#[test]
fn artifacts_are_located_below_the_configured_root() {
    let d = dispatcher();
    assert_eq!(
        d.artifact_path(b"b-_2Fa"),
        b"/var/lib/simple_http_cache/b-_2Fa".to_vec()
    );
    let config = Config::new(b"h", false, b"cache", 30);
    assert_eq!(config.artifact_path(b"r-x"), b"cache/r-x".to_vec());
}

#[test]
fn upstream_is_given_the_configured_time() {
    for (asked, given) in [(0u64, 1u64), (1, 1), (45, 45), (u64::MAX, u64::MAX)] {
        let mut d = Dispatcher::new(Config::new(b"h", false, b"/tmp/cache", asked));
        let mut x = d.accept(b"/a", None);
        x.step(Event::Arrived);
        x.step(Event::RedirectRead(Lookup::Absent));
        assert_eq!(
            x.step(Event::BodyOpened(Probe::Absent)),
            Action::Forward { target: b"http://h/a".to_vec(), within: given }
        );
    }
}
