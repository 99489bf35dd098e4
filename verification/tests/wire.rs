use caching_proxy::octets::{copy_of, push_all};
use caching_proxy::key::CacheKey;
use caching_proxy::protocol::{
    classify, worth_logging, Entry, Event, Fault, Lookup, Probe, UpstreamFailure,
};
use caching_proxy::recorder::{reconstruct, record};
use caching_proxy::wire::{
    build_upstream_target, error_body, forwards_header, invalid_target_description,
    STATUS_BAD_GATEWAY, STATUS_FOUND, STATUS_OK,
};

#[test]
fn secure_upstream_target() {
    assert_eq!(
        build_upstream_target(true, b"snapshot.debian.org", b"/dists/stable/Release", None),
        b"https://snapshot.debian.org/dists/stable/Release".to_vec()
    );
}

#[test]
fn plain_upstream_target_with_query() {
    assert_eq!(
        build_upstream_target(false, b"127.0.0.1:8080", b"/a", Some(b"x=1&y=2")),
        b"http://127.0.0.1:8080/a?x=1&y=2".to_vec()
    );
}

#[test]
fn empty_query_keeps_its_question_mark() {
    assert_eq!(
        build_upstream_target(false, b"h", b"/a", Some(b"")),
        b"http://h/a?".to_vec()
    );
}

#[test]
fn error_body_describes_the_error() {
    assert_eq!(error_body(b"connection refused"), b"Error: connection refused".to_vec());
    assert_eq!(error_body(b""), b"Error: ".to_vec());
}

#[test]
fn invalid_target_note() {
    assert_eq!(invalid_target_description(), b"invalid upstream target".to_vec());
}

#[test]
fn status_constants() {
    assert_eq!(STATUS_OK, 200);
    assert_eq!(STATUS_FOUND, 302);
    assert_eq!(STATUS_BAD_GATEWAY, 502);
}

#[test]
fn byte_helpers() {
    let mut out = b"ab".to_vec();
    push_all(&mut out, b"cd");
    push_all(&mut out, b"");
    assert_eq!(out, b"abcd".to_vec());
    assert_eq!(copy_of(b"xyz"), b"xyz".to_vec());
    assert_eq!(copy_of(b""), Vec::<u8>::new());
}

#[test]
fn text_location_is_recorded() {
    let key = CacheKey::derive(b"/old", None);
    assert_eq!(
        record(&key, b"http://example.test/x".to_vec()),
        Some(Entry { name: b"r-_2Fold".to_vec(), content: b"http://example.test/x".to_vec() })
    );
}

#[test]
fn location_with_space_and_tab_is_recorded() {
    let key = CacheKey::derive(b"/old", None);
    assert!(record(&key, b"a b\tc~!".to_vec()).is_some());
    assert!(record(&key, Vec::new()).is_some());
}

#[test]
fn location_that_is_no_text_is_not_recorded() {
    let key = CacheKey::derive(b"/old", None);
    assert_eq!(record(&key, b"http://example.test/\n".to_vec()), None);
    assert_eq!(record(&key, vec![b'a', 0x7f]), None);
    assert_eq!(record(&key, vec![b'a', 0x80]), None);
    assert_eq!(record(&key, vec![b'a', 0xff]), None);
    assert_eq!(record(&key, vec![0x1f]), None);
    assert_eq!(record(&key, vec![0]), None);
}

#[test]
fn stored_location_is_reconstructed() {
    assert_eq!(
        reconstruct(Lookup::Found(b"http://example.test/x".to_vec())),
        Some(b"http://example.test/x".to_vec())
    );
    assert_eq!(reconstruct(Lookup::Found(Vec::new())), Some(Vec::new()));
}

#[test]
fn unusable_redirect_artifact_is_not_reconstructed() {
    assert_eq!(reconstruct(Lookup::Found(b"x\r\ny".to_vec())), None);
    assert_eq!(reconstruct(Lookup::Found(vec![0xc3, 0xa9])), None);
    assert_eq!(reconstruct(Lookup::Absent), None);
    assert_eq!(reconstruct(Lookup::Failed), None);
}

#[test]
fn record_then_reconstruct_gives_the_location_back() {
    let key = CacheKey::derive(b"/old", Some(b"v=1"));
    let entry = record(&key, b"/new?v=1".to_vec()).unwrap();
    assert_eq!(entry.name, key.redirect_name());
    assert_eq!(reconstruct(Lookup::Found(entry.content)), Some(b"/new?v=1".to_vec()));
}

#[test]
fn faults_of_lookups() {
    assert_eq!(classify(&Event::RedirectRead(Lookup::Found(b"/x".to_vec()))), None);
    assert_eq!(
        classify(&Event::RedirectRead(Lookup::Found(b"\n".to_vec()))),
        Some(Fault::CacheRead)
    );
    assert_eq!(classify(&Event::RedirectRead(Lookup::Absent)), Some(Fault::CacheEntryAbsent));
    assert_eq!(classify(&Event::RedirectRead(Lookup::Failed)), Some(Fault::CacheRead));
    assert_eq!(classify(&Event::BodyOpened(Probe::Found)), None);
    assert_eq!(classify(&Event::BodyOpened(Probe::Absent)), Some(Fault::CacheEntryAbsent));
    assert_eq!(classify(&Event::BodyOpened(Probe::Failed)), Some(Fault::CacheRead));
}

#[test]
fn faults_of_upstream_and_stream() {
    let connect: Event<Vec<u8>> =
        Event::UpstreamFailed { kind: UpstreamFailure::Connect, description: b"x".to_vec() };
    let protocol: Event<Vec<u8>> =
        Event::UpstreamFailed { kind: UpstreamFailure::Protocol, description: b"x".to_vec() };
    let replied: Event<Vec<u8>> = Event::UpstreamReplied { status: 500, location: None };
    assert_eq!(classify(&connect), Some(Fault::UpstreamConnect));
    assert_eq!(classify(&protocol), Some(Fault::UpstreamProtocol));
    assert_eq!(classify(&replied), None);
    assert_eq!(classify(&Event::Arrived), None);
    assert_eq!(classify(&Event::Chunk), None);
    assert_eq!(classify(&Event::SourceEnded), None);
    assert_eq!(classify(&Event::SinkFailed), Some(Fault::CacheWrite));
    assert_eq!(classify(&Event::ClientGone), Some(Fault::ClientStreamTerminated));
    assert_eq!(classify(&Event::SourceFailed), Some(Fault::UpstreamProtocol));
}

#[test]
fn a_plain_miss_is_not_logged() {
    assert!(!worth_logging(Fault::CacheEntryAbsent));
    assert!(worth_logging(Fault::CacheRead));
    assert!(worth_logging(Fault::CacheWrite));
    assert!(worth_logging(Fault::UpstreamConnect));
    assert!(worth_logging(Fault::UpstreamProtocol));
    assert!(worth_logging(Fault::ClientStreamTerminated));
}

#[test]
fn every_header_is_forwarded_but_host() {
    assert!(!forwards_header(b"host"));
    assert!(!forwards_header(b"Host"));
    assert!(!forwards_header(b"HOST"));
    assert!(!forwards_header(b"hOsT"));
    assert!(forwards_header(b"hos"));
    assert!(forwards_header(b"hosts"));
    assert!(forwards_header(b"h\x0fst"));
    assert!(forwards_header(b"(ost"));
    assert!(forwards_header(b""));
    assert!(forwards_header(b"accept"));
    assert!(forwards_header(b"range"));
    assert!(forwards_header(b"x-forwarded-host"));
}
