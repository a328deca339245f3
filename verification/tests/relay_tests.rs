use mmdf_client::relay::{response_body_mode, BodyMode, Relay};

#[test]
fn body_modes() {
    assert_eq!(response_body_mode(b"HTTP/1.1 204 No Content\r\n\r\n"), BodyMode::NoBody);
    assert_eq!(response_body_mode(b"HTTP/1.1 304 Not Modified\r\nContent-Length: 5\r\n\r\n"), BodyMode::NoBody);
    assert_eq!(response_body_mode(b"HTTP/1.1 101 Switching\r\n\r\n"), BodyMode::NoBody);
    assert_eq!(
        response_body_mode(b"HTTP/1.1 200 OK\r\nTransfer-Encoding: gzip, CHUNKED\r\nContent-Length: 5\r\n\r\n"),
        BodyMode::Chunked
    );
    assert_eq!(response_body_mode(b"HTTP/1.1 200 OK\r\nContent-Length:  42 \r\n\r\nxx"), BodyMode::Length(42));
    assert_eq!(
        response_body_mode(b"HTTP/1.1 200 OK\r\nContent-Length: 1\r\nContent-Length: 7\r\n\r\n"),
        BodyMode::Length(7)
    );
    assert_eq!(
        response_body_mode(b"HTTP/1.1 200 OK\r\nContent-Length: 7\r\nContent-Length: x\r\n\r\n"),
        BodyMode::UntilClose
    );
    assert_eq!(response_body_mode(b"HTTP/1.1 200 OK\r\n\r\n"), BodyMode::UntilClose);
    assert_eq!(response_body_mode(b"garbage"), BodyMode::UntilClose);
}

#[test]
fn length_relay_forwards_declared_bytes() {
    let (mut r, first) = Relay::start(BodyMode::Length(10), b"abcd");
    assert_eq!(first, b"abcd".to_vec());
    assert!(!r.is_finished());
    assert_eq!(r.on_data(b"efg"), b"efg".to_vec());
    assert_eq!(r.on_data(b"hijklmn"), b"hij".to_vec());
    assert!(r.is_finished());
    let (r, first) = Relay::start(BodyMode::Length(2), b"abcd");
    assert_eq!(first, b"ab".to_vec());
    assert!(r.is_finished());
    let (r, first) = Relay::start(BodyMode::Length(0), b"");
    assert!(first.is_empty());
    assert!(r.is_finished());
}

#[test]
fn until_close_forwards_bytes_read_with_head() {
    let (mut r, first) = Relay::start(BodyMode::UntilClose, b"early");
    assert_eq!(first, b"early".to_vec());
    assert_eq!(r.on_data(b"later"), b"later".to_vec());
    assert!(!r.is_finished());
    assert!(r.on_eof().is_empty());
    assert!(r.is_finished());
}

#[test]
fn chunked_relay_stops_after_last_chunk() {
    let (mut r, first) = Relay::start(BodyMode::Chunked, b"3\r\nabc\r\n");
    assert!(first.is_empty());
    assert!(r.on_data(b"0\r\n").is_empty());
    assert_eq!(r.on_data(b"\r\ntrailing"), b"3\r\nabc\r\n0\r\n\r\n".to_vec());
    assert!(r.is_finished());
    let (mut r, _) = Relay::start(BodyMode::Chunked, b"partial");
    assert_eq!(r.on_eof(), b"partial".to_vec());
    assert!(r.is_finished());
}

#[test]
fn chunked_relay_flushes_large_buffers() {
    let (mut r, first) = Relay::start(BodyMode::Chunked, b"");
    assert!(first.is_empty());
    let big = vec![b'x'; 1048577];
    assert_eq!(r.on_data(&big).len(), 1048577);
    assert!(!r.is_finished());
    assert!(r.on_eof().is_empty());
}

#[test]
fn no_body_finishes_at_once() {
    let (r, first) = Relay::start(BodyMode::NoBody, b"ignored");
    assert!(first.is_empty());
    assert!(r.is_finished());
}
