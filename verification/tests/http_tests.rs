use mmdf_client::http::{
    find_chunk_end, find_head_end, header_len, plan_request, rebuild_origin, request_head_progress,
    response_head_progress, split_absolute, split_host_port, wants_keep_alive, HeadProgress,
    RequestPlan,
};

#[test]
fn header_len_counts_through_blank_line() {
    assert_eq!(header_len(b"GET / HTTP/1.1\r\nHost: a\r\n\r\nbody"), 27);
    assert_eq!(header_len(b"GET / HTTP/1.1\r\n"), 16);
    assert_eq!(header_len(b""), 0);
    assert_eq!(find_head_end(b"\r\n\r\n\r\n\r\n"), Some(4));
    assert_eq!(find_head_end(b"\r\n\r"), None);
}

#[test]
fn chunk_end_is_after_first_last_chunk() {
    assert_eq!(find_chunk_end(b"5\r\nhello\r\n0\r\n\r\n"), Some(15));
    assert_eq!(find_chunk_end(b"5\r\nhello\r\n0\r\n\r\nxx0\r\n\r\n"), Some(15));
    assert_eq!(find_chunk_end(b"5\r\nhello\r\n0\r\n"), None);
}

#[test]
fn head_progress_limits() {
    assert_eq!(request_head_progress(b"GET / HTTP/1.1\r\n\r\n"), HeadProgress::Complete(18));
    assert_eq!(request_head_progress(b"GET / HTTP/1.1\r\n"), HeadProgress::NeedMore);
    let big = vec![b'a'; 65537];
    assert_eq!(request_head_progress(&big), HeadProgress::TooBig);
    let mut big_done = vec![b'a'; 70000];
    big_done.extend_from_slice(b"\r\n\r\n");
    assert_eq!(request_head_progress(&big_done), HeadProgress::TooBig);
    assert_eq!(response_head_progress(&big_done), HeadProgress::Complete(70004));
    assert_eq!(response_head_progress(&vec![b'a'; 131073]), HeadProgress::TooBig);
    assert_eq!(response_head_progress(&vec![b'a'; 131072]), HeadProgress::NeedMore);
}

#[test]
fn split_host_port_cases() {
    assert_eq!(split_host_port("example.com:443", 80), Some(("example.com".to_string(), 443)));
    assert_eq!(split_host_port("  example.com  ", 80), Some(("example.com".to_string(), 80)));
    assert_eq!(split_host_port("[::1]:8080", 80), Some(("::1".to_string(), 8080)));
    assert_eq!(split_host_port("host:+7", 80), Some(("host".to_string(), 7)));
    assert_eq!(split_host_port("host:70000", 80), Some(("host:70000".to_string(), 80)));
    assert_eq!(split_host_port("host:", 443), Some(("host:".to_string(), 443)));
    assert_eq!(split_host_port("   ", 443), None);
    assert_eq!(split_host_port("", 443), None);
}

#[test]
fn split_absolute_cases() {
    assert_eq!(
        split_absolute("http://example.com/a/b?x=1", None),
        Some(("example.com".to_string(), 80, "/a/b?x=1".to_string()))
    );
    assert_eq!(
        split_absolute("http://example.com:8081", None),
        Some(("example.com".to_string(), 8081, "/".to_string()))
    );
    assert_eq!(split_absolute("https://example.com/", None), None);
    assert_eq!(
        split_absolute("/index.html", Some("site.test:81")),
        Some(("site.test".to_string(), 81, "/index.html".to_string()))
    );
    assert_eq!(split_absolute("/index.html", None), None);
}

#[test]
fn plan_connect_and_forward() {
    match plan_request(b"CONNECT example.com:443 HTTP/1.1\r\nHost: example.com\r\n\r\n") {
        RequestPlan::Connect(a) => assert_eq!(a, "example.com:443"),
        other => panic!("unexpected {:?}", other),
    }
    match plan_request(b"connect x:1 HTTP/1.1\r\n\r\n") {
        RequestPlan::Connect(a) => assert_eq!(a, "x:1"),
        other => panic!("unexpected {:?}", other),
    }
    match plan_request(b"GET http://a.test/p HTTP/1.1\r\nHost: a.test\r\n\r\nBODY") {
        RequestPlan::Forward { method, host, port, origin, head_len } => {
            assert_eq!(method, "GET");
            assert_eq!(host, "a.test");
            assert_eq!(port, 80);
            assert_eq!(origin, "/p");
            assert_eq!(head_len, 46);
        }
        other => panic!("unexpected {:?}", other),
    }
    match plan_request(b"GET /p HTTP/1.1\r\nHOST: b.test:8080\r\n\r\n") {
        RequestPlan::Forward { host, port, origin, .. } => {
            assert_eq!(host, "b.test");
            assert_eq!(port, 8080);
            assert_eq!(origin, "/p");
        }
        other => panic!("unexpected {:?}", other),
    }
    assert!(matches!(plan_request(b"GET /p HTTP/1.1\r\n\r\n"), RequestPlan::Close));
    assert!(matches!(plan_request(b"GET /p HTTP/1.1\r\n"), RequestPlan::Close));
    assert!(matches!(plan_request(b"\x01garbage\r\n\r\n"), RequestPlan::Close));
}

#[test]
fn rebuild_origin_rewrites_head() {
    let head = b"GET http://a.test/x HTTP/1.1\r\nHost: a.test\r\nProxy-Connection: keep-alive\r\nAccept: */*\r\nConnection: keep-alive\r\n\r\n";
    let out = rebuild_origin("GET", "/x", head, "a.test", 80);
    assert_eq!(
        String::from_utf8(out).unwrap(),
        "GET /x HTTP/1.1\r\nHost: a.test\r\nAccept: */*\r\nConnection: close\r\n\r\n"
    );
    let head = b"POST /y HTTP/1.0\r\nX-A: 1\r\n\r\n";
    let out = rebuild_origin("POST", "/y", head, "b.test", 8080);
    assert_eq!(
        String::from_utf8(out).unwrap(),
        "POST /y HTTP/1.1\r\nX-A: 1\r\nHost: b.test:8080\r\nConnection: close\r\n\r\n"
    );
}

#[test]
fn rebuild_origin_drops_non_utf8_values() {
    let head = b"GET / HTTP/1.1\r\nX-Bin: \xff\xfe\r\nX-Ok: yes\r\n\r\n";
    let out = rebuild_origin("GET", "/", head, "h", 80);
    assert_eq!(
        String::from_utf8(out).unwrap(),
        "GET / HTTP/1.1\r\nX-Ok: yes\r\nHost: h\r\nConnection: close\r\n\r\n"
    );
}

#[test]
fn keep_alive_rules() {
    assert!(wants_keep_alive(b"GET / HTTP/1.1\r\nHost: a\r\n\r\n"));
    assert!(!wants_keep_alive(b"GET / HTTP/1.1\r\nConnection: Close\r\n\r\n"));
    assert!(!wants_keep_alive(b"GET / HTTP/1.0\r\n\r\n"));
    assert!(wants_keep_alive(b"GET / HTTP/1.0\r\nConnection: Keep-Alive\r\n\r\n"));
    assert!(!wants_keep_alive(b"GET / HTTP/1.1\r\n"));
    assert!(wants_keep_alive(b"GET / HTTP/1.1\r\nConnection: x\r\nConnection: close\r\n\r\n"));
}

#[test]
fn host_port_text_splits_back() {
    let text = mmdf_client::proxy_server::listen_addr_text("example.com", 8443);
    assert_eq!(split_host_port(&text, 1), Some(("example.com".to_string(), 8443)));
    let text = mmdf_client::proxy_server::listen_addr_text("fe80::1", 0);
    assert_eq!(split_host_port(&text, 1), Some(("fe80::1".to_string(), 0)));
}
