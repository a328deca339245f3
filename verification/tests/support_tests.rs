use mmdf_client::cli::{parse_cli, Command};
use mmdf_client::config::MmdfConfig;
use mmdf_client::handles::HandleTable;
use mmdf_client::logs::{c_line, LogRing};
use mmdf_client::mitm::{ca_profile, leaf_profile, DnKind, ExtKeyUse, KeyUse, LeafCache};
use mmdf_client::probe::{json_escape, probe_input_error, probe_reply, version_line};
use mmdf_client::proxy_server::{
    anyhow, bad_gateway, connect_established, domain_text, gateway_timeout, ipv4_text,
    listen_addr_text, plain_route, tunnel_route, ProxyServer, Route,
};

fn args(v: &[&str]) -> Vec<String> {
    v.iter().map(|s| s.to_string()).collect()
}

#[test]
fn cli_commands() {
    assert!(matches!(parse_cli(&args(&["mmdf"])), Command::Run(None)));
    match parse_cli(&args(&["mmdf", "--config", "a.toml", "--config", "b.toml"])) {
        Command::Run(Some(f)) => assert_eq!(f, "b.toml"),
        other => panic!("unexpected {:?}", other),
    }
    assert!(matches!(parse_cli(&args(&["mmdf", "--config"])), Command::Usage));
    assert!(matches!(parse_cli(&args(&["mmdf", "--config", "a", "--gen-config"])), Command::GenConfig));
    match parse_cli(&args(&["mmdf", "--export-ca", "out.crt"])) {
        Command::ExportCa(p) => assert_eq!(p, "out.crt"),
        other => panic!("unexpected {:?}", other),
    }
    assert!(matches!(parse_cli(&args(&["mmdf", "--export-ca"])), Command::Usage));
    match parse_cli(&args(&["mmdf", "--test-sni", "1.2.3.4", "www.google.com"])) {
        Command::TestSni { ip, sni } => {
            assert_eq!(ip, "1.2.3.4");
            assert_eq!(sni, "www.google.com");
        }
        other => panic!("unexpected {:?}", other),
    }
    assert!(matches!(parse_cli(&args(&["mmdf", "--test-sni", "1.2.3.4"])), Command::Usage));
    assert!(matches!(parse_cli(&args(&["mmdf", "--version", "--bogus"])), Command::Version));
    assert!(matches!(parse_cli(&args(&["mmdf", "--bogus", "--version"])), Command::Usage));
}

#[test]
fn log_ring_keeps_newest_lines() {
    let mut r = LogRing::new();
    for i in 0..505 {
        r.record(format!("line {i}\n").as_bytes());
    }
    let text = r.drain();
    let lines: Vec<&str> = text.split('\n').collect();
    assert_eq!(lines.len(), 500);
    assert_eq!(lines[0], "line 5");
    assert_eq!(lines[499], "line 504");
    assert_eq!(r.drain(), "");
}

#[test]
fn log_lines_and_c_text() {
    let mut r = LogRing::new();
    r.record(b"a\n\n");
    r.record(b"b\xff");
    assert_eq!(r.drain(), "a\n\nb\u{fffd}");
    assert_eq!(c_line(b"x\n"), b"x\0".to_vec());
    assert_eq!(c_line(b"x"), b"x\0".to_vec());
}

#[test]
fn handle_table_issues_fresh_handles() {
    let mut t: HandleTable<&str> = HandleTable::new();
    let a = t.register("a");
    let b = t.register("b");
    assert_eq!(a, 1);
    assert_eq!(b, 2);
    assert_eq!(t.get(a), Some(&"a"));
    assert_eq!(t.release(a), Some("a"));
    assert_eq!(t.release(a), None);
    assert_eq!(t.get(a), None);
    assert_eq!(t.get(b), Some(&"b"));
    assert_eq!(t.register("c"), 3);
}

#[test]
fn certificate_profiles() {
    let ca = ca_profile();
    assert_eq!(ca.subject, vec![(DnKind::CommonName, "MMDF Local CA".to_string()), (DnKind::OrganizationName, "MMDF".to_string())]);
    assert_eq!(ca.ca_path_len, Some(0));
    assert_eq!(ca.key_usages, vec![KeyUse::DigitalSignature, KeyUse::KeyCertSign, KeyUse::CrlSign]);
    assert_eq!(ca.valid_days, 3650);
    let leaf = leaf_profile("www.example.com");
    assert_eq!(leaf.subject, vec![(DnKind::CommonName, "www.example.com".to_string())]);
    assert_eq!(leaf.dns_names, vec!["www.example.com".to_string()]);
    assert_eq!(leaf.ca_path_len, None);
    assert_eq!(leaf.key_usages, vec![KeyUse::DigitalSignature, KeyUse::KeyEncipherment]);
    assert_eq!(leaf.ext_key_usages, vec![ExtKeyUse::ServerAuth]);
    assert_eq!(leaf.backdate_minutes, 5);
    assert_eq!(leaf.valid_days, 90);
}

#[test]
fn leaf_cache_caps_entries() {
    let mut c: LeafCache<u32> = LeafCache::new();
    assert_eq!(c.get("a"), None);
    c.insert_if_room("a", 1);
    assert_eq!(c.get("a"), Some(&1));
    c.insert_if_room("a", 2);
    assert_eq!(c.get("a"), Some(&2));
    assert_eq!(c.len(), 1);
    for i in 0..600 {
        c.insert_if_room(&format!("d{i}"), i);
    }
    assert_eq!(c.len(), 512);
    assert_eq!(c.get("d510"), Some(&510));
    assert_eq!(c.get("d511"), None);
}

#[test]
fn probe_answers() {
    assert_eq!(probe_input_error("", "x").unwrap(), r#"{"ok":false,"error":"empty ip or sni"}"#);
    assert!(probe_input_error("1.1.1.1", "x").is_none());
    assert_eq!(probe_reply(Ok(42)), r#"{"ok":true,"latencyMs":42}"#);
    assert_eq!(probe_reply(Err("a \"b\" \\c".to_string())), r#"{"ok":false,"error":"a \"b\" \\c"}"#);
    assert_eq!(json_escape("plain"), "plain");
    assert_eq!(version_line("1.2.3"), "mmdf-client 1.2.3");
}

#[test]
fn routes_and_replies() {
    let c = MmdfConfig::default();
    match tunnel_route(&c, "www.youtube.com", 443) {
        Route::Fronted { sni, connect_ip } => {
            assert_eq!(sni, "www.google.com");
            assert_eq!(connect_ip, "142.251.36.68");
        }
        Route::Direct => panic!("expected fronted"),
    }
    assert!(matches!(tunnel_route(&c, "www.youtube.com", 80), Route::Direct));
    assert!(matches!(tunnel_route(&c, "example.com", 443), Route::Direct));
    assert!(matches!(plain_route(&c, "www.youtube.com"), Route::Fronted { .. }));
    assert_eq!(connect_established(), b"HTTP/1.1 200 OK\r\n\r\n".to_vec());
    assert_eq!(bad_gateway(), b"HTTP/1.1 502 Bad Gateway\r\n\r\n".to_vec());
    assert_eq!(gateway_timeout(), b"HTTP/1.1 504 Gateway Timeout\r\n\r\n".to_vec());
    assert_eq!(listen_addr_text("127.0.0.1", 8080), "127.0.0.1:8080");
    assert_eq!(ipv4_text([192, 168, 0, 10]), "192.168.0.10");
    assert_eq!(domain_text(b"ex\xffample"), "ex\u{fffd}ample");
    assert_eq!(domain_text(b"example.com"), "example.com");
}

#[test]
fn server_and_error() {
    let s = ProxyServer::new(MmdfConfig::default());
    assert_eq!(s.config.listen_port, 8080);
    let snap = s.stats.snapshot_counts();
    assert_eq!(snap.conns, 0);
    s.stats.record_conn();
    s.stats.add_bytes_down(10);
    let snap = s.stats.snapshot_counts();
    assert_eq!(snap.conns, 1);
    assert_eq!(snap.bytes_down, 10);
    assert_eq!(anyhow("boom".to_string()).message(), "boom");
}
