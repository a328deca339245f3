use mmdf_client::config::{FrontGroup, MmdfConfig};

#[test]
fn group_match() {
    let c = MmdfConfig::default();
    assert!(c.front_for("www.youtube.com").is_some());
    assert!(c.front_for("x.instagram.com").is_some());
    assert!(c.front_for("example.com").is_none());
    assert!(c.front_for("localhost").is_none());
}

#[test]
fn front_for_returns_group_sni_and_default_ip() {
    let c = MmdfConfig::default();
    assert_eq!(
        c.front_for("www.youtube.com"),
        Some(("www.google.com".to_string(), "142.251.36.68".to_string()))
    );
    assert_eq!(
        c.front_for("cdn.fbcdn.net"),
        Some(("www.microsoft.com".to_string(), "142.251.36.68".to_string()))
    );
    assert_eq!(
        c.front_for("i.redd.it"),
        None
    );
}

#[test]
fn matching_ignores_case_and_trailing_dots() {
    let c = MmdfConfig::default();
    assert!(c.front_for("WWW.YouTube.COM.").is_some());
    assert!(c.front_for("youtube.com..").is_some());
    assert!(c.front_for("notyoutube.com").is_none());
    assert!(c.front_for("youtube.com.evil").is_none());
}

#[test]
fn passthrough_wins_over_groups() {
    let mut c = MmdfConfig::default();
    c.passthrough.push("youtube.com".to_string());
    assert!(c.is_passthrough("m.YOUTUBE.com"));
    assert!(c.front_for("m.youtube.com").is_none());
    assert!(c.front_for("www.google.com").is_some());
}

#[test]
fn group_connect_ip_overrides_default() {
    let mut c = MmdfConfig::default();
    c.groups.insert(
        0,
        FrontGroup {
            name: "custom".to_string(),
            sni: "front.example".to_string(),
            connect_ip: "10.0.0.1".to_string(),
            domains: vec!["example.org".to_string()],
        },
    );
    assert_eq!(
        c.front_for("a.example.org"),
        Some(("front.example".to_string(), "10.0.0.1".to_string()))
    );
}

#[test]
fn extra_domains_ride_default_leg() {
    let mut c = MmdfConfig::default();
    c.extra_domains.push("Example.NET".to_string());
    c.front_domain = "front.test".to_string();
    assert_eq!(
        c.front_for("www.example.net"),
        Some(("front.test".to_string(), "142.251.36.68".to_string()))
    );
}

#[test]
fn group_matches_domains_and_subdomains_only() {
    let g = FrontGroup {
        name: "g".to_string(),
        sni: "s".to_string(),
        connect_ip: String::new(),
        domains: vec!["Example.com".to_string()],
    };
    assert!(g.matches("example.com"));
    assert!(g.matches("a.b.EXAMPLE.com."));
    assert!(!g.matches("badexample.com"));
    assert!(!g.matches("example.co"));
    assert!(!g.matches(""));
}

#[test]
fn default_config_values() {
    let c = MmdfConfig::default();
    assert_eq!(c.listen_host, "127.0.0.1");
    assert_eq!(c.listen_port, 8080);
    assert_eq!(c.socks5_port, 1081);
    assert_eq!(c.log_level, "info");
    assert!(c.verify_ssl);
    assert_eq!(c.groups.len(), 4);
    assert_eq!(c.groups[1].name, "meta");
    assert_eq!(c.groups[2].sni, "github.githubassets.com");
    assert_eq!(c.groups[3].domains, vec!["dns.google", "cloudflare-dns.com", "dns.quad9.net"]);
    assert_eq!(c.passthrough, vec!["localhost", "127.0.0.1"]);
    assert!(c.extra_domains.is_empty());
    assert_eq!(c.validate(), Ok(()));
}

#[test]
fn validate_reports_each_rule() {
    let mut c = MmdfConfig::default();
    c.listen_port = 0;
    assert_eq!(c.validate(), Err("listen ports must be non-zero".to_string()));
    let mut c = MmdfConfig::default();
    c.socks5_port = c.listen_port;
    assert_eq!(c.validate(), Err("http and socks5 ports must differ".to_string()));
    let mut c = MmdfConfig::default();
    c.front_domain.clear();
    assert_eq!(c.validate(), Err("connect_ip and front_domain are required".to_string()));
}

#[test]
fn parse_error_message() {
    assert_eq!(MmdfConfig::parse_error("bad"), "config parse failed: bad");
}
