//! The proxy's routing decisions and replies, its shared counters, and the
//! server value the I/O loop runs with.

use std::sync::Arc;
use std::sync::atomic::AtomicU64;
use vstd::prelude::*;
use vstd::string::StringExecFns;
use crate::config::MmdfConfig;
use crate::http::string_bytes;
use crate::text::{dec_chars, push_decimal};

verus! {

/// Where a tunnel (HTTP `CONNECT` or SOCKS5) goes.
#[derive(Debug)]
pub enum Route {
    /// Terminate TLS locally, then reach `connect_ip:443` presenting `sni`.
    Fronted { sni: String, connect_ip: String },
    /// Plain TCP to the target itself.
    Direct,
}

/// Plain-value form of a `Route`.
pub open spec fn route_view(r: Route) -> Option<(Seq<char>, Seq<char>)> {
    match r {
        Route::Fronted { sni, connect_ip } => Some((sni@, connect_ip@)),
        Route::Direct => None,
    }
}

/// Route of a tunnel to `host:port`: only port 443 is ever fronted, and
/// then only when the configuration fronts the host.
pub open spec fn tunnel_route_spec(c: MmdfConfig, host: Seq<char>, port: u16) -> Option<(Seq<char>, Seq<char>)> {
    if port == 443 {
        c.front_spec(host)
    } else {
        None
    }
}

/// Route of a tunnel to `host:port`.
pub fn tunnel_route(c: &MmdfConfig, host: &str, port: u16) -> (r: Route)
    ensures
        route_view(r) == tunnel_route_spec(*c, host@, port),
{
    if port == 443 {
        match c.front_for(host) {
            Some((sni, ip)) => return Route::Fronted { sni, connect_ip: ip },
            None => {},
        }
    }
    Route::Direct
}

/// Route of a plain-HTTP request to `host` (any port).
pub fn plain_route(c: &MmdfConfig, host: &str) -> (r: Route)
    ensures
        route_view(r) == c.front_spec(host@),
{
    match c.front_for(host) {
        Some((sni, ip)) => Route::Fronted { sni, connect_ip: ip },
        None => Route::Direct,
    }
}

/// `200 OK` answering a `CONNECT` that will be served.
pub fn connect_established() -> (r: Vec<u8>)
    ensures
        r@ == vstd::utf8::encode_utf8("HTTP/1.1 200 OK\r\n\r\n"@),
{
    string_bytes(&String::from_str("HTTP/1.1 200 OK\r\n\r\n"))
}

/// `502` when the target cannot be reached directly.
pub fn bad_gateway() -> (r: Vec<u8>)
    ensures
        r@ == vstd::utf8::encode_utf8("HTTP/1.1 502 Bad Gateway\r\n\r\n"@),
{
    string_bytes(&String::from_str("HTTP/1.1 502 Bad Gateway\r\n\r\n"))
}

/// `504` when the fronted leg cannot be opened.
pub fn gateway_timeout() -> (r: Vec<u8>)
    ensures
        r@ == vstd::utf8::encode_utf8("HTTP/1.1 504 Gateway Timeout\r\n\r\n"@),
{
    string_bytes(&String::from_str("HTTP/1.1 504 Gateway Timeout\r\n\r\n"))
}

/// `host:port`, the text a listen address is parsed from.
pub fn listen_addr_text(host: &str, port: u16) -> (r: String)
    ensures
        r@ == host@ + seq![':'] + dec_chars(port as nat),
{
    let mut r = String::from_str(host);
    crate::bindings::push_char(&mut r, ':');
    push_decimal(&mut r, port as u64);
    r
}

/// Dotted-decimal text of an IPv4 address.
pub open spec fn ipv4_text_spec(a: Seq<u8>) -> Seq<char> {
    dec_chars(a[0] as nat) + seq!['.'] + dec_chars(a[1] as nat) + seq!['.'] + dec_chars(a[2] as nat) + seq!['.']
        + dec_chars(a[3] as nat)
}

/// Dotted-decimal text of an IPv4 address (as `Ipv4Addr` displays it).
pub fn ipv4_text(a: [u8; 4]) -> (r: String)
    ensures
        r@ == ipv4_text_spec(a@),
{
    let mut r = String::new();
    push_decimal(&mut r, a[0] as u64);
    crate::bindings::push_char(&mut r, '.');
    push_decimal(&mut r, a[1] as u64);
    crate::bindings::push_char(&mut r, '.');
    push_decimal(&mut r, a[2] as u64);
    crate::bindings::push_char(&mut r, '.');
    push_decimal(&mut r, a[3] as u64);
    assert(r@ =~= ipv4_text_spec(a@));
    r
}

/// Text of a domain name from a SOCKS5 request: its bytes as UTF-8, any
/// malformed sequence replaced (well-formed UTF-8 comes through as it is).
pub fn domain_text(d: &[u8]) -> (r: String)
    ensures
        r@ == crate::bindings::utf8_lossy(d@),
        vstd::utf8::valid_utf8(d@) ==> r@ == vstd::utf8::decode_utf8(d@),
{
    crate::bindings::lossy_text(d)
}

/// Connection and byte counters shared by all connection tasks.
#[derive(Debug)]
pub struct Stats {
    pub conns: AtomicU64,
    pub fronted: AtomicU64,
    pub direct: AtomicU64,
    pub bytes_up: AtomicU64,
    pub bytes_down: AtomicU64,
}

/// A reading of the counters.
#[derive(Debug, Clone, Copy, PartialEq, Eq, Structural)]
pub struct StatsSnapshot {
    pub conns: u64,
    pub fronted: u64,
    pub direct: u64,
    pub bytes_up: u64,
    pub bytes_down: u64,
}

impl Default for Stats {
    fn default() -> (s: Self) {
        Stats {
            conns: AtomicU64::new(0),
            fronted: AtomicU64::new(0),
            direct: AtomicU64::new(0),
            bytes_up: AtomicU64::new(0),
            bytes_down: AtomicU64::new(0),
        }
    }
}

impl Stats {
    /// Counts an accepted client connection.
    pub fn record_conn(&self) {
        self.conns.fetch_add(1, std::sync::atomic::Ordering::Relaxed);
    }

    /// Counts a connection served over the fronted leg.
    pub fn record_fronted(&self) {
        self.fronted.fetch_add(1, std::sync::atomic::Ordering::Relaxed);
    }

    /// Counts a connection served directly.
    pub fn record_direct(&self) {
        self.direct.fetch_add(1, std::sync::atomic::Ordering::Relaxed);
    }

    /// Adds bytes sent from client to upstream.
    pub fn add_bytes_up(&self, n: u64) {
        self.bytes_up.fetch_add(n, std::sync::atomic::Ordering::Relaxed);
    }

    /// Adds bytes sent from upstream to client.
    pub fn add_bytes_down(&self, n: u64) {
        self.bytes_down.fetch_add(n, std::sync::atomic::Ordering::Relaxed);
    }

    /// Reads all counters.
    pub fn snapshot_counts(&self) -> StatsSnapshot {
        StatsSnapshot {
            conns: self.conns.load(std::sync::atomic::Ordering::Relaxed),
            fronted: self.fronted.load(std::sync::atomic::Ordering::Relaxed),
            direct: self.direct.load(std::sync::atomic::Ordering::Relaxed),
            bytes_up: self.bytes_up.load(std::sync::atomic::Ordering::Relaxed),
            bytes_down: self.bytes_down.load(std::sync::atomic::Ordering::Relaxed),
        }
    }
}

/// The proxy: its configuration and counters.
pub struct ProxyServer {
    pub config: MmdfConfig,
    pub stats: Arc<Stats>,
}

impl ProxyServer {
    /// A server for `config` with all counters at zero.
    pub fn new(config: MmdfConfig) -> (s: Self)
        ensures
            s.config == config,
    {
        ProxyServer { config, stats: Arc::new(Stats::default()) }
    }
}

/// Error of the proxy's run loop: a message.
#[derive(Debug)]
pub struct Error(pub String);

impl Error {
    /// The message.
    pub fn message(&self) -> (r: String)
        ensures
            r@ == self.0@,
    {
        self.0.clone()
    }
}

/// An error carrying `s`.
pub fn anyhow(s: String) -> (e: Error)
    ensures
        e.0@ == s@,
{
    Error(s)
}


/// Only tunnels to port 443 are ever intercepted; on 443 the
/// configuration's fronting decision applies.
pub proof fn law_tunnels_fronted_only_on_443(c: MmdfConfig, host: Seq<char>, port: u16)
    ensures
        port != 443 ==> tunnel_route_spec(c, host, port) is None,
        port == 443 ==> tunnel_route_spec(c, host, port) == c.front_spec(host),
{
}

} // verus!
