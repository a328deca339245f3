//! App-wide configuration: the fronting groups, passthrough hosts and the
//! defaults the client ships with, and the decision which hosts are fronted.
//!
//! A host is fronted when it falls under one of the group domains (or the
//! extra domains) and not under a passthrough entry; matching ignores ASCII
//! case and trailing dots of the host and also covers every subdomain.

use vstd::prelude::*;
use vstd::string::StringExecFns;
use crate::text::{
    chars_of, covers, covers_lower, domain_matches, host_key, lemma_covers_subdomain,
    lemma_host_key_dot, lemma_host_key_lower, lemma_lower_concat, lower, trim_trailing_dots,
    trimmed_dots_len,
};

verus! {

broadcast use vstd::string::group_string_axioms;

/// One fronting group: real target suffixes plus the benign SNI (and
/// optionally IP) they hide behind.
#[derive(Debug, Clone)]
pub struct FrontGroup {
    pub name: String,
    pub sni: String,
    /// Empty means: use the configuration's `connect_ip`.
    pub connect_ip: String,
    pub domains: Vec<String>,
}

/// `host` falls under one of `domains`.
pub open spec fn any_domain_matches(domains: Seq<String>, host: Seq<char>) -> bool {
    exists|i: int| 0 <= i < domains.len() && domain_matches(host, #[trigger] domains[i]@)
}

impl FrontGroup {
    /// The group covers `host`.
    pub open spec fn covers_host(&self, host: Seq<char>) -> bool {
        any_domain_matches(self.domains@, host)
    }

    /// Whether `host` is one of the group's domains or a subdomain of one,
    /// ignoring ASCII case and trailing dots of `host`.
    pub fn matches(&self, host: &str) -> (r: bool)
        ensures
            r == self.covers_host(host@),
    {
        let h = chars_of(host);
        let hlen = trimmed_dots_len(&h);
        any_domain(&self.domains, &h, hlen)
    }
}

/// Scan `domains` for one that covers the normalised host `h[..hlen]`.
fn any_domain(domains: &Vec<String>, h: &Vec<char>, hlen: usize) -> (r: bool)
    requires
        hlen <= h@.len(),
        h@.take(hlen as int) == trim_trailing_dots(h@),
    ensures
        r == any_domain_matches(domains@, h@),
{
    let mut i: usize = 0;
    while i < domains.len()
        invariant
            i <= domains@.len(),
            hlen <= h@.len(),
            h@.take(hlen as int) == trim_trailing_dots(h@),
            forall|j: int| 0 <= j < i ==> !domain_matches(h@, #[trigger] domains@[j]@),
        decreases domains@.len() - i,
    {
        let d = chars_of(domains[i].as_str());
        if covers_lower(h, hlen, &d) {
            assert(domain_matches(h@, domains@[i as int]@));
            return true;
        }
        i = i + 1;
    }
    false
}

#[derive(Debug, Clone)]
pub struct MmdfConfig {
    pub listen_host: String,
    pub listen_port: u16,
    pub socks5_port: u16,
    /// Default egress: the IP the fronted leg connects to.
    pub connect_ip: String,
    /// Default benign SNI presented on the egress handshake.
    pub front_domain: String,
    pub verify_ssl: bool,
    pub log_level: String,
    pub groups: Vec<FrontGroup>,
    /// Hosts that are never intercepted.
    pub passthrough: Vec<String>,
    /// Extra domains that ride the default front leg.
    pub extra_domains: Vec<String>,
}

/// Index of the first group at or after `k` that covers `host`.
pub open spec fn first_group_from(groups: Seq<FrontGroup>, host: Seq<char>, k: int) -> Option<int>
    decreases groups.len() - k,
{
    if k < 0 || k >= groups.len() {
        None
    } else if groups[k].covers_host(host) {
        Some(k)
    } else {
        first_group_from(groups, host, k + 1)
    }
}

/// Index of the first group that covers `host`.
pub open spec fn first_group(groups: Seq<FrontGroup>, host: Seq<char>) -> Option<int> {
    first_group_from(groups, host, 0)
}

/// The egress IP of a group: its own, or the default when it has none.
pub open spec fn group_ip(g: FrontGroup, default_ip: Seq<char>) -> Seq<char> {
    if g.connect_ip@.len() == 0 {
        default_ip
    } else {
        g.connect_ip@
    }
}

impl MmdfConfig {
    /// `host` falls under a passthrough entry.
    pub open spec fn passthrough_covers(&self, host: Seq<char>) -> bool {
        any_domain_matches(self.passthrough@, host)
    }

    /// The (SNI, connect IP) pair a host is fronted through, if any:
    /// passthrough wins, then the first covering group, then the extra
    /// domains on the default leg.
    pub open spec fn front_spec(&self, host: Seq<char>) -> Option<(Seq<char>, Seq<char>)> {
        if self.passthrough_covers(host) {
            None
        } else {
            match first_group(self.groups@, host) {
                Some(i) => Some((self.groups@[i].sni@, group_ip(self.groups@[i], self.connect_ip@))),
                None => if any_domain_matches(self.extra_domains@, host) {
                    Some((self.front_domain@, self.connect_ip@))
                } else {
                    None
                },
            }
        }
    }

    /// Whether `host` must never be intercepted.
    pub fn is_passthrough(&self, host: &str) -> (r: bool)
        ensures
            r == self.passthrough_covers(host@),
    {
        let h = chars_of(host);
        let hlen = trimmed_dots_len(&h);
        any_domain(&self.passthrough, &h, hlen)
    }

    /// Returns (sni, connect_ip) for a host, or `None` if it is not fronted.
    pub fn front_for(&self, host: &str) -> (r: Option<(String, String)>)
        ensures
            match self.front_spec(host@) {
                Some((sni, ip)) => r is Some && r.unwrap().0@ == sni && r.unwrap().1@ == ip,
                None => r is None,
            },
    {
        if self.is_passthrough(host) {
            return None;
        }
        let ghost hs = host@;
        let mut i: usize = 0;
        while i < self.groups.len()
            invariant
                i <= self.groups@.len(),
                first_group(self.groups@, hs) == first_group_from(self.groups@, hs, i as int),
                hs == host@,
                !self.passthrough_covers(hs),
            decreases self.groups@.len() - i,
        {
            let g = &self.groups[i];
            if g.matches(host) {
                assert(first_group_from(self.groups@, hs, i as int) == Some(i as int));
                let ip = if g.connect_ip.as_str().is_empty() {
                    self.connect_ip.clone()
                } else {
                    g.connect_ip.clone()
                };
                return Some((g.sni.clone(), ip));
            }
            i = i + 1;
        }
        let h = chars_of(host);
        let hlen = trimmed_dots_len(&h);
        if any_domain(&self.extra_domains, &h, hlen) {
            return Some((self.front_domain.clone(), self.connect_ip.clone()));
        }
        None
    }
}


pub open spec fn str_views(v: Seq<String>) -> Seq<Seq<char>> {
    v.map_values(|s: String| s@)
}

/// Name, SNI and domains of the groups shipped by default (all of them use
/// the configuration's connect IP).
pub open spec fn default_groups_spec() -> Seq<(Seq<char>, Seq<char>, Seq<Seq<char>>)> {
    seq![
        ("google"@, "www.google.com"@, seq![
            "google.com"@, "youtube.com"@, "youtu.be"@, "googlevideo.com"@, "ytimg.com"@,
            "gstatic.com"@, "googleapis.com"@, "googleusercontent.com"@, "ggpht.com"@,
            "gvt1.com"@, "gvt2.com"@,
        ]),
        ("meta"@, "www.microsoft.com"@, seq![
            "facebook.com"@, "instagram.com"@, "whatsapp.com"@, "whatsapp.net"@, "fb.com"@,
            "fbcdn.net"@, "meta.com"@,
        ]),
        ("fastly"@, "github.githubassets.com"@, seq![
            "reddit.com"@, "fastly.net"@, "githubassets.com"@, "githubusercontent.com"@,
        ]),
        ("dns"@, "www.microsoft.com"@, seq![
            "dns.google"@, "cloudflare-dns.com"@, "dns.quad9.net"@,
        ]),
    ]
}

/// `groups` are exactly the default groups.
pub open spec fn is_default_groups(groups: Seq<FrontGroup>) -> bool {
    &&& groups.len() == default_groups_spec().len()
    &&& forall|i: int| 0 <= i < groups.len() ==> {
        &&& #[trigger] groups[i].name@ == default_groups_spec()[i].0
        &&& groups[i].sni@ == default_groups_spec()[i].1
        &&& groups[i].connect_ip@.len() == 0
        &&& str_views(groups[i].domains@) == default_groups_spec()[i].2
    }
}

fn owned(s: &str) -> (r: String)
    ensures
        r@ == s@,
{
    String::from_str(s)
}

fn owned_all(items: &[&str]) -> (r: Vec<String>)
    ensures
        r@.len() == items@.len(),
        forall|i: int| 0 <= i < items@.len() ==> #[trigger] r@[i]@ == items@[i]@,
{
    let mut r: Vec<String> = Vec::new();
    let mut i: usize = 0;
    while i < items.len()
        invariant
            i <= items@.len(),
            r@.len() == i,
            forall|j: int| 0 <= j < i ==> #[trigger] r@[j]@ == items@[j]@,
        decreases items@.len() - i,
    {
        r.push(owned(items[i]));
        i = i + 1;
    }
    r
}

fn group(name: &str, sni: &str, domains: &[&str]) -> (g: FrontGroup)
    ensures
        g.name@ == name@,
        g.sni@ == sni@,
        g.connect_ip@.len() == 0,
        str_views(g.domains@) == domains@.map_values(|d: &str| d@),
{
    let ds = owned_all(domains);
    let g = FrontGroup { name: owned(name), sni: owned(sni), connect_ip: String::new(), domains: ds };
    assert(str_views(g.domains@) =~= domains@.map_values(|d: &str| d@));
    g
}

pub fn d_host() -> (r: String)
    ensures
        r@ == "127.0.0.1"@,
{
    owned("127.0.0.1")
}

pub fn d_http() -> (r: u16)
    ensures
        r == 8080,
{
    8080
}

pub fn d_socks() -> (r: u16)
    ensures
        r == 1081,
{
    1081
}

pub fn d_ip() -> (r: String)
    ensures
        r@ == "142.251.36.68"@,
{
    owned("142.251.36.68")
}

pub fn d_sni() -> (r: String)
    ensures
        r@ == "www.google.com"@,
{
    owned("www.google.com")
}

pub fn d_true() -> (r: bool)
    ensures
        r,
{
    true
}

pub fn d_info() -> (r: String)
    ensures
        r@ == "info"@,
{
    owned("info")
}

/// The fronting groups shipped by default.
pub fn d_groups() -> (r: Vec<FrontGroup>)
    ensures
        is_default_groups(r@),
{
    let google = group("google", "www.google.com", &[
        "google.com", "youtube.com", "youtu.be", "googlevideo.com", "ytimg.com",
        "gstatic.com", "googleapis.com", "googleusercontent.com", "ggpht.com",
        "gvt1.com", "gvt2.com",
    ]);
    let meta = group("meta", "www.microsoft.com", &[
        "facebook.com", "instagram.com", "whatsapp.com", "whatsapp.net", "fb.com",
        "fbcdn.net", "meta.com",
    ]);
    let fastly = group("fastly", "github.githubassets.com", &[
        "reddit.com", "fastly.net", "githubassets.com", "githubusercontent.com",
    ]);
    let dns = group("dns", "www.microsoft.com", &["dns.google", "cloudflare-dns.com", "dns.quad9.net"]);
    let mut r: Vec<FrontGroup> = Vec::new();
    r.push(google);
    r.push(meta);
    r.push(fastly);
    r.push(dns);
    assert(str_views(r@[0].domains@) =~= default_groups_spec()[0].2);
    assert(str_views(r@[1].domains@) =~= default_groups_spec()[1].2);
    assert(str_views(r@[2].domains@) =~= default_groups_spec()[2].2);
    assert(str_views(r@[3].domains@) =~= default_groups_spec()[3].2);
    r
}


/// `c` is the configuration the client ships with.
pub open spec fn is_default_config(c: MmdfConfig) -> bool {
    &&& c.listen_host@ == "127.0.0.1"@
    &&& c.listen_port == 8080
    &&& c.socks5_port == 1081
    &&& c.connect_ip@ == "142.251.36.68"@
    &&& c.front_domain@ == "www.google.com"@
    &&& c.verify_ssl
    &&& c.log_level@ == "info"@
    &&& is_default_groups(c.groups@)
    &&& str_views(c.passthrough@) == seq!["localhost"@, "127.0.0.1"@]
    &&& c.extra_domains@.len() == 0
}

impl Default for MmdfConfig {
    fn default() -> (c: Self)
        ensures
            is_default_config(c),
    {
        let passthrough = owned_all(&["localhost", "127.0.0.1"]);
        let c = MmdfConfig {
            listen_host: d_host(),
            listen_port: d_http(),
            socks5_port: d_socks(),
            connect_ip: d_ip(),
            front_domain: d_sni(),
            verify_ssl: d_true(),
            log_level: d_info(),
            groups: d_groups(),
            passthrough,
            extra_domains: Vec::new(),
        };
        assert(str_views(c.passthrough@) =~= seq!["localhost"@, "127.0.0.1"@]);
        c
    }
}

impl MmdfConfig {
    /// The first rule a configuration breaks, as the message `validate`
    /// reports, or `None` when it is usable.
    pub open spec fn validation_error(&self) -> Option<Seq<char>> {
        if self.listen_port == 0 || self.socks5_port == 0 {
            Some("listen ports must be non-zero"@)
        } else if self.listen_port == self.socks5_port {
            Some("http and socks5 ports must differ"@)
        } else if self.connect_ip@.len() == 0 || self.front_domain@.len() == 0 {
            Some("connect_ip and front_domain are required"@)
        } else {
            None
        }
    }

    /// Checks the listen ports (non-zero, distinct) and that the default
    /// egress IP and front domain are set.
    pub fn validate(&self) -> (r: Result<(), String>)
        ensures
            match self.validation_error() {
                None => r is Ok,
                Some(m) => r matches Err(e) && e@ == m,
            },
    {
        if self.listen_port == 0 || self.socks5_port == 0 {
            return Err(owned("listen ports must be non-zero"));
        }
        if self.listen_port == self.socks5_port {
            return Err(owned("http and socks5 ports must differ"));
        }
        if self.connect_ip.as_str().is_empty() || self.front_domain.as_str().is_empty() {
            return Err(owned("connect_ip and front_domain are required"));
        }
        Ok(())
    }

    /// The message reported when a configuration text is neither JSON nor TOML.
    pub fn parse_error(detail: &str) -> (r: String)
        ensures
            r@ == "config parse failed: "@ + detail@,
    {
        let mut r = owned("config parse failed: ");
        r.append(detail);
        r
    }
}


proof fn lemma_any_domain_same_key(ds: Seq<String>, a: Seq<char>, b: Seq<char>)
    requires
        host_key(a) == host_key(b),
    ensures
        any_domain_matches(ds, a) == any_domain_matches(ds, b),
{
    assert forall|i: int| 0 <= i < ds.len() implies
        domain_matches(a, #[trigger] ds[i]@) == domain_matches(b, ds[i]@) by {}
}

proof fn lemma_first_group_same_key(gs: Seq<FrontGroup>, a: Seq<char>, b: Seq<char>, k: int)
    requires
        host_key(a) == host_key(b),
    ensures
        first_group_from(gs, a, k) == first_group_from(gs, b, k),
    decreases gs.len() - k,
{
    if 0 <= k < gs.len() {
        lemma_any_domain_same_key(gs[k].domains@, a, b);
        lemma_first_group_same_key(gs, a, b, k + 1);
    }
}

/// A configuration passes validation exactly when both listen ports are
/// non-zero and different and neither the default egress IP nor the front
/// domain is empty; with valid ports, a missing egress IP or front domain
/// is reported as such.
pub proof fn law_validate_accepts_exactly_complete_configs(c: MmdfConfig)
    ensures
        (c.validation_error() is None) <==> (c.listen_port != 0 && c.socks5_port != 0 && c.listen_port != c.socks5_port
            && c.connect_ip@.len() > 0 && c.front_domain@.len() > 0),
        c.listen_port != 0 && c.socks5_port != 0 && c.listen_port != c.socks5_port
            && (c.connect_ip@.len() == 0 || c.front_domain@.len() == 0)
            ==> c.validation_error() == Some("connect_ip and front_domain are required"@),
{
}

/// A host that falls under a passthrough entry is never fronted, whatever
/// the groups and extra domains say.
pub proof fn law_passthrough_never_fronted(c: MmdfConfig, host: Seq<char>)
    requires
        c.passthrough_covers(host),
    ensures
        c.front_spec(host) is None,
{
}

/// The fronting decision depends on a host only through its comparison key
/// (trailing dots dropped, ASCII lowercased).
pub proof fn law_front_depends_only_on_key(c: MmdfConfig, a: Seq<char>, b: Seq<char>)
    requires
        host_key(a) == host_key(b),
    ensures
        c.front_spec(a) == c.front_spec(b),
{
    lemma_any_domain_same_key(c.passthrough@, a, b);
    lemma_any_domain_same_key(c.extra_domains@, a, b);
    lemma_first_group_same_key(c.groups@, a, b, 0);
}

/// ASCII case and a trailing dot of the host do not change the fronting
/// decision.
pub proof fn law_front_ignores_case_and_trailing_dot(c: MmdfConfig, host: Seq<char>)
    ensures
        c.front_spec(lower(host)) == c.front_spec(host),
        c.front_spec(host.push('.')) == c.front_spec(host),
{
    lemma_host_key_lower(host);
    lemma_host_key_dot(host);
    law_front_depends_only_on_key(c, lower(host), host);
    law_front_depends_only_on_key(c, host.push('.'), host);
}

/// A group that covers a host (given without trailing dot) also covers every
/// subdomain of it.
pub proof fn law_group_covers_subdomains(g: FrontGroup, host: Seq<char>, label: Seq<char>)
    requires
        g.covers_host(host),
        host.len() > 0,
        host.last() != '.',
    ensures
        g.covers_host(label + seq!['.'] + host),
{
    let sub = label + seq!['.'] + host;
    let i = choose|i: int| 0 <= i < g.domains@.len() && domain_matches(host, #[trigger] g.domains@[i]@);
    assert(trim_trailing_dots(host) == host);
    assert(sub.last() == host.last());
    assert(trim_trailing_dots(sub) == sub);
    lemma_lower_concat(label + seq!['.'], host);
    lemma_lower_concat(label, seq!['.']);
    assert(lower(seq!['.']) =~= seq!['.']);
    lemma_covers_subdomain(lower(host), lower(g.domains@[i]@), lower(label));
    assert(domain_matches(sub, g.domains@[i]@));
}


/// The first group that covers a (non-passthrough) host decides: its SNI,
/// and its own connect IP or, when it has none, the configuration's.
pub proof fn law_first_group_decides(c: MmdfConfig, host: Seq<char>, i: int)
    requires
        !c.passthrough_covers(host),
        0 <= i < c.groups@.len(),
        c.groups@[i].covers_host(host),
        forall|j: int| 0 <= j < i ==> !(#[trigger] c.groups@[j]).covers_host(host),
    ensures
        c.front_spec(host) == Some((
            c.groups@[i].sni@,
            if c.groups@[i].connect_ip@.len() == 0 { c.connect_ip@ } else { c.groups@[i].connect_ip@ },
        )),
{
    lemma_first_group_at(c.groups@, host, 0, i);
}

proof fn lemma_first_group_at(gs: Seq<FrontGroup>, host: Seq<char>, k: int, i: int)
    requires
        0 <= k <= i < gs.len(),
        gs[i].covers_host(host),
        forall|j: int| 0 <= j < i ==> !(#[trigger] gs[j]).covers_host(host),
    ensures
        first_group_from(gs, host, k) == Some(i),
    decreases i - k,
{
    if k < i {
        lemma_first_group_at(gs, host, k + 1, i);
    }
}

proof fn lemma_no_group(gs: Seq<FrontGroup>, host: Seq<char>, k: int)
    requires
        0 <= k,
        forall|j: int| 0 <= j < gs.len() ==> !(#[trigger] gs[j]).covers_host(host),
    ensures
        first_group_from(gs, host, k) is None,
    decreases gs.len() - k,
{
    if k < gs.len() {
        lemma_no_group(gs, host, k + 1);
    }
}

/// A host that no group covers but an extra domain does rides the default
/// leg: the configured front domain and connect IP; a host that nothing
/// covers is not fronted.
pub proof fn law_extra_domains_ride_default_leg(c: MmdfConfig, host: Seq<char>)
    requires
        !c.passthrough_covers(host),
        forall|j: int| 0 <= j < c.groups@.len() ==> !(#[trigger] c.groups@[j]).covers_host(host),
    ensures
        any_domain_matches(c.extra_domains@, host) ==> c.front_spec(host) == Some((c.front_domain@, c.connect_ip@)),
        !any_domain_matches(c.extra_domains@, host) ==> c.front_spec(host) is None,
{
    lemma_no_group(c.groups@, host, 0);
}

} // verus!
