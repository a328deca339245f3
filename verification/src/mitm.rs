//! What the on-device CA and the per-domain leaf certificates contain, where
//! the CA files live; making, loading and signing with the CA; and the TLS
//! configurations served per domain, with the policy of their cache.
//!
//! The user trusts one self-signed CA; for every fronted host a short-lived
//! leaf for exactly that name is minted. Leaves carry the serverAuth
//! extended key usage and the digitalSignature / keyEncipherment key usages,
//! which browsers require.

use vstd::prelude::*;
use vstd::string::StringExecFns;
use vstd::utf8::is_ascii_chars;
use crate::pki::{
    ca_der_outcome, ca_params_from_der, cert_der, cert_pem, clear_subject, default_params, dn_push,
    generate_key, ia5_error_text, kind_index, key_der, key_from_pem, key_pem, pem_certificates,
    private_key_pem, push_dns_name, push_ext_key_usage, push_key_usage, push_subject,
    read_pem_certificates, self_signed, set_ca_path_len, set_validity, signed_by, tls_server_config,
    certificate_pem, Cert, CertModel, Key, Params, ParamsModel, ServerTls,
};

verus! {

broadcast use vstd::string::group_string_axioms;

/// Directory of the CA files, relative to the data directory.
pub const CA_DIR: &'static str = "mmdf-ca";
/// The CA private key (PEM), relative to the data directory.
pub const CA_KEY: &'static str = "mmdf-ca/ca.key";
/// The CA certificate (PEM), relative to the data directory.
pub const CA_CRT: &'static str = "mmdf-ca/ca.crt";

/// A distinguished-name attribute.
#[derive(Debug, Clone, Copy, PartialEq, Eq, Structural)]
pub enum DnKind {
    CommonName,
    OrganizationName,
}

/// A key usage.
#[derive(Debug, Clone, Copy, PartialEq, Eq, Structural)]
pub enum KeyUse {
    DigitalSignature,
    KeyEncipherment,
    KeyCertSign,
    CrlSign,
}

/// An extended key usage.
#[derive(Debug, Clone, Copy, PartialEq, Eq, Structural)]
pub enum ExtKeyUse {
    ServerAuth,
}

/// Everything a certificate to be minted states about itself.
#[derive(Debug)]
pub struct CertProfile {
    /// Subject attributes, in order.
    pub subject: Vec<(DnKind, String)>,
    /// DNS subject alternative names.
    pub dns_names: Vec<String>,
    /// `Some(n)`: a CA whose path length is constrained to `n`.
    pub ca_path_len: Option<u8>,
    pub key_usages: Vec<KeyUse>,
    pub ext_key_usages: Vec<ExtKeyUse>,
    /// Validity starts this many minutes before issuance.
    pub backdate_minutes: u64,
    /// Validity ends this many days after issuance.
    pub valid_days: u64,
}

pub open spec fn subject_view(s: Seq<(DnKind, String)>) -> Seq<(DnKind, Seq<char>)> {
    s.map_values(|e: (DnKind, String)| (e.0, e.1@))
}

/// The on-device CA: "MMDF Local CA" of organisation "MMDF", a CA that may
/// only sign leaves, usable for signatures and certificate/CRL signing,
/// valid from five minutes ago for ten years.
pub open spec fn is_ca_profile(p: CertProfile) -> bool {
    &&& subject_view(p.subject@) == seq![(DnKind::CommonName, "MMDF Local CA"@), (DnKind::OrganizationName, "MMDF"@)]
    &&& p.dns_names@.len() == 0
    &&& p.ca_path_len == Some(0u8)
    &&& p.key_usages@ == seq![KeyUse::DigitalSignature, KeyUse::KeyCertSign, KeyUse::CrlSign]
    &&& p.ext_key_usages@.len() == 0
    &&& p.backdate_minutes == 5
    &&& p.valid_days == 3650
}

/// A leaf for `domain`: common name and single DNS name `domain`, not a CA,
/// usable for signatures and key encipherment by a TLS server, valid from
/// five minutes ago for 90 days.
pub open spec fn is_leaf_profile(p: CertProfile, domain: Seq<char>) -> bool {
    &&& subject_view(p.subject@) == seq![(DnKind::CommonName, domain)]
    &&& p.dns_names@.len() == 1
    &&& p.dns_names@[0]@ == domain
    &&& p.ca_path_len is None
    &&& p.key_usages@ == seq![KeyUse::DigitalSignature, KeyUse::KeyEncipherment]
    &&& p.ext_key_usages@ == seq![ExtKeyUse::ServerAuth]
    &&& p.backdate_minutes == 5
    &&& p.valid_days == 90
}

/// What the on-device CA certificate states.
pub fn ca_profile() -> (p: CertProfile)
    ensures
        is_ca_profile(p),
{
    let mut subject: Vec<(DnKind, String)> = Vec::new();
    subject.push((DnKind::CommonName, String::from_str("MMDF Local CA")));
    subject.push((DnKind::OrganizationName, String::from_str("MMDF")));
    let mut key_usages: Vec<KeyUse> = Vec::new();
    key_usages.push(KeyUse::DigitalSignature);
    key_usages.push(KeyUse::KeyCertSign);
    key_usages.push(KeyUse::CrlSign);
    let p = CertProfile {
        subject,
        dns_names: Vec::new(),
        ca_path_len: Some(0),
        key_usages,
        ext_key_usages: Vec::new(),
        backdate_minutes: 5,
        valid_days: 3650,
    };
    assert(subject_view(p.subject@) =~= seq![(DnKind::CommonName, "MMDF Local CA"@), (DnKind::OrganizationName, "MMDF"@)]);
    assert(p.key_usages@ =~= seq![KeyUse::DigitalSignature, KeyUse::KeyCertSign, KeyUse::CrlSign]);
    p
}

/// What the leaf minted for `domain` states.
pub fn leaf_profile(domain: &str) -> (p: CertProfile)
    ensures
        is_leaf_profile(p, domain@),
{
    let mut subject: Vec<(DnKind, String)> = Vec::new();
    subject.push((DnKind::CommonName, String::from_str(domain)));
    let mut dns_names: Vec<String> = Vec::new();
    dns_names.push(String::from_str(domain));
    let mut key_usages: Vec<KeyUse> = Vec::new();
    key_usages.push(KeyUse::DigitalSignature);
    key_usages.push(KeyUse::KeyEncipherment);
    let mut ext_key_usages: Vec<ExtKeyUse> = Vec::new();
    ext_key_usages.push(ExtKeyUse::ServerAuth);
    let p = CertProfile {
        subject,
        dns_names,
        ca_path_len: None,
        key_usages,
        ext_key_usages,
        backdate_minutes: 5,
        valid_days: 90,
    };
    assert(subject_view(p.subject@) =~= seq![(DnKind::CommonName, domain@)]);
    assert(p.key_usages@ =~= seq![KeyUse::DigitalSignature, KeyUse::KeyEncipherment]);
    assert(p.ext_key_usages@ =~= seq![ExtKeyUse::ServerAuth]);
    p
}

/// Most leaves kept in a cache.
pub const MAX_CACHED_LEAVES: usize = 512;

/// Minted leaf configurations by domain. Entries are only added while
/// fewer than `MAX_CACHED_LEAVES` are held.
pub struct LeafCache<T> {
    entries: Vec<(String, T)>,
}

/// Index of the entry for `key`, searching below `k`.
pub open spec fn index_below<T>(entries: Seq<(String, T)>, key: Seq<char>, k: int) -> Option<int>
    decreases k,
{
    if k <= 0 {
        None
    } else if entries[k - 1].0@ == key {
        Some(k - 1)
    } else {
        index_below(entries, key, k - 1)
    }
}

/// Domain to value, as held in `entries`.
pub open spec fn entries_map<T>(entries: Seq<(String, T)>) -> Map<Seq<char>, T>
    decreases entries.len(),
{
    if entries.len() == 0 {
        Map::empty()
    } else {
        entries_map(entries.drop_last()).insert(entries.last().0@, entries.last().1)
    }
}

/// No domain has two entries.
pub open spec fn distinct_keys<T>(entries: Seq<(String, T)>) -> bool {
    forall|i: int, j: int| 0 <= i < j < entries.len() ==> entries[i].0@ != entries[j].0@
}

proof fn lemma_index_below_none<T>(entries: Seq<(String, T)>, key: Seq<char>, k: int)
    requires
        0 <= k <= entries.len(),
        index_below(entries, key, k) is None,
    ensures
        forall|i: int| 0 <= i < k ==> entries[i].0@ != key,
    decreases k,
{
    if k > 0 {
        lemma_index_below_none(entries, key, k - 1);
    }
}

proof fn lemma_entries_map_update<T>(e: Seq<(String, T)>, i: int, x: (String, T))
    requires
        distinct_keys(e),
        0 <= i < e.len(),
        e[i].0@ == x.0@,
    ensures
        entries_map(e.update(i, x)) == entries_map(e).insert(x.0@, x.1),
    decreases e.len(),
{
    let u = e.update(i, x);
    let n = e.len() - 1;
    if i == n {
        assert(u.drop_last() =~= e.drop_last());
        assert(entries_map(u) =~= entries_map(e).insert(x.0@, x.1));
    } else {
        assert(u.drop_last() =~= e.drop_last().update(i, x));
        lemma_entries_map_update(e.drop_last(), i, x);
        assert(e[n].0@ != e[i].0@);
        assert(entries_map(u) =~= entries_map(e).insert(x.0@, x.1));
    }
}

proof fn lemma_entries_map<T>(entries: Seq<(String, T)>, key: Seq<char>)
    ensures
        match index_below(entries, key, entries.len() as int) {
            Some(i) => 0 <= i < entries.len() && entries[i].0@ == key
                && entries_map(entries).contains_key(key) && entries_map(entries)[key] == entries[i].1,
            None => !entries_map(entries).contains_key(key),
        },
    decreases entries.len(),
{
    if entries.len() > 0 {
        let init = entries.drop_last();
        lemma_entries_map(init, key);
        if entries.last().0@ != key {
            assert(index_below(entries, key, init.len() as int) == index_below(init, key, init.len() as int)) by {
                lemma_index_below_prefix(entries, init, key, init.len() as int);
            }
        }
    }
}

proof fn lemma_index_below_prefix<T>(s: Seq<(String, T)>, t: Seq<(String, T)>, key: Seq<char>, k: int)
    requires
        0 <= k <= t.len() <= s.len(),
        forall|i: int| 0 <= i < t.len() ==> s[i] == t[i],
    ensures
        index_below(s, key, k) == index_below(t, key, k),
    decreases k,
{
    if k > 0 {
        lemma_index_below_prefix(s, t, key, k - 1);
    }
}

impl<T> LeafCache<T> {
    /// Domain to cached value.
    pub closed spec fn view(&self) -> Map<Seq<char>, T> {
        entries_map(self.entries@)
    }

    /// Number of entries held.
    pub closed spec fn count(&self) -> nat {
        self.entries@.len()
    }

    /// Entries are unique per domain and never more than the cap.
    pub closed spec fn wf(&self) -> bool {
        &&& self.entries@.len() <= MAX_CACHED_LEAVES
        &&& distinct_keys(self.entries@)
    }

    /// An empty cache.
    pub fn new() -> (c: Self)
        ensures
            c.wf(),
            c.view() == Map::<Seq<char>, T>::empty(),
    {
        let c = LeafCache { entries: Vec::new() };
        assert(c.view() =~= Map::<Seq<char>, T>::empty());
        c
    }

    fn find(&self, domain: &str) -> (r: Option<usize>)
        ensures
            match index_below(self.entries@, domain@, self.entries@.len() as int) {
                Some(i) => r == Some(i as usize),
                None => r is None,
            },
    {
        let mut k = self.entries.len();
        while k > 0
            invariant
                k <= self.entries@.len(),
                index_below(self.entries@, domain@, self.entries@.len() as int) == index_below(self.entries@, domain@, k as int),
            decreases k,
        {
            if crate::text::str_eq(self.entries[k - 1].0.as_str(), domain) {
                return Some(k - 1);
            }
            k = k - 1;
        }
        None
    }

    /// The value cached for `domain`.
    pub fn get(&self, domain: &str) -> (r: Option<&T>)
        ensures
            match r {
                Some(v) => self.view().contains_key(domain@) && *v == self.view()[domain@],
                None => !self.view().contains_key(domain@),
            },
    {
        proof {
            lemma_entries_map(self.entries@, domain@);
        }
        assert(self.entries@.len() == self.entries.len());
        match self.find(domain) {
            Some(i) => Some(&self.entries[i].1),
            None => None,
        }
    }

    /// Number of entries held.
    pub fn len(&self) -> (n: usize)
        ensures
            n == self.count(),
    {
        self.entries.len()
    }

    /// Caches `v` for `domain` (replacing an earlier value) when fewer than
    /// `MAX_CACHED_LEAVES` entries are held; otherwise leaves the cache as
    /// it is.
    pub fn insert_if_room(&mut self, domain: &str, v: T)
        requires
            old(self).wf(),
        ensures
            final(self).wf(),
            old(self).count() < MAX_CACHED_LEAVES ==> final(self).view() == old(self).view().insert(domain@, v),
            old(self).count() >= MAX_CACHED_LEAVES ==> final(self).view() == old(self).view(),
    {
        if self.entries.len() >= MAX_CACHED_LEAVES {
            return;
        }
        proof {
            lemma_entries_map(self.entries@, domain@);
        }
        let ghost before = self.entries@;
        match self.find(domain) {
            Some(i) => {
                let x = (String::from_str(domain), v);
                proof {
                    lemma_entries_map_update(before, i as int, x);
                }
                self.entries.set(i, x);
                assert(self.entries@ == before.update(i as int, x));
                assert(distinct_keys(self.entries@)) by {
                    assert forall|a: int, b: int| 0 <= a < b < self.entries@.len() implies
                        self.entries@[a].0@ != self.entries@[b].0@ by {
                        if a != i && b != i {
                            assert(before[a].0@ != before[b].0@);
                        } else if a == i {
                            assert(before[a].0@ != before[b].0@);
                        } else {
                            assert(before[a].0@ != before[b].0@);
                        }
                    }
                }
            },
            None => {
                proof {
                    lemma_index_below_none(before, domain@, before.len() as int);
                }
                let x = (String::from_str(domain), v);
                self.entries.push(x);
                assert(self.entries@.drop_last() =~= before);
            },
        }
    }
}

/// Why the CA could not be read or made, or a leaf not minted or served.
#[derive(Debug, Clone, PartialEq, Eq)]
pub enum CaError {
    /// A PEM file could not be read; the reader's message.
    Io(String),
    /// rcgen refused a key, a certificate or a signature; its message.
    Rcgen(String),
    /// rustls refused the leaf's certificate and key; its message.
    Tls(String),
    /// A PEM file holds no certificate.
    Pem(String),
    /// A domain that cannot be a DNS name of a certificate.
    Name(String),
}

/// The error text of a CA certificate file without a certificate.
pub open spec fn no_certificate_text() -> Seq<char> {
    "ca.crt holds no certificate"@
}

/// The error text of a domain that rcgen does not accept as a DNS name.
pub open spec fn bad_dns_text(name: Seq<char>) -> Seq<char> {
    "bad dns name '"@ + name + "': "@ + ia5_error_text(name)
}

/// The first of `names` that is not ASCII.
pub open spec fn first_non_ascii(names: Seq<Seq<char>>) -> Option<Seq<char>>
    decreases names.len(),
{
    if names.len() == 0 {
        None
    } else if !is_ascii_chars(names[0]) {
        Some(names[0])
    } else {
        first_non_ascii(names.drop_first())
    }
}

/// The DNS names of a profile, as text.
pub open spec fn dns_names_view(p: CertProfile) -> Seq<Seq<char>> {
    p.dns_names@.map_values(|n: String| n@)
}

/// Validity a certificate can be made with.
pub open spec fn validity_in_range(p: CertProfile) -> bool {
    p.backdate_minutes <= 525600 && p.valid_days <= 36500
}

/// The subject that pushing the attributes `s` in order onto an empty one
/// gives.
pub open spec fn subject_model(s: Seq<(DnKind, Seq<char>)>) -> Seq<(DnKind, Seq<char>)>
    decreases s.len(),
{
    if s.len() == 0 {
        Seq::empty()
    } else {
        dn_push(subject_model(s.drop_last()), s.last().0, s.last().1)
    }
}

/// What certificate parameters set from `p` state.
pub open spec fn profile_model(p: CertProfile) -> ParamsModel {
    ParamsModel {
        source: None,
        subject: subject_model(subject_view(p.subject@)),
        dns_names: dns_names_view(p),
        ca_path_len: p.ca_path_len,
        key_usages: p.key_usages@,
        ext_key_usages: p.ext_key_usages@,
        validity: Some((p.backdate_minutes, p.valid_days)),
    }
}

/// What the on-device CA's parameters state (see `is_ca_profile`).
pub open spec fn ca_model() -> ParamsModel {
    ParamsModel {
        source: None,
        subject: seq![(DnKind::CommonName, "MMDF Local CA"@), (DnKind::OrganizationName, "MMDF"@)],
        dns_names: Seq::empty(),
        ca_path_len: Some(0u8),
        key_usages: seq![KeyUse::DigitalSignature, KeyUse::KeyCertSign, KeyUse::CrlSign],
        ext_key_usages: Seq::empty(),
        validity: Some((5u64, 3650u64)),
    }
}

/// What the parameters of the leaf for `domain` state (see
/// `is_leaf_profile`).
pub open spec fn leaf_model(domain: Seq<char>) -> ParamsModel {
    ParamsModel {
        source: None,
        subject: seq![(DnKind::CommonName, domain)],
        dns_names: seq![domain],
        ca_path_len: None,
        key_usages: seq![KeyUse::DigitalSignature, KeyUse::KeyEncipherment],
        ext_key_usages: seq![ExtKeyUse::ServerAuth],
        validity: Some((5u64, 90u64)),
    }
}

/// Parameters after the subject is emptied.
pub open spec fn cleared_model() -> ParamsModel {
    ParamsModel {
        source: None,
        subject: Seq::empty(),
        dns_names: Seq::empty(),
        ca_path_len: None,
        key_usages: Seq::empty(),
        ext_key_usages: Seq::empty(),
        validity: None,
    }
}

proof fn lemma_subject_one(a: (DnKind, Seq<char>))
    ensures
        subject_model(seq![a]) == seq![a],
{
    assert(seq![a].drop_last() =~= Seq::<(DnKind, Seq<char>)>::empty());
    assert(subject_model(Seq::<(DnKind, Seq<char>)>::empty()) == Seq::<(DnKind, Seq<char>)>::empty());
    assert(seq![a].last() == a);
    assert(kind_index(Seq::<(DnKind, Seq<char>)>::empty(), a.0, 0) is None);
    assert(Seq::<(DnKind, Seq<char>)>::empty().push(a) =~= seq![a]);
}

proof fn lemma_ca_model(p: CertProfile)
    requires
        is_ca_profile(p),
    ensures
        profile_model(p) == ca_model(),
{
    let a = (DnKind::CommonName, "MMDF Local CA"@);
    let b = (DnKind::OrganizationName, "MMDF"@);
    let s = seq![a, b];
    assert(s.drop_last() =~= seq![a]);
    lemma_subject_one(a);
    assert(kind_index(seq![a], DnKind::OrganizationName, 1) == kind_index(seq![a], DnKind::OrganizationName, 0));
    assert(seq![a].push(b) =~= s);
    assert(subject_model(s) == s);
    assert(dns_names_view(p) =~= Seq::<Seq<char>>::empty());
    assert(profile_model(p) =~= ca_model());
}

proof fn lemma_leaf_model(p: CertProfile, domain: Seq<char>)
    requires
        is_leaf_profile(p, domain),
    ensures
        profile_model(p) == leaf_model(domain),
{
    lemma_subject_one((DnKind::CommonName, domain));
    assert(dns_names_view(p) =~= seq![domain]);
    assert(profile_model(p) =~= leaf_model(domain));
}

proof fn lemma_first_non_ascii_step(names: Seq<Seq<char>>, i: int)
    requires
        0 <= i < names.len(),
        forall|j: int| 0 <= j < i ==> is_ascii_chars(#[trigger] names[j]),
    ensures
        first_non_ascii(names) == first_non_ascii(names.subrange(i, names.len() as int)),
    decreases i,
{
    if i > 0 {
        let t = names.drop_first();
        assert(t.subrange(i - 1, t.len() as int) =~= names.subrange(i, names.len() as int));
        assert forall|j: int| 0 <= j < i - 1 implies is_ascii_chars(#[trigger] t[j]) by {
            assert(t[j] == names[j + 1]);
        }
        lemma_first_non_ascii_step(t, i - 1);
    } else {
        assert(names.subrange(0, names.len() as int) =~= names);
    }
}

proof fn lemma_first_non_ascii_none(names: Seq<Seq<char>>)
    requires
        forall|j: int| 0 <= j < names.len() ==> is_ascii_chars(#[trigger] names[j]),
    ensures
        first_non_ascii(names) is None,
    decreases names.len(),
{
    if names.len() > 0 {
        let t = names.drop_first();
        assert forall|j: int| 0 <= j < t.len() implies is_ascii_chars(#[trigger] t[j]) by {
            assert(t[j] == names[j + 1]);
        }
        lemma_first_non_ascii_none(t);
    }
}

/// rcgen parameters stating what `profile` states. Fails only for a DNS
/// name that is not ASCII: the first such name is reported.
pub(crate) fn build_params(profile: &CertProfile) -> (r: Result<Params, CaError>)
    requires
        validity_in_range(*profile),
    ensures
        match first_non_ascii(dns_names_view(*profile)) {
            Some(n) => r matches Err(CaError::Name(m)) && m@ == bad_dns_text(n),
            None => r matches Ok(p) && p.model() == profile_model(*profile),
        },
{
    let mut p = default_params();
    clear_subject(&mut p);
    assert(p.model() =~= cleared_model());
    let ghost sv = subject_view(profile.subject@);
    let mut i: usize = 0;
    while i < profile.subject.len()
        invariant
            i <= profile.subject@.len(),
            sv == subject_view(profile.subject@),
            p.model() == (ParamsModel { subject: subject_model(sv.take(i as int)), ..cleared_model() }),
        decreases profile.subject@.len() - i,
    {
        proof {
            assert(sv.take(i + 1).drop_last() =~= sv.take(i as int));
            assert(sv.take(i + 1).last() == (profile.subject@[i as int].0, profile.subject@[i as int].1@));
        }
        push_subject(&mut p, profile.subject[i].0, profile.subject[i].1.as_str());
        i = i + 1;
        assert(p.model() =~= (ParamsModel { subject: subject_model(sv.take(i as int)), ..cleared_model() }));
    }
    assert(sv.take(i as int) =~= sv);
    let ghost m1 = ParamsModel { subject: subject_model(sv), ..cleared_model() };
    let ghost names = dns_names_view(*profile);
    let mut i: usize = 0;
    while i < profile.dns_names.len()
        invariant
            i <= profile.dns_names@.len(),
            names == dns_names_view(*profile),
            forall|j: int| 0 <= j < i ==> is_ascii_chars(#[trigger] names[j]),
            p.model() == (ParamsModel { dns_names: names.take(i as int), ..m1 }),
            m1.source is None,
        decreases profile.dns_names@.len() - i,
    {
        let name = profile.dns_names[i].as_str();
        assert(name@ == names[i as int]);
        match push_dns_name(&mut p, name) {
            Ok(()) => {
                assert(names.take(i + 1) =~= names.take(i as int).push(name@));
            },
            Err(e) => {
                proof {
                    lemma_first_non_ascii_step(names, i as int);
                    assert(names.subrange(i as int, names.len() as int)[0] == names[i as int]);
                }
                let mut m = String::from_str("bad dns name '");
                m.append(name);
                m.append("': ");
                m.append(e.as_str());
                assert(m@ =~= bad_dns_text(names[i as int]));
                return Err(CaError::Name(m));
            },
        }
        i = i + 1;
        assert(p.model() =~= (ParamsModel { dns_names: names.take(i as int), ..m1 }));
    }
    proof {
        lemma_first_non_ascii_none(names);
        assert(names.take(i as int) =~= names);
    }
    let ghost m2 = ParamsModel { dns_names: names, ..m1 };
    match profile.ca_path_len {
        Some(n) => set_ca_path_len(&mut p, n),
        None => {},
    }
    let ghost m3 = ParamsModel { ca_path_len: profile.ca_path_len, ..m2 };
    assert(p.model() =~= m3);
    let mut i: usize = 0;
    while i < profile.key_usages.len()
        invariant
            i <= profile.key_usages@.len(),
            p.model() == (ParamsModel { key_usages: profile.key_usages@.take(i as int), ..m3 }),
            m3.source is None,
        decreases profile.key_usages@.len() - i,
    {
        push_key_usage(&mut p, profile.key_usages[i]);
        assert(profile.key_usages@.take(i + 1) =~= profile.key_usages@.take(i as int).push(profile.key_usages@[i as int]));
        i = i + 1;
        assert(p.model() =~= (ParamsModel { key_usages: profile.key_usages@.take(i as int), ..m3 }));
    }
    assert(profile.key_usages@.take(i as int) =~= profile.key_usages@);
    let ghost m4 = ParamsModel { key_usages: profile.key_usages@, ..m3 };
    let mut i: usize = 0;
    while i < profile.ext_key_usages.len()
        invariant
            i <= profile.ext_key_usages@.len(),
            p.model() == (ParamsModel { ext_key_usages: profile.ext_key_usages@.take(i as int), ..m4 }),
            m4.source is None,
        decreases profile.ext_key_usages@.len() - i,
    {
        push_ext_key_usage(&mut p, profile.ext_key_usages[i]);
        assert(profile.ext_key_usages@.take(i + 1) =~= profile.ext_key_usages@.take(i as int).push(profile.ext_key_usages@[i as int]));
        i = i + 1;
        assert(p.model() =~= (ParamsModel { ext_key_usages: profile.ext_key_usages@.take(i as int), ..m4 }));
    }
    assert(profile.ext_key_usages@.take(i as int) =~= profile.ext_key_usages@);
    set_validity(&mut p, profile.backdate_minutes, profile.valid_days);
    assert(p.model() =~= profile_model(*profile));
    Ok(p)
}

/// The first certificate of what was read from a CA certificate file: the
/// reader's error when the PEM was malformed, `Pem` when it holds no
/// certificate.
pub fn first_certificate_of(read: Result<Vec<Vec<u8>>, String>) -> (r: Result<Vec<u8>, CaError>)
    ensures
        match read {
            Err(m) => r matches Err(CaError::Io(e)) && e@ == m@,
            Ok(cs) => if cs@.len() == 0 {
                r matches Err(CaError::Pem(e)) && e@ == no_certificate_text()
            } else {
                r matches Ok(d) && d@ == cs@[0]@
            },
        },
{
    match read {
        Err(m) => Err(CaError::Io(m)),
        Ok(certs) => {
            if certs.len() == 0 {
                Err(CaError::Pem(String::from_str("ca.crt holds no certificate")))
            } else {
                let mut certs = certs;
                let first = certs.swap_remove(0);
                Ok(first)
            }
        },
    }
}

/// The first certificate of a CA certificate file (see
/// `first_certificate_of`), the file read with `rustls_pemfile`.
pub fn first_ca_certificate(pem: &[u8]) -> (r: Result<Vec<u8>, CaError>)
    ensures
        match pem_certificates(pem@) {
            Err(m) => r matches Err(CaError::Io(e)) && e@ == m,
            Ok(cs) => if cs.len() == 0 {
                r matches Err(CaError::Pem(e)) && e@ == no_certificate_text()
            } else {
                r matches Ok(d) && d@ == cs[0]
            },
        },
{
    let read = read_pem_certificates(pem);
    first_certificate_of(read)
}

/// The on-device CA: its certificate as DER, its key, and the certificate
/// rcgen signs leaves with.
pub struct Authority {
    ca_der: Vec<u8>,
    key: Key,
    cert: Cert,
}

/// A CA just made, with the files that hold it.
pub struct NewAuthority {
    pub authority: Authority,
    /// The certificate, PEM (bytes of ASCII text).
    pub cert_pem: Vec<u8>,
    /// The private key, PEM.
    pub key_pem: String,
}

impl Authority {
    /// The CA certificate, DER.
    pub closed spec fn der(&self) -> Seq<u8> {
        self.ca_der@
    }

    /// The CA's key (PKCS#8 DER).
    pub closed spec fn key_der(&self) -> Seq<u8> {
        self.key.der()
    }

    /// The certificate leaves are signed with: what it states and how it
    /// was made.
    pub closed spec fn signing_cert(&self) -> CertModel {
        self.cert.model()
    }

    /// The CA certificate, DER.
    pub fn ca_der(&self) -> (r: &Vec<u8>)
        ensures
            r@ == self.der(),
    {
        &self.ca_der
    }
}

/// `a` holds a CA certificate of `params`, self-signed with its key, and
/// signs leaves with that certificate.
pub open spec fn self_signed_ca(a: Authority, params: ParamsModel) -> bool {
    &&& a.signing_cert().params == params
    &&& a.signing_cert().issuer == params
    &&& a.signing_cert().subject_key == a.key_der()
    &&& a.signing_cert().signer_key == a.key_der()
}

/// `c` is a certificate with DER `der`, stating `m`, for the key `key`,
/// issued and signed by the CA `a`.
pub open spec fn leaf_cert(c: CertModel, a: Authority, der: Seq<u8>, key: Seq<u8>, m: ParamsModel) -> bool {
    &&& c.der == der
    &&& c.params == m
    &&& c.subject_key == key
    &&& c.issuer == a.signing_cert().params
    &&& c.signer_key == a.key_der()
}

/// `der` is a certificate stating `m` for the key `key` (PKCS#8 DER),
/// issued and signed by the CA `a`.
pub open spec fn issued_by(a: Authority, der: Seq<u8>, key: Seq<u8>, m: ParamsModel) -> bool {
    exists|c: CertModel| #[trigger] leaf_cert(c, a, der, key, m)
}

impl Authority {
    /// Makes a new self-signed CA stating `ca_profile`, with a new random
    /// key; only rcgen can refuse. The certificate file holds exactly the
    /// CA certificate, and the key file the key that signed it.
    pub fn create() -> (r: Result<NewAuthority, CaError>)
        ensures
            r matches Err(e) ==> e is Rcgen,
            r matches Ok(n) ==> {
                &&& self_signed_ca(n.authority, ca_model())
                &&& n.authority.der() == n.authority.signing_cert().der
                &&& n.cert_pem@ == certificate_pem(n.authority.der())
                &&& n.key_pem@ == private_key_pem(n.authority.key_der())
            },
    {
        let profile = ca_profile();
        proof {
            lemma_ca_model(profile);
            assert(dns_names_view(profile) =~= Seq::<Seq<char>>::empty());
        }
        let params = match build_params(&profile) {
            Ok(p) => p,
            Err(e) => return Err(e),
        };
        let key = match generate_key() {
            Ok(k) => k,
            Err(m) => return Err(CaError::Rcgen(m)),
        };
        let cert = match self_signed(params, &key) {
            Ok(c) => c,
            Err(m) => return Err(CaError::Rcgen(m)),
        };
        let cert_text = cert_pem(&cert);
        let key_text = key_pem(&key);
        let ca_der = cert_der(&cert);
        Ok(NewAuthority { authority: Authority { ca_der, key, cert }, cert_pem: cert_text, key_pem: key_text })
    }

    /// Reads the CA from its key and certificate files (PEM). The key is
    /// read first (its failure is rcgen's), then the first certificate of
    /// the certificate file; rcgen then reads that certificate's parameters
    /// and signs them anew with the key. When all succeed the CA's
    /// certificate is the first one in the file, and leaves are signed with
    /// a certificate of the parameters read from it.
    pub fn load(key_text: &str, crt_pem: &[u8]) -> (r: Result<Authority, CaError>)
        ensures
            match pem_certificates(crt_pem@) {
                Err(m) => r matches Err(CaError::Rcgen(_)) || (r matches Err(CaError::Io(e)) && e@ == m),
                Ok(cs) => if cs.len() == 0 {
                    r matches Err(CaError::Rcgen(_)) || (r matches Err(CaError::Pem(e)) && e@ == no_certificate_text())
                } else {
                    match r {
                        Ok(a) => {
                            &&& ca_der_outcome(cs[0]) is Ok
                            &&& a.der() == cs[0]
                            &&& a.signing_cert().params.source == Some(cs[0])
                            &&& self_signed_ca(a, a.signing_cert().params)
                        },
                        Err(e) => e is Rcgen,
                    }
                },
            },
    {
        let key = match key_from_pem(key_text) {
            Ok(k) => k,
            Err(m) => return Err(CaError::Rcgen(m)),
        };
        let ca_der = match first_ca_certificate(crt_pem) {
            Ok(d) => d,
            Err(e) => return Err(e),
        };
        let params = match ca_params_from_der(ca_der.as_slice()) {
            Ok(p) => p,
            Err(m) => return Err(CaError::Rcgen(m)),
        };
        let cert = match self_signed(params, &key) {
            Ok(c) => c,
            Err(m) => return Err(CaError::Rcgen(m)),
        };
        Ok(Authority { ca_der, key, cert })
    }

    /// Mints a leaf for `domain` stating `leaf_profile`, with a new random
    /// key, issued and signed by this CA: the leaf's DER and its key's
    /// PKCS#8 DER. A domain that is not ASCII is refused with `Name`;
    /// otherwise only rcgen can refuse.
    pub fn mint_leaf(&self, domain: &str) -> (r: Result<(Vec<u8>, Vec<u8>), CaError>)
        ensures
            !is_ascii_chars(domain@) ==> (r matches Err(CaError::Name(m)) && m@ == bad_dns_text(domain@)),
            is_ascii_chars(domain@) ==> (r is Ok || r matches Err(CaError::Rcgen(_))),
            r matches Ok((d, k)) ==> issued_by(*self, d@, k@, leaf_model(domain@)),
    {
        let profile = leaf_profile(domain);
        proof {
            lemma_leaf_model(profile, domain@);
            let names = dns_names_view(profile);
            assert(names =~= seq![domain@]);
            assert(names.drop_first() =~= Seq::<Seq<char>>::empty());
            assert(first_non_ascii(names.drop_first()) is None);
        }
        let params = match build_params(&profile) {
            Ok(p) => p,
            Err(e) => return Err(e),
        };
        let leaf_key = match generate_key() {
            Ok(k) => k,
            Err(m) => return Err(CaError::Rcgen(m)),
        };
        let leaf = match signed_by(params, &leaf_key, &self.cert, &self.key) {
            Ok(c) => c,
            Err(m) => return Err(CaError::Rcgen(m)),
        };
        let d = cert_der(&leaf);
        let k = key_der(&leaf_key);
        assert(leaf_cert(leaf.model(), *self, d@, k@, leaf_model(domain@)));
        Ok((d, k))
    }
}

/// The ALPN protocol offered to clients, `http/1.1`.
pub open spec fn http11() -> Seq<u8> {
    seq![104u8, 116u8, 116u8, 112u8, 47u8, 49u8, 46u8, 49u8]
}

/// `t` serves the leaf for `domain` issued by `a`: the chain is that leaf
/// and then the CA certificate, with the leaf's own key, offering only
/// `http/1.1`.
pub open spec fn leaf_config(t: ServerTls, a: Authority, domain: Seq<char>) -> bool {
    &&& t.chain().len() == 2
    &&& t.chain()[1] == a.der()
    &&& issued_by(a, t.chain()[0], t.key(), leaf_model(domain))
    &&& t.alpn() == seq![http11()]
}

/// The CA with the TLS configurations it has served, by domain.
pub struct CaManager {
    authority: Authority,
    cache: LeafCache<ServerTls>,
}

impl CaManager {
    /// The CA.
    pub closed spec fn ca(&self) -> Authority {
        self.authority
    }

    /// The configurations cached, by domain.
    pub closed spec fn cached(&self) -> Map<Seq<char>, ServerTls> {
        self.cache.view()
    }

    /// Number of configurations cached.
    pub closed spec fn cache_count(&self) -> nat {
        self.cache.count()
    }

    /// The cache is well formed.
    pub closed spec fn wf(&self) -> bool {
        self.cache.wf()
    }

    /// A manager for `authority` with nothing cached.
    pub fn new(authority: Authority) -> (m: Self)
        ensures
            m.wf(),
            m.ca() == authority,
            m.cached() == Map::<Seq<char>, ServerTls>::empty(),
    {
        CaManager { authority, cache: LeafCache::new() }
    }

    /// The CA.
    pub fn authority(&self) -> (r: &Authority)
        ensures
            *r == self.ca(),
    {
        &self.authority
    }

    /// The TLS configuration for `domain`: the cached one when there is one
    /// (the cache is then unchanged); otherwise one serving a leaf freshly
    /// minted for `domain` with the CA certificate after it, which is
    /// cached while fewer than `MAX_CACHED_LEAVES` are held. A domain that
    /// is not ASCII is refused with `Name`; otherwise only rcgen or rustls
    /// can refuse, and a refusal leaves the cache as it was.
    pub fn server_config(&mut self, domain: &str) -> (r: Result<ServerTls, CaError>)
        requires
            old(self).wf(),
        ensures
            final(self).wf(),
            final(self).ca() == old(self).ca(),
            old(self).cached().contains_key(domain@) ==> {
                &&& r == Ok::<ServerTls, CaError>(old(self).cached()[domain@])
                &&& final(self).cached() == old(self).cached()
            },
            !old(self).cached().contains_key(domain@) ==> {
                &&& !is_ascii_chars(domain@) ==> (r matches Err(CaError::Name(m)) && m@ == bad_dns_text(domain@))
                &&& is_ascii_chars(domain@) ==> (r is Ok || r matches Err(CaError::Rcgen(_)) || r matches Err(CaError::Tls(_)))
                &&& r is Err ==> final(self).cached() == old(self).cached()
                &&& r matches Ok(t) ==> {
                    &&& leaf_config(t, old(self).ca(), domain@)
                    &&& old(self).cache_count() < MAX_CACHED_LEAVES ==> final(self).cached() == old(self).cached().insert(domain@, t)
                    &&& old(self).cache_count() >= MAX_CACHED_LEAVES ==> final(self).cached() == old(self).cached()
                }
            },
    {
        match self.cache.get(domain) {
            Some(c) => {
                return Ok(c.share());
            },
            None => {},
        }
        let (leaf_der, leaf_key) = match self.authority.mint_leaf(domain) {
            Ok(x) => x,
            Err(e) => return Err(e),
        };
        let ghost leaf_view = leaf_der@;
        let ghost key_view = leaf_key@;
        let ca = self.authority.ca_der().clone();
        assert(ca@ =~= self.authority.der());
        let mut chain: Vec<Vec<u8>> = Vec::new();
        chain.push(leaf_der);
        chain.push(ca);
        let mut alpn: Vec<Vec<u8>> = Vec::new();
        alpn.push(vec![104u8, 116u8, 116u8, 112u8, 47u8, 49u8, 46u8, 49u8]);
        let t = match tls_server_config(chain, leaf_key, alpn) {
            Ok(t) => t,
            Err(m) => return Err(CaError::Tls(m)),
        };
        assert(t.chain() =~= seq![leaf_view, self.authority.der()]);
        assert(t.alpn() =~= seq![http11()]);
        self.cache.insert_if_room(domain, t.share());
        Ok(t)
    }
}

} // verus!
