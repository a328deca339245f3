//! The calls this library makes into `rcgen`, `rustls-pemfile`, `time` and
//! `rustls` to read, make and sign certificates and to build a TLS server
//! configuration. Each item here is trusted: its contract is believed, not
//! proved. rcgen's parameters, keys and certificates are held in structs of
//! this module together with a model of what they state, which only the
//! trusted calls below set; outside errors are handed on as their display
//! text.

use std::sync::Arc;
use vstd::prelude::*;
use vstd::utf8::is_ascii_chars;
use crate::mitm::{DnKind, ExtKeyUse, KeyUse};

verus! {

/// rcgen's parameters of a certificate to be made.
#[verifier::external_type_specification]
#[verifier::external_body]
pub struct ExCertificateParams(rcgen::CertificateParams);

/// An rcgen key pair.
#[verifier::external_type_specification]
#[verifier::external_body]
pub struct ExKeyPair(rcgen::KeyPair);

/// A certificate rcgen has made, with the parameters it was made from.
#[verifier::external_type_specification]
#[verifier::external_body]
pub struct ExCertificate(rcgen::Certificate);

/// A rustls server configuration.
#[verifier::external_type_specification]
#[verifier::external_body]
pub struct ExServerConfig(rustls::ServerConfig);

/// What a set of certificate parameters states. `source` is `Some(der)`
/// for parameters read from the CA certificate `der` (the other fields then
/// say nothing); otherwise the fields are what was set: the subject
/// attributes in order, the DNS names, the CA path length constraint, the
/// key usages, the extended key usages, and the validity as minutes before
/// and days after the moment it was set (`None`: rcgen's fixed defaults).
#[verifier::ext_equal]
pub ghost struct ParamsModel {
    pub source: Option<Seq<u8>>,
    pub subject: Seq<(DnKind, Seq<char>)>,
    pub dns_names: Seq<Seq<char>>,
    pub ca_path_len: Option<u8>,
    pub key_usages: Seq<KeyUse>,
    pub ext_key_usages: Seq<ExtKeyUse>,
    pub validity: Option<(u64, u64)>,
}

/// rcgen's default parameters: a placeholder common name, nothing else.
pub open spec fn default_params_model() -> ParamsModel {
    ParamsModel {
        source: None,
        subject: seq![(DnKind::CommonName, "rcgen self signed cert"@)],
        dns_names: Seq::empty(),
        ca_path_len: None,
        key_usages: Seq::empty(),
        ext_key_usages: Seq::empty(),
        validity: None,
    }
}

/// Index of the attribute of kind `k` in `s`, searching below `n`.
pub open spec fn kind_index(s: Seq<(DnKind, Seq<char>)>, k: DnKind, n: int) -> Option<int>
    decreases n,
{
    if n <= 0 {
        None
    } else if s[n - 1].0 == k {
        Some(n - 1)
    } else {
        kind_index(s, k, n - 1)
    }
}

/// A subject after `rcgen::DistinguishedName::push`: an attribute of a kind
/// already present has its value replaced in place; a new kind is added at
/// the end.
pub open spec fn dn_push(s: Seq<(DnKind, Seq<char>)>, k: DnKind, v: Seq<char>) -> Seq<(DnKind, Seq<char>)> {
    match kind_index(s, k, s.len() as int) {
        Some(i) => s.update(i, (k, v)),
        None => s.push((k, v)),
    }
}

/// rcgen parameters with what they state.
pub struct Params {
    inner: rcgen::CertificateParams,
    model: Ghost<ParamsModel>,
}

impl Params {
    /// What these parameters state.
    pub closed spec fn model(&self) -> ParamsModel {
        self.model@
    }
}

/// An rcgen key pair with its PKCS#8 DER encoding, which stands for the key.
pub struct Key {
    pair: rcgen::KeyPair,
    der: Ghost<Seq<u8>>,
}

impl Key {
    /// The key's PKCS#8 DER encoding.
    pub closed spec fn der(&self) -> Seq<u8> {
        self.der@
    }
}

/// What a certificate states and how it was made: its DER encoding, the
/// parameters it was made from, the key it certifies, the parameters of the
/// issuer named in it, and the key that signed it.
pub ghost struct CertModel {
    pub der: Seq<u8>,
    pub params: ParamsModel,
    pub subject_key: Seq<u8>,
    pub issuer: ParamsModel,
    pub signer_key: Seq<u8>,
}

/// An rcgen certificate with what it states.
pub struct Cert {
    cert: rcgen::Certificate,
    model: Ghost<CertModel>,
}

impl Cert {
    /// What this certificate states.
    pub closed spec fn model(&self) -> CertModel {
        self.model@
    }
}

/// What `rustls_pemfile::certs` finds in `pem`: the DER bytes of each
/// certificate section in order, or the text of the error that stopped it.
pub uninterp spec fn pem_certificates(pem: Seq<u8>) -> Result<Seq<Seq<u8>>, Seq<char>>;

/// Reads every certificate section of `pem` with `rustls_pemfile::certs`
/// (stopping at the first malformed section, as collecting into a `Result`
/// does). The result is `pem_certificates` of the bytes.
#[verifier::external_body]
pub(crate) fn read_pem_certificates(pem: &[u8]) -> (r: Result<Vec<Vec<u8>>, String>)
    ensures
        match r {
            Ok(v) => pem_certificates(pem@) == Ok::<Seq<Seq<u8>>, Seq<char>>(v@.map_values(|d: Vec<u8>| d@)),
            Err(m) => pem_certificates(pem@) == Err::<Seq<Seq<u8>>, Seq<char>>(m@),
        },
{
    let mut cur = pem;
    match rustls_pemfile::certs(&mut cur).collect::<Result<Vec<_>, _>>() {
        Ok(certs) => Ok(certs.iter().map(|d| d.to_vec()).collect()),
        Err(e) => Err(e.to_string()),
    }
}

/// Fresh parameters (`rcgen::CertificateParams::default`).
#[verifier::external_body]
pub(crate) fn default_params() -> (p: Params)
    ensures
        p.model() == default_params_model(),
{
    Params { inner: rcgen::CertificateParams::default(), model: Ghost(default_params_model()) }
}

/// Empties the subject (`rcgen::DistinguishedName::new`).
#[verifier::external_body]
pub(crate) fn clear_subject(p: &mut Params)
    requires
        old(p).model().source is None,
    ensures
        final(p).model() == (ParamsModel { subject: Seq::empty(), ..old(p).model() }),
{
    p.inner.distinguished_name = rcgen::DistinguishedName::new();
}

/// Adds a subject attribute (`rcgen::DistinguishedName::push`, the value
/// as a UTF-8 string).
#[verifier::external_body]
pub(crate) fn push_subject(p: &mut Params, kind: DnKind, value: &str)
    requires
        old(p).model().source is None,
    ensures
        final(p).model() == (ParamsModel { subject: dn_push(old(p).model().subject, kind, value@), ..old(p).model() }),
{
    let t = match kind {
        DnKind::CommonName => rcgen::DnType::CommonName,
        DnKind::OrganizationName => rcgen::DnType::OrganizationName,
    };
    p.inner.distinguished_name.push(t, value);
}

/// The text of the error rcgen gives for a name that is no IA5 string.
pub open spec fn ia5_error_text(name: Seq<char>) -> Seq<char> {
    "Invalid IA5String: '"@ + name + "'"@
}

/// Adds a DNS subject alternative name, made with
/// `rcgen::Ia5String::try_from`. As its source shows, that accepts exactly
/// the ASCII names and otherwise fails with `InvalidAsn1String`, displayed
/// as `Invalid IA5String: '<name>'`; on failure nothing is added.
#[verifier::external_body]
pub(crate) fn push_dns_name(p: &mut Params, name: &str) -> (r: Result<(), String>)
    requires
        old(p).model().source is None,
    ensures
        r is Ok <==> is_ascii_chars(name@),
        r matches Err(m) ==> m@ == ia5_error_text(name@) && final(p).model() == old(p).model(),
        r is Ok ==> final(p).model() == (ParamsModel { dns_names: old(p).model().dns_names.push(name@), ..old(p).model() }),
{
    let n = rcgen::Ia5String::try_from(name).map_err(|e| e.to_string())?;
    p.inner.subject_alt_names.push(rcgen::SanType::DnsName(n));
    Ok(())
}

/// Marks the certificate as a CA whose path length is constrained to `n`
/// (`rcgen::IsCa::Ca(rcgen::BasicConstraints::Constrained(n))`).
#[verifier::external_body]
pub(crate) fn set_ca_path_len(p: &mut Params, n: u8)
    requires
        old(p).model().source is None,
    ensures
        final(p).model() == (ParamsModel { ca_path_len: Some(n), ..old(p).model() }),
{
    p.inner.is_ca = rcgen::IsCa::Ca(rcgen::BasicConstraints::Constrained(n));
}

/// Adds a key usage (`rcgen::KeyUsagePurpose`).
#[verifier::external_body]
pub(crate) fn push_key_usage(p: &mut Params, k: KeyUse)
    requires
        old(p).model().source is None,
    ensures
        final(p).model() == (ParamsModel { key_usages: old(p).model().key_usages.push(k), ..old(p).model() }),
{
    p.inner.key_usages.push(match k {
        KeyUse::DigitalSignature => rcgen::KeyUsagePurpose::DigitalSignature,
        KeyUse::KeyEncipherment => rcgen::KeyUsagePurpose::KeyEncipherment,
        KeyUse::KeyCertSign => rcgen::KeyUsagePurpose::KeyCertSign,
        KeyUse::CrlSign => rcgen::KeyUsagePurpose::CrlSign,
    });
}

/// Adds an extended key usage (`rcgen::ExtendedKeyUsagePurpose`).
#[verifier::external_body]
pub(crate) fn push_ext_key_usage(p: &mut Params, k: ExtKeyUse)
    requires
        old(p).model().source is None,
    ensures
        final(p).model() == (ParamsModel { ext_key_usages: old(p).model().ext_key_usages.push(k), ..old(p).model() }),
{
    p.inner.extended_key_usages.push(match k {
        ExtKeyUse::ServerAuth => rcgen::ExtendedKeyUsagePurpose::ServerAuth,
    });
}

/// Sets validity from `backdate_minutes` before now to `valid_days` after
/// now (`time::OffsetDateTime::now_utc` and `time::Duration`). The bounds
/// keep `time`'s arithmetic from overflowing, which would panic, for any
/// clock before the year 9800.
#[verifier::external_body]
pub(crate) fn set_validity(p: &mut Params, backdate_minutes: u64, valid_days: u64)
    requires
        old(p).model().source is None,
        backdate_minutes <= 525600,
        valid_days <= 36500,
    ensures
        final(p).model() == (ParamsModel { validity: Some((backdate_minutes, valid_days)), ..old(p).model() }),
{
    let now = time::OffsetDateTime::now_utc();
    p.inner.not_before = now - time::Duration::minutes(backdate_minutes as i64);
    p.inner.not_after = now + time::Duration::days(valid_days as i64);
}

/// A new random key pair (`rcgen::KeyPair::generate`). Nothing is stated
/// of the outcome: it rests on the system's random source.
#[verifier::external_body]
pub(crate) fn generate_key() -> (r: Result<Key, String>) {
    let pair = rcgen::KeyPair::generate().map_err(|e| e.to_string())?;
    Ok(Key { der: Ghost(arbitrary()), pair })
}

/// Reads a key pair from PEM (`rcgen::KeyPair::from_pem`). Nothing is
/// stated of the outcome: reading an ECDSA key draws on the system's random
/// source and fails when that fails.
#[verifier::external_body]
pub(crate) fn key_from_pem(pem: &str) -> (r: Result<Key, String>) {
    let pair = rcgen::KeyPair::from_pem(pem).map_err(|e| e.to_string())?;
    Ok(Key { der: Ghost(arbitrary()), pair })
}

/// The key as PKCS#8 DER (`rcgen::KeyPair::serialize_der`).
#[verifier::external_body]
pub(crate) fn key_der(k: &Key) -> (r: Vec<u8>)
    ensures
        r@ == k.der(),
{
    k.pair.serialize_der()
}

/// What `rcgen::KeyPair::serialize_pem` makes of a key whose PKCS#8 DER is
/// `der`: that DER as a PEM `PRIVATE KEY` section.
pub uninterp spec fn private_key_pem(der: Seq<u8>) -> Seq<char>;

/// The key as PEM (`rcgen::KeyPair::serialize_pem`), a function of its DER.
#[verifier::external_body]
pub(crate) fn key_pem(k: &Key) -> (r: String)
    ensures
        r@ == private_key_pem(k.der()),
{
    k.pair.serialize_pem()
}

/// Whether `rcgen::CertificateParams::from_ca_cert_der` accepts `der`, and
/// the text of its error when it does not.
pub uninterp spec fn ca_der_outcome(der: Seq<u8>) -> Result<(), Seq<char>>;

/// The parameters of an existing CA certificate
/// (`rcgen::CertificateParams::from_ca_cert_der`). Whether it succeeds, and
/// the error, are `ca_der_outcome` of the bytes; the parameters are those
/// read from `der`.
#[verifier::external_body]
pub(crate) fn ca_params_from_der(der: &[u8]) -> (r: Result<Params, String>)
    ensures
        match r {
            Ok(p) => ca_der_outcome(der@) == Ok::<(), Seq<char>>(()) && p.model().source == Some(der@),
            Err(m) => ca_der_outcome(der@) == Err::<(), Seq<char>>(m@),
        },
{
    let d = rustls::pki_types::CertificateDer::from(der.to_vec());
    let inner = rcgen::CertificateParams::from_ca_cert_der(&d).map_err(|e| e.to_string())?;
    Ok(Params { inner, model: Ghost(arbitrary()) })
}

/// Makes a certificate of `p` for `key`, signed by `key` itself and naming
/// `p`'s subject as issuer (`rcgen::CertificateParams::self_signed`). Its
/// DER is not stated: the signature is randomised.
#[verifier::external_body]
pub(crate) fn self_signed(p: Params, key: &Key) -> (r: Result<Cert, String>)
    ensures
        r matches Ok(c) ==> c.model().params == p.model() && c.model().subject_key == key.der()
            && c.model().issuer == p.model() && c.model().signer_key == key.der(),
{
    let cert = p.inner.self_signed(&key.pair).map_err(|e| e.to_string())?;
    Ok(Cert { cert, model: Ghost(arbitrary()) })
}

/// Makes a certificate of `p` for `key`, naming `issuer`'s subject as
/// issuer and signed by `issuer_key` (`rcgen::CertificateParams::signed_by`).
/// Its DER is not stated: the signature is randomised.
#[verifier::external_body]
pub(crate) fn signed_by(p: Params, key: &Key, issuer: &Cert, issuer_key: &Key) -> (r: Result<Cert, String>)
    ensures
        r matches Ok(c) ==> c.model().params == p.model() && c.model().subject_key == key.der()
            && c.model().issuer == issuer.model().params && c.model().signer_key == issuer_key.der(),
{
    let cert = p.inner.signed_by(&key.pair, &issuer.cert, &issuer_key.pair).map_err(|e| e.to_string())?;
    Ok(Cert { cert, model: Ghost(arbitrary()) })
}

/// The certificate as DER (`rcgen::Certificate::der`).
#[verifier::external_body]
pub(crate) fn cert_der(c: &Cert) -> (r: Vec<u8>)
    ensures
        r@ == c.model().der,
{
    c.cert.der().to_vec()
}

/// What `rcgen::Certificate::pem` makes of a certificate whose DER is `der`
/// (in bytes): a single PEM `CERTIFICATE` section of that DER.
pub uninterp spec fn certificate_pem(der: Seq<u8>) -> Seq<u8>;

/// The certificate as PEM text, in bytes (`rcgen::Certificate::pem`), a
/// function of its DER.
#[verifier::external_body]
pub(crate) fn cert_pem(c: &Cert) -> (r: Vec<u8>)
    ensures
        r@ == certificate_pem(c.model().der),
{
    c.cert.pem().into_bytes()
}

/// A rustls server configuration, with the certificate chain (DER, leaf
/// first), the private key (PKCS#8 DER) and the ALPN protocols it was built
/// with.
pub struct ServerTls {
    config: Arc<rustls::ServerConfig>,
    chain: Ghost<Seq<Seq<u8>>>,
    key: Ghost<Seq<u8>>,
    alpn: Ghost<Seq<Seq<u8>>>,
}

impl ServerTls {
    /// The certificate chain served, leaf first.
    pub closed spec fn chain(&self) -> Seq<Seq<u8>> {
        self.chain@
    }

    /// The private key of the leaf.
    pub closed spec fn key(&self) -> Seq<u8> {
        self.key@
    }

    /// The ALPN protocols offered.
    pub closed spec fn alpn(&self) -> Seq<Seq<u8>> {
        self.alpn@
    }

    /// The rustls configuration.
    pub fn config(&self) -> &Arc<rustls::ServerConfig> {
        &self.config
    }

    /// Another handle on the same configuration.
    pub fn share(&self) -> (r: ServerTls)
        ensures
            r == *self,
    {
        ServerTls { config: share_config(&self.config), chain: self.chain, key: self.key, alpn: self.alpn }
    }
}

/// Another pointer to the same configuration (std `Arc::clone`, which, as
/// documented, points to the same allocation).
#[verifier::external_body]
fn share_config(a: &Arc<rustls::ServerConfig>) -> (r: Arc<rustls::ServerConfig>)
    ensures
        r == *a,
{
    a.clone()
}

/// A TLS server configuration without client authentication that serves
/// `chain` (DER, leaf first) with the PKCS#8 key `key` and offers the ALPN
/// protocols `alpn` (`rustls::ServerConfig::builder`, `with_no_client_auth`,
/// `with_single_cert`). Whether rustls accepts the key is not stated.
#[verifier::external_body]
pub(crate) fn tls_server_config(chain: Vec<Vec<u8>>, key: Vec<u8>, alpn: Vec<Vec<u8>>) -> (r: Result<ServerTls, String>)
    ensures
        r matches Ok(t) ==> t.chain() == chain@.map_values(|c: Vec<u8>| c@) && t.key() == key@
            && t.alpn() == alpn@.map_values(|a: Vec<u8>| a@),
{
    let certs = chain.into_iter().map(rustls::pki_types::CertificateDer::from).collect();
    let pk = rustls::pki_types::PrivateKeyDer::Pkcs8(rustls::pki_types::PrivatePkcs8KeyDer::from(key));
    let builder = rustls::ServerConfig::builder().with_no_client_auth();
    let mut cfg = builder.with_single_cert(certs, pk).map_err(|e| e.to_string())?;
    cfg.alpn_protocols = alpn;
    Ok(ServerTls { config: Arc::new(cfg), chain: Ghost(arbitrary()), key: Ghost(arbitrary()), alpn: Ghost(arbitrary()) })
}

} // verus!
