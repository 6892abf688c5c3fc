//! The key material of a TLS server.
use crate::anytls::cert_analyzer;
use crate::anytls::cert_analyzer::SanModel;
use crate::anytls::error::AnyTlsError;
use crate::net;
use crate::text;
use vstd::prelude::*;

verus! {

/// A private key in DER form, by the kind of its encoding.
#[derive(Debug)]
pub enum PrivateKey {
    Pkcs1(Vec<u8>),
    Sec1(Vec<u8>),
    Pkcs8(Vec<u8>),
}

/// The model of a [`PrivateKey`].
pub enum KeyModel {
    Pkcs1(Seq<u8>),
    Sec1(Seq<u8>),
    Pkcs8(Seq<u8>),
}

impl View for PrivateKey {
    type V = KeyModel;

    open spec fn view(&self) -> KeyModel {
        match self {
            PrivateKey::Pkcs1(k) => KeyModel::Pkcs1(k@),
            PrivateKey::Sec1(k) => KeyModel::Sec1(k@),
            PrivateKey::Pkcs8(k) => KeyModel::Pkcs8(k@),
        }
    }
}

/// The private key in a PEM file, none where it has none, or what is wrong
/// with the file.
pub uninterp spec fn pem_private_key(pem: Seq<u8>) -> Result<Option<KeyModel>, Seq<char>>;

/// `rustls_pemfile::private_key` hands out the first private key of a PEM
/// file, or an error. What it accepts is not stated here.
#[verifier::external_body]
fn read_pem_key(pem: &[u8]) -> (r: Result<Option<PrivateKey>, String>)
    ensures
        match r {
            Ok(Some(k)) => pem_private_key(pem@) == Ok::<Option<KeyModel>, Seq<char>>(Some(k@)),
            Ok(None) => pem_private_key(pem@) == Ok::<Option<KeyModel>, Seq<char>>(None),
            Err(e) => pem_private_key(pem@) == Err::<Option<KeyModel>, Seq<char>>(e@),
        },
{
    let mut reader = pem;
    match rustls_pemfile::private_key(&mut reader).map_err(|e| e.to_string())? {
        Some(rustls::pki_types::PrivateKeyDer::Pkcs1(k)) => Ok(
            Some(PrivateKey::Pkcs1(k.secret_pkcs1_der().to_vec())),
        ),
        Some(rustls::pki_types::PrivateKeyDer::Sec1(k)) => Ok(
            Some(PrivateKey::Sec1(k.secret_sec1_der().to_vec())),
        ),
        Some(k) => Ok(Some(PrivateKey::Pkcs8(k.secret_der().to_vec()))),
        None => Ok(None),
    }
}

/// A server's TLS configuration.
#[verifier::external_type_specification]
#[verifier::external_body]
pub struct ExServerConfig(rustls::ServerConfig);

/// Why certificates and a key make no server configuration, where they make
/// none.
pub uninterp spec fn server_fault(certs: Seq<Seq<u8>>, key: KeyModel) -> Option<Seq<char>>;

/// The certificates that a configuration shows to every client, and the key
/// that it signs with, as they were given.
pub uninterp spec fn served(config: rustls::ServerConfig) -> (Seq<Seq<u8>>, KeyModel);

/// `rustls`'s `ServerConfig::builder_with_provider` with the `ring` provider,
/// no client authentication, and `with_single_cert`: the configuration serves
/// the given certificates with the given key. Which certificates and keys it
/// accepts, and how it serves them, is not stated here.
#[verifier::external_body]
fn single_cert_config(certs: Vec<Vec<u8>>, key: PrivateKey) -> (r: Result<
    rustls::ServerConfig,
    String,
>)
    ensures
        match r {
            Ok(config) => server_fault(cert_analyzer::byte_strings(certs@), key@) is None
                && served(config) == (cert_analyzer::byte_strings(certs@), key@),
            Err(e) => server_fault(cert_analyzer::byte_strings(certs@), key@) == Some(e@),
        },
{
    let provider = std::sync::Arc::new(rustls::crypto::ring::default_provider());
    let builder = rustls::ServerConfig::builder_with_provider(provider);
    let builder = builder.with_safe_default_protocol_versions().map_err(|e| e.to_string())?;
    let chain = certs.into_iter().map(|c| c.into()).collect();
    let key = match key {
        PrivateKey::Pkcs1(k) => rustls::pki_types::PrivateKeyDer::Pkcs1(k.into()),
        PrivateKey::Sec1(k) => rustls::pki_types::PrivateKeyDer::Sec1(k.into()),
        PrivateKey::Pkcs8(k) => rustls::pki_types::PrivateKeyDer::Pkcs8(k.into()),
    };
    builder.with_no_client_auth().with_single_cert(chain, key).map_err(|e| e.to_string())
}

/// How a name stands in a certificate: as an address where it writes one, else
/// as the name of a host.
pub open spec fn san_of(name: Seq<char>) -> SanModel {
    match net::ip_of_text(name) {
        Some(ip) => SanModel::Ip(net::ip_octets(ip)),
        None => SanModel::Dns(name),
    }
}

/// How some names stand in a certificate.
pub open spec fn sans_of(names: Seq<Seq<char>>) -> Seq<SanModel> {
    names.map_values(|n: Seq<char>| san_of(n))
}

/// The largest certificate, in bytes, whose key `rustls` can always compare: it
/// refuses a part of a certificate whose length takes more than two bytes.
pub const MAX_CERTIFICATE: usize = 0xFFFF;

/// Whether names are few and short enough for a certificate of any of them to
/// stay far below [`MAX_CERTIFICATE`].
pub open spec fn short_names(names: Seq<Seq<char>>) -> bool {
    &&& names.len() <= 16
    &&& forall|i: int| 0 <= i < names.len() ==> (#[trigger] names[i]).len() <= 1024
}

/// Whether a certificate was made for these names, and the key for it: the two
/// make a server configuration.
pub open spec fn is_own_pair(cert: Seq<u8>, key: KeyModel, names: Seq<Seq<char>>) -> bool {
    &&& key is Pkcs8
    &&& cert_analyzer::certificate_names(cert) == sans_of(names)
    &&& cert.len() <= MAX_CERTIFICATE ==> server_fault(seq![cert], key) is None
    &&& short_names(names) ==> cert.len() <= MAX_CERTIFICATE
}

/// `rcgen::generate_simple_self_signed` makes a fresh P-256 key and a
/// certificate for the given names that it signs with that key, both in DER
/// form, or fails. The certificate holds the names in their order, and beside
/// them some hundred bytes. `rustls` reads such a key, and finds it to be the
/// certificate's, unless the certificate is too long for it. Keys are made at
/// random, so nothing more is stated of them here, nor when it fails.
#[verifier::external_body]
fn self_signed(names: Vec<String>) -> (r: Result<(Vec<u8>, Vec<u8>), String>)
    ensures
        r matches Ok(made) ==> is_own_pair(made.0@, KeyModel::Pkcs8(made.1@), text::texts(names@)),
{
    let made = rcgen::generate_simple_self_signed(names).map_err(|e| e.to_string())?;
    Ok((made.cert.der().to_vec(), made.signing_key.serialize_der()))
}

/// The names of a server's own certificate: the server's, and `localhost`, which
/// also stands in for a missing one.
pub open spec fn own_names(server_name: Option<Seq<char>>) -> Seq<Seq<char>> {
    seq![
        match server_name {
            Some(n) => n,
            None => "localhost"@,
        },
        "localhost"@,
    ]
}

/// The text of an optional name.
pub open spec fn name_text(server_name: Option<&str>) -> Option<Seq<char>> {
    match server_name {
        Some(n) => Some(n@),
        None => None,
    }
}

/// The names that a self-signed certificate is made for: the server's, and
/// `localhost`, which also stands in for a missing one.
pub fn certificate_names(server_name: Option<&str>) -> (names: Vec<String>)
    ensures
        text::texts(names@) == own_names(name_text(server_name)),
{
    let first = match server_name {
        Some(n) => n.to_owned(),
        None => "localhost".to_owned(),
    };
    let ghost f = first@;
    let mut names: Vec<String> = Vec::new();
    names.push(first);
    names.push("localhost".to_owned());
    assert(text::texts(names@) =~= seq![f, "localhost"@]);
    names
}

/// A certificate and its key.
pub type KeyPair = (Vec<u8>, PrivateKey);

/// The outcome of making a self-signed certificate.
pub fn made_key_pair(made: Result<(Vec<u8>, Vec<u8>), String>) -> (r: Result<
    KeyPair,
    AnyTlsError,
>)
    ensures
        match made {
            Ok((cert, key)) => r matches Ok(pair) && pair.0@ == cert@ && pair.1@
                == KeyModel::Pkcs8(key@),
            Err(e) => r matches Err(f) && f.is_tls("rcgen error: "@ + e@),
        },
{
    match made {
        Ok((cert, key)) => Ok((cert, PrivateKey::Pkcs8(key))),
        Err(e) => Err(AnyTlsError::Tls(text::join2("rcgen error: ", e.as_str()))),
    }
}

/// Whether an error is one of making a certificate.
pub open spec fn is_making_fault(e: AnyTlsError) -> bool {
    exists|why: Seq<char>| e.is_tls(#[trigger] ("rcgen error: "@ + why))
}

/// A self-signed certificate and its key, both in DER form, for a server.
pub fn generate_key_pair_with_name(server_name: Option<&str>) -> (r: Result<KeyPair, AnyTlsError>)
    ensures
        match r {
            Ok(pair) => is_own_pair(pair.0@, pair.1@, own_names(name_text(server_name))),
            Err(e) => is_making_fault(e),
        },
{
    made_key_pair(self_signed(certificate_names(server_name)))
}

/// A self-signed certificate and its key, both in DER form, for `localhost`.
pub fn generate_key_pair() -> (r: Result<KeyPair, AnyTlsError>)
    ensures
        match r {
            Ok(pair) => is_own_pair(pair.0@, pair.1@, own_names(None)),
            Err(e) => is_making_fault(e),
        },
{
    generate_key_pair_with_name(None)
}

/// Whether a result is the configuration for certificates and a key, or the
/// error where they make none.
pub open spec fn is_server_config(
    r: Result<rustls::ServerConfig, AnyTlsError>,
    certs: Seq<Seq<u8>>,
    key: KeyModel,
) -> bool {
    match server_fault(certs, key) {
        None => r matches Ok(config) && served(config) == (certs, key),
        Some(e) => r matches Err(f) && f.is_tls("rustls error: "@ + e),
    }
}

/// A server's TLS configuration with certificates and their key.
pub fn server_config(certs: Vec<Vec<u8>>, key: PrivateKey) -> (r: Result<
    rustls::ServerConfig,
    AnyTlsError,
>)
    ensures
        is_server_config(r, cert_analyzer::byte_strings(certs@), key@),
{
    match single_cert_config(certs, key) {
        Ok(config) => Ok(config),
        Err(e) => Err(AnyTlsError::Tls(text::join2("rustls error: ", e.as_str()))),
    }
}

/// A server's TLS configuration with a certificate that was made for it.
pub fn config_with_pair(made: Result<KeyPair, AnyTlsError>) -> (r: Result<
    rustls::ServerConfig,
    AnyTlsError,
>)
    ensures
        match made {
            Ok(pair) => is_server_config(r, seq![pair.0@], pair.1@),
            Err(e) => r == Err::<rustls::ServerConfig, AnyTlsError>(e),
        },
{
    match made {
        Err(e) => Err(e),
        Ok((cert, key)) => {
            let ghost der = cert@;
            let mut certs: Vec<Vec<u8>> = Vec::new();
            certs.push(cert);
            assert(cert_analyzer::byte_strings(certs@) =~= seq![der]);
            server_config(certs, key)
        },
    }
}

/// Whether a configuration serves a certificate that was made for these names,
/// with its own key.
pub open spec fn serves_own(config: rustls::ServerConfig, names: Seq<Seq<char>>) -> bool {
    exists|cert: Seq<u8>, key: KeyModel|
        served(config) == (seq![cert], key) && #[trigger] is_own_pair(cert, key, names)
}

/// A server's TLS configuration with a certificate made for `localhost`.
pub fn create_server_config() -> (r: Result<rustls::ServerConfig, AnyTlsError>)
    ensures
        match r {
            Ok(config) => serves_own(config, own_names(None)),
            Err(e) => is_making_fault(e),
        },
{
    let made = generate_key_pair();
    let ghost pair = made->Ok_0;
    let r = config_with_pair(made);
    proof {
        reveal_strlit("localhost");
        if made is Ok {
            assert(is_own_pair(pair.0@, pair.1@, own_names(None)));
        }
    }
    r
}

/// What is wrong with the two PEM files of a server, whose paths are given for
/// the messages; nothing where they make a configuration. The certificates are
/// looked at first.
pub open spec fn pem_config_fault(
    cert_pem: Seq<u8>,
    cert_path: Seq<char>,
    key_pem: Seq<u8>,
    key_path: Seq<char>,
) -> Option<Seq<char>> {
    match cert_analyzer::pem_certificates(cert_pem) {
        Err(e) => Some("failed to parse certificate: "@ + e),
        Ok(certs) => if certs.len() == 0 {
            Some("no certificates found in "@ + cert_path)
        } else {
            match pem_private_key(key_pem) {
                Err(e) => Some("failed to parse private key: "@ + e),
                Ok(None) => Some("no private key found in "@ + key_path),
                Ok(Some(key)) => match server_fault(certs, key) {
                    Some(e) => Some("rustls error: "@ + e),
                    None => None,
                },
            }
        },
    }
}

/// The certificates and the key of two PEM files that have them.
pub open spec fn pem_pair(cert_pem: Seq<u8>, key_pem: Seq<u8>) -> (Seq<Seq<u8>>, KeyModel) {
    (cert_analyzer::pem_certificates(cert_pem)->Ok_0, (pem_private_key(key_pem)->Ok_0)->Some_0)
}

/// A server's TLS configuration from two PEM files, whose paths are given for
/// the messages.
pub fn create_server_config_from_pem(
    cert_pem: &[u8],
    cert_path: &str,
    key_pem: &[u8],
    key_path: &str,
) -> (r: Result<rustls::ServerConfig, AnyTlsError>)
    ensures
        match pem_config_fault(cert_pem@, cert_path@, key_pem@, key_path@) {
            Some(what) => r matches Err(e) && e.is_tls(what),
            None => r matches Ok(config) && served(config) == pem_pair(cert_pem@, key_pem@),
        },
{
    match server_certificates(cert_pem, cert_path) {
        Err(e) => Err(e),
        Ok(certs) => match server_key(key_pem, key_path) {
            Err(e) => Err(e),
            Ok(key) => server_config(certs, key),
        },
    }
}

/// The certificates of a server, from a PEM file whose path is given for the
/// message. It is an error when there is none.
pub fn server_certificates(pem: &[u8], path: &str) -> (r: Result<Vec<Vec<u8>>, AnyTlsError>)
    ensures
        match cert_analyzer::pem_certificates(pem@) {
            Err(e) => r matches Err(f) && f.is_tls("failed to parse certificate: "@ + e),
            Ok(certs) => if certs.len() == 0 {
                r matches Err(f) && f.is_tls("no certificates found in "@ + path@)
            } else {
                r matches Ok(c) && cert_analyzer::byte_strings(c@) == certs
            },
        },
{
    match cert_analyzer::read_pem_certs(pem) {
        Err(e) => Err(AnyTlsError::Tls(text::join2("failed to parse certificate: ", e.as_str()))),
        Ok(certs) => {
            if certs.len() == 0 {
                return Err(AnyTlsError::Tls(text::join2("no certificates found in ", path)));
            }
            Ok(certs)
        },
    }
}

/// The private key of a server, from a PEM file whose path is given for the
/// message. It is an error when there is none.
pub fn server_key(pem: &[u8], path: &str) -> (r: Result<PrivateKey, AnyTlsError>)
    ensures
        match pem_private_key(pem@) {
            Err(e) => r matches Err(f) && f.is_tls("failed to parse private key: "@ + e),
            Ok(None) => r matches Err(f) && f.is_tls("no private key found in "@ + path@),
            Ok(Some(key)) => r matches Ok(k) && k@ == key,
        },
{
    match read_pem_key(pem) {
        Err(e) => Err(AnyTlsError::Tls(text::join2("failed to parse private key: ", e.as_str()))),
        Ok(None) => Err(AnyTlsError::Tls(text::join2("no private key found in ", path))),
        Ok(Some(key)) => Ok(key),
    }
}

} // verus!
