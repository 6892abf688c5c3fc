//! What holds of every certificate that is served, made or reloaded.
use crate::anytls::cert_analyzer;
use crate::anytls::cert_analyzer::{CertificateInfo, SanModel, WallTime};
use crate::anytls::cert_reloader::{CertReloader, CertReloaderConfig, FileChange, ReloadGate};
use crate::anytls::error::AnyTlsError;
use crate::anytls::tls;
use crate::anytls::tls::{
    certificate_names, create_server_config_from_pem, generate_key_pair_with_name, pem_private_key,
    served, server_fault, KeyModel, KeyPair,
};
use crate::clock::Instant;
use crate::net;
use crate::text;
use vstd::prelude::*;

verus! {

/// A certificate of one's own is made for the server's name and for
/// `localhost`.
pub proof fn law_own_names(name: &str, named: Vec<String>, unnamed: Vec<String>)
    requires
        call_ensures(certificate_names, (Some(name),), named),
        call_ensures(certificate_names, (None::<&str>,), unnamed),
    ensures
        named@.len() == 2 && named@[0]@ == name@ && named@[1]@ == "localhost"@,
        unnamed@.len() == 2 && unnamed@[0]@ == "localhost"@ && unnamed@[1]@ == "localhost"@,
{
    let a = text::texts(named@);
    let b = text::texts(unnamed@);
    assert(a == tls::own_names(Some(name@)));
    assert(b == tls::own_names(None));
    assert(a.len() == 2 && b.len() == 2);
    assert(named@.len() == 2 && unnamed@.len() == 2);
    assert(a[0] == named@[0]@ && a[1] == named@[1]@);
    assert(b[0] == unnamed@[0]@ && b[1] == unnamed@[1]@);
}

/// A certificate that is made for a server names it: by its address where the
/// name is one, as a host otherwise; and it names `localhost`.
pub proof fn law_made_for_the_server(name: &str, pair: KeyPair)
    requires
        call_ensures(
            generate_key_pair_with_name,
            (Some(name),),
            Ok::<KeyPair, AnyTlsError>(pair),
        ),
    ensures
        ({
            let names = cert_analyzer::certificate_names(pair.0@);
            &&& names.len() == 2
            &&& net::ip_of_text(name@) is None ==> names[0] == SanModel::Dns(name@)
            &&& net::ip_of_text(name@) matches Some(ip) ==> names[0] == SanModel::Ip(
                net::ip_octets(ip),
            )
            &&& net::ip_of_text("localhost"@) is None ==> names[1] == SanModel::Dns("localhost"@)
        }),
        pair.1@ is Pkcs8,
{
}

/// A server serves the certificates and the key of its files; without a
/// certificate, without a key, and with ones that do not go together, it serves
/// nothing.
pub proof fn law_served_from_files(
    cert: &[u8],
    cert_path: &str,
    key: &[u8],
    key_path: &str,
    certs: Seq<Seq<u8>>,
    k: KeyModel,
    r: Result<rustls::ServerConfig, AnyTlsError>,
)
    requires
        call_ensures(create_server_config_from_pem, (cert, cert_path, key, key_path), r),
    ensures
        cert_analyzer::pem_certificates(cert@) == Ok::<Seq<Seq<u8>>, Seq<char>>(certs)
            && certs.len() > 0 && pem_private_key(key@) == Ok::<Option<KeyModel>, Seq<char>>(
            Some(k),
        ) && server_fault(certs, k) is None ==> (r matches Ok(c) && served(c) == (certs, k)),
        cert_analyzer::pem_certificates(cert@) is Err ==> r is Err,
        cert_analyzer::pem_certificates(cert@) == Ok::<Seq<Seq<u8>>, Seq<char>>(certs)
            && certs.len() == 0 ==> (r matches Err(e) && (e matches AnyTlsError::Tls(w) && w@
            == "no certificates found in "@ + cert_path@)),
        cert_analyzer::pem_certificates(cert@) == Ok::<Seq<Seq<u8>>, Seq<char>>(certs)
            && certs.len() > 0 && pem_private_key(key@) == Ok::<Option<KeyModel>, Seq<char>>(None)
            ==> (r matches Err(e) && (e matches AnyTlsError::Tls(w) && w@
            == "no private key found in "@ + key_path@)),
        cert_analyzer::pem_certificates(cert@) == Ok::<Seq<Seq<u8>>, Seq<char>>(certs)
            && certs.len() > 0 && pem_private_key(key@) == Ok::<Option<KeyModel>, Seq<char>>(
            Some(k),
        ) && server_fault(certs, k) is Some ==> r is Err,
{
}

/// A reload takes over the certificate that could be served and read by itself,
/// and counts; one that could not, or that has ended where that is looked at,
/// changes nothing.
pub proof fn law_reload(
    c: &mut CertReloader<rustls::ServerConfig>,
    cert: &[u8],
    cert_path: &str,
    key: &[u8],
    key_path: &str,
    wall: WallTime,
    now: Instant,
    config: Result<rustls::ServerConfig, AnyTlsError>,
    info: Result<CertificateInfo, AnyTlsError>,
    r: Result<(), AnyTlsError>,
)
    requires
        call_ensures(
            CertReloader::<rustls::ServerConfig>::reload_from_pem,
            (c, cert, cert_path, key, key_path, wall, now),
            r,
        ),
        call_ensures(create_server_config_from_pem, (cert, cert_path, key, key_path), config),
        call_ensures(CertificateInfo::from_pem_bytes, (cert, wall), info),
    ensures
        config is Err || info is Err ==> r is Err && *final(c) == *old(c),
        config is Ok && info is Ok && old(c).config.check_expiry && info->Ok_0.days_until_expiry < 0
            ==> r is Err && *final(c) == *old(c),
        config is Ok && info is Ok && (!old(c).config.check_expiry
            || info->Ok_0.days_until_expiry >= 0) ==> {
            &&& r is Ok
            &&& served(final(c).acceptor) == served(config->Ok_0)
            &&& final(c).cert_info matches Some(i) && i.subject@ == info->Ok_0.subject@
                && i.days_until_expiry == info->Ok_0.days_until_expiry && i.not_after
                == info->Ok_0.not_after
            &&& final(c).reload_count == old(c).reload_count + 1
            &&& final(c).last_reload == Some(now)
            &&& final(c).config == old(c).config
        },
{
    if config is Ok && info is Ok {
        let der = (cert_analyzer::pem_certificates(cert@)->Ok_0)[0];
        let f = cert_analyzer::certificate_fields(der)->Ok_0;
        lemma_days_sign(f.not_after as u64, wall);
    }
}

proof fn lemma_days_sign(not_after: u64, now: WallTime)
    ensures
        cert_analyzer::days_left(not_after, now) < 0 <==> now.nanos > not_after * 1_000_000_000,
{
    cert_analyzer::law_expired_once_past(not_after, now);
}

/// A watched file leads to a reload when it was created or changed, and the
/// last reload is as many milliseconds past as are set, or more.
pub proof fn law_changes_settle(
    config: &CertReloaderConfig,
    start: Instant,
    g: Option<ReloadGate>,
    gate: ReloadGate,
    change: FileChange,
    now: Instant,
    reload: bool,
)
    requires
        call_ensures(ReloadGate::start, (config, start), g),
        call_ensures(ReloadGate::on_change, (&gate, change, now), reload),
    ensures
        g is Some <==> config.watch_enabled,
        g == Some(gate) ==> (reload <==> (change is Created || change is Modified) && (now.nanos
            - start.nanos >= config.debounce_ms * 1_000_000 || config.debounce_ms == 0)),
{
}

/// A reload that succeeded starts the wait anew, one that failed does not.
pub proof fn law_failed_reload_is_tried_again(
    good: &mut ReloadGate,
    bad: &mut ReloadGate,
    now: Instant,
    done: (),
)
    requires
        call_ensures(ReloadGate::on_reloaded, (good, true, now), done),
        call_ensures(ReloadGate::on_reloaded, (bad, false, now), done),
    ensures
        final(good).last == now && final(good).debounce == old(good).debounce,
        *final(bad) == *old(bad),
{
}

/// What is loaded first is what could be served by itself; where the
/// certificate could be served but not read, nothing is said of it.
pub proof fn law_first_load(
    config: CertReloaderConfig,
    cert: &[u8],
    cert_path: &str,
    key: &[u8],
    key_path: &str,
    wall: WallTime,
    made: Result<rustls::ServerConfig, AnyTlsError>,
    info: Result<CertificateInfo, AnyTlsError>,
    r: Result<CertReloader<rustls::ServerConfig>, AnyTlsError>,
)
    requires
        call_ensures(
            CertReloader::<rustls::ServerConfig>::load,
            (config, cert, cert_path, key, key_path, wall),
            r,
        ),
        call_ensures(create_server_config_from_pem, (cert, cert_path, key, key_path), made),
        call_ensures(CertificateInfo::from_pem_bytes, (cert, wall), info),
    ensures
        r is Ok <==> made is Ok,
        r matches Ok(c) ==> served(c.acceptor) == served(made->Ok_0) && c.config == config
            && c.reload_count == 0 && c.last_reload is None && (c.cert_info is Some <==> info
            is Ok) && (c.cert_info matches Some(i) ==> i.subject@ == info->Ok_0.subject@
            && i.days_until_expiry == info->Ok_0.days_until_expiry),
{
}

/// Without files a server serves one certificate that was made for `localhost`.
pub proof fn law_served_without_files(config: rustls::ServerConfig)
    requires
        call_ensures(
            tls::create_server_config,
            (),
            Ok::<rustls::ServerConfig, AnyTlsError>(config),
        ),
        net::ip_of_text("localhost"@) is None,
    ensures
        served(config).0.len() == 1,
        served(config).1 is Pkcs8,
        cert_analyzer::certificate_names(served(config).0[0]) == seq![
            SanModel::Dns("localhost"@),
            SanModel::Dns("localhost"@),
        ],
{
    let (cert, key) = choose|cert: Seq<u8>, key: KeyModel|
        served(config) == (seq![cert], key) && #[trigger] tls::is_own_pair(
            cert,
            key,
            tls::own_names(None),
        );
    assert(served(config).0[0] == cert);
    assert(cert_analyzer::certificate_names(cert) =~= seq![
        SanModel::Dns("localhost"@),
        SanModel::Dns("localhost"@),
    ]);
}

} // verus!
