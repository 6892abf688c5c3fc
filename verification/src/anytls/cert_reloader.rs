//! Reloading a server's certificate while it runs.
use crate::anytls::cert_analyzer::{
    certificate_fields, display_text, law_expired_once_past, pem_certificates, pem_info_fault,
    says_of, CertificateInfo, WallTime,
};
use crate::anytls::error::AnyTlsError;
use crate::anytls::tls::{create_server_config_from_pem, pem_config_fault, pem_pair, served};
use crate::clock;
use crate::clock::{Duration, Instant};
use crate::text;
use vstd::prelude::*;

verus! {

/// How certificates are reloaded.
#[derive(Debug)]
pub struct CertReloaderConfig {
    pub cert_path: String,
    pub key_path: String,
    /// Whether the files are watched.
    pub watch_enabled: bool,
    /// Changes that follow a reload more closely than this many milliseconds
    /// are ignored.
    pub debounce_ms: u64,
    /// Whether an expired certificate is refused.
    pub check_expiry: bool,
    /// From how many days before the end on a warning is due.
    pub expiry_warning_days: u64,
}

impl Default for CertReloaderConfig {
    fn default() -> (c: Self)
        ensures
            c.cert_path@ == "cert.pem"@,
            c.key_path@ == "key.pem"@,
            c.watch_enabled,
            c.debounce_ms == 500,
            c.check_expiry,
            c.expiry_warning_days == 30,
    {
        CertReloaderConfig {
            cert_path: "cert.pem".to_owned(),
            key_path: "key.pem".to_owned(),
            watch_enabled: true,
            debounce_ms: 500,
            check_expiry: true,
            expiry_warning_days: 30,
        }
    }
}

/// What is to be said about a certificate's end.
#[derive(Clone, Copy, Debug, PartialEq, Eq, Structural)]
pub enum ExpiryNotice {
    Expired,
    /// It comes in so many days.
    Soon(i64),
    /// It is this many days away.
    Far(i64),
}

/// What is to be said about a certificate's end.
pub fn expiry_notice(info: &CertificateInfo, warning_days: u64) -> (n: ExpiryNotice)
    ensures
        n == (if info.days_until_expiry < 0 {
            ExpiryNotice::Expired
        } else if info.days_until_expiry < warning_days {
            ExpiryNotice::Soon(info.days_until_expiry)
        } else {
            ExpiryNotice::Far(info.days_until_expiry)
        }),
{
    if info.is_expired() {
        ExpiryNotice::Expired
    } else if info.is_expiring_soon(warning_days) {
        ExpiryNotice::Soon(info.days_until_expiry)
    } else {
        ExpiryNotice::Far(info.days_until_expiry)
    }
}

/// Holds a server's current certificate. `A` is what accepts connections with
/// it.
#[derive(Debug)]
pub struct CertReloader<A> {
    pub config: CertReloaderConfig,
    pub acceptor: A,
    pub cert_info: Option<CertificateInfo>,
    pub reload_count: u64,
    pub last_reload: Option<Instant>,
}

impl<A> CertReloader<A> {
    /// Starts with a certificate that was loaded; what it says may be unknown.
    pub fn new(
        config: CertReloaderConfig,
        loaded: Result<A, AnyTlsError>,
        info: Option<CertificateInfo>,
    ) -> (r: Result<Self, AnyTlsError>)
        ensures
            match loaded {
                Err(e) => r == Err::<CertReloader<A>, AnyTlsError>(e),
                Ok(acceptor) => r == Ok::<CertReloader<A>, AnyTlsError>(
                    CertReloader {
                        config,
                        acceptor,
                        cert_info: info,
                        reload_count: 0,
                        last_reload: None,
                    },
                ),
            },
    {
        match loaded {
            Err(e) => Err(e),
            Ok(acceptor) => Ok(
                CertReloader {
                    config,
                    acceptor,
                    cert_info: info,
                    reload_count: 0,
                    last_reload: None,
                },
            ),
        }
    }

    /// What accepts connections now.
    pub fn get_acceptor(&self) -> (a: &A)
        ensures
            *a == self.acceptor,
    {
        &self.acceptor
    }

    /// What the current certificate says, where it is known.
    pub fn get_cert_info(&self) -> (info: Option<&CertificateInfo>)
        ensures
            match info {
                Some(i) => self.cert_info == Some(*i),
                None => self.cert_info is None,
            },
    {
        self.cert_info.as_ref()
    }

    /// How often the certificate was reloaded.
    pub fn get_reload_count(&self) -> (n: u64)
        ensures
            n == self.reload_count,
    {
        self.reload_count
    }

    /// When the certificate was last reloaded.
    pub fn get_last_reload(&self) -> (at: Option<Instant>)
        ensures
            at == self.last_reload,
    {
        self.last_reload
    }

    /// Takes a new certificate into use. What could not be loaded or read, and
    /// an expired certificate where expiry is checked, is refused; then the
    /// current certificate stays.
    pub fn reload(
        &mut self,
        loaded: Result<A, AnyTlsError>,
        info: Result<CertificateInfo, AnyTlsError>,
        now: Instant,
    ) -> (r: Result<(), AnyTlsError>)
        requires
            old(self).reload_count < u64::MAX,
        ensures
            match (loaded, info) {
                (Err(e), _) => r == Err::<(), AnyTlsError>(e) && *final(self) == *old(self),
                (Ok(_), Err(e)) => r == Err::<(), AnyTlsError>(e) && *final(self) == *old(self),
                (Ok(acceptor), Ok(i)) => if old(self).config.check_expiry && i.days_until_expiry
                    < 0 {
                    (r matches Err(e) && e.is_tls("New certificate has expired"@)) && *final(self)
                        == *old(self)
                } else {
                    r is Ok && *final(self) == (CertReloader {
                        acceptor,
                        cert_info: Some(i),
                        reload_count: (old(self).reload_count + 1) as u64,
                        last_reload: Some(now),
                        ..*old(self)
                    })
                },
            },
    {
        let acceptor = match loaded {
            Ok(a) => a,
            Err(e) => {
                return Err(e);
            },
        };
        let new_info = match info {
            Ok(i) => i,
            Err(e) => {
                return Err(e);
            },
        };
        if self.config.check_expiry && new_info.is_expired() {
            return Err(AnyTlsError::Tls("New certificate has expired".to_owned()));
        }
        self.acceptor = acceptor;
        self.cert_info = Some(new_info);
        self.reload_count = self.reload_count + 1;
        self.last_reload = Some(now);
        Ok(())
    }

    /// What is to be said about the certificate's end when it is looked at
    /// regularly; nothing where expiry is not checked or the certificate is
    /// unknown.
    pub fn check_expiry(&self) -> (n: Option<ExpiryNotice>)
        ensures
            match (self.config.check_expiry, self.cert_info) {
                (true, Some(info)) => n == Some(
                    if info.days_until_expiry < 0 {
                        ExpiryNotice::Expired
                    } else if info.days_until_expiry < self.config.expiry_warning_days {
                        ExpiryNotice::Soon(info.days_until_expiry)
                    } else {
                        ExpiryNotice::Far(info.days_until_expiry)
                    },
                ),
                _ => n is None,
            },
    {
        if !self.config.check_expiry {
            return None;
        }
        match &self.cert_info {
            Some(info) => Some(expiry_notice(info, self.config.expiry_warning_days)),
            None => None,
        }
    }

    /// The report on the current certificate.
    pub fn show_cert_info(&self) -> (out: String)
        requires
            self.cert_info matches Some(info) ==> info.wf(),
        ensures
            out@ == (match self.cert_info {
                Some(info) => "\n=== TLS Certificate Information ===\n\n"@ + display_text(info)
                    + "===================================\n\n"@,
                None => "No certificate information available\n"@,
            }),
    {
        match &self.cert_info {
            Some(info) => text::join3(
                "\n=== TLS Certificate Information ===\n\n",
                info.display().as_str(),
                "===================================\n\n",
            ),
            None => "No certificate information available\n".to_owned(),
        }
    }
}

impl CertReloader<rustls::ServerConfig> {
    /// Starts to serve the certificate of a PEM file with the key of another,
    /// whose paths are given for the messages. What the certificate says may be unknown.
    pub fn load(
        config: CertReloaderConfig,
        cert_pem: &[u8],
        cert_path: &str,
        key_pem: &[u8],
        key_path: &str,
        wall: WallTime,
    ) -> (r: Result<Self, AnyTlsError>)
        requires
            wall.nanos <= i64::MAX * 1_000_000_000,
        ensures
            match pem_config_fault(cert_pem@, cert_path@, key_pem@, key_path@) {
                Some(what) => r matches Err(e) && e.is_tls(what),
                None => {
                    &&& r matches Ok(c) && c.config == config && c.reload_count == 0
                        && c.last_reload is None && served(c.acceptor) == pem_pair(
                        cert_pem@,
                        key_pem@,
                    )
                    &&& match pem_info_fault(cert_pem@) {
                        Some(_) => r->Ok_0.cert_info is None,
                        None => r->Ok_0.cert_info matches Some(i) && i.wf() && says_of(
                            i,
                            cert_pem@,
                            wall,
                        ),
                    }
                },
            },
    {
        let loaded = create_server_config_from_pem(cert_pem, cert_path, key_pem, key_path);
        let info = match CertificateInfo::from_pem_bytes(cert_pem, wall) {
            Ok(i) => Some(i),
            Err(_) => None,
        };
        CertReloader::new(config, loaded, info)
    }

    /// Takes the certificate and the key of two PEM files into use, whose paths
    /// are given for the messages. What is wrong with one of them, and an
    /// expired certificate where expiry is checked, is refused; then the current
    /// certificate stays. From then on those certificates are served with that
    /// key, and what is said of the certificate is what those bytes say.
    pub fn reload_from_pem(
        &mut self,
        cert_pem: &[u8],
        cert_path: &str,
        key_pem: &[u8],
        key_path: &str,
        wall: WallTime,
        now: Instant,
    ) -> (r: Result<(), AnyTlsError>)
        requires
            wall.nanos <= i64::MAX * 1_000_000_000,
            old(self).reload_count < u64::MAX,
        ensures
            match (
                pem_config_fault(cert_pem@, cert_path@, key_pem@, key_path@),
                pem_info_fault(cert_pem@),
            ) {
                (Some(what), _) => (r matches Err(e) && e.is_tls(what)) && *final(self) == *old(
                    self,
                ),
                (None, Some(what)) => (r matches Err(e) && e.is_tls(what)) && *final(self) == *old(
                    self,
                ),
                (None, None) => if old(self).config.check_expiry && ends_before(cert_pem@, wall) {
                    (r matches Err(e) && e.is_tls("New certificate has expired"@)) && *final(self)
                        == *old(self)
                } else {
                    &&& r is Ok
                    &&& served(final(self).acceptor) == pem_pair(cert_pem@, key_pem@)
                    &&& final(self).cert_info matches Some(i) && i.wf() && says_of(
                        i,
                        cert_pem@,
                        wall,
                    )
                    &&& final(self).config == old(self).config
                    &&& final(self).reload_count == old(self).reload_count + 1
                    &&& final(self).last_reload == Some(now)
                },
            },
    {
        let loaded = create_server_config_from_pem(cert_pem, cert_path, key_pem, key_path);
        let info = CertificateInfo::from_pem_bytes(cert_pem, wall);
        proof {
            if info is Ok {
                law_expired_once_past(info->Ok_0.not_after, wall);
            }
        }
        self.reload(loaded, info, now)
    }
}

/// Whether the first certificate of a PEM file has ended before `now`.
pub open spec fn ends_before(pem: Seq<u8>, now: WallTime) -> bool {
    let der = (pem_certificates(pem)->Ok_0)[0];
    now.nanos > (certificate_fields(der)->Ok_0).not_after * 1_000_000_000
}

/// What happened to a watched file.
#[derive(Clone, Copy, Debug, PartialEq, Eq, Structural)]
pub enum FileChange {
    Created,
    Modified,
    Other,
}

/// Decides when a change of a watched file leads to a reload.
#[derive(Clone, Copy, Debug, PartialEq, Eq, Structural)]
pub struct ReloadGate {
    pub debounce: Duration,
    /// The change that led to the last successful reload, or when watching
    /// began.
    pub last: Instant,
}

impl ReloadGate {
    /// Begins watching at `now`; nothing is watched where that is disabled.
    pub fn start(config: &CertReloaderConfig, now: Instant) -> (g: Option<Self>)
        ensures
            if config.watch_enabled {
                g matches Some(s) && s.last == now && s.debounce.nanos == config.debounce_ms
                    * clock::NANOS_PER_MILLI
            } else {
                g is None
            },
    {
        if config.watch_enabled {
            Some(ReloadGate { debounce: Duration::from_millis(config.debounce_ms), last: now })
        } else {
            None
        }
    }

    /// Whether a change at `now` leads to a reload: files that were created or
    /// modified do, unless the last reload was too short a while ago.
    pub fn on_change(&self, change: FileChange, now: Instant) -> (reload: bool)
        ensures
            reload == ((change is Created || change is Modified) && clock::time_left(now, self.last)
                >= self.debounce.nanos),
    {
        let relevant = match change {
            FileChange::Created => true,
            FileChange::Modified => true,
            FileChange::Other => false,
        };
        relevant && now.saturating_duration_since(self.last).nanos >= self.debounce.nanos
    }

    /// The reload for the change at `now` ended. Only a successful one holds
    /// the next one back.
    pub fn on_reloaded(&mut self, ok: bool, now: Instant)
        ensures
            *final(self) == (ReloadGate {
                last: if ok {
                    now
                } else {
                    old(self).last
                },
                ..*old(self)
            }),
    {
        if ok {
            self.last = now;
        }
    }
}

} // verus!
