//! What a certificate says, and how long it is still good.
use crate::anytls::error::AnyTlsError;
use crate::text;
use vstd::prelude::*;
use x509_parser::prelude::{FromDer, GeneralName, X509Certificate};

verus! {

/// Seconds in a day.
pub const SECS_PER_DAY: u64 = 86400;

/// A point on the wall clock: nanoseconds since the start of 1970.
#[derive(Clone, Copy, Debug, PartialEq, Eq, Structural)]
pub struct WallTime {
    pub nanos: u128,
}

/// What a certificate says.
#[derive(Debug)]
pub struct CertificateInfo {
    /// Who it belongs to.
    pub subject: String,
    /// Who signed it.
    pub issuer: String,
    pub serial_number: String,
    /// From when it is good, in seconds since the start of 1970.
    pub not_before: u64,
    /// Until when it is good, in seconds since the start of 1970.
    pub not_after: u64,
    pub signature_algorithm: String,
    pub public_key_algorithm: String,
    /// The other names it belongs to.
    pub san_names: Vec<String>,
    pub is_self_signed: bool,
    /// Days until it expires; negative once it has.
    pub days_until_expiry: i64,
}

/// Whether a certificate is good.
#[derive(Debug, PartialEq)]
pub enum CertStatus {
    Valid,
    /// It expires in so many days.
    ExpiringWarning(u64),
    Expired,
    /// It is no good, for this reason.
    Invalid(String),
}

/// One of the other names of a certificate.
#[derive(Debug)]
pub enum SanName {
    Dns(String),
    Ip(Vec<u8>),
    Other,
}

/// The model of a [`SanName`].
pub enum SanModel {
    Dns(Seq<char>),
    Ip(Seq<u8>),
    Other,
}

impl View for SanName {
    type V = SanModel;

    open spec fn view(&self) -> SanModel {
        match self {
            SanName::Dns(d) => SanModel::Dns(d@),
            SanName::Ip(ip) => SanModel::Ip(ip@),
            SanName::Other => SanModel::Other,
        }
    }
}

/// The fields of a certificate that are read from it as they stand.
#[derive(Debug)]
pub struct CertFields {
    pub subject: String,
    pub issuer: String,
    /// The serial number in hexadecimal digits.
    pub serial: String,
    pub not_before: i64,
    pub not_after: i64,
    pub signature_algorithm: String,
    pub public_key_algorithm: String,
    pub same_name: bool,
}

/// The model of [`CertFields`].
pub struct FieldsModel {
    pub subject: Seq<char>,
    pub issuer: Seq<char>,
    pub serial: Seq<char>,
    pub not_before: i64,
    pub not_after: i64,
    pub signature_algorithm: Seq<char>,
    pub public_key_algorithm: Seq<char>,
    pub same_name: bool,
}

impl View for CertFields {
    type V = FieldsModel;

    open spec fn view(&self) -> FieldsModel {
        FieldsModel {
            subject: self.subject@,
            issuer: self.issuer@,
            serial: self.serial@,
            not_before: self.not_before,
            not_after: self.not_after,
            signature_algorithm: self.signature_algorithm@,
            public_key_algorithm: self.public_key_algorithm@,
            same_name: self.same_name,
        }
    }
}

/// The certificates in a PEM file, or what is wrong with it.
pub uninterp spec fn pem_certificates(pem: Seq<u8>) -> Result<Seq<Seq<u8>>, Seq<char>>;

/// The fields of a certificate in DER form, or what is wrong with it.
pub uninterp spec fn certificate_fields(der: Seq<u8>) -> Result<FieldsModel, Seq<char>>;

/// The other names of a certificate in DER form; none where they cannot be
/// read.
pub uninterp spec fn certificate_names(der: Seq<u8>) -> Seq<SanModel>;

/// The models of some byte strings.
pub open spec fn byte_strings(v: Seq<Vec<u8>>) -> Seq<Seq<u8>> {
    v.map_values(|b: Vec<u8>| b@)
}

/// The models of some names.
pub open spec fn san_models(v: Seq<SanName>) -> Seq<SanModel> {
    v.map_values(|n: SanName| n@)
}

/// `rustls_pemfile::certs` hands out the certificates of a PEM file in order,
/// or an error. What it accepts is not stated here.
#[verifier::external_body]
pub(crate) fn read_pem_certs(pem: &[u8]) -> (r: Result<Vec<Vec<u8>>, String>)
    ensures
        match r {
            Ok(certs) => pem_certificates(pem@) == Ok::<Seq<Seq<u8>>, Seq<char>>(
                byte_strings(certs@),
            ),
            Err(e) => pem_certificates(pem@) == Err::<Seq<Seq<u8>>, Seq<char>>(e@),
        },
{
    let mut reader = pem;
    let certs: Result<Vec<_>, _> = rustls_pemfile::certs(&mut reader).collect();
    certs.map(|c| c.iter().map(|d| d.to_vec()).collect()).map_err(|e| e.to_string())
}

/// `x509_parser`'s `X509Certificate::from_der` reads a certificate, or fails.
/// Which bytes say what is not stated here.
#[verifier::external_body]
fn read_fields(der: &[u8]) -> (r: Result<CertFields, String>)
    ensures
        match r {
            Ok(f) => certificate_fields(der@) == Ok::<FieldsModel, Seq<char>>(f@),
            Err(e) => certificate_fields(der@) == Err::<FieldsModel, Seq<char>>(e@),
        },
{
    let (_, cert) = X509Certificate::from_der(der).map_err(|e| e.to_string())?;
    Ok(CertFields {
        subject: cert.subject().to_string(),
        issuer: cert.issuer().to_string(),
        serial: cert.serial.to_str_radix(16),
        not_before: cert.validity().not_before.timestamp(),
        not_after: cert.validity().not_after.timestamp(),
        signature_algorithm: format!("{:?}", cert.signature_algorithm.algorithm),
        public_key_algorithm: format!("{:?}", cert.public_key().algorithm.algorithm),
        same_name: cert.subject() == cert.issuer(),
    })
}

/// The subject alternative names that `x509_parser` finds in a certificate.
/// Which bytes say what is not stated here.
#[verifier::external_body]
fn read_names(der: &[u8]) -> (names: Vec<SanName>)
    ensures
        san_models(names@) == certificate_names(der@),
{
    let cert = X509Certificate::from_der(der).ok().map(|c| c.1);
    let ext = cert.as_ref().and_then(|c| c.subject_alternative_name().ok().flatten());
    let name = |n: &GeneralName| match n {
        GeneralName::DNSName(d) => SanName::Dns(d.to_string()),
        GeneralName::IPAddress(ip) => SanName::Ip(ip.to_vec()),
        _ => SanName::Other,
    };
    ext.map(|e| e.value.general_names.iter().map(name).collect()).unwrap_or_default()
}

/// A text cut into pairs of characters with colons between them; the last
/// piece may be a single character.
pub open spec fn colon_pairs(s: Seq<char>) -> Seq<char>
    decreases s.len(),
{
    if s.len() <= 2 {
        s
    } else {
        s.take(2) + seq![':'] + colon_pairs(s.skip(2))
    }
}

fn to_colon_pairs(s: &str) -> (out: String)
    ensures
        out@ == colon_pairs(s@),
{
    let chars = text::chars_of(s);
    let n: usize = chars.len();
    let mut out = String::new();
    let mut i: usize = 0;
    assert(chars@.skip(0) =~= s@);
    while n - i > 2
        invariant
            i <= n,
            n == chars@.len(),
            chars@ == s@,
            colon_pairs(s@) == out@ + colon_pairs(s@.skip(i as int)),
        decreases n - i,
    {
        let ghost rest = s@.skip(i as int);
        let ghost before = out@;
        out.push(chars[i]);
        out.push(chars[i + 1]);
        out.push(':');
        assert(rest.take(2) =~= seq![chars@[i as int], chars@[i + 1]]);
        assert(rest.skip(2) =~= s@.skip(i + 2));
        assert(before + (rest.take(2) + seq![':'] + colon_pairs(rest.skip(2))) =~= out@
            + colon_pairs(s@.skip(i + 2)));
        i += 2;
    }
    let tail = text::sub_text(&chars, i, n);
    assert(tail@ =~= s@.skip(i as int));
    text::push_text(&mut out, tail.as_str());
    out
}

/// Numbers in square brackets, with commas between them, behind the first.
pub open spec fn list_tail(b: Seq<u8>) -> Seq<char>
    decreases b.len(),
{
    if b.len() == 0 {
        "]"@
    } else {
        ", "@ + text::decimal(b[0] as nat) + list_tail(b.drop_first())
    }
}

/// Bytes as a list of numbers in square brackets.
pub open spec fn byte_list(b: Seq<u8>) -> Seq<char> {
    if b.len() == 0 {
        "[]"@
    } else {
        "["@ + text::decimal(b[0] as nat) + list_tail(b.drop_first())
    }
}

fn to_byte_list(b: &Vec<u8>) -> (out: String)
    ensures
        out@ == byte_list(b@),
{
    if b.len() == 0 {
        return "[]".to_owned();
    }
    let mut out = "[".to_owned();
    text::push_decimal(&mut out, b[0] as u64);
    let mut i: usize = 1;
    assert(b@.drop_first() =~= b@.skip(1));
    while i < b.len()
        invariant
            1 <= i <= b@.len(),
            byte_list(b@) == out@ + list_tail(b@.skip(i as int)),
        decreases b@.len() - i,
    {
        let ghost rest = b@.skip(i as int);
        let ghost before = out@;
        text::push_text(&mut out, ", ");
        text::push_decimal(&mut out, b[i] as u64);
        assert(rest[0] == b@[i as int]);
        assert(rest.drop_first() =~= b@.skip(i + 1));
        assert(before + (", "@ + text::decimal(rest[0] as nat) + list_tail(rest.drop_first()))
            =~= out@ + list_tail(b@.skip(i + 1)));
        i += 1;
    }
    text::push_text(&mut out, "]");
    out
}

/// The names that are shown: host names as they are, addresses as lists of
/// numbers.
pub open spec fn shown_names(names: Seq<SanModel>) -> Seq<Seq<char>>
    decreases names.len(),
{
    if names.len() == 0 {
        Seq::empty()
    } else {
        let before = shown_names(names.drop_last());
        match names.last() {
            SanModel::Dns(d) => before.push(d),
            SanModel::Ip(ip) => before.push(byte_list(ip)),
            SanModel::Other => before,
        }
    }
}

fn to_shown_names(names: &Vec<SanName>) -> (out: Vec<String>)
    ensures
        text::texts(out@) == shown_names(san_models(names@)),
{
    let ghost all = san_models(names@);
    let mut out: Vec<String> = Vec::new();
    let mut i: usize = 0;
    assert(text::texts(out@) =~= shown_names(all.take(0)));
    while i < names.len()
        invariant
            i <= names@.len(),
            all == san_models(names@),
            text::texts(out@) == shown_names(all.take(i as int)),
        decreases names@.len() - i,
    {
        let ghost before = out@;
        assert(all.take(i + 1).drop_last() =~= all.take(i as int));
        assert(all.take(i + 1).last() == names@[i as int]@);
        match &names[i] {
            SanName::Dns(d) => {
                out.push(d.clone());
                assert(text::texts(out@) =~= text::texts(before).push(d@));
            },
            SanName::Ip(ip) => {
                let list = to_byte_list(ip);
                out.push(list);
                assert(text::texts(out@) =~= text::texts(before).push(byte_list(ip@)));
            },
            SanName::Other => {},
        }
        i += 1;
    }
    assert(all.take(i as int) =~= all);
    out
}

/// Whole days from `now` until a point in seconds: zero on the last day. Once
/// the point has passed, the whole days since then with a minus sign, and minus
/// one already on the first of them.
pub open spec fn days_left(not_after: u64, now: WallTime) -> int {
    let end = not_after * 1_000_000_000;
    if now.nanos <= end {
        (end - now.nanos) / 1_000_000_000 / 86400
    } else {
        let since = (now.nanos - end) / 1_000_000_000 / 86400;
        if since == 0 {
            -1
        } else {
            -since
        }
    }
}

/// Whole days from `now` until a point in seconds; negative once it has passed.
pub fn days_until(not_after: u64, now: WallTime) -> (days: i64)
    requires
        now.nanos <= i64::MAX * 1_000_000_000,
        not_after <= i64::MAX,
    ensures
        days == days_left(not_after, now),
{
    let end: u128 = not_after as u128 * 1_000_000_000;
    if now.nanos <= end {
        ((end - now.nanos) / 1_000_000_000 / 86400) as i64
    } else {
        let since: i64 = ((now.nanos - end) / 1_000_000_000 / 86400) as i64;
        if since == 0 {
            -1
        } else {
            -since
        }
    }
}

/// A time as it stands in a certificate, as seconds since the start of 1970. A
/// time before that is an error.
pub fn asn1_time_to_system_time(unix_timestamp: i64) -> (r: Result<u64, AnyTlsError>)
    ensures
        if unix_timestamp < 0 {
            r matches Err(e) && e.is_tls("Invalid timestamp (before UNIX epoch)"@)
        } else {
            r matches Ok(t) && t == unix_timestamp
        },
{
    if unix_timestamp < 0 {
        return Err(AnyTlsError::Tls("Invalid timestamp (before UNIX epoch)".to_owned()));
    }
    Ok(unix_timestamp as u64)
}

/// Whether this is what the fields and the names of a certificate say at `now`.
pub open spec fn says(
    info: CertificateInfo,
    f: FieldsModel,
    names: Seq<SanModel>,
    now: WallTime,
) -> bool {
    &&& info.subject@ == f.subject
    &&& info.issuer@ == f.issuer
    &&& info.serial_number@ == colon_pairs(f.serial)
    &&& info.not_before == f.not_before
    &&& info.not_after == f.not_after
    &&& info.signature_algorithm@ == f.signature_algorithm
    &&& info.public_key_algorithm@ == f.public_key_algorithm
    &&& text::texts(info.san_names@) == shown_names(names)
    &&& info.is_self_signed == f.same_name
    &&& info.days_until_expiry == days_left(f.not_after as u64, now)
}

/// What a certificate with these fields and names says at `now`. A time before
/// 1970 is an error.
pub fn from_x509(cert: CertFields, names: Vec<SanName>, now: WallTime) -> (r: Result<
    CertificateInfo,
    AnyTlsError,
>)
    requires
        now.nanos <= i64::MAX * 1_000_000_000,
    ensures
        if cert.not_before < 0 || cert.not_after < 0 {
            r matches Err(e) && e.is_tls("Invalid timestamp (before UNIX epoch)"@)
        } else {
            r matches Ok(info) && says(info, cert@, san_models(names@), now)
        },
{
    let not_before = match asn1_time_to_system_time(cert.not_before) {
        Ok(t) => t,
        Err(e) => {
            return Err(e);
        },
    };
    let not_after = match asn1_time_to_system_time(cert.not_after) {
        Ok(t) => t,
        Err(e) => {
            return Err(e);
        },
    };
    Ok(
        CertificateInfo {
            subject: cert.subject,
            issuer: cert.issuer,
            serial_number: to_colon_pairs(cert.serial.as_str()),
            not_before,
            not_after,
            signature_algorithm: cert.signature_algorithm,
            public_key_algorithm: cert.public_key_algorithm,
            san_names: to_shown_names(&names),
            is_self_signed: cert.same_name,
            days_until_expiry: days_until(not_after, now),
        },
    )
}

/// The text of a time of the form `%Y-%m-%d %H:%M:%S UTC`, where the time can
/// be shown.
pub uninterp spec fn utc_text(secs: i64) -> Option<Seq<char>>;

/// `chrono`'s `DateTime::from_timestamp` and `format`. Times that the calendar
/// cannot hold have no text; the start of 1970 has one. How a time is written
/// is not stated here.
#[verifier::external_body]
fn utc_format(secs: i64) -> (out: Option<String>)
    ensures
        match out {
            Some(t) => utc_text(secs) == Some(t@),
            None => utc_text(secs) is None,
        },
        secs == 0 ==> out is Some,
{
    let time = chrono::DateTime::from_timestamp(secs, 0)?;
    Some(time.format("%Y-%m-%d %H:%M:%S UTC").to_string())
}

/// The text of a time in seconds; a time that cannot be shown is shown as the
/// start of 1970.
pub open spec fn time_text(secs: u64) -> Seq<char> {
    match utc_text(secs as i64) {
        Some(t) => t,
        None => utc_text(0)->0,
    }
}

/// The text of a time in seconds since the start of 1970.
pub fn format_system_time(secs: u64) -> (out: String)
    requires
        secs <= i64::MAX,
    ensures
        out@ == time_text(secs),
{
    match utc_format(secs as i64) {
        Some(t) => t,
        None => match utc_format(0) {
            Some(t) => t,
            None => String::new(),
        },
    }
}

/// The common name in a distinguished name: what stands behind the first
/// `CN=`, where parts are separated by commas.
pub open spec fn common_name(parts: Seq<Seq<char>>) -> Option<Seq<char>>
    decreases parts.len(),
{
    if parts.len() == 0 {
        None
    } else {
        let p = text::trim_of(parts[0]);
        if text::has_prefix(p, "CN="@) {
            Some(p.skip(3))
        } else {
            common_name(parts.drop_first())
        }
    }
}

/// The common name in a distinguished name.
pub fn extract_cn(dn: &str) -> (out: Option<String>)
    ensures
        match out {
            Some(cn) => common_name(text::split_of(dn@, ',')) == Some(cn@),
            None => common_name(text::split_of(dn@, ',')) is None,
        },
{
    let parts = text::split(dn, ',');
    let ghost all = text::texts(parts@);
    let mut i: usize = 0;
    assert(all.skip(0) =~= all);
    assert("CN="@.len() == 3) by {
        reveal_strlit("CN=");
    }
    while i < parts.len()
        invariant
            i <= parts@.len(),
            all == text::texts(parts@),
            all == text::split_of(dn@, ','),
            "CN="@.len() == 3,
            common_name(all) == common_name(all.skip(i as int)),
        decreases parts@.len() - i,
    {
        assert(all.skip(i as int)[0] == parts@[i as int]@);
        assert(all.skip(i as int).drop_first() =~= all.skip(i + 1));
        let part = text::trim(parts[i].as_str());
        if let Some(cn) = text::strip_prefix(part.as_str(), "CN=") {
            return Some(cn);
        }
        i += 1;
    }
    None
}

/// The common name of a distinguished name, or `unknown`.
pub open spec fn cn_or_unknown(dn: Seq<char>) -> Seq<char> {
    match common_name(text::split_of(dn, ',')) {
        Some(cn) => cn,
        None => "unknown"@,
    }
}

/// A whole number in decimal digits, with its sign where it is negative.
pub open spec fn signed_decimal(n: int) -> Seq<char> {
    if n < 0 {
        "-"@ + text::decimal((-n) as nat)
    } else {
        text::decimal(n as nat)
    }
}

fn push_signed(out: &mut String, n: i64)
    ensures
        final(out)@ == old(out)@ + signed_decimal(n as int),
{
    let ghost before = out@;
    if n < 0 {
        text::push_text(out, "-");
        if n == i64::MIN {
            text::push_decimal(out, 0x8000_0000_0000_0000);
        } else {
            text::push_decimal(out, (-n) as u64);
        }
        assert(out@ =~= before + signed_decimal(n as int));
    } else {
        text::push_decimal(out, n as u64);
    }
}

/// Texts with a separator between them.
pub open spec fn joined_texts(parts: Seq<Seq<char>>, sep: Seq<char>) -> Seq<char>
    decreases parts.len(),
{
    if parts.len() == 0 {
        Seq::empty()
    } else if parts.len() == 1 {
        parts[0]
    } else {
        joined_texts(parts.drop_last(), sep) + sep + parts.last()
    }
}

/// The texts with a separator between them.
pub fn join_texts(parts: &Vec<String>, sep: &str) -> (out: String)
    ensures
        out@ == joined_texts(text::texts(parts@), sep@),
{
    let ghost all = text::texts(parts@);
    let mut out = String::new();
    let mut i: usize = 0;
    assert(all.take(0) =~= Seq::empty());
    while i < parts.len()
        invariant
            i <= parts@.len(),
            all == text::texts(parts@),
            out@ == joined_texts(all.take(i as int), sep@),
        decreases parts@.len() - i,
    {
        let ghost next = all.take(i + 1);
        assert(next.drop_last() =~= all.take(i as int));
        assert(next.last() == parts@[i as int]@);
        if i > 0 {
            text::push_text(&mut out, sep);
        }
        text::push_text(&mut out, parts[i].as_str());
        assert(out@ =~= joined_texts(next, sep@));
        i += 1;
    }
    assert(all.take(i as int) =~= all);
    out
}

/// What a certificate says, in lines.
pub open spec fn display_text(c: CertificateInfo) -> Seq<char> {
    "Subject: "@ + c.subject@ + "\nIssuer: "@ + c.issuer@ + "\nSerial Number: "@ + c.serial_number@
        + "\nValid From: "@ + time_text(c.not_before) + "\nValid Until: "@ + time_text(c.not_after)
        + "\nDays Until Expiry: "@ + signed_decimal(c.days_until_expiry as int)
        + "\nSignature Algorithm: "@ + c.signature_algorithm@ + "\nPublic Key Algorithm: "@
        + c.public_key_algorithm@ + "\nSelf-Signed: "@ + (if c.is_self_signed {
        "true"@
    } else {
        "false"@
    }) + "\n"@ + (if c.san_names@.len() == 0 {
        Seq::empty()
    } else {
        "SANs: "@ + joined_texts(text::texts(c.san_names@), ", "@) + "\n"@
    })
}

/// What is wrong with the first certificate of a PEM file.
pub open spec fn pem_info_fault(pem: Seq<u8>) -> Option<Seq<char>> {
    match pem_certificates(pem) {
        Err(e) => Some("Failed to parse PEM certificates: "@ + e),
        Ok(certs) => if certs.len() == 0 {
            Some("No certificates found in PEM data"@)
        } else {
            match certificate_fields(certs[0]) {
                Err(e) => Some("Failed to parse X.509 certificate: "@ + e),
                Ok(c) => if c.not_before < 0 || c.not_after < 0 {
                    Some("Invalid timestamp (before UNIX epoch)"@)
                } else {
                    None
                },
            }
        },
    }
}

/// Whether this is what the first certificate of a PEM file says at `now`.
pub open spec fn says_of(info: CertificateInfo, pem: Seq<u8>, now: WallTime) -> bool {
    let der = (pem_certificates(pem)->Ok_0)[0];
    says(info, certificate_fields(der)->Ok_0, certificate_names(der), now)
}

impl CertificateInfo {
    /// The times can be held as the signed numbers that the calendar takes.
    pub open spec fn wf(&self) -> bool {
        self.not_before <= i64::MAX && self.not_after <= i64::MAX
    }

    /// What the first certificate in a PEM file says at `now`.
    pub fn from_pem_bytes(pem_data: &[u8], now: WallTime) -> (r: Result<Self, AnyTlsError>)
        requires
            now.nanos <= i64::MAX * 1_000_000_000,
        ensures
            match pem_info_fault(pem_data@) {
                Some(what) => r matches Err(e) && e.is_tls(what),
                None => r matches Ok(info) && info.wf() && says_of(info, pem_data@, now),
            },
    {
        let certs = match read_pem_certs(pem_data) {
            Ok(c) => c,
            Err(e) => {
                return Err(
                    AnyTlsError::Tls(text::join2("Failed to parse PEM certificates: ", e.as_str())),
                );
            },
        };
        if certs.len() == 0 {
            return Err(AnyTlsError::Tls("No certificates found in PEM data".to_owned()));
        }
        assert(byte_strings(certs@)[0] == certs@[0]@);
        let fields = match read_fields(certs[0].as_slice()) {
            Ok(f) => f,
            Err(e) => {
                return Err(
                    AnyTlsError::Tls(
                        text::join2("Failed to parse X.509 certificate: ", e.as_str()),
                    ),
                );
            },
        };
        let names = read_names(certs[0].as_slice());
        from_x509(fields, names, now)
    }

    /// Whether the certificate is good, where fewer than `warning_days` days are
    /// worth a warning.
    pub fn status(&self, warning_days: u64) -> (s: CertStatus)
        ensures
            if self.days_until_expiry < 0 {
                s is Expired
            } else if self.days_until_expiry < warning_days {
                s matches CertStatus::ExpiringWarning(d) && d == self.days_until_expiry
            } else {
                s is Valid
            },
    {
        if self.days_until_expiry < 0 {
            CertStatus::Expired
        } else if (self.days_until_expiry as u64) < warning_days {
            CertStatus::ExpiringWarning(self.days_until_expiry as u64)
        } else {
            CertStatus::Valid
        }
    }

    /// Whether the certificate has expired.
    pub fn is_expired(&self) -> (b: bool)
        ensures
            b == (self.days_until_expiry < 0),
    {
        self.days_until_expiry < 0
    }

    /// Whether the certificate expires in fewer than `warning_days` days.
    pub fn is_expiring_soon(&self, warning_days: u64) -> (b: bool)
        ensures
            b == (0 <= self.days_until_expiry < warning_days),
    {
        self.days_until_expiry >= 0 && (self.days_until_expiry as u64) < warning_days
    }

    /// What the certificate says, in lines.
    pub fn display(&self) -> (out: String)
        requires
            self.wf(),
        ensures
            out@ == display_text(*self),
    {
        let mut out = "Subject: ".to_owned();
        text::push_text(&mut out, self.subject.as_str());
        text::push_text(&mut out, "\nIssuer: ");
        text::push_text(&mut out, self.issuer.as_str());
        text::push_text(&mut out, "\nSerial Number: ");
        text::push_text(&mut out, self.serial_number.as_str());
        text::push_text(&mut out, "\nValid From: ");
        text::push_text(&mut out, format_system_time(self.not_before).as_str());
        text::push_text(&mut out, "\nValid Until: ");
        text::push_text(&mut out, format_system_time(self.not_after).as_str());
        text::push_text(&mut out, "\nDays Until Expiry: ");
        push_signed(&mut out, self.days_until_expiry);
        text::push_text(&mut out, "\nSignature Algorithm: ");
        text::push_text(&mut out, self.signature_algorithm.as_str());
        text::push_text(&mut out, "\nPublic Key Algorithm: ");
        text::push_text(&mut out, self.public_key_algorithm.as_str());
        text::push_text(&mut out, "\nSelf-Signed: ");
        if self.is_self_signed {
            text::push_text(&mut out, "true");
        } else {
            text::push_text(&mut out, "false");
        }
        text::push_text(&mut out, "\n");
        let ghost before = out@;
        if self.san_names.len() > 0 {
            text::push_text(&mut out, "SANs: ");
            text::push_text(&mut out, join_texts(&self.san_names, ", ").as_str());
            text::push_text(&mut out, "\n");
            assert(out@ =~= before + ("SANs: "@ + joined_texts(
                text::texts(self.san_names@),
                ", "@,
            ) + "\n"@));
        } else {
            assert(out@ =~= before + Seq::<char>::empty());
        }
        out
    }

    /// What the certificate says, in one line.
    pub fn summary(&self) -> (out: String)
        ensures
            out@ == "CN="@ + cn_or_unknown(self.subject@) + ", Issuer="@ + cn_or_unknown(
                self.issuer@,
            ) + ", expires in "@ + signed_decimal(self.days_until_expiry as int) + " days"@,
    {
        let mut out = "CN=".to_owned();
        match extract_cn(self.subject.as_str()) {
            Some(cn) => text::push_text(&mut out, cn.as_str()),
            None => text::push_text(&mut out, "unknown"),
        }
        text::push_text(&mut out, ", Issuer=");
        match extract_cn(self.issuer.as_str()) {
            Some(cn) => text::push_text(&mut out, cn.as_str()),
            None => text::push_text(&mut out, "unknown"),
        }
        text::push_text(&mut out, ", expires in ");
        push_signed(&mut out, self.days_until_expiry);
        text::push_text(&mut out, " days");
        out
    }
}

/// A certificate has expired exactly when its end has passed.
pub proof fn law_expired_once_past(not_after: u64, now: WallTime)
    ensures
        (days_left(not_after, now) < 0) == (now.nanos > not_after * 1_000_000_000),
{
}

/// As time goes on, the days that are left never grow.
pub proof fn law_days_never_grow(not_after: u64, now: WallTime, later: WallTime)
    requires
        now.nanos <= later.nanos,
    ensures
        days_left(not_after, later) <= days_left(not_after, now),
{
    let end = not_after * 1_000_000_000;
    if later.nanos <= end {
        vstd::arithmetic::div_mod::lemma_div_is_ordered(
            end - later.nanos,
            end - now.nanos,
            1_000_000_000,
        );
    } else if now.nanos > end {
        vstd::arithmetic::div_mod::lemma_div_is_ordered(
            now.nanos - end,
            later.nanos - end,
            1_000_000_000,
        );
    }
}

} // verus!
