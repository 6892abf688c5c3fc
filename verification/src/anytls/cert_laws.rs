//! What holds of everything that is said of a certificate.
use crate::anytls::cert_analyzer;
use crate::anytls::cert_analyzer::{
    days_until, extract_cn, format_system_time, from_x509, CertFields, CertStatus, CertificateInfo,
    SanName, WallTime,
};
use crate::anytls::error::AnyTlsError;
use crate::text;
use crate::text_laws;
use crate::text_laws::{all_blank, visible};
use vstd::prelude::*;

verus! {

/// The days until a certificate ends are whole days of 86400 seconds, rounded
/// down; one that has ended less than two days ago is one day over.
pub proof fn law_whole_days(not_after: u64, now: WallTime, days: i64)
    requires
        call_ensures(days_until, (not_after, now), days),
    ensures
        now.nanos <= not_after * 1_000_000_000 ==> days >= 0 && days * 86_400_000_000_000
            <= not_after * 1_000_000_000 - now.nanos < (days + 1) * 86_400_000_000_000,
        now.nanos > not_after * 1_000_000_000 ==> days < 0,
        now.nanos - not_after * 1_000_000_000 >= 86_400_000_000_000 ==> -days * 86_400_000_000_000
            <= now.nanos - not_after * 1_000_000_000 < (-days + 1) * 86_400_000_000_000,
        0 < now.nanos - not_after * 1_000_000_000 < 86_400_000_000_000 ==> days == -1,
{
    let end = not_after * 1_000_000_000;
    let gap = if now.nanos <= end {
        end - now.nanos
    } else {
        now.nanos - end
    };
    let secs = gap / 1_000_000_000;
    let d = secs / 86400;
    assert(secs * 1_000_000_000 <= gap < (secs + 1) * 1_000_000_000);
    assert(d * 86400 <= secs < (d + 1) * 86400);
}

/// What is said of a certificate: its fields as they are, its names, the days
/// that are left, and that it is self-signed when its subject issued it.
pub proof fn law_fields_are_told(
    cert: CertFields,
    names: Vec<SanName>,
    now: WallTime,
    days: i64,
    r: Result<CertificateInfo, AnyTlsError>,
)
    requires
        cert.not_before >= 0,
        cert.not_after >= 0,
        call_ensures(from_x509, (cert, names, now), r),
        call_ensures(days_until, (cert.not_after as u64, now), days),
    ensures
        r matches Ok(info) && {
            &&& info.subject@ == cert.subject@
            &&& info.issuer@ == cert.issuer@
            &&& info.not_before == cert.not_before
            &&& info.not_after == cert.not_after
            &&& info.signature_algorithm@ == cert.signature_algorithm@
            &&& info.public_key_algorithm@ == cert.public_key_algorithm@
            &&& info.is_self_signed == cert.same_name
            &&& info.days_until_expiry == days
        },
{
}

/// A serial number is shown as it is, with a colon behind each two digits that
/// are followed by another.
pub proof fn law_serial_in_pairs(
    cert: CertFields,
    names: Vec<SanName>,
    now: WallTime,
    r: Result<CertificateInfo, AnyTlsError>,
)
    requires
        cert.not_before >= 0,
        cert.not_after >= 0,
        call_ensures(from_x509, (cert, names, now), r),
    ensures
        r matches Ok(info) && in_pairs(info.serial_number@, cert.serial@),
{
    lemma_pairs(cert.serial@);
}

/// Whether a text is another with a colon behind each two characters that are
/// followed by another.
pub open spec fn in_pairs(shown: Seq<char>, s: Seq<char>) -> bool {
    &&& shown.len() == (if s.len() == 0 {
        0
    } else {
        s.len() + (s.len() - 1) / 2
    })
    &&& forall|i: int| 0 <= i < s.len() ==> #[trigger] s[i] == shown[i + i / 2]
    &&& forall|k: int|
        0 <= k < shown.len() && k % 3 == 2 ==> #[trigger] shown[k] == ':'
}

proof fn lemma_pairs(s: Seq<char>)
    ensures
        in_pairs(cert_analyzer::colon_pairs(s), s),
    decreases s.len(),
{
    let shown = cert_analyzer::colon_pairs(s);
    if s.len() > 2 {
        let rest = s.skip(2);
        let more = cert_analyzer::colon_pairs(rest);
        lemma_pairs(rest);
        assert forall|i: int| 0 <= i < s.len() implies #[trigger] s[i] == shown[i + i / 2] by {
            if i >= 2 {
                assert(rest[i - 2] == s[i]);
                assert((i - 2) + (i - 2) / 2 == i + i / 2 - 3);
                assert(shown[i + i / 2] == more[i + i / 2 - 3]);
            }
        }
        assert forall|k: int| 0 <= k < shown.len() && k % 3 == 2 implies #[trigger] shown[k]
            == ':' by {
            if k > 2 {
                assert(shown[k] == more[k - 3]);
                assert((k - 3) % 3 == 2);
            }
        }
    }
}

/// Names that are host names are shown as they are, in their order.
pub proof fn law_host_names_are_shown(
    cert: CertFields,
    names: Vec<SanName>,
    now: WallTime,
    r: Result<CertificateInfo, AnyTlsError>,
)
    requires
        cert.not_before >= 0,
        cert.not_after >= 0,
        call_ensures(from_x509, (cert, names, now), r),
        forall|i: int| 0 <= i < names@.len() ==> (#[trigger] names@[i]) is Dns,
    ensures
        r matches Ok(info) && info.san_names@.len() == names@.len() && forall|i: int|
            0 <= i < names@.len() ==> (#[trigger] names@[i])->Dns_0@ == info.san_names@[i]@,
{
    let info = r->Ok_0;
    lemma_host_names(names@);
    let shown = cert_analyzer::shown_names(cert_analyzer::san_models(names@));
    assert(text::texts(info.san_names@) == shown);
    assert(text::texts(info.san_names@).len() == names@.len());
    assert forall|i: int| 0 <= i < names@.len() implies (#[trigger] names@[i])->Dns_0@
        == info.san_names@[i]@ by {
        assert(text::texts(info.san_names@)[i] == info.san_names@[i]@);
    }
}

proof fn lemma_host_names(names: Seq<SanName>)
    requires
        forall|i: int| 0 <= i < names.len() ==> (#[trigger] names[i]) is Dns,
    ensures
        ({
            let shown = cert_analyzer::shown_names(cert_analyzer::san_models(names));
            &&& shown.len() == names.len()
            &&& forall|i: int| 0 <= i < names.len() ==> (#[trigger] names[i])->Dns_0@ == shown[i]
        }),
    decreases names.len(),
{
    let models = cert_analyzer::san_models(names);
    if names.len() > 0 {
        let before = names.drop_last();
        assert forall|i: int| 0 <= i < before.len() implies (#[trigger] before[i]) is Dns by {
            assert(before[i] == names[i]);
        }
        lemma_host_names(before);
        assert(models.drop_last() =~= cert_analyzer::san_models(before));
        assert(names[names.len() - 1] is Dns);
        assert(models.last() == names[names.len() - 1]@);
        let shown = cert_analyzer::shown_names(models);
        assert forall|i: int| 0 <= i < names.len() implies (#[trigger] names[i])->Dns_0@
            == shown[i] by {
            if i < before.len() {
                assert(before[i] == names[i]);
            }
        }
    }
}

/// A common name is read from the first part of a name that begins with `CN=`,
/// white space around the parts aside.
pub proof fn law_common_name(
    dn: &str,
    front: Seq<char>,
    cn: Seq<char>,
    back: Seq<char>,
    rest: Seq<char>,
    out: Option<String>,
)
    requires
        call_ensures(extract_cn, (dn,), out),
        dn@ == front + "CN="@ + cn + back || dn@ == front + "CN="@ + cn + back + seq![',']
            + rest,
        all_blank(front),
        all_blank(back),
        cn.len() > 0,
        visible(cn.last()),
        !cn.contains(','),
    ensures
        out matches Some(s) && s@ == cn,
{
    reveal_strlit("CN=");
    let label = "CN="@;
    let part = front + label + cn + back;
    let kept = label + cn;
    assert(part =~= front + kept + back);
    assert(kept[0] == label[0] && kept.last() == cn.last());
    text_laws::lemma_trimmed(front, kept, back);
    assert(!part.contains(',')) by {
        if part.contains(',') {
            let i = choose|i: int| 0 <= i < part.len() && part[i] == ',';
            if i < front.len() {
                assert(part[i] == front[i]);
            } else if i < front.len() + 3 {
                assert(part[i] == label[i - front.len()]);
            } else if i < front.len() + 3 + cn.len() {
                assert(part[i] == cn[i - front.len() - 3]);
            } else {
                assert(part[i] == back[i - front.len() - 3 - cn.len()]);
            }
        }
    }
    text_laws::lemma_first_piece(part, ',', rest);
    assert(kept.take(3) =~= label);
    assert(kept.skip(3) =~= cn);
    let parts = text::split_of(dn@, ',');
    assert(parts.len() > 0);
    assert(parts[0] == part);
    assert(text::has_prefix(kept, label));
}

/// A name without an equals sign behind `CN` has no common name.
pub proof fn law_no_common_name(dn: &str, out: Option<String>)
    requires
        call_ensures(extract_cn, (dn,), out),
        !dn@.contains('='),
    ensures
        out is None,
{
    lemma_pieces_lack(dn@, ',', '=');
    lemma_no_common_name(text::split_of(dn@, ','));
}

proof fn lemma_pieces_lack(s: Seq<char>, c: char, d: char)
    requires
        !s.contains(d),
    ensures
        forall|i: int|
            0 <= i < text::split_of(s, c).len() ==> !(#[trigger] text::split_of(s, c)[i]).contains(
                d,
            ),
    decreases s.len(),
{
    text::lemma_first_of(s, c);
    let n = text::first_of(s, c);
    if 0 <= n < s.len() {
        let rest = s.skip(n + 1);
        let a = s.take(n);
        assert(!rest.contains(d)) by {
            if rest.contains(d) {
                let i = choose|i: int| 0 <= i < rest.len() && rest[i] == d;
                assert(s[i + n + 1] == d);
            }
        }
        assert(!a.contains(d)) by {
            if a.contains(d) {
                let i = choose|i: int| 0 <= i < a.len() && a[i] == d;
                assert(s[i] == d);
            }
        }
        lemma_pieces_lack(rest, c, d);
        let more = text::split_of(rest, c);
        assert forall|i: int| 0 <= i < text::split_of(s, c).len() implies !(
        #[trigger] text::split_of(s, c)[i]).contains(d) by {
            if i > 0 {
                assert(text::split_of(s, c)[i] == more[i - 1]);
            }
        }
    }
}

proof fn lemma_no_common_name(parts: Seq<Seq<char>>)
    requires
        forall|i: int| 0 <= i < parts.len() ==> !(#[trigger] parts[i]).contains('='),
    ensures
        cert_analyzer::common_name(parts) is None,
    decreases parts.len(),
{
    if parts.len() > 0 {
        let rest = parts.drop_first();
        assert forall|i: int| 0 <= i < rest.len() implies !(#[trigger] rest[i]).contains('=') by {
            assert(rest[i] == parts[i + 1]);
        }
        lemma_no_common_name(rest);
        let p = text::trim_of(parts[0]);
        lemma_trim_within(parts[0], '=');
        reveal_strlit("CN=");
        if text::has_prefix(p, "CN="@) {
            assert(p.take(3)[2] == p[2]);
            assert(p.contains(p[2]));
        }
    }
}

proof fn lemma_trim_within(s: Seq<char>, d: char)
    requires
        !s.contains(d),
    ensures
        !text::trim_of(s).contains(d),
    decreases s.len(),
{
    let m = text::trim_start_of(s);
    if s.len() > 0 && text::is_space(s[0]) {
        let t = s.drop_first();
        assert(!t.contains(d)) by {
            if t.contains(d) {
                let i = choose|i: int| 0 <= i < t.len() && t[i] == d;
                assert(s[i + 1] == d);
            }
        }
        lemma_trim_within(t, d);
    } else {
        lemma_trim_end_within(s, d);
    }
}

proof fn lemma_trim_end_within(s: Seq<char>, d: char)
    requires
        !s.contains(d),
    ensures
        !text::trim_end_of(s).contains(d),
    decreases s.len(),
{
    if s.len() > 0 && text::is_space(s.last()) {
        let t = s.drop_last();
        assert(!t.contains(d)) by {
            if t.contains(d) {
                let i = choose|i: int| 0 <= i < t.len() && t[i] == d;
                assert(s[i] == d);
            }
        }
        lemma_trim_end_within(t, d);
    }
}

/// A certificate has ended when no days are left, is soon to end when fewer are
/// left than asked about, and is valid otherwise; each of the three ways to ask
/// says the same.
pub proof fn law_status_agrees(
    info: &CertificateInfo,
    days: u64,
    status: CertStatus,
    expired: bool,
    soon: bool,
)
    requires
        call_ensures(CertificateInfo::status, (info, days), status),
        call_ensures(CertificateInfo::is_expired, (info,), expired),
        call_ensures(CertificateInfo::is_expiring_soon, (info, days), soon),
    ensures
        expired <==> status is Expired,
        soon <==> status is ExpiringWarning,
        expired <==> info.days_until_expiry < 0,
        !expired ==> (soon <==> info.days_until_expiry < days),
        status matches CertStatus::ExpiringWarning(d) ==> d == info.days_until_expiry,
{
}

/// A number with its sign, as it is written.
pub open spec fn signed(n: int) -> Seq<char> {
    if n >= 0 {
        text::decimal(n as nat)
    } else {
        seq!['-'] + text::decimal((-n) as nat)
    }
}

proof fn lemma_signed(n: int)
    ensures
        cert_analyzer::signed_decimal(n) == signed(n),
{
    reveal_strlit("-");
    if n < 0 {
        assert("-"@ =~= seq!['-']);
    }
}

/// A certificate's summary names whom it was made for, who made it and how many
/// days are left; a name without a common name is unknown.
pub proof fn law_summary(
    info: &CertificateInfo,
    subject: &str,
    issuer: &str,
    a: Option<String>,
    b: Option<String>,
    out: String,
)
    requires
        call_ensures(CertificateInfo::summary, (info,), out),
        subject@ == info.subject@,
        issuer@ == info.issuer@,
        call_ensures(extract_cn, (subject,), a),
        call_ensures(extract_cn, (issuer,), b),
    ensures
        out@ == "CN="@ + (match a {
            Some(s) => s@,
            None => "unknown"@,
        }) + ", Issuer="@ + (match b {
            Some(s) => s@,
            None => "unknown"@,
        }) + ", expires in "@ + signed(info.days_until_expiry as int) + " days"@,
{
    lemma_signed(info.days_until_expiry as int);
}

/// What is shown of a certificate, line by line; its other names stand in a
/// line of their own if it has any.
pub proof fn law_display(info: &CertificateInfo, from: String, until: String, out: String)
    requires
        info.wf(),
        call_ensures(CertificateInfo::display, (info,), out),
        call_ensures(format_system_time, (info.not_before,), from),
        call_ensures(format_system_time, (info.not_after,), until),
        info.san_names@.len() <= 1,
    ensures
        out@ == "Subject: "@ + info.subject@ + "\nIssuer: "@ + info.issuer@ + "\nSerial Number: "@
            + info.serial_number@ + "\nValid From: "@ + from@ + "\nValid Until: "@ + until@
            + "\nDays Until Expiry: "@ + signed(info.days_until_expiry as int)
            + "\nSignature Algorithm: "@ + info.signature_algorithm@ + "\nPublic Key Algorithm: "@
            + info.public_key_algorithm@ + "\nSelf-Signed: "@ + (if info.is_self_signed {
            "true"@
        } else {
            "false"@
        }) + "\n"@ + (if info.san_names@.len() == 0 {
            Seq::<char>::empty()
        } else {
            "SANs: "@ + info.san_names@[0]@ + "\n"@
        }),
{
    lemma_signed(info.days_until_expiry as int);
    let names = text::texts(info.san_names@);
    assert(names.len() == info.san_names@.len());
    if info.san_names@.len() == 1 {
        assert(names[0] == info.san_names@[0]@);
        assert(cert_analyzer::joined_texts(names, ", "@) == names[0]);
    }
}

} // verus!
