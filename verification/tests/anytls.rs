use bytes::{BufMut, BytesMut};
use meow::anytls::auth::{
    authenticate_client, authenticate_ended, authentication_with_sizes, hash_password,
    send_authentication, AuthStep,
};
use meow::anytls::cert_analyzer::{
    extract_cn, format_system_time, from_x509, CertFields, CertStatus, CertificateInfo, SanName,
    WallTime,
};
use meow::anytls::cert_reloader::{
    expiry_notice, CertReloader, CertReloaderConfig, ExpiryNotice, FileChange, ReloadGate,
};
use meow::anytls::codec::{Command, Frame, FrameCodec};
use meow::anytls::dns_cache::{
    finish_lookup, parse_dns_server, set_custom_dns_servers, start_lookup, DnsCache,
    LookupFailure, LookupStep, ResolverChoice, ServerProtocol,
};
use meow::anytls::error::{AnyTlsError, ErrorKind, IoError};
use meow::anytls::http_proxy;
use meow::anytls::padding::{PaddingFactory, CHECK_MARK, DEFAULT_PADDING_SCHEME};
use meow::anytls::server::{
    recv_end, ConnPhase, ConnStep, Connection, RecvEnd, Server, StreamHandling,
};
use meow::anytls::socket_protect::{
    clear_socket_protector, clear_tcp_dialer, dial_way, set_socket_protector, set_tcp_dialer,
    socket_protector, split_host_port, tcp_dialer, Candidates, DialWay, Hook,
};
use meow::anytls::socks5::{Next, Phase, Socks5Session};
use meow::anytls::stream::Stream;
use meow::anytls::stream_reader::{ExactStep, ReadStep, StreamReader};
use meow::anytls::string_map::StringMap;
use meow::anytls::tls::{
    create_server_config, create_server_config_from_pem, generate_key_pair,
    generate_key_pair_with_name, server_config, PrivateKey,
};
use meow::anytls::writer::{written, Admission, StreamWriter, WriteRequest};
use meow::clock::Instant;
use meow::net::{ipv4, IpAddr, SocketAddr};

fn secs(n: u128) -> Instant {
    Instant { nanos: n * 1_000_000_000 }
}

// Padding.

#[test]
fn test_default_factory() {
    let mut shared = None;
    let factory = PaddingFactory::default(&mut shared);
    assert_eq!(factory.stop(), 8);
    assert!(!factory.md5().is_empty());
}

#[test]
fn test_generate_sizes() {
    let mut shared = None;
    let factory = PaddingFactory::default(&mut shared);

    let sizes = factory.generate_record_payload_sizes(0);
    assert_eq!(sizes, vec![30]);

    let sizes = factory.generate_record_payload_sizes(1);
    assert_eq!(sizes.len(), 1);
    assert!(sizes[0] >= 100 && sizes[0] <= 400);
}

#[test]
fn test_check_mark() {
    let scheme = r#"stop=3
2=400-500,c,500-1000"#;
    let factory = PaddingFactory::new(scheme.as_bytes()).unwrap();
    let sizes = factory.generate_record_payload_sizes(2);

    assert!(sizes.len() >= 3);
    assert!(sizes[0] >= 400 && sizes[0] <= 500);
    assert_eq!(sizes[1], CHECK_MARK);
    assert!(sizes[2] >= 500 && sizes[2] <= 1000);
}

#[test]
fn test_md5_hash() {
    let mut shared = None;
    let factory1 = PaddingFactory::default(&mut shared);
    let factory2 = PaddingFactory::new(DEFAULT_PADDING_SCHEME.as_bytes()).unwrap();

    assert_eq!(factory1.md5(), factory2.md5());
}

#[test]
fn md5_of_a_scheme_is_hexadecimal() {
    let factory = PaddingFactory::new(b"stop=1").unwrap();
    assert_eq!(factory.md5(), "0f90ac628ea5d808d36a6522a492d7b6");
    assert_eq!(PaddingFactory::built_in().md5().len(), 32);
    assert_eq!(factory.raw_scheme(), b"stop=1");
}

#[test]
fn schemes_need_a_stop() {
    assert_eq!(PaddingFactory::new(b"0=30-30").unwrap_err(), "missing 'stop' in padding scheme");
    assert_eq!(PaddingFactory::new(b"stop=x").unwrap_err(), "invalid 'stop' value");
}

#[test]
fn default_scheme_is_set_and_replaced() {
    let mut shared = None;
    assert_eq!(PaddingFactory::default(&mut shared).stop(), 8);
    assert!(PaddingFactory::update_default(&mut shared, b"stop=3").is_err());
    assert_eq!(PaddingFactory::default(&mut shared).stop(), 8);
    let mut set = None;
    PaddingFactory::update_default(&mut set, b"stop=3").unwrap();
    assert_eq!(PaddingFactory::default(&mut set).stop(), 3);
    let mut empty = None;
    assert!(PaddingFactory::update_default(&mut empty, b"stop=x").is_err());
    assert!(empty.is_none());
}

// The frame codec.

#[test]
fn test_encode_decode() {
    let mut codec = FrameCodec;
    let frame = Frame { cmd: Command(2), stream_id: 123, data: b"hello world".to_vec() };

    let mut buf = BytesMut::new();
    codec.encode(frame, &mut buf);

    let decoded = codec.decode(&mut buf).unwrap();
    assert_eq!(decoded.cmd.0, 2);
    assert_eq!(decoded.stream_id, 123);
    assert_eq!(decoded.data, b"hello world");
}

#[test]
fn test_encode_decode_control_frame() {
    let mut codec = FrameCodec;
    let frame = Frame::control(Command(1), 456);

    let mut buf = BytesMut::new();
    codec.encode(frame, &mut buf);
    assert_eq!(&buf[..], &[1u8, 0, 0, 1, 200, 0, 0]);

    let decoded = codec.decode(&mut buf).unwrap();
    assert_eq!(decoded.cmd.0, 1);
    assert_eq!(decoded.stream_id, 456);
    assert!(decoded.data.is_empty());
    assert!(buf.is_empty());
}

#[test]
fn test_decode_incomplete_frame() {
    let mut codec = FrameCodec;
    let mut buf = BytesMut::from(&[1u8, 0, 0, 0, 0][..]);

    assert!(codec.decode(&mut buf).is_none());
    assert_eq!(buf.len(), 5);
}

#[test]
fn test_decode_incomplete_data() {
    let mut codec = FrameCodec;
    let mut buf = BytesMut::new();
    buf.put_u8(2);
    buf.put_u32(789);
    buf.put_u16(100);
    buf.put_u8(0);

    assert!(codec.decode(&mut buf).is_none());
    assert_eq!(buf.len(), 8);
}

#[test]
fn frames_come_out_one_by_one() {
    let mut codec = FrameCodec;
    let mut buf = BytesMut::new();
    codec.encode(Frame { cmd: Command(7), stream_id: 1, data: vec![1, 2, 3] }, &mut buf);
    assert!(codec.encode_if_fits(Frame { cmd: Command(8), stream_id: 2, data: vec![4] }, &mut buf));
    let first = codec.decode(&mut buf).unwrap();
    let second = codec.decode(&mut buf).unwrap();
    assert_eq!((first.cmd.0, first.stream_id, first.data), (7, 1, vec![1, 2, 3]));
    assert_eq!((second.cmd.0, second.stream_id, second.data), (8, 2, vec![4]));
    assert!(codec.decode(&mut buf).is_none());
}

// Streams.

#[test]
fn test_stream_write() {
    let stream = Stream::new(1);
    let (stream_id, data) = stream.start_write(b"hello").unwrap();
    assert_eq!(stream_id, 1);
    assert_eq!(data, b"hello");
    assert_eq!(Stream::finish_write(true, data.len()).unwrap(), 5);
}

fn ready(step: ReadStep) -> Vec<u8> {
    match step {
        ReadStep::Ready(d) => d,
        ReadStep::Pending => panic!("nothing to read"),
    }
}

#[test]
fn test_stream_read() {
    let mut reader = StreamReader::new(1);
    reader.deliver(b"world".to_vec());
    assert_eq!(ready(reader.read(10)), b"world");
}

#[test]
fn test_stream_read_write() {
    let stream = Stream::new(1);
    let mut reader = StreamReader::new(1);
    reader.deliver(b"input".to_vec());
    let (stream_id, data) = stream.start_write(b"output").unwrap();
    assert_eq!(ready(reader.read(10)), b"input");
    assert_eq!(stream_id, 1);
    assert_eq!(data, b"output");
}

#[test]
fn closed_streams_refuse_writes() {
    let mut stream = Stream::new(4);
    assert_eq!(stream.id(), 4);
    assert!(!stream.is_closed());
    let end = stream.close().unwrap();
    assert_eq!(end, (4, Vec::new()));
    assert!(stream.is_closed());
    assert!(stream.close().is_none());
    assert!(stream.start_write(b"x").is_err());
    assert!(Stream::finish_write(false, 1).is_err());

    let mut told = Stream::new(6);
    assert_eq!(told.send_data(b"d".to_vec()), (6, b"d".to_vec()));
    match told.notify_synack(Err(AnyTlsError::SessionClosed)) {
        Some(Err(e)) => assert_eq!(e.message(), "Protocol error: Session closed"),
        other => panic!("{other:?}"),
    }
    assert!(told.notify_synack(Ok(())).is_none());
    assert!(matches!(Stream::new(7).notify_synack(Ok(())), Some(Ok(()))));

    let mut other = Stream::new(5);
    other.close_with_error(AnyTlsError::SessionClosed);
    assert!(other.is_closed());
    assert!(other.start_write(b"x").is_err());
}

#[test]
fn test_stream_reader_basic() {
    let mut reader = StreamReader::new(1);
    reader.deliver(b"hello".to_vec());
    let got = ready(reader.read(10));
    assert_eq!(got.len(), 5);
    assert_eq!(got, b"hello");
}

#[test]
fn test_stream_reader_buffering() {
    let mut reader = StreamReader::new(1);
    reader.deliver(b"hello world".to_vec());
    assert_eq!(ready(reader.read(5)), b"hello");
    assert_eq!(ready(reader.read(5)), b" worl");
    assert_eq!(ready(reader.read(5)), b"d");
}

#[test]
fn test_stream_reader_eof() {
    let mut reader = StreamReader::new(1);
    reader.finish();
    assert_eq!(ready(reader.read(10)).len(), 0);
    assert!(reader.is_eof());
}

#[test]
fn test_stream_reader_multiple_chunks() {
    let mut reader = StreamReader::new(1);
    reader.deliver(b"chunk1".to_vec());
    reader.deliver(b"chunk2".to_vec());
    reader.deliver(b"chunk3".to_vec());
    reader.finish();

    let mut total = Vec::new();
    loop {
        let got = ready(reader.read(100));
        if got.is_empty() {
            break;
        }
        total.extend_from_slice(&got);
    }
    assert_eq!(total, b"chunk1chunk2chunk3");
}

#[test]
fn exact_reads_wait_and_fail_at_the_end() {
    let mut reader = StreamReader::new(1);
    let mut got = Vec::new();
    reader.deliver(b"ab".to_vec());
    assert!(matches!(reader.read_exact(&mut got, 3), ExactStep::Pending));
    assert_eq!(got, b"ab");
    reader.deliver(b"cd".to_vec());
    assert!(matches!(reader.read_exact(&mut got, 3), ExactStep::Done));
    assert_eq!(got, b"abc");
    assert_eq!(reader.buffer_len(), 1);
    reader.finish();
    let mut more = Vec::new();
    assert!(matches!(reader.read_exact(&mut more, 2), ExactStep::Fail(_)));
}

#[test]
fn an_empty_chunk_ends_an_exact_read() {
    let mut reader = StreamReader::new(4);
    reader.deliver(b"ab".to_vec());
    reader.deliver(Vec::new());
    reader.deliver(b"cd".to_vec());
    let mut got = Vec::new();
    match reader.read_exact(&mut got, 4) {
        ExactStep::Fail(e) => assert_eq!(
            e.message(),
            "IO error: Failed to read exact 4 bytes, only read 2"
        ),
        other => panic!("{other:?}"),
    }
    assert_eq!(got, b"ab");
    assert!(!reader.is_eof());
    assert!(matches!(reader.read_exact(&mut got, 4), ExactStep::Done));
    assert_eq!(got, b"abcd");
}

#[test]
fn writer_keeps_order_and_budget() {
    let mut writer = StreamWriter::new();
    assert!(matches!(writer.write_frame(Frame::control(Command(1), 9)), Admission::Queued));
    writer.flush().unwrap();
    writer.enqueue(Frame::control(Command(3), 9)).unwrap();
    assert!(matches!(writer.next(), Some(WriteRequest::Frame { counted: true, .. })));
    assert!(matches!(writer.next(), Some(WriteRequest::Flush)));
    assert!(matches!(writer.next(), Some(WriteRequest::Frame { counted: false, .. })));
    assert!(writer.next().is_none());
    let long = Frame { cmd: Command(2), stream_id: 1, data: vec![0; 65536] };
    assert!(matches!(writer.write_frame(long), Admission::Refused(AnyTlsError::Protocol(_))));
    writer.close();
    assert!(matches!(
        writer.write_frame(Frame::control(Command(1), 9)),
        Admission::Refused(AnyTlsError::SessionClosed)
    ));
    assert!(writer.flush().is_err());
}

#[test]
fn a_write_ends_as_the_writer_reports() {
    assert!(written(Some(Ok(()))).is_ok());
    let broken = AnyTlsError::Protocol("broken".to_string());
    assert!(matches!(written(Some(Err(broken))), Err(AnyTlsError::Protocol(what)) if what == "broken"));
    assert!(matches!(written(None), Err(AnyTlsError::SessionClosed)));
}

// Authentication.

#[test]
fn test_authentication_success() {
    let password_hash = hash_password("test_password");
    let mut shared = None;
    let padding = PaddingFactory::default(&mut shared);
    let sent = send_authentication(&password_hash, padding);
    assert_eq!(sent.len(), 32 + 2 + 30);
    match authenticate_client(&sent, &password_hash) {
        AuthStep::Done(n) => assert_eq!(n, sent.len()),
        other => panic!("not authenticated: {}", matches!(other, AuthStep::Incomplete)),
    }
}

#[test]
fn test_authentication_failure() {
    let password_hash = hash_password("test_password");
    let wrong_hash = hash_password("wrong_password");
    let mut shared = None;
    let padding = PaddingFactory::default(&mut shared);
    let sent = send_authentication(&password_hash, padding);
    assert!(matches!(
        authenticate_client(&sent, &wrong_hash),
        AuthStep::Failed(AnyTlsError::AuthenticationFailed)
    ));
}

#[test]
fn test_hash_password() {
    let hash1 = hash_password("test");
    let hash2 = hash_password("test");
    let hash3 = hash_password("different");

    assert_eq!(hash1, hash2);
    assert_ne!(hash1, hash3);
}

#[test]
fn password_hash_is_sha256() {
    assert_eq!(
        hash_password("abc"),
        [
            0xba, 0x78, 0x16, 0xbf, 0x8f, 0x01, 0xcf, 0xea, 0x41, 0x41, 0x40, 0xde, 0x5d, 0xae,
            0x22, 0x23, 0xb0, 0x03, 0x61, 0xa3, 0x96, 0x17, 0x7a, 0x9c, 0xb4, 0x10, 0xff, 0x61,
            0xf2, 0x00, 0x15, 0xad,
        ]
    );
}

#[test]
fn authentication_may_arrive_in_pieces() {
    let hash = hash_password("p");
    let sent = authentication_with_sizes(&hash, &[3]);
    assert_eq!(sent.len(), 37);
    for n in 0..sent.len() {
        assert!(matches!(authenticate_client(&sent[..n], &hash), AuthStep::Incomplete));
    }
    let mut more = sent.clone();
    more.push(9);
    assert!(matches!(authenticate_client(&more, &hash), AuthStep::Done(37)));
}

#[test]
fn a_client_that_stops_early_is_an_input_error() {
    let hash = hash_password("p");
    let sent = authentication_with_sizes(&hash, &[3]);
    for n in 0..sent.len() {
        match authenticate_ended(&sent[..n], &hash) {
            Err(AnyTlsError::Io(e)) => {
                assert_eq!(e.kind, ErrorKind::UnexpectedEof);
                assert_eq!(e.message, "early eof");
            }
            _ => panic!("the rest was missing"),
        }
    }
    assert_eq!(authenticate_ended(&sent, &hash).unwrap(), 37);
    let other = hash_password("q");
    assert!(matches!(
        authenticate_ended(&sent[..32], &other),
        Err(AnyTlsError::AuthenticationFailed)
    ));
    assert!(matches!(authenticate_ended(&sent[..31], &other), Err(AnyTlsError::Io(_))));
}

// Certificates.

fn sample_info(days: i64) -> CertificateInfo {
    CertificateInfo {
        subject: "CN=test".to_string(),
        issuer: "CN=issuer".to_string(),
        serial_number: "123".to_string(),
        not_before: 1_700_000_000,
        not_after: 1_700_000_000 + 86400 * 90,
        signature_algorithm: "SHA256".to_string(),
        public_key_algorithm: "RSA".to_string(),
        san_names: vec![],
        is_self_signed: false,
        days_until_expiry: days,
    }
}

#[test]
fn test_extract_cn() {
    assert_eq!(extract_cn("CN=example.com, O=Test").as_deref(), Some("example.com"));
    assert_eq!(extract_cn("O=Test, CN=example.com, C=US").as_deref(), Some("example.com"));
    assert_eq!(extract_cn("O=Test, C=US").as_deref(), None);
}

#[test]
fn test_extract_cn_with_spaces() {
    assert_eq!(extract_cn(" CN=example.com ").as_deref(), Some("example.com"));
    assert_eq!(extract_cn("O=Test , CN=example.com , C=US").as_deref(), Some("example.com"));
}

#[test]
fn test_cert_status() {
    assert!(matches!(sample_info(90).status(30), CertStatus::Valid));
    assert!(matches!(sample_info(20).status(30), CertStatus::ExpiringWarning(20)));
    assert!(matches!(sample_info(-1).status(30), CertStatus::Expired));
}

#[test]
fn test_is_expired() {
    assert!(!sample_info(30).is_expired());
    assert!(sample_info(-10).is_expired());
}

#[test]
fn test_is_expiring_soon() {
    let info = sample_info(20);
    assert!(info.is_expiring_soon(30));
    assert!(!info.is_expiring_soon(10));
}

#[test]
fn test_cert_summary() {
    let info = CertificateInfo {
        subject: "CN=example.com, O=Test Corp".to_string(),
        issuer: "CN=Test CA, O=Test".to_string(),
        serial_number: "123456".to_string(),
        signature_algorithm: "SHA256withRSA".to_string(),
        san_names: vec!["example.com".to_string(), "www.example.com".to_string()],
        ..sample_info(90)
    };

    let summary = info.summary();
    assert!(summary.contains("example.com"));
    assert!(summary.contains("Test CA"));
    assert!(summary.contains("90"));
}

#[test]
fn test_cert_display() {
    let info = CertificateInfo {
        subject: "CN=test.com".to_string(),
        issuer: "CN=CA".to_string(),
        serial_number: "abc123".to_string(),
        not_before: 1_000_000,
        not_after: 2_000_000,
        san_names: vec!["test.com".to_string()],
        is_self_signed: true,
        ..sample_info(100)
    };

    let display = info.display();
    assert!(display.contains("Subject: CN=test.com"));
    assert!(display.contains("Issuer: CN=CA"));
    assert!(display.contains("Serial Number: abc123"));
    assert!(display.contains("Self-Signed: true"));
    assert!(display.contains("SANs: test.com"));
    assert!(display.contains("1970-01-12 13:46:40 UTC"));
}

#[test]
fn times_are_written_in_utc() {
    assert_eq!(format_system_time(0), "1970-01-01 00:00:00 UTC");
    assert_eq!(format_system_time(1_767_322_945), "2026-01-02 03:02:25 UTC");
}

fn sample_fields(not_before: i64, not_after: i64) -> CertFields {
    CertFields {
        subject: "CN=a".to_string(),
        issuer: "CN=b".to_string(),
        serial: "0a1b2c".to_string(),
        not_before,
        not_after,
        signature_algorithm: "s".to_string(),
        public_key_algorithm: "p".to_string(),
        same_name: false,
    }
}

#[test]
fn certificate_fields_are_read() {
    let now = WallTime { nanos: 0 };
    let names = vec![
        SanName::Dns("a.test".to_string()),
        SanName::Ip(vec![192, 0, 2, 1]),
        SanName::Other,
    ];
    let info = from_x509(sample_fields(0, 86400 * 10), names, now).unwrap();
    assert_eq!(info.days_until_expiry, 10);
    assert_eq!(info.serial_number, "0a:1b:2c");
    assert_eq!(info.san_names[0], "a.test");
    assert!(info.san_names[1].contains("192"));
    let early = from_x509(sample_fields(-1, 5), vec![], now);
    assert!(matches!(early, Err(AnyTlsError::Tls(_))));
}

#[test]
fn a_certificate_expires_when_its_end_has_passed() {
    let end: i64 = 1_700_000_000;
    let at = |secs: i64| WallTime { nanos: secs as u128 * 1_000_000_000 };
    let info = |now| from_x509(sample_fields(1_600_000_000, end), vec![], now).unwrap();
    let past = info(at(end + 3600));
    assert_eq!(past.days_until_expiry, -1);
    assert!(past.is_expired());
    assert_eq!(past.status(30), CertStatus::Expired);
    assert_eq!(expiry_notice(&past, 30), ExpiryNotice::Expired);
    let last = info(at(end));
    assert_eq!(last.days_until_expiry, 0);
    assert!(!last.is_expired());
    assert_eq!(last.status(30), CertStatus::ExpiringWarning(0));
    assert!(info(WallTime { nanos: at(end).nanos + 1 }).is_expired());
    assert_eq!(info(at(end + 86400)).days_until_expiry, -1);
    assert_eq!(info(at(end + 5 * 86400)).days_until_expiry, -5);
}

#[test]
fn test_generate_key_pair() {
    let (cert, key) = generate_key_pair().unwrap();
    assert!(!cert.is_empty());
    match &key {
        PrivateKey::Pkcs8(data) => assert!(!data.is_empty()),
        PrivateKey::Pkcs1(data) => assert!(!data.is_empty()),
        PrivateKey::Sec1(data) => assert!(!data.is_empty()),
    }
}

#[test]
fn test_generate_key_pair_with_name() {
    let (cert, key) = generate_key_pair_with_name(Some("example.com")).unwrap();
    assert!(!cert.is_empty());
    match &key {
        PrivateKey::Pkcs8(data) => assert!(!data.is_empty()),
        PrivateKey::Pkcs1(data) => assert!(!data.is_empty()),
        PrivateKey::Sec1(data) => assert!(!data.is_empty()),
    }
    let name = b"example.com";
    assert!(cert.windows(name.len()).any(|w| w == name));
}

#[test]
fn test_create_server_config() {
    let config = std::sync::Arc::new(create_server_config().unwrap());
    assert!(std::sync::Arc::strong_count(&config) >= 1);
}

fn pem(label: &str, der: &[u8]) -> String {
    let alphabet: Vec<char> =
        "ABCDEFGHIJKLMNOPQRSTUVWXYZabcdefghijklmnopqrstuvwxyz0123456789+/".chars().collect();
    let mut body = String::new();
    for chunk in der.chunks(3) {
        let n = (chunk[0] as u32) << 16
            | (*chunk.get(1).unwrap_or(&0) as u32) << 8
            | *chunk.get(2).unwrap_or(&0) as u32;
        for i in 0..4 {
            if i <= chunk.len() {
                body.push(alphabet[(n >> (18 - 6 * i)) as usize & 63]);
            } else {
                body.push('=');
            }
        }
    }
    let mut out = format!("-----BEGIN {label}-----\n");
    for line in body.as_bytes().chunks(64) {
        out.push_str(std::str::from_utf8(line).unwrap());
        out.push('\n');
    }
    out.push_str(&format!("-----END {label}-----\n"));
    out
}

#[test]
fn server_config_comes_from_pem_files() {
    let (cert, key) = generate_key_pair_with_name(Some("example.com")).unwrap();
    let key = match key {
        PrivateKey::Pkcs8(k) => k,
        _ => panic!("unexpected key"),
    };
    let cert_pem = pem("CERTIFICATE", &cert);
    let key_pem = pem("PRIVATE KEY", &key);
    let info = CertificateInfo::from_pem_bytes(cert_pem.as_bytes(), WallTime { nanos: 0 }).unwrap();
    assert!(info.san_names.iter().any(|n| n == "example.com"));
    assert!(info.is_self_signed);
    create_server_config_from_pem(cert_pem.as_bytes(), "c.pem", key_pem.as_bytes(), "k.pem").unwrap();

    let none = create_server_config_from_pem(b"", "c.pem", key_pem.as_bytes(), "k.pem");
    assert_eq!(none.unwrap_err().message(), "TLS error: no certificates found in c.pem");
    let none = create_server_config_from_pem(cert_pem.as_bytes(), "c.pem", b"", "k.pem");
    assert_eq!(none.unwrap_err().message(), "TLS error: no private key found in k.pem");
    let (_, other) = generate_key_pair().unwrap();
    if let PrivateKey::Pkcs8(other) = other {
        let other_pem = pem("PRIVATE KEY", &other);
        let r = create_server_config_from_pem(
            cert_pem.as_bytes(),
            "c.pem",
            other_pem.as_bytes(),
            "k.pem",
        );
        assert!(r.unwrap_err().message().starts_with("TLS error: rustls error: "));
    }
}

fn pem_pair(name: &str) -> (String, String) {
    let (cert, key) = der_pair(name);
    (pem("CERTIFICATE", &cert), pem("PRIVATE KEY", &key))
}

fn der_pair(name: &str) -> (Vec<u8>, Vec<u8>) {
    match generate_key_pair_with_name(Some(name)).unwrap() {
        (cert, PrivateKey::Pkcs8(key)) => (cert, key),
        _ => panic!("unexpected key"),
    }
}

/// The certificates that a client sees that trusts `trusted` and asks for
/// `name`; none where it refuses them.
fn seen_by_client(
    config: &rustls::ServerConfig,
    trusted: &[u8],
    name: &str,
) -> Option<Vec<Vec<u8>>> {
    let mut roots = rustls::RootCertStore::empty();
    roots.add(trusted.to_vec().into()).unwrap();
    let provider = std::sync::Arc::new(rustls::crypto::ring::default_provider());
    let trusting = rustls::ClientConfig::builder_with_provider(provider)
        .with_safe_default_protocol_versions()
        .unwrap()
        .with_root_certificates(roots)
        .with_no_client_auth();
    let name = name.to_string().try_into().unwrap();
    let mut client = rustls::ClientConnection::new(std::sync::Arc::new(trusting), name).unwrap();
    let mut server = rustls::ServerConnection::new(std::sync::Arc::new(config.clone())).unwrap();
    while client.is_handshaking() || server.is_handshaking() {
        let mut sent = Vec::new();
        while client.wants_write() {
            client.write_tls(&mut sent).unwrap();
        }
        let mut rest = &sent[..];
        while !rest.is_empty() {
            server.read_tls(&mut rest).unwrap();
            server.process_new_packets().unwrap();
        }
        let mut sent = Vec::new();
        while server.wants_write() {
            server.write_tls(&mut sent).unwrap();
        }
        let mut rest = &sent[..];
        while !rest.is_empty() {
            client.read_tls(&mut rest).unwrap();
            if client.process_new_packets().is_err() {
                return None;
            }
        }
    }
    client.peer_certificates().map(|c| c.iter().map(|der| der.to_vec()).collect())
}

#[test]
fn made_certificates_are_served_with_their_own_key() {
    let (cert, key) = der_pair("own.example");
    let (other, other_key) = der_pair("other.example");
    let config = server_config(vec![cert.clone()], PrivateKey::Pkcs8(key)).unwrap();
    assert_eq!(seen_by_client(&config, &cert, "own.example"), Some(vec![cert.clone()]));
    assert_eq!(seen_by_client(&config, &other, "own.example"), None);
    let mixed = server_config(vec![cert], PrivateKey::Pkcs8(other_key));
    assert!(mixed.unwrap_err().message().starts_with("TLS error: rustls error: "));
}

#[test]
fn a_certificate_is_made_out_to_its_names() {
    let names = |made: &str| {
        let (cert, _) = pem_pair(made);
        CertificateInfo::from_pem_bytes(cert.as_bytes(), WallTime { nanos: 0 }).unwrap().san_names
    };
    assert_eq!(names("example.com"), vec!["example.com", "localhost"]);
    assert_eq!(names("192.0.2.7"), vec!["[192, 0, 2, 7]", "localhost"]);
}

#[test]
fn certificates_are_reloaded_from_files() {
    let wall = WallTime { nanos: 1_700_000_000_000_000_000 };
    let long_after = WallTime { nanos: 100_000_000_000_000_000_000 };
    let (first, key) = der_pair("first.example");
    let (cert, key) = (pem("CERTIFICATE", &first), pem("PRIVATE KEY", &key));
    let (cert, key) = (cert.as_bytes(), key.as_bytes());
    let load = |cert: &[u8], key: &[u8]| {
        CertReloader::load(CertReloaderConfig::default(), cert, "c.pem", key, "k.pem", wall)
    };
    let none = load(b"", key).map(|_| ()).unwrap_err();
    assert_eq!(none.message(), "TLS error: no certificates found in c.pem");
    let mut r = load(cert, key).unwrap();
    assert_eq!(r.get_cert_info().unwrap().san_names, vec!["first.example", "localhost"]);
    assert_eq!(r.get_reload_count(), 0);
    let shown = |r: &CertReloader<rustls::ServerConfig>, cert: &[u8], name: &str| {
        seen_by_client(r.get_acceptor(), cert, name)
    };
    assert_eq!(shown(&r, &first, "first.example"), Some(vec![first.clone()]));

    let (second, key) = der_pair("second.example");
    let (cert, key) = (pem("CERTIFICATE", &second), pem("PRIVATE KEY", &key));
    let (cert, key) = (cert.as_bytes(), key.as_bytes());
    let none = r.reload_from_pem(cert, "c.pem", b"", "k.pem", wall, secs(1)).unwrap_err();
    assert_eq!(none.message(), "TLS error: no private key found in k.pem");
    let late = r.reload_from_pem(cert, "c.pem", key, "k.pem", long_after, secs(2)).unwrap_err();
    assert_eq!(late.message(), "TLS error: New certificate has expired");
    assert_eq!(r.get_cert_info().unwrap().san_names, vec!["first.example", "localhost"]);
    assert_eq!((r.get_reload_count(), r.get_last_reload()), (0, None));
    assert_eq!(shown(&r, &first, "first.example"), Some(vec![first.clone()]));

    r.reload_from_pem(cert, "c.pem", key, "k.pem", wall, secs(3)).unwrap();
    assert_eq!(r.get_cert_info().unwrap().san_names, vec!["second.example", "localhost"]);
    assert_eq!((r.get_reload_count(), r.get_last_reload()), (1, Some(secs(3))));
    assert_eq!(shown(&r, &second, "second.example"), Some(vec![second.clone()]));
    assert_eq!(shown(&r, &first, "first.example"), None);
    r.config.check_expiry = false;
    r.reload_from_pem(cert, "c.pem", key, "k.pem", long_after, secs(4)).unwrap();
    assert!(r.get_cert_info().unwrap().is_expired());
    assert_eq!(r.get_reload_count(), 2);
}

#[test]
fn test_cert_reloader_config_default() {
    let config = CertReloaderConfig::default();
    assert!(config.watch_enabled);
    assert_eq!(config.debounce_ms, 500);
    assert!(config.check_expiry);
    assert_eq!(config.expiry_warning_days, 30);
}

#[test]
fn test_cert_reloader_config_custom() {
    let config = CertReloaderConfig {
        cert_path: "/custom/cert.pem".to_string(),
        key_path: "/custom/key.pem".to_string(),
        watch_enabled: false,
        debounce_ms: 1000,
        check_expiry: false,
        expiry_warning_days: 15,
    };

    assert!(!config.watch_enabled);
    assert_eq!(config.debounce_ms, 1000);
    assert!(!config.check_expiry);
    assert_eq!(config.expiry_warning_days, 15);
    assert!(ReloadGate::start(&config, secs(1)).is_none());
}

#[test]
fn reloads_refuse_expired_certificates() {
    let config = CertReloaderConfig::default();
    let mut r = CertReloader::new(config, Ok(1u8), Some(sample_info(5))).unwrap();
    assert_eq!(r.check_expiry(), Some(ExpiryNotice::Soon(5)));
    let e = r.reload(Ok(2), Ok(sample_info(-1)), secs(3)).unwrap_err();
    assert_eq!(e.message(), "TLS error: New certificate has expired");
    assert_eq!((*r.get_acceptor(), r.get_reload_count(), r.get_last_reload()), (1, 0, None));
    r.reload(Ok(2), Ok(sample_info(90)), secs(4)).unwrap();
    assert_eq!((*r.get_acceptor(), r.get_reload_count()), (2, 1));
    assert_eq!(r.get_last_reload(), Some(secs(4)));
    assert_eq!(r.check_expiry(), Some(ExpiryNotice::Far(90)));
    assert!(r.show_cert_info().starts_with("\n=== TLS Certificate Information ===\n\n"));
    let none = CertReloader::new(CertReloaderConfig::default(), Ok(1u8), None).unwrap();
    assert_eq!(none.show_cert_info(), "No certificate information available\n");
}

#[test]
fn changes_close_to_a_reload_are_ignored() {
    let config = CertReloaderConfig::default();
    let mut gate = ReloadGate::start(&config, secs(10)).unwrap();
    assert!(!gate.on_change(FileChange::Modified, Instant { nanos: 10_499_999_999 }));
    assert!(gate.on_change(FileChange::Modified, Instant { nanos: 10_500_000_000 }));
    assert!(!gate.on_change(FileChange::Other, secs(99)));
    gate.on_reloaded(false, secs(11));
    assert!(gate.on_change(FileChange::Created, secs(11)));
    gate.on_reloaded(true, secs(11));
    assert!(!gate.on_change(FileChange::Created, secs(11)));
}

// Dialing.

#[test]
fn split_host_port_forms() {
    let own = |host: &str, port| Some((host.to_string(), port));
    assert_eq!(split_host_port("example.com:443"), own("example.com", 443));
    assert_eq!(split_host_port("1.2.3.4:80"), own("1.2.3.4", 80));
    assert_eq!(split_host_port("[::1]:8443"), own("::1", 8443));
    assert_eq!(split_host_port("no-port"), None);
    assert_eq!(split_host_port(":443"), None);
    assert_eq!(split_host_port("host:notaport"), None);
}

#[test]
fn dialer_registry_roundtrip() {
    let mut hook: Hook<&str> = Hook::none();
    clear_tcp_dialer(&mut hook);
    assert!(tcp_dialer(&hook).is_none());
    set_tcp_dialer(&mut hook, "nop");
    assert!(tcp_dialer(&hook).is_some());
    clear_tcp_dialer(&mut hook);
    assert!(tcp_dialer(&hook).is_none());
}

#[test]
fn protector_set_get_clear_round_trip() {
    let mut hook: Hook<u32> = Hook::none();
    assert!(socket_protector(&hook).is_none());
    set_socket_protector(&mut hook, 1);
    assert_eq!(socket_protector(&hook), Some(&1));
    clear_socket_protector(&mut hook);
    assert!(socket_protector(&hook).is_none());
}

#[test]
fn protector_replacement_takes_effect_for_subsequent_lookups() {
    let mut hook: Hook<u32> = Hook::none();
    set_socket_protector(&mut hook, 1);
    set_socket_protector(&mut hook, 2);
    assert_eq!(hook.get(), Some(&2));
}

#[test]
fn dialers_take_addresses_with_a_host_and_a_port() {
    assert!(matches!(dial_way("h:1", false), DialWay::Direct));
    assert!(matches!(dial_way("h", true), DialWay::Direct));
    match dial_way("[::1]:9", true) {
        DialWay::Dialer { host, port } => assert_eq!((host.as_str(), port), ("::1", 9)),
        DialWay::Direct => panic!("the dialer was not asked"),
    }
}

#[test]
fn candidates_are_tried_in_turn() {
    let a = SocketAddr::new(ipv4(192, 0, 2, 1), 1);
    let b = SocketAddr::new(ipv4(192, 0, 2, 2), 1);
    let mut c = Candidates::new(vec![a, b]);
    assert_eq!(c.next(), Some(a));
    c.failed(IoError::new(ErrorKind::TimedOut, "one"));
    assert_eq!(c.next(), Some(b));
    c.failed(IoError::new(ErrorKind::TimedOut, "two"));
    assert_eq!(c.next(), None);
    assert_eq!(c.into_error("none").message, "two");
    assert_eq!(Candidates::new(vec![]).into_error("none").message, "none");
}

// The string map.

#[test]
fn test_string_map_basic() {
    let mut map = StringMap::new();
    map.insert("key1", "value1");
    map.insert("key2", "value2");

    assert_eq!(map.get("key1"), Some(&"value1".to_string()));
    assert_eq!(map.get("key2"), Some(&"value2".to_string()));
    assert_eq!(map.len(), 2);
}

#[test]
fn test_string_map_serialization() {
    let mut map = StringMap::new();
    map.insert("v", "2");
    map.insert("client", "anytls-rs/0.1.0");

    let bytes = map.to_bytes();
    let restored = StringMap::from_bytes(&bytes);

    assert_eq!(restored.get("v"), Some(&"2".to_string()));
    assert_eq!(restored.get("client"), Some(&"anytls-rs/0.1.0".to_string()));
}

#[test]
fn later_values_replace_earlier_ones() {
    let mut map = StringMap::with_capacity(2);
    assert!(map.is_empty());
    map.insert("k", "1");
    map.insert("k", "2");
    assert_eq!(map.len(), 1);
    assert!(map.contains_key("k"));
    let copy = map.copy();
    assert_eq!(copy.get("k").map(String::as_str), Some("2"));
    assert_eq!(map.into_vec(), vec![("k".to_string(), "2".to_string())]);
    let read = StringMap::from_bytes(b" a = b \nnothing\nc=d=e\r\n\xff=1\n");
    assert_eq!(read.get("a").map(String::as_str), Some("b"));
    assert_eq!(read.get("c").map(String::as_str), Some("d=e"));
    assert_eq!(read.get("\u{fffd}").map(String::as_str), Some("1"));
    assert_eq!(read.len(), 3);
}

// Lookups.

#[test]
fn literals_need_no_lookup() {
    let mut cache = DnsCache::new();
    match start_lookup(&mut cache, "192.0.2.7", 80, secs(0)) {
        LookupStep::Ready(a) => assert_eq!(a, SocketAddr::new(ipv4(192, 0, 2, 7), 80)),
        LookupStep::Ask => panic!("a literal was looked up"),
    }
}

#[test]
fn found_addresses_take_turns_until_they_expire() {
    let mut cache = DnsCache::new();
    let a = SocketAddr::new(ipv4(192, 0, 2, 1), 80);
    let b = SocketAddr::new(ipv4(192, 0, 2, 2), 80);
    assert!(matches!(start_lookup(&mut cache, "h", 80, secs(0)), LookupStep::Ask));
    assert_eq!(finish_lookup(&mut cache, "h", Ok(vec![b, a]), secs(0)).unwrap(), a);
    assert!(matches!(start_lookup(&mut cache, "h", 80, secs(1)), LookupStep::Ready(x) if x == b));
    assert!(matches!(start_lookup(&mut cache, "h", 80, secs(2)), LookupStep::Ready(x) if x == a));
    assert!(matches!(start_lookup(&mut cache, "h", 80, secs(100_000)), LookupStep::Ask));
    let e = finish_lookup(&mut cache, "x", Ok(vec![]), secs(0)).unwrap_err();
    assert_eq!(e.message(), "Protocol error: No address found for x");
    let e = finish_lookup(&mut cache, "x", Err(LookupFailure::Timeout), secs(0)).unwrap_err();
    assert_eq!(e.message(), "Protocol error: DNS resolution timeout (10s) for x");
    let failed = Err(LookupFailure::Failed("no".to_string()));
    let e = finish_lookup(&mut cache, "x", failed, secs(0)).unwrap_err();
    assert_eq!(e.message(), "IO error: DNS resolution failed for x: no");
}

#[test]
fn dns_servers_are_read() {
    let at = |port| SocketAddr::new(ipv4(192, 0, 2, 1), port);
    assert_eq!(parse_dns_server(" 192.0.2.1 ").unwrap(), at(53));
    assert_eq!(parse_dns_server("192.0.2.1:5353").unwrap(), at(5353));
    assert_eq!(parse_dns_server("[::1]").unwrap().port, 53);
    let scoped = parse_dns_server("[fe80::1%7]:5353").unwrap();
    assert_eq!((scoped.port, scoped.scope_id), (5353, 7));
    assert_eq!(scoped.ip, IpAddr::V6(0xfe80_0000_0000_0000_0000_0000_0000_0001));
    assert_eq!(parse_dns_server("  ").unwrap_err().message, "DNS server address is empty");
    assert_eq!(parse_dns_server("x y").unwrap_err().message, "invalid DNS server 'x y'");

    let mut cache = DnsCache::new();
    finish_lookup(&mut cache, "h", Ok(vec![at(1)]), secs(0)).unwrap();
    let bad = set_custom_dns_servers(&mut cache, &vec!["x".to_string()]);
    assert_eq!(
        bad.unwrap_err().message(),
        "Configuration error: Invalid DNS server 'x': invalid DNS server 'x'"
    );
    assert!(cache.get("h", secs(1)).is_some());
    match set_custom_dns_servers(&mut cache, &vec!["192.0.2.1".to_string()]).unwrap() {
        ResolverChoice::Custom(list) => {
            assert_eq!(
                list,
                vec![(at(53), ServerProtocol::Udp), (at(53), ServerProtocol::Tcp)]
            );
        }
        ResolverChoice::System => panic!("the servers were ignored"),
    }
    assert!(cache.get("h", secs(1)).is_none());
    assert!(matches!(set_custom_dns_servers(&mut cache, &vec![]).unwrap(), ResolverChoice::System));
}

// SOCKS5.

#[test]
fn socks5_connects_and_relays() {
    let mut s = Socks5Session::new();
    let step = s.on_data(&[5, 1]);
    assert!(step.send.is_empty() && matches!(step.next, Next::Read));
    let step = s.on_data(&[0, 5, 1, 0, 3, 4, b'h', b'o', b's', b't', 0, 80, 9, 9]);
    assert_eq!(step.send, vec![5, 0]);
    match step.next {
        Next::Connect(dest) => assert_eq!((dest.addr.as_str(), dest.port), ("host", 80)),
        _ => panic!("no connection is asked for"),
    }
    assert_eq!(s.phase, Phase::Connecting);
    let step = s.on_stream(Ok(()));
    assert_eq!(step.send, vec![5, 0, 0, 1, 0, 0, 0, 0, 0, 0]);
    assert!(matches!(step.next, Next::Relay(first) if first == vec![9, 9]));
}

#[test]
fn socks5_reads_addresses() {
    let mut s = Socks5Session { phase: Phase::Request, pending: vec![] };
    match s.on_data(&[5, 1, 0, 1, 192, 0, 2, 1, 1, 187]).next {
        Next::Connect(dest) => assert_eq!((dest.addr.as_str(), dest.port), ("192.0.2.1", 443)),
        _ => panic!("no connection is asked for"),
    }
    let mut s = Socks5Session { phase: Phase::Request, pending: vec![] };
    let mut request = vec![5, 1, 0, 4];
    request.extend_from_slice(&[0; 15]);
    request.extend_from_slice(&[1, 0, 53]);
    match s.on_data(&request).next {
        Next::Connect(dest) => {
            assert!(dest.addr.contains("::1"));
            assert_eq!(dest.port, 53);
        }
        _ => panic!("no connection is asked for"),
    }
}

#[test]
fn socks5_refuses_what_it_does_not_speak() {
    let fails = |phase, data: &[u8]| {
        let mut s = Socks5Session { phase, pending: vec![] };
        let step = s.on_data(data);
        match step.next {
            Next::Fail(e) => (step.send, e.message()),
            _ => panic!("accepted"),
        }
    };
    let greeting = |data| fails(Phase::Greeting, data);
    assert_eq!(greeting(&[4, 1]).1, "Protocol error: Unsupported SOCKS version: 4");
    assert_eq!(greeting(&[5, 0]).1, "Protocol error: No authentication methods provided");
    let (sent, why) = greeting(&[5, 1, 2]);
    assert_eq!(sent, vec![5, 255]);
    assert_eq!(why, "Protocol error: Client does not support NO AUTHENTICATION");
    assert!(fails(Phase::Request, &[4, 1, 0, 1]).1.starts_with("Protocol error"));
    assert!(fails(Phase::Request, &[5, 1, 0, 9]).1.starts_with("Protocol error"));
    assert!(fails(Phase::Request, &[5, 1, 0, 3, 0]).1.starts_with("Protocol error"));
    assert!(fails(Phase::Request, &[5, 1, 0, 3, 1, 0xff, 0, 80]).1.starts_with("Protocol error"));
    let mut s = Socks5Session::new();
    assert!(matches!(s.on_eof().next, Next::Fail(AnyTlsError::Io(_))));
    assert_eq!(s.phase, Phase::Closed);
}

// The HTTP proxy.

#[test]
fn http_requests_are_forwarded() {
    let head = "GET http://example.com:8080/a?b HTTP/1.1\r\nHost: example.com\r\nProxy-Connection: x\r\n\r\n";
    let req = http_proxy::read_request(head.as_bytes(), b"body".to_vec()).unwrap();
    assert_eq!((req.host.as_str(), req.port, req.path.as_str()), ("example.com", 8080, "/a?b"));
    assert!(!req.is_connect);
    let sent = String::from_utf8(http_proxy::build_forward_request(&req)).unwrap();
    assert_eq!(
        sent,
        "GET /a?b HTTP/1.1\r\nHost: example.com:8080\r\nProxy-Connection: x\r\n\r\n"
    );
    match http_proxy::on_stream(&req, Ok(())) {
        http_proxy::StreamStep::Relay { to_client, to_proxy } => {
            assert!(to_client.is_empty());
            assert_eq!(to_proxy.len(), 2);
            assert_eq!(to_proxy[1], b"body");
        }
        http_proxy::StreamStep::Fail { .. } => panic!("not relayed"),
    }
}

#[test]
fn http_connects_are_answered() {
    let head = b"CONNECT [::1]:8443 HTTP/1.1\r\n\r\n";
    let req = http_proxy::read_request(head, vec![]).unwrap();
    assert_eq!((req.host.as_str(), req.port, req.is_connect), ("::1", 8443, true));
    match http_proxy::on_stream(&req, Ok(())) {
        http_proxy::StreamStep::Relay { to_client, .. } => {
            assert_eq!(to_client, b"HTTP/1.1 200 Connection Established\r\n\r\n");
        }
        http_proxy::StreamStep::Fail { .. } => panic!("not relayed"),
    }
    match http_proxy::on_stream(&req, Err(AnyTlsError::SessionClosed)) {
        http_proxy::StreamStep::Fail { to_client, .. } => assert_eq!(
            to_client,
            b"HTTP/1.1 502 Bad Gateway\r\nContent-Length: 0\r\nConnection: close\r\n\r\n"
        ),
        http_proxy::StreamStep::Relay { .. } => panic!("relayed"),
    }
}

#[test]
fn http_errors_are_told() {
    let why = |head: &[u8]| http_proxy::read_request(head, vec![]).unwrap_err().message();
    assert_eq!(why(b"GET\r\n\r\n"), "Protocol error: Invalid HTTP request line");
    assert_eq!(why(b"GET / HTTP/1.1\r\n\r\n"), "Protocol error: Host header missing for HTTP request");
    assert!(why(b"\xff\r\n\r\n").starts_with("Protocol error"));
    let mut reader = http_proxy::HeaderReader::new();
    assert!(matches!(reader.on_data(b"GET / HTTP/1.1\r\n"), http_proxy::HeaderStep::More));
    match reader.on_data(b"\r\nrest") {
        http_proxy::HeaderStep::Done { header, remaining } => {
            assert_eq!(header, b"GET / HTTP/1.1\r\n\r\n");
            assert_eq!(remaining, b"rest");
        }
        _ => panic!("the head is complete"),
    }
    let mut reader = http_proxy::HeaderReader::new();
    assert!(matches!(reader.on_data(b""), http_proxy::HeaderStep::Fail(_)));
    let mut reader = http_proxy::HeaderReader::new();
    assert!(matches!(reader.on_data(&[b'x'; 70_000]), http_proxy::HeaderStep::Fail(_)));
    assert_eq!(http_proxy::find_header_end(b"a\r\n\r\nb"), Some(5));
    assert_eq!(http_proxy::find_header_end(b"a\r\n\r"), None);
}

// The server.

#[test]
fn nothing_is_served_before_the_password() {
    let server = Server::new("secret", None);
    let mut c = Connection::new();
    assert!(matches!(c.on_handshake(Ok(())), ConnStep::Read));
    let mut sent = authentication_with_sizes(&hash_password("secret"), &[2]);
    sent.extend_from_slice(b"frame");
    assert!(matches!(c.on_data(&server, &sent[..20]), ConnStep::Read));
    match c.on_data(&server, &sent[20..]) {
        ConnStep::Serve { handling, received } => {
            assert_eq!(handling, StreamHandling::TcpProxy);
            assert_eq!(received, b"frame");
        }
        _ => panic!("not served"),
    }
    assert_eq!(c.phase, ConnPhase::Serving);

    let custom = Server::new("other", None).with_stream_handler();
    let mut c = Connection::new();
    c.on_handshake(Ok(()));
    assert!(matches!(
        c.on_data(&custom, &sent),
        ConnStep::Fail(AnyTlsError::AuthenticationFailed)
    ));
    assert_eq!(c.phase, ConnPhase::Closed);

    let mut c = Connection::new();
    c.on_handshake(Ok(()));
    assert!(matches!(c.on_data(&server, &sent[..35]), ConnStep::Read));
    match c.on_eof() {
        ConnStep::Fail(AnyTlsError::Io(e)) => assert_eq!(e.kind, ErrorKind::UnexpectedEof),
        _ => panic!("the client stopped early"),
    }
    assert_eq!(c.phase, ConnPhase::Closed);

    let mut c = Connection::new();
    match c.on_handshake(Err("bad record".to_string())) {
        ConnStep::Fail(e) => {
            assert_eq!(e.message(), "TLS error: TLS handshake failed: bad record");
        }
        _ => panic!("the handshake failed"),
    }
}

#[test]
fn receive_loops_end_for_reasons() {
    let io = |kind, what| Err(AnyTlsError::Io(IoError::new(kind, what)));
    assert_eq!(recv_end(&Ok(())), RecvEnd::Normal);
    assert_eq!(recv_end(&io(ErrorKind::Other, "peer sent no close_notify")), RecvEnd::PeerClosed);
    assert_eq!(recv_end(&io(ErrorKind::Other, "unexpected EOF here")), RecvEnd::PeerClosed);
    assert_eq!(recv_end(&io(ErrorKind::UnexpectedEof, "")), RecvEnd::PeerClosed);
    assert_eq!(recv_end(&io(ErrorKind::Other, "reset")), RecvEnd::Error);
    assert_eq!(recv_end(&Err(AnyTlsError::SessionClosed)), RecvEnd::SessionClosed);
    assert_eq!(recv_end(&Err(AnyTlsError::AuthenticationFailed)), RecvEnd::Error);
}
