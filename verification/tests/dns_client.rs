use hickory_proto::op::{Message, MessageType as WireType, OpCode, Query};
use hickory_proto::rr::rdata::{A, AAAA, CNAME, SOA};
use hickory_proto::rr::{RData, Record as WireRecord, RecordType};
use meow::clock::{Duration, Instant};
use meow::dns::answers::{canonical_name, relevant_ip_answers, same_name};
use meow::dns::client::{
    classify_family_message, decode_validated_response, doh_request, doh_response,
    dual_stack_result, family_lookup_result, ipv4_only_result, judge_datagram, local_bind_ip,
    negative_ttl, plan_lookup_set, pooled_budget, read_bounded_http_response, read_lp,
    single_family_set, take_fresh, validate_response, write_lp, ClientError, DatagramStep,
    DnsClient, ExpectedResponse, FamilyAnswer, FamilyLookupResult, QueryStep, Route, TcpOutcome,
    TcpPool, MAX_DOH_RESPONSE_BYTES,
};
use meow::dns::families::QueryFamilies;
use meow::dns::message::{
    decode_message, Authority, DnsMessage, DnsName, MessageType, Question, Record, RecordData,
    ResponseCode,
};
use meow::net::{ipv4, IpAddr, SocketAddr};
use meow::octets::find_subseq;

const TYPE_A: u16 = 1;
const TYPE_AAAA: u16 = 28;

fn name(s: &str) -> DnsName {
    DnsName { labels: s.trim_end_matches('.').split('.').map(|l| l.as_bytes().to_vec()).collect() }
}

fn question(s: &str, query_type: u16) -> Question {
    Question { name: name(s), query_type, query_class: 1 }
}

fn expected(s: &str, query_type: u16, id: u16) -> ExpectedResponse {
    ExpectedResponse { id, query: question(s, query_type) }
}

fn message(id: u16) -> DnsMessage {
    DnsMessage {
        id,
        message_type: MessageType::Response,
        op_code: 0,
        truncation: false,
        recursion_desired: false,
        recursion_available: false,
        response_code: ResponseCode::Number(0),
        queries: vec![],
        answers: vec![],
        authorities: vec![],
    }
}

fn a_record(s: &str, ttl: u32, octets: [u8; 4]) -> Record {
    Record { name: name(s), dns_class: 1, ttl, data: RecordData::A(u32::from_be_bytes(octets)) }
}

fn cname_record(s: &str, ttl: u32, target: &str) -> Record {
    Record { name: name(s), dns_class: 1, ttl, data: RecordData::Cname(name(target)) }
}

fn soa_record(ttl: u32, minimum: u32) -> Authority {
    Authority { ttl, soa_minimum: Some(minimum) }
}

fn victim() -> DnsMessage {
    let mut m = message(7);
    m.queries.push(question("victim.example", TYPE_A));
    m
}

fn secs(n: u64) -> Duration {
    Duration::from_secs(n)
}

fn at(n: u128) -> Instant {
    Instant { nanos: n * 1_000_000_000 }
}

#[test]
fn find_subseq_basic() {
    assert_eq!(find_subseq(b"abc\r\n\r\nbody", b"\r\n\r\n"), Some(3));
    assert_eq!(find_subseq(b"abcdef", b"\r\n\r\n"), None);
    assert_eq!(find_subseq(b"", b"x"), None);
}

#[test]
fn doh_bounded_read_enforces_response_size_cap() {
    let mut got = Vec::new();
    read_bounded_http_response(&mut got, &vec![0u8; MAX_DOH_RESPONSE_BYTES]).unwrap();
    assert_eq!(got.len(), MAX_DOH_RESPONSE_BYTES);

    let mut got = Vec::new();
    let over_cap = vec![0u8; MAX_DOH_RESPONSE_BYTES + 1];
    let err = read_bounded_http_response(&mut got, &over_cap).unwrap_err();
    assert!(
        matches!(err, ClientError::Protocol("doh: response exceeds maximum size")),
        "expected oversized-rejection, got {err:?}"
    );
}

#[test]
fn rcode_client_returns_noerror_empty_without_network() {
    let client = DnsClient::rcode(ResponseCode::Number(0));
    match client.start_query("example.test", TYPE_A).unwrap() {
        QueryStep::Answered(resp) => {
            assert_eq!(resp.response_code, ResponseCode::Number(0));
            assert!(resp.answers.is_empty());
            assert_eq!(resp.queries.len(), 1);
        }
        QueryStep::Send { .. } => panic!("a query was sent"),
    }
}

#[test]
fn response_validation_rejects_mismatched_metadata_and_question() {
    let expected = expected("victim.example", TYPE_A, 0x1234);
    let mut response = message(0x1234);
    response.queries.push(question("victim.example", TYPE_A));
    assert!(validate_response(&response, &expected).is_ok());

    response.id = 0x4321;
    assert!(matches!(
        validate_response(&response, &expected),
        Err(ClientError::Protocol("response ID mismatch"))
    ));
    response.id = expected.id;

    response.message_type = MessageType::Query;
    assert!(matches!(
        validate_response(&response, &expected),
        Err(ClientError::Protocol("received DNS query as response"))
    ));
    response.message_type = MessageType::Response;

    response.op_code = 2;
    assert!(matches!(
        validate_response(&response, &expected),
        Err(ClientError::Protocol("response opcode mismatch"))
    ));
    response.op_code = 0;

    response.queries[0].name = name("other.example");
    assert!(matches!(
        validate_response(&response, &expected),
        Err(ClientError::Protocol("response question name mismatch"))
    ));
    response.queries[0].name = name("victim.example");

    response.queries[0].query_type = TYPE_AAAA;
    assert!(matches!(
        validate_response(&response, &expected),
        Err(ClientError::Protocol("response question type mismatch"))
    ));
    response.queries[0].query_type = TYPE_A;

    response.queries[0].query_class = 3;
    assert!(matches!(
        validate_response(&response, &expected),
        Err(ClientError::Protocol("response question class mismatch"))
    ));
}

#[test]
fn address_answers_are_limited_to_the_valid_cname_chain() {
    let mut message = victim();
    message.answers.push(a_record("target.example", 300, [192, 0, 2, 10]));
    message.answers.push(cname_record("alias.example", 120, "target.example"));
    message.answers.push(a_record("unrelated.example", 1, [6, 6, 6, 6]));
    message.answers.push(cname_record("victim.example", 60, "alias.example"));

    let (addrs, ttl) = relevant_ip_answers(&message);
    assert_eq!(addrs, vec![ipv4(192, 0, 2, 10)]);
    assert_eq!(ttl, Some(60));
}

#[test]
fn unrelated_address_answer_is_not_returned() {
    let mut message = victim();
    message.answers.push(a_record("unrelated.example", 30, [6, 6, 6, 6]));

    assert_eq!(relevant_ip_answers(&message), (Vec::new(), None));
}

#[test]
fn long_alias_chains_are_followed_in_any_order() {
    let mut message = victim();
    message.answers.push(a_record("a999.example", 300, [192, 0, 2, 10]));
    for n in (1..1000).rev() {
        let from = format!("a{}.example", n - 1);
        message.answers.push(cname_record(&from, 100 + n, &format!("A{n}.example")));
    }
    message.answers.push(cname_record("victim.example", 400, "a0.example"));

    assert_eq!(relevant_ip_answers(&message), (vec![ipv4(192, 0, 2, 10)], Some(101)));
}

#[test]
fn cname_loop_is_rejected() {
    let mut message = victim();
    message.answers.push(cname_record("victim.example", 60, "alias.example"));
    message.answers.push(cname_record("alias.example", 30, "victim.example"));
    message.answers.push(a_record("alias.example", 300, [192, 0, 2, 10]));

    assert_eq!(relevant_ip_answers(&message), (Vec::new(), None));
}

#[test]
fn conflicting_cname_targets_are_rejected() {
    let mut message = victim();
    message.answers.push(cname_record("victim.example", 60, "first.example"));
    message.answers.push(cname_record("victim.example", 30, "second.example"));
    message.answers.push(a_record("first.example", 300, [192, 0, 2, 10]));
    message.answers.push(a_record("second.example", 300, [192, 0, 2, 11]));

    assert_eq!(relevant_ip_answers(&message), (Vec::new(), None));
}

#[test]
fn names_compare_without_case() {
    assert!(same_name(&name("A.Example"), &name("a.eXAMPLE")));
    assert!(!same_name(&name("a.example"), &name("b.example")));
    assert_eq!(canonical_name(&name("AB.C")).labels, vec![b"ab".to_vec(), b"c".to_vec()]);
}

#[test]
fn encrypted_upstream_labels_include_scheme() {
    let dot = DnsClient::dot(SocketAddr::new(ipv4(8, 8, 8, 8), 853), "dns.google");
    assert_eq!(dot.upstream_label(), "tls://dns.google");

    let doh = DnsClient::doh(
        SocketAddr::new(ipv4(1, 1, 1, 1), 443),
        "cloudflare-dns.com",
        "/dns-query",
    );
    assert_eq!(doh.upstream_label(), "https://cloudflare-dns.com");
}

#[test]
fn labels_show_the_scope_beside_an_unusual_port() {
    let at = |port| SocketAddr { ip: IpAddr::V6(0xfe80 << 112 | 1), port, scope_id: 3 };
    assert_eq!(DnsClient::udp(at(5353)).upstream_label(), "[fe80::1%3]:5353");
    assert_eq!(DnsClient::udp(at(53)).upstream_label(), "fe80::1");
}

#[test]
fn fixed_codes_are_labelled_by_name() {
    let label = |code| DnsClient::rcode(code).upstream_label();
    assert_eq!(label(ResponseCode::Number(3)), "rcode:NXDomain");
    assert_eq!(label(ResponseCode::Number(16)), "rcode:BADSIG");
    assert_eq!(label(ResponseCode::BadVers), "rcode:BADVERS");
}

#[test]
fn explicit_upstream_label_overrides_default_label() {
    let client = DnsClient::udp(SocketAddr::new(ipv4(8, 8, 8, 8), 53))
        .with_upstream_label("tls://dns.google:853".to_string());
    assert_eq!(client.upstream_label(), "tls://dns.google:853");
}

#[test]
fn take_fresh_reaps_expired_and_returns_the_freshest() {
    let now = at(1000);
    let mut idle = vec![(1u32, at(910)), (2u32, at(955)), (3u32, at(995))];
    assert_eq!(
        take_fresh(&mut idle, now, secs(30)),
        Some(3),
        "the most recently returned stream must be reused first"
    );
    assert!(
        idle.is_empty(),
        "both streams idle past the timeout must have been closed, not left pooled"
    );
}

#[test]
fn take_fresh_returns_none_when_every_stream_is_stale() {
    let mut idle = vec![(1u32, at(969)), (2u32, at(940))];
    assert_eq!(
        take_fresh(&mut idle, at(1000), secs(30)),
        None,
        "an all-stale pool must force a fresh connect"
    );
    assert!(idle.is_empty());
}

#[test]
fn take_fresh_keeps_streams_inside_the_window() {
    let mut idle = vec![(1u32, at(971)), (2u32, at(999))];
    assert_eq!(take_fresh(&mut idle, at(1000), secs(30)), Some(2));
    assert_eq!(idle.len(), 1, "a stream still inside the idle window must stay pooled");
}

#[test]
fn negative_ttl_uses_min_of_soa_ttl_and_minimum() {
    let mut msg = message(1);
    msg.authorities.push(soa_record(600, 300));
    assert_eq!(negative_ttl(&msg), secs(300));
}

#[test]
fn negative_ttl_picks_the_soa_record_ttl_when_smaller_than_minimum() {
    let mut msg = message(1);
    msg.authorities.push(soa_record(120, 3600));
    assert_eq!(negative_ttl(&msg), secs(120));
}

#[test]
fn negative_ttl_is_zero_when_no_soa_in_authority() {
    assert_eq!(negative_ttl(&message(1)), Duration::zero());
}

fn classified(code: u16, answers: Vec<Record>, authorities: Vec<Authority>) -> DnsMessage {
    let mut msg = message(1);
    msg.response_code = ResponseCode::Number(code);
    msg.queries.push(question("a.example", TYPE_A));
    msg.answers = answers;
    msg.authorities = authorities;
    msg
}

#[test]
fn classify_family_message_branches() {
    let msg = classified(0, vec![a_record("a.example", 60, [1, 2, 3, 4])], vec![]);
    assert!(matches!(
        classify_family_message(&msg),
        FamilyAnswer::Answer { ips, ttl } if ips == vec![ipv4(1, 2, 3, 4)] && ttl == secs(60)
    ));

    let msg = classified(0, vec![], vec![soa_record(600, 300)]);
    assert!(matches!(classify_family_message(&msg), FamilyAnswer::NoData(t) if t == secs(300)));

    let msg = classified(3, vec![], vec![soa_record(600, 300)]);
    assert!(matches!(classify_family_message(&msg), FamilyAnswer::NxDomain(t) if t == secs(300)));

    let msg = classified(2, vec![], vec![]);
    assert!(matches!(classify_family_message(&msg), FamilyAnswer::Failed));
}

#[test]
fn lookups_of_families_are_combined() {
    let answer = || classified(0, vec![a_record("a.example", 60, [1, 2, 3, 4])], vec![]);
    let gone = || classified(3, vec![], vec![soa_record(600, 300)]);
    let failed = || classified(2, vec![], vec![]);
    assert_eq!(ipv4_only_result(&answer()).unwrap().ips, vec![ipv4(1, 2, 3, 4)]);
    assert!(ipv4_only_result(&failed()).is_err());
    assert!(matches!(
        family_lookup_result(&gone()),
        Ok(FamilyLookupResult::NxDomain(t)) if t == secs(300)
    ));
    assert!(matches!(family_lookup_result(&failed()), Err(ClientError::Rcode(ResponseCode::Number(2)))));
    let both = dual_stack_result(Some(answer()), None).unwrap();
    assert_eq!(both.ips, vec![ipv4(1, 2, 3, 4)]);
    assert!(dual_stack_result(None, None).is_err());
    assert_eq!(plan_lookup_set(QueryFamilies::IPV6).unwrap(), Some(TYPE_AAAA));
    assert_eq!(plan_lookup_set(QueryFamilies::BOTH).unwrap(), None);
    assert!(plan_lookup_set(QueryFamilies::NONE).is_err());
    let set = single_family_set(
        QueryFamilies::IPV4,
        family_lookup_result(&gone()),
        "udp".to_string(),
    );
    assert!(matches!(set.v4, Some(FamilyAnswer::NxDomain(_))));
    assert!(set.v6.is_none());
}

// Messages on the wire, encoded by the codec itself.

fn wire_response(id: u16, host: &str) -> Message {
    let mut m = Message::new(id, WireType::Response, OpCode::Query);
    m.add_query(Query::query(host.parse().unwrap(), RecordType::A));
    m
}

#[test]
fn messages_are_decoded() {
    let mut m = wire_response(9, "a.example.");
    m.metadata.truncation = true;
    m.add_answer(WireRecord::from_rdata(
        "a.example.".parse().unwrap(),
        60,
        RData::A(A::new(1, 2, 3, 4)),
    ));
    m.add_answer(WireRecord::from_rdata(
        "a.example.".parse().unwrap(),
        61,
        RData::AAAA(AAAA::new(0, 0, 0, 0, 0, 0, 0, 1)),
    ));
    m.add_answer(WireRecord::from_rdata(
        "b.example.".parse().unwrap(),
        62,
        RData::CNAME(CNAME("a.example.".parse().unwrap())),
    ));
    m.add_authority(WireRecord::from_rdata(
        "example.".parse().unwrap(),
        600,
        RData::SOA(SOA::new(
            "ns.example.".parse().unwrap(),
            "hostmaster.example.".parse().unwrap(),
            1,
            3600,
            900,
            1209600,
            300,
        )),
    ));
    let d = decode_message(&m.to_vec().unwrap()).unwrap();
    assert_eq!((d.id, d.truncation, d.op_code, d.response_code), (9, true, 0, ResponseCode::Number(0)));
    assert!(d.message_type == MessageType::Response);
    assert_eq!(d.queries[0].name.labels, name("a.example").labels);
    assert_eq!((d.queries[0].query_type, d.queries[0].query_class), (TYPE_A, 1));
    assert!(matches!(d.answers[0].data, RecordData::A(0x0102_0304)));
    assert!(matches!(d.answers[1].data, RecordData::Aaaa(1)));
    assert!(matches!(&d.answers[2].data, RecordData::Cname(n) if n.labels.len() == 2));
    assert_eq!(d.answers[2].ttl, 62);
    assert_eq!(d.authorities, vec![Authority { ttl: 600, soa_minimum: Some(300) }]);
    assert!(!decode_message(b"not dns").unwrap_err().is_empty());
}

#[test]
fn queries_are_encoded() {
    let client = DnsClient::udp(SocketAddr::new(ipv4(8, 8, 8, 8), 53));
    match client.query_with_id(0xabcd, "www.example.com", TYPE_AAAA).unwrap() {
        QueryStep::Send { wire, expected, route } => {
            let sent = Message::from_vec(&wire).unwrap();
            assert_eq!(sent.metadata.id, 0xabcd);
            assert!(sent.metadata.recursion_desired);
            assert_eq!(sent.queries[0].query_type(), RecordType::AAAA);
            assert_eq!(sent.queries[0].name().to_string().trim_end_matches('.'), "www.example.com");
            assert_eq!(expected.id, 0xabcd);
            assert!(matches!(route, Route::Udp { .. }));
        }
        QueryStep::Answered(_) => panic!("nothing was sent"),
    }
    let long = "a".repeat(70);
    assert!(matches!(
        client.start_query(&long, TYPE_A),
        Err(ClientError::Protocol("invalid query name"))
    ));
}

#[test]
fn udp_ignores_wrong_id_before_valid_response() {
    let e = expected("victim.example", TYPE_A, 5);
    let wrong = wire_response(6, "victim.example.").to_vec().unwrap();
    assert!(matches!(judge_datagram(&wrong, &e), DatagramStep::Ignore));
    let valid = wire_response(5, "victim.example.").to_vec().unwrap();
    match judge_datagram(&valid, &e) {
        DatagramStep::Done(m) => assert_eq!(m.queries[0].query_type, TYPE_A),
        _ => panic!("the valid response must win"),
    }
}

#[test]
fn wrong_id_truncated_udp_response_does_not_trigger_tcp_fallback() {
    let e = expected("victim.example", TYPE_A, 5);
    let mut wrong = wire_response(6, "victim.example.");
    wrong.metadata.truncation = true;
    assert!(matches!(judge_datagram(&wrong.to_vec().unwrap(), &e), DatagramStep::Ignore));
    let mut right = wire_response(5, "victim.example.");
    right.metadata.truncation = true;
    assert!(matches!(judge_datagram(&right.to_vec().unwrap(), &e), DatagramStep::RetryOverTcp));
}

#[test]
fn tcp_rejects_mismatched_framed_response() {
    let e = expected("victim.example", TYPE_A, 5);
    let wrong = wire_response(6, "victim.example.").to_vec().unwrap();
    let framed = write_lp(&wrong).unwrap();
    let read = read_lp(&framed).unwrap();
    assert_eq!(read, wrong);
    assert!(matches!(
        decode_validated_response(&read, &e),
        Err(ClientError::Protocol("response ID mismatch"))
    ));
    assert!(matches!(decode_validated_response(b"x", &e), Err(ClientError::Decode(_))));
}

#[test]
fn framed_messages_are_read_back() {
    let framed = write_lp(b"abc").unwrap();
    assert_eq!(framed, vec![0, 3, b'a', b'b', b'c']);
    assert_eq!(read_lp(&framed).unwrap(), b"abc");
    assert!(read_lp(&framed[..4]).is_none());
    assert!(read_lp(&[0]).is_none());
    assert!(matches!(write_lp(&vec![0; 65536]), Err(ClientError::Io(_))));
}

#[test]
fn pools_keep_good_streams_only() {
    let e = expected("victim.example", TYPE_A, 5);
    let good = wire_response(5, "victim.example.").to_vec().unwrap();
    let mut pool = TcpPool::new();
    assert!(pool.take(at(0)).is_none());
    assert!(matches!(pool.settle(1u8, false, Ok(good), &e, at(1)), TcpOutcome::Done(_)));
    assert_eq!(pool.take(at(2)), Some(1));
    let bad = Err(ClientError::Io("reset".to_string()));
    assert!(matches!(pool.settle(1u8, true, bad, &e, at(3)), TcpOutcome::Reconnect));
    assert!(pool.take(at(3)).is_none());
    let bad = Err(ClientError::Io("reset".to_string()));
    assert!(matches!(pool.settle(1u8, false, bad, &e, at(3)), TcpOutcome::Failed(_)));
    assert_eq!(pooled_budget(Duration::from_millis(200)).nanos, 100_000_000);
}

#[test]
fn https_exchanges_are_framed() {
    let sent = doh_request("dns.example", "/dns-query", b"wire");
    let text = String::from_utf8(sent).unwrap();
    assert!(text.starts_with("POST /dns-query HTTP/1.1\r\nHost: dns.example\r\n"));
    assert!(text.contains("Content-Length: 4\r\n"));
    assert!(text.ends_with("\r\n\r\nwire"));
    assert_eq!(doh_response(b"HTTP/1.1 200 OK\r\n\r\nbody").unwrap(), b"body");
    assert!(doh_response(b"HTTP/1.1 500 No\r\n\r\nbody").is_err());
    assert!(matches!(
        doh_response(b"HTTP/1.1 200 OK\r\n"),
        Err(ClientError::Protocol("doh: missing header terminator"))
    ));
}

#[test]
fn encrypted_upstreams_are_not_proxied() {
    let addr = SocketAddr::new(ipv4(8, 8, 8, 8), 853);
    let plain = DnsClient::tcp(addr).with_proxy("p".to_string());
    assert!(plain.is_proxied());
    assert!(matches!(plain.exchange_route(), Ok(Route::Proxy { .. })));
    let dot = DnsClient::dot(addr, "dns.google").with_proxy("p".to_string());
    assert!(matches!(dot.exchange_route(), Err(ClientError::Tls(_))));
    let short = DnsClient::tcp(addr).with_timeout(secs(1));
    assert_eq!(short.timeout, secs(1));
    assert_eq!(local_bind_ip(SocketAddr::new(ipv4(127, 0, 0, 9), 53)), Some(ipv4(127, 0, 0, 1)));
    assert_eq!(local_bind_ip(addr), None);
    assert_eq!(local_bind_ip(SocketAddr::new(IpAddr::V6(1), 53)), Some(IpAddr::V6(1)));
}
