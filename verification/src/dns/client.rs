//! The DNS client: queries, response checks, per-family results, upstream
//! labels and the framing of each transport.
//!
//! The client never opens a socket: it says what to send, and judges what came
//! back.
use crate::octets;
use crate::clock;
use crate::clock::{Duration, Instant};
use crate::dns::answers;
use crate::dns::answers::{relevant_ip_answers, same_name};
use crate::dns::families::{QueryFamilies, TYPE_A, TYPE_AAAA};
use crate::dns::message;
use crate::dns::message::{
    decode_message, Authority, DnsMessage, MessageModel, MessageType, Question,
    QuestionModel, ResponseCode, CLASS_IN, OP_QUERY, RCODE_NO_ERROR, RCODE_NX_DOMAIN,
};
use crate::net;
use crate::net::{IpAddr, SocketAddr};
use crate::text;
use vstd::prelude::*;

verus! {

/// Default time limit of a query: 5 seconds, in nanoseconds.
pub const DEFAULT_QUERY_TIMEOUT: u128 = 5_000_000_000;

/// Most idle streams kept for reuse.
pub const TCP_POOL_CAPACITY: usize = 4;

/// How long a stream may sit idle before it is closed rather than reused: 30
/// seconds, in nanoseconds.
pub const TCP_POOL_IDLE_TIMEOUT: u128 = 30_000_000_000;

/// Most time a reused stream gets to answer: 250 milliseconds, in nanoseconds.
pub const POOLED_BUDGET_LIMIT: u128 = 250_000_000;

/// Largest response over HTTPS: a DNS message and room for its headers.
pub const MAX_DOH_RESPONSE_BYTES: usize = 65535 + 16 * 1024;

/// What can go wrong with a query.
#[derive(Debug)]
pub enum ClientError {
    Io(String),
    /// The query could not be encoded, for this reason.
    Proto(String),
    /// The response could not be decoded, for this reason.
    Decode(String),
    /// The query took longer than this.
    Timeout(Duration),
    /// The response breaks a rule.
    Protocol(&'static str),
    Tls(String),
    /// The upstream answered with this response code.
    Rcode(ResponseCode),
}

impl ClientError {
    /// Whether this is the protocol fault with the given text.
    pub open spec fn is_fault(self, what: Seq<char>) -> bool {
        self matches ClientError::Protocol(s) && s@ == what
    }

    /// Whether this says why some bytes are no message.
    pub open spec fn is_decode(self, wire: Seq<u8>) -> bool {
        self matches ClientError::Decode(s) && message::decoded_header(wire) == Err::<
            message::MessageHeader,
            Seq<char>,
        >(s@)
    }
}

// ---------------------------------------------------------------------------
// Checking a response
// ---------------------------------------------------------------------------

/// The transaction a response has to belong to.
#[derive(Debug)]
pub struct ExpectedResponse {
    pub id: u16,
    pub query: Question,
}

/// What is wrong with a response, if anything: the first rule that it breaks.
pub open spec fn response_fault(m: MessageModel, id: u16, q: QuestionModel) -> Option<Seq<char>> {
    if m.id != id {
        Some("response ID mismatch"@)
    } else if !(m.message_type is Response) {
        Some("received DNS query as response"@)
    } else if m.op_code != OP_QUERY {
        Some("response opcode mismatch"@)
    } else if m.queries.len() != 1 {
        Some("response question count mismatch"@)
    } else if answers::canonical(m.queries[0].name) != answers::canonical(q.name) {
        Some("response question name mismatch"@)
    } else if m.queries[0].query_type != q.query_type {
        Some("response question type mismatch"@)
    } else if m.queries[0].query_class != q.query_class {
        Some("response question class mismatch"@)
    } else {
        None
    }
}

/// Checks that a response belongs to the transaction: its ID, its type, its
/// operation and its one question have to match.
pub fn validate_response(response: &DnsMessage, expected: &ExpectedResponse) -> (r: Result<
    (),
    ClientError,
>)
    ensures
        match r {
            Ok(_) => response_fault(response@, expected.id, expected.query@) is None,
            Err(e) => response_fault(response@, expected.id, expected.query@) matches Some(what)
                && e.is_fault(what),
        },
{
    if response.id != expected.id {
        return Err(ClientError::Protocol("response ID mismatch"));
    }
    match response.message_type {
        MessageType::Response => {},
        MessageType::Query => {
            return Err(ClientError::Protocol("received DNS query as response"));
        },
    }
    if response.op_code != OP_QUERY {
        return Err(ClientError::Protocol("response opcode mismatch"));
    }
    if response.queries.len() != 1 {
        return Err(ClientError::Protocol("response question count mismatch"));
    }
    let question = &response.queries[0];
    assert(response@.queries[0] == question@);
    if !same_name(&question.name, &expected.query.name) {
        return Err(ClientError::Protocol("response question name mismatch"));
    }
    if question.query_type != expected.query.query_type {
        return Err(ClientError::Protocol("response question type mismatch"));
    }
    if question.query_class != expected.query.query_class {
        return Err(ClientError::Protocol("response question class mismatch"));
    }
    Ok(())
}

/// Decodes a response and checks that it belongs to the transaction.
pub fn decode_validated_response(wire: &[u8], expected: &ExpectedResponse) -> (r: Result<
    DnsMessage,
    ClientError,
>)
    ensures
        match message::decoded_message(wire@) {
            None => r matches Err(e) && e.is_decode(wire@),
            Some(m) => match response_fault(m, expected.id, expected.query@) {
                None => r matches Ok(d) && d@ == m,
                Some(what) => r matches Err(e) && e.is_fault(what),
            },
        },
{
    match decode_message(wire) {
        Err(why) => Err(ClientError::Decode(why)),
        Ok(response) => match validate_response(&response, expected) {
            Ok(_) => Ok(response),
            Err(e) => Err(e),
        },
    }
}

/// What to do with a datagram that arrived for a transaction.
#[derive(Debug)]
pub enum DatagramStep {
    /// Malformed or unrelated: keep waiting.
    Ignore,
    /// Truncated: ask again over TCP.
    RetryOverTcp,
    /// The answer.
    Done(DnsMessage),
}

/// Judges a datagram. Only a response that belongs to the transaction ends the
/// wait, and only such a response can call for TCP.
pub fn judge_datagram(wire: &[u8], expected: &ExpectedResponse) -> (step: DatagramStep)
    ensures
        match message::decoded_message(wire@) {
            Some(m) => if response_fault(m, expected.id, expected.query@) is Some {
                step is Ignore
            } else if m.truncation {
                step is RetryOverTcp
            } else {
                step matches DatagramStep::Done(d) && d@ == m
            },
            None => step is Ignore,
        },
{
    match decode_validated_response(wire, expected) {
        Err(_) => DatagramStep::Ignore,
        Ok(response) => {
            if response.truncation {
                DatagramStep::RetryOverTcp
            } else {
                DatagramStep::Done(response)
            }
        },
    }
}

/// The local address a datagram socket for this upstream has to be bound to:
/// the loopback address of its family for a loopback upstream, and any address
/// otherwise.
pub fn local_bind_ip(upstream: SocketAddr) -> (ip: Option<IpAddr>)
    ensures
        ip == (match upstream.ip {
            IpAddr::V4(x) => if x / 0x100_0000 == 127 {
                Some(IpAddr::V4(0x7f00_0001))
            } else {
                None
            },
            IpAddr::V6(x) => if x == 1 {
                Some(IpAddr::V6(1))
            } else {
                None
            },
        }),
{
    if upstream.ip.is_loopback() {
        match upstream.ip {
            IpAddr::V4(_) => Some(IpAddr::V4(0x7f00_0001)),
            IpAddr::V6(_) => Some(IpAddr::V6(1)),
        }
    } else {
        None
    }
}

// ---------------------------------------------------------------------------
// Negative answers and families
// ---------------------------------------------------------------------------

/// The least of a record's life and its minimum field over the
/// start-of-authority records, if there is one.
pub open spec fn soa_ttl(authorities: Seq<Authority>) -> Option<u32>
    decreases authorities.len(),
{
    if authorities.len() == 0 {
        None
    } else {
        let before = soa_ttl(authorities.drop_last());
        let r = authorities.last();
        match r.soa_minimum {
            Some(minimum) => answers::min_opt(before, answers::min32(r.ttl, minimum)),
            None => before,
        }
    }
}

/// A number of seconds, zero without one.
pub open spec fn secs_or_zero(secs: Option<u32>) -> Duration {
    Duration {
        nanos: (match secs {
            Some(n) => n as nat,
            None => 0,
        } * clock::NANOS_PER_SEC) as u128,
    }
}

fn duration_of(secs: Option<u32>) -> (d: Duration)
    ensures
        d == secs_or_zero(secs),
{
    match secs {
        Some(n) => Duration::from_secs(n as u64),
        None => Duration::from_secs(0),
    }
}

/// How long a negative answer may be kept: the least of the life and the
/// minimum field over the start-of-authority records of the authority section;
/// not at all without one.
pub fn negative_ttl(message: &DnsMessage) -> (ttl: Duration)
    ensures
        ttl == secs_or_zero(soa_ttl(message@.authorities)),
{
    let mut best: Option<u32> = None;
    let mut i: usize = 0;
    let ghost all = message.authorities@;
    while i < message.authorities.len()
        invariant
            i <= message.authorities@.len(),
            all == message.authorities@,
            best == soa_ttl(all.take(i as int)),
        decreases message.authorities@.len() - i,
    {
        let r = &message.authorities[i];
        assert(all.take(i + 1).drop_last() =~= all.take(i as int));
        if let Some(minimum) = r.soa_minimum {
            let ttl: u32 = if r.ttl <= minimum {
                r.ttl
            } else {
                minimum
            };
            best = match best {
                Some(b) => Some(if b <= ttl { b } else { ttl }),
                None => Some(ttl),
            };
        }
        i += 1;
    }
    assert(all.take(i as int) =~= all);
    duration_of(best)
}

/// One family's part of a result.
#[derive(Debug)]
pub enum FamilyAnswer {
    /// At least one address of the family.
    Answer { ips: Vec<IpAddr>, ttl: Duration },
    /// The name exists, but without an address of the family.
    NoData(Duration),
    /// The name does not exist.
    NxDomain(Duration),
    /// No definite answer.
    Failed,
}

/// The model of a [`FamilyAnswer`].
#[verifier::ext_equal]
pub enum FamilyModel {
    Answer { ips: Seq<IpAddr>, ttl: Duration },
    NoData(Duration),
    NxDomain(Duration),
    Failed,
}

impl View for FamilyAnswer {
    type V = FamilyModel;

    open spec fn view(&self) -> FamilyModel {
        match self {
            FamilyAnswer::Answer { ips, ttl } => FamilyModel::Answer { ips: ips@, ttl: *ttl },
            FamilyAnswer::NoData(t) => FamilyModel::NoData(*t),
            FamilyAnswer::NxDomain(t) => FamilyModel::NxDomain(*t),
            FamilyAnswer::Failed => FamilyModel::Failed,
        }
    }
}

/// The model of an optional family answer.
pub open spec fn family_view(a: Option<FamilyAnswer>) -> Option<FamilyModel> {
    match a {
        Some(f) => Some(f@),
        None => None,
    }
}

/// What a response says for the family it was asked for.
pub open spec fn classified(m: MessageModel) -> FamilyModel {
    if m.response_code == ResponseCode::Number(RCODE_NO_ERROR) {
        let found = answers::relevant(m);
        if found.0.len() == 0 {
            FamilyModel::NoData(secs_or_zero(soa_ttl(m.authorities)))
        } else {
            FamilyModel::Answer { ips: found.0, ttl: secs_or_zero(found.1) }
        }
    } else if m.response_code == ResponseCode::Number(RCODE_NX_DOMAIN) {
        FamilyModel::NxDomain(secs_or_zero(soa_ttl(m.authorities)))
    } else {
        FamilyModel::Failed
    }
}

/// What a response says for the family it was asked for: its addresses, that
/// there are none, that the name does not exist, or nothing definite.
pub fn classify_family_message(message: &DnsMessage) -> (a: FamilyAnswer)
    ensures
        a@ == classified(message@),
{
    if message.response_code == ResponseCode::Number(RCODE_NO_ERROR) {
        let (ips, ttl) = relevant_ip_answers(message);
        if ips.len() == 0 {
            FamilyAnswer::NoData(negative_ttl(message))
        } else {
            FamilyAnswer::Answer { ips, ttl: duration_of(ttl) }
        }
    } else if message.response_code == ResponseCode::Number(RCODE_NX_DOMAIN) {
        FamilyAnswer::NxDomain(negative_ttl(message))
    } else {
        FamilyAnswer::Failed
    }
}

/// A copy of a family answer.
pub fn copy_family(a: &FamilyAnswer) -> (out: FamilyAnswer)
    ensures
        out@ == a@,
{
    match a {
        FamilyAnswer::Answer { ips, ttl } => {
            let mut copy: Vec<IpAddr> = Vec::new();
            copy.extend_from_slice(ips.as_slice());
            assert(copy@ =~= ips@);
            FamilyAnswer::Answer { ips: copy, ttl: *ttl }
        },
        FamilyAnswer::NoData(t) => FamilyAnswer::NoData(*t),
        FamilyAnswer::NxDomain(t) => FamilyAnswer::NxDomain(*t),
        FamilyAnswer::Failed => FamilyAnswer::Failed,
    }
}

fn copy_optional_family(a: &Option<FamilyAnswer>) -> (out: Option<FamilyAnswer>)
    ensures
        family_view(out) == family_view(*a),
{
    match a {
        Some(f) => Some(copy_family(f)),
        None => None,
    }
}

/// The result of a lookup: every address, how long they may be kept, and what
/// each family said.
#[derive(Debug)]
pub struct IpLookupResult {
    pub ips: Vec<IpAddr>,
    pub ttl: Duration,
    pub v4: Option<FamilyAnswer>,
    pub v6: Option<FamilyAnswer>,
}

/// The result of a lookup of one family.
#[derive(Debug)]
pub enum FamilyLookupResult {
    Response(IpLookupResult),
    NxDomain(Duration),
}

/// What each family said, and which upstream said it. A family that was not
/// asked for has no answer here.
#[derive(Debug)]
pub struct FamilySet {
    pub v4: Option<FamilyAnswer>,
    pub v6: Option<FamilyAnswer>,
    pub source: String,
}

/// The family set of a lookup of all families.
pub fn family_set_from_ip_lookup(result: &IpLookupResult, source: String) -> (set: FamilySet)
    ensures
        family_view(set.v4) == family_view(result.v4),
        family_view(set.v6) == family_view(result.v6),
        set.source@ == source@,
{
    FamilySet {
        v4: copy_optional_family(&result.v4),
        v6: copy_optional_family(&result.v6),
        source,
    }
}

/// The addresses of a family answer.
pub open spec fn family_ips(a: FamilyModel) -> Seq<IpAddr> {
    match a {
        FamilyModel::Answer { ips, .. } => ips,
        _ => Seq::empty(),
    }
}

/// The result of a lookup that asked for IPv4 only: nothing where the answer
/// is not definite.
pub fn ipv4_only_result(response: &DnsMessage) -> (r: Result<IpLookupResult, ClientError>)
    ensures
        match classified(response@) {
            FamilyModel::Failed => r matches Err(e) && e.is_fault("no response"@),
            FamilyModel::Answer { ips, ttl } => r matches Ok(l) && l.ips@ == ips && l.ttl == ttl
                && family_view(l.v4) == Some(classified(response@)) && l.v6 is None,
            FamilyModel::NoData(ttl) => r matches Ok(l) && l.ips@.len() == 0 && l.ttl == ttl
                && family_view(l.v4) == Some(classified(response@)) && l.v6 is None,
            FamilyModel::NxDomain(ttl) => r matches Ok(l) && l.ips@.len() == 0 && l.ttl == ttl
                && family_view(l.v4) == Some(classified(response@)) && l.v6 is None,
        },
{
    let answer = classify_family_message(response);
    let (ips, ttl) = match copy_family(&answer) {
        FamilyAnswer::Answer { ips, ttl } => (ips, ttl),
        FamilyAnswer::NoData(ttl) => (Vec::new(), ttl),
        FamilyAnswer::NxDomain(ttl) => (Vec::new(), ttl),
        FamilyAnswer::Failed => {
            return Err(ClientError::Protocol("no response"));
        },
    };
    Ok(IpLookupResult { ips, ttl, v4: Some(answer), v6: None })
}

/// How long the addresses of both families may be kept together.
pub open spec fn shared_ttl(v4: Option<FamilyModel>, v6: Option<FamilyModel>) -> nat {
    match (v4, v6) {
        (
            Some(FamilyModel::Answer { ttl: a, .. }),
            Some(FamilyModel::Answer { ttl: b, .. }),
        ) => if a.nanos <= b.nanos {
            a.nanos as nat
        } else {
            b.nanos as nat
        },
        (Some(FamilyModel::Answer { ttl, .. }), _) => ttl.nanos as nat,
        (_, Some(FamilyModel::Answer { ttl, .. })) => ttl.nanos as nat,
        _ => 0,
    }
}

/// What an optional response says for its family.
pub open spec fn classified_opt(m: Option<DnsMessage>) -> Option<FamilyModel> {
    match m {
        Some(d) => Some(classified(d@)),
        None => None,
    }
}

/// The addresses that an optional family answer has.
pub open spec fn opt_ips(a: Option<FamilyModel>) -> Seq<IpAddr> {
    match a {
        Some(f) => family_ips(f),
        None => Seq::empty(),
    }
}

/// The result of a lookup that asked for both families, from the responses
/// that arrived. That the name does not exist for IPv4 holds for both
/// families; otherwise the addresses are those of both families, IPv4 first.
/// It is an error when neither family got a response.
pub fn dual_stack_result(v4_response: Option<DnsMessage>, v6_response: Option<DnsMessage>) -> (r:
    Result<IpLookupResult, ClientError>)
    ensures
        ({
            let v4 = classified_opt(v4_response);
            let v6 = classified_opt(v6_response);
            match v4 {
                Some(FamilyModel::NxDomain(ttl)) => r matches Ok(l) && l.ips@.len() == 0 && l.ttl
                    == ttl && family_view(l.v4) == v4 && family_view(l.v6) == Some(
                    FamilyModel::NxDomain(ttl),
                ),
                _ => if v4 is None && v6 is None {
                    r matches Err(e) && e.is_fault("no response"@)
                } else {
                    r matches Ok(l) && l.ips@ == opt_ips(v4) + opt_ips(v6) && l.ttl.nanos
                        == shared_ttl(v4, v6) && family_view(l.v4) == v4 && family_view(l.v6) == v6
                },
            }
        }),
{
    let v4: Option<FamilyAnswer> = match &v4_response {
        Some(m) => Some(classify_family_message(m)),
        None => None,
    };
    let v6: Option<FamilyAnswer> = match &v6_response {
        Some(m) => Some(classify_family_message(m)),
        None => None,
    };
    if let Some(FamilyAnswer::NxDomain(ttl)) = &v4 {
        let ttl = *ttl;
        return Ok(
            IpLookupResult { ips: Vec::new(), ttl, v4, v6: Some(FamilyAnswer::NxDomain(ttl)) },
        );
    }
    let mut addrs: Vec<IpAddr> = Vec::new();
    let mut min_ttl: Option<Duration> = None;
    if let Some(FamilyAnswer::Answer { ips, ttl }) = &v4 {
        addrs.extend_from_slice(ips.as_slice());
        assert(addrs@ =~= ips@);
        min_ttl = Some(*ttl);
    }
    let ghost first = addrs@;
    if let Some(FamilyAnswer::Answer { ips, ttl }) = &v6 {
        addrs.extend_from_slice(ips.as_slice());
        assert(addrs@ =~= first + ips@);
        min_ttl = match min_ttl {
            Some(t) => Some(t.min(*ttl)),
            None => Some(*ttl),
        };
    }
    if v4.is_none() && v6.is_none() {
        return Err(ClientError::Protocol("no response"));
    }
    assert(addrs@ =~= opt_ips(family_view(v4)) + opt_ips(family_view(v6)));
    let ttl = match min_ttl {
        Some(t) => t,
        None => Duration::zero(),
    };
    Ok(IpLookupResult { ips: addrs, ttl, v4, v6 })
}

/// Checks that a record type asks for one family's addresses.
pub fn check_family_query(record_type: u16) -> (r: Result<QueryFamilies, ClientError>)
    ensures
        if record_type == TYPE_A {
            r matches Ok(f) && f is IPV4
        } else if record_type == TYPE_AAAA {
            r matches Ok(f) && f is IPV6
        } else {
            r matches Err(e) && e.is_fault("address family query must be A or AAAA"@)
        },
{
    let queried = QueryFamilies::from_record_type(record_type);
    if queried.is_empty() {
        return Err(ClientError::Protocol("address family query must be A or AAAA"));
    }
    Ok(queried)
}

/// The result of a lookup of one family, from its response: its addresses or
/// none, that the name does not exist, or the response code that says neither.
pub fn family_lookup_result(message: &DnsMessage) -> (r: Result<FamilyLookupResult, ClientError>)
    ensures
        match classified(message@) {
            FamilyModel::Answer { ips, ttl } => r matches Ok(FamilyLookupResult::Response(l))
                && l.ips@ == ips && l.ttl == ttl && l.v4 is None && l.v6 is None,
            FamilyModel::NoData(ttl) => r matches Ok(FamilyLookupResult::Response(l))
                && l.ips@.len() == 0 && l.ttl == ttl && l.v4 is None && l.v6 is None,
            FamilyModel::NxDomain(ttl) => r matches Ok(FamilyLookupResult::NxDomain(t)) && t == ttl,
            FamilyModel::Failed => r matches Err(ClientError::Rcode(code)) && code
                == message.response_code,
        },
{
    if message.response_code == ResponseCode::Number(RCODE_NX_DOMAIN) {
        return Ok(FamilyLookupResult::NxDomain(negative_ttl(message)));
    }
    if message.response_code != ResponseCode::Number(RCODE_NO_ERROR) {
        return Err(ClientError::Rcode(message.response_code));
    }
    let (ips, answer_ttl) = relevant_ip_answers(message);
    let ttl = if ips.len() == 0 {
        negative_ttl(message)
    } else {
        duration_of(answer_ttl)
    };
    Ok(FamilyLookupResult::Response(IpLookupResult { ips, ttl, v4: None, v6: None }))
}

/// The record type that a lookup of this set of families asks for; `None`
/// stands for both types at once.
pub fn plan_lookup_set(want: QueryFamilies) -> (r: Result<Option<u16>, ClientError>)
    ensures
        match want {
            QueryFamilies::BOTH => r matches Ok(None),
            QueryFamilies::IPV4 => r matches Ok(Some(t)) && t == TYPE_A,
            QueryFamilies::IPV6 => r matches Ok(Some(t)) && t == TYPE_AAAA,
            QueryFamilies::NONE => r matches Err(e) && e.is_fault(
                "lookup_set requires a single family or BOTH"@,
            ),
        },
{
    match want {
        QueryFamilies::BOTH => Ok(None),
        QueryFamilies::IPV4 => Ok(Some(TYPE_A)),
        QueryFamilies::IPV6 => Ok(Some(TYPE_AAAA)),
        QueryFamilies::NONE => Err(
            ClientError::Protocol("lookup_set requires a single family or BOTH"),
        ),
    }
}

/// The family set of a lookup of one family. A failed lookup is a family
/// without a definite answer; the other family is not asked for.
pub fn single_family_set(
    family: QueryFamilies,
    lookup: Result<FamilyLookupResult, ClientError>,
    source: String,
) -> (set: FamilySet)
    requires
        family is IPV4 || family is IPV6,
    ensures
        set.source@ == source@,
        ({
            let asked = if family is IPV4 {
                set.v4
            } else {
                set.v6
            };
            let other = if family is IPV4 {
                set.v6
            } else {
                set.v4
            };
            &&& other is None
            &&& family_view(asked) == Some(
                match lookup {
                    Ok(FamilyLookupResult::Response(l)) => if l.ips@.len() == 0 {
                        FamilyModel::NoData(l.ttl)
                    } else {
                        FamilyModel::Answer { ips: l.ips@, ttl: l.ttl }
                    },
                    Ok(FamilyLookupResult::NxDomain(ttl)) => FamilyModel::NxDomain(ttl),
                    Err(_) => FamilyModel::Failed,
                },
            )
        }),
{
    let answer = match lookup {
        Ok(FamilyLookupResult::Response(l)) => {
            if l.ips.len() == 0 {
                FamilyAnswer::NoData(l.ttl)
            } else {
                FamilyAnswer::Answer { ips: l.ips, ttl: l.ttl }
            }
        },
        Ok(FamilyLookupResult::NxDomain(ttl)) => FamilyAnswer::NxDomain(ttl),
        Err(_) => FamilyAnswer::Failed,
    };
    match family {
        QueryFamilies::IPV4 => FamilySet { v4: Some(answer), v6: None, source },
        _ => FamilySet { v4: None, v6: Some(answer), source },
    }
}

// ---------------------------------------------------------------------------
// Upstreams
// ---------------------------------------------------------------------------

/// How an upstream is reached.
#[derive(Debug)]
pub enum Transport {
    Udp { addr: SocketAddr },
    Tcp { addr: SocketAddr },
    /// Over TLS.
    Dot { addr: SocketAddr, sni: String },
    /// Over HTTPS.
    Doh { addr: SocketAddr, sni: String, path: String },
    /// No upstream: every query is answered with this response code.
    RCode { code: ResponseCode },
}

/// One upstream that can be queried.
#[derive(Debug)]
pub struct DnsClient {
    pub transport: Transport,
    pub timeout: Duration,
    /// The name of the proxy that exchanges go through, if they go through one.
    pub proxy: Option<String>,
    pub label: Option<String>,
}

/// The text of an address; the port is left out where it is the usual one.
pub open spec fn socket_label_of(addr: SocketAddr, default_port: u16) -> Seq<char> {
    if addr.port == default_port {
        net::ip_text(addr.ip)
    } else {
        net::socket_text(addr)
    }
}

/// The text of the address; the port is left out where it is `default_port`.
pub fn socket_label(addr: SocketAddr, default_port: u16) -> (out: String)
    ensures
        out@ == socket_label_of(addr, default_port),
{
    if addr.port == default_port {
        addr.ip.to_text()
    } else {
        addr.to_text()
    }
}

/// A port behind a colon, left out where it is the usual one.
pub open spec fn port_suffix(port: u16, default_port: u16) -> Seq<char> {
    if port == default_port {
        Seq::empty()
    } else {
        seq![':'] + text::decimal(port as nat)
    }
}

/// The label that a transport has by itself.
pub open spec fn transport_label(t: Transport) -> Seq<char> {
    match t {
        Transport::Udp { addr } => socket_label_of(addr, 53),
        Transport::Tcp { addr } => socket_label_of(addr, 53),
        Transport::RCode { code } => "rcode:"@ + message::response_code_name(code),
        Transport::Dot { addr, sni } => "tls://"@ + if sni@.len() == 0 {
            socket_label_of(addr, 853)
        } else {
            sni@ + port_suffix(addr.port, 853)
        },
        Transport::Doh { addr, sni, path } => "https://"@ + if sni@.len() == 0 {
            socket_label_of(addr, 443)
        } else {
            sni@ + port_suffix(addr.port, 443) + if path@ == "/dns-query"@ {
                Seq::empty()
            } else {
                path@
            }
        },
    }
}

/// The label under which a client is reported.
pub open spec fn client_label(c: DnsClient) -> Seq<char> {
    (match c.label {
        Some(l) => l@,
        None => transport_label(c.transport),
    }) + if c.proxy is Some {
        "#PROXY"@
    } else {
        Seq::empty()
    }
}

fn push_port(out: &mut String, port: u16, default_port: u16)
    ensures
        final(out)@ == old(out)@ + port_suffix(port, default_port),
{
    let ghost before = out@;
    if port != default_port {
        out.push(':');
        text::push_decimal(out, port as u64);
    }
    assert(out@ =~= before + port_suffix(port, default_port));
}

/// Where the exchange of a query goes.
#[derive(Debug)]
pub enum Route {
    /// Over TCP through the proxy.
    Proxy { addr: SocketAddr },
    Udp { addr: SocketAddr },
    /// Over TCP, on a pooled stream where there is one.
    Tcp { addr: SocketAddr },
    Dot { addr: SocketAddr, sni: String },
    Doh { addr: SocketAddr, sni: String, path: String },
}

/// What a query has to do.
#[derive(Debug)]
pub enum QueryStep {
    /// Nothing to send: this is the response.
    Answered(DnsMessage),
    /// Send these bytes and judge what comes back by what is expected.
    Send { wire: Vec<u8>, expected: ExpectedResponse, route: Route },
}

/// The text of the refusal to reach an encrypted upstream through a proxy.
pub open spec fn proxied_tls_refusal() -> Seq<char> {
    "DoT/DoH routing through a proxy is not implemented yet (issue #67 phase 2 follow-up); use plain udp:// or tcp:// for a #PROXY-tagged nameserver"@
}

/// The response to every query of a client with a fixed response code.
pub open spec fn fixed_response(
    m: MessageModel,
    id: u16,
    name: message::NameModel,
    record_type: u16,
    code: ResponseCode,
) -> bool {
    &&& m.id == id
    &&& m.message_type is Response
    &&& m.op_code == OP_QUERY
    &&& !m.truncation
    &&& m.recursion_desired
    &&& m.recursion_available
    &&& m.response_code == code
    &&& m.queries == seq![QuestionModel { name, query_type: record_type, query_class: CLASS_IN }]
    &&& m.answers.len() == 0
    &&& m.authorities.len() == 0
}

/// `rand::random` picks any number.
#[verifier::external_body]
fn random_id() -> (id: u16) {
    rand::random()
}

impl DnsClient {
    fn over(transport: Transport) -> (c: Self)
        ensures
            c.transport == transport,
            c.timeout.nanos == DEFAULT_QUERY_TIMEOUT,
            c.proxy is None,
            c.label is None,
    {
        DnsClient {
            transport,
            timeout: Duration { nanos: DEFAULT_QUERY_TIMEOUT },
            proxy: None,
            label: None,
        }
    }

    /// Plain DNS over UDP.
    pub fn udp(addr: SocketAddr) -> (c: Self)
        ensures
            c.transport == (Transport::Udp { addr }),
            c.timeout.nanos == DEFAULT_QUERY_TIMEOUT,
            c.proxy is None,
            c.label is None,
    {
        DnsClient::over(Transport::Udp { addr })
    }

    /// Plain DNS over TCP.
    pub fn tcp(addr: SocketAddr) -> (c: Self)
        ensures
            c.transport == (Transport::Tcp { addr }),
            c.timeout.nanos == DEFAULT_QUERY_TIMEOUT,
            c.proxy is None,
            c.label is None,
    {
        DnsClient::over(Transport::Tcp { addr })
    }

    /// A fixed response code and no answers.
    pub fn rcode(code: ResponseCode) -> (c: Self)
        ensures
            c.transport == (Transport::RCode { code }),
            c.timeout.nanos == DEFAULT_QUERY_TIMEOUT,
            c.proxy is None,
            c.label is None,
    {
        DnsClient::over(Transport::RCode { code })
    }

    /// DNS over TLS.
    pub fn dot(addr: SocketAddr, sni: &str) -> (c: Self)
        ensures
            c.transport matches Transport::Dot { addr: a, sni: n } && a == addr && n@ == sni@,
            c.timeout.nanos == DEFAULT_QUERY_TIMEOUT,
            c.proxy is None,
            c.label is None,
    {
        DnsClient::over(Transport::Dot { addr, sni: sni.to_owned() })
    }

    /// DNS over HTTPS.
    pub fn doh(addr: SocketAddr, sni: &str, path: &str) -> (c: Self)
        ensures
            c.transport matches Transport::Doh { addr: a, sni: n, path: p } && a == addr && n@
                == sni@ && p@ == path@,
            c.timeout.nanos == DEFAULT_QUERY_TIMEOUT,
            c.proxy is None,
            c.label is None,
    {
        DnsClient::over(Transport::Doh { addr, sni: sni.to_owned(), path: path.to_owned() })
    }

    /// The client with another time limit per query.
    pub fn with_timeout(self, t: Duration) -> (c: Self)
        ensures
            c == (DnsClient { timeout: t, ..self }),
    {
        DnsClient { timeout: t, ..self }
    }

    /// The client with its exchanges routed through a proxy.
    pub fn with_proxy(self, proxy: String) -> (c: Self)
        ensures
            c == (DnsClient { proxy: Some(proxy), ..self }),
    {
        DnsClient { proxy: Some(proxy), ..self }
    }

    /// The client under another label.
    pub fn with_upstream_label(self, label: String) -> (c: Self)
        ensures
            c == (DnsClient { label: Some(label), ..self }),
    {
        DnsClient { label: Some(label), ..self }
    }

    /// Whether the client's exchanges are routed through a proxy.
    pub fn is_proxied(&self) -> (b: bool)
        ensures
            b == (self.proxy is Some),
    {
        self.proxy.is_some()
    }

    /// The label under which the client is reported: the one it was given, or
    /// one made from the transport; marked where the client is proxied.
    pub fn upstream_label(&self) -> (out: String)
        ensures
            out@ == client_label(*self),
    {
        let mut out = String::new();
        match &self.label {
            Some(l) => {
                text::push_text(&mut out, l.as_str());
            },
            None => {
                match &self.transport {
                    Transport::Udp { addr } => {
                        text::push_text(&mut out, socket_label(*addr, 53).as_str());
                    },
                    Transport::Tcp { addr } => {
                        text::push_text(&mut out, socket_label(*addr, 53).as_str());
                    },
                    Transport::RCode { code } => {
                        text::push_text(&mut out, "rcode:");
                        text::push_text(&mut out, message::response_code_text(*code).as_str());
                    },
                    Transport::Dot { addr, sni } => {
                        text::push_text(&mut out, "tls://");
                        if sni.as_str().is_empty() {
                            text::push_text(&mut out, socket_label(*addr, 853).as_str());
                        } else {
                            text::push_text(&mut out, sni.as_str());
                            push_port(&mut out, addr.port, 853);
                        }
                    },
                    Transport::Doh { addr, sni, path } => {
                        text::push_text(&mut out, "https://");
                        if sni.as_str().is_empty() {
                            text::push_text(&mut out, socket_label(*addr, 443).as_str());
                        } else {
                            text::push_text(&mut out, sni.as_str());
                            push_port(&mut out, addr.port, 443);
                            if !text::same(path.as_str(), "/dns-query") {
                                text::push_text(&mut out, path.as_str());
                            }
                        }
                    },
                }
                assert(out@ =~= transport_label(self.transport));
            },
        }
        if self.is_proxied() {
            text::push_text(&mut out, "#PROXY");
        }
        assert(out@ =~= client_label(*self));
        out
    }

    /// Where the exchange of a query goes. A proxied client reaches its plain
    /// upstream over TCP through the proxy, whatever its transport; encrypted
    /// upstreams are refused there. A client without an upstream has no
    /// exchange.
    pub fn exchange_route(&self) -> (r: Result<Route, ClientError>)
        ensures
            match self.transport {
                Transport::RCode { .. } => r matches Err(e) && e.is_fault(
                    "rcode transport should not perform network exchange"@,
                ),
                Transport::Udp { addr } => if self.proxy is Some {
                    r matches Ok(Route::Proxy { addr: a }) && a == addr
                } else {
                    r matches Ok(Route::Udp { addr: a }) && a == addr
                },
                Transport::Tcp { addr } => if self.proxy is Some {
                    r matches Ok(Route::Proxy { addr: a }) && a == addr
                } else {
                    r matches Ok(Route::Tcp { addr: a }) && a == addr
                },
                Transport::Dot { addr, sni } => if self.proxy is Some {
                    r matches Err(ClientError::Tls(t)) && t@ == proxied_tls_refusal()
                } else {
                    r matches Ok(Route::Dot { addr: a, sni: n }) && a == addr && n@ == sni@
                },
                Transport::Doh { addr, sni, path } => if self.proxy is Some {
                    r matches Err(ClientError::Tls(t)) && t@ == proxied_tls_refusal()
                } else {
                    r matches Ok(Route::Doh { addr: a, sni: n, path: p }) && a == addr && n@ == sni@
                        && p@ == path@
                },
            },
    {
        match &self.transport {
            Transport::RCode { .. } => Err(
                ClientError::Protocol("rcode transport should not perform network exchange"),
            ),
            Transport::Udp { addr } => {
                if self.is_proxied() {
                    Ok(Route::Proxy { addr: *addr })
                } else {
                    Ok(Route::Udp { addr: *addr })
                }
            },
            Transport::Tcp { addr } => {
                if self.is_proxied() {
                    Ok(Route::Proxy { addr: *addr })
                } else {
                    Ok(Route::Tcp { addr: *addr })
                }
            },
            Transport::Dot { addr, sni } => {
                if self.is_proxied() {
                    Err(
                        ClientError::Tls(
                            "DoT/DoH routing through a proxy is not implemented yet (issue #67 phase 2 follow-up); use plain udp:// or tcp:// for a #PROXY-tagged nameserver".to_owned(),
                        ),
                    )
                } else {
                    Ok(Route::Dot { addr: *addr, sni: sni.clone() })
                }
            },
            Transport::Doh { addr, sni, path } => {
                if self.is_proxied() {
                    Err(
                        ClientError::Tls(
                            "DoT/DoH routing through a proxy is not implemented yet (issue #67 phase 2 follow-up); use plain udp:// or tcp:// for a #PROXY-tagged nameserver".to_owned(),
                        ),
                    )
                } else {
                    Ok(Route::Doh { addr: *addr, sni: sni.clone(), path: path.clone() })
                }
            },
        }
    }

    /// What a query for `name` and `record_type` under a given transaction ID
    /// has to do. A client with a fixed response code answers at once; any
    /// other has a query to send, and expects a response to just that query.
    pub fn query_with_id(&self, id: u16, name: &str, record_type: u16) -> (r: Result<
        QueryStep,
        ClientError,
    >)
        ensures
            match message::parsed_name(name@) {
                None => r matches Err(e) && e.is_fault("invalid query name"@),
                Some(parsed) => match self.transport {
                    Transport::RCode { code } => r matches Ok(QueryStep::Answered(m))
                        && fixed_response(m@, id, parsed, record_type, code),
                    _ => match message::encoded_query(id, name@, record_type, true) {
                        Err(why) => r matches Err(ClientError::Proto(s)) && s@ == why,
                        Ok(bytes) => match r {
                            Ok(QueryStep::Send { wire, expected, route }) => {
                                &&& wire@ == bytes
                                &&& expected.id == id
                                &&& expected.query@ == (QuestionModel {
                                    name: parsed,
                                    query_type: record_type,
                                    query_class: CLASS_IN,
                                })
                                &&& route_of(*self, route)
                            },
                            Ok(QueryStep::Answered(_)) => false,
                            Err(e) => refused(*self, e),
                        },
                    },
                },
            },
    {
        let parsed = match message::parse_name(name) {
            Some(n) => n,
            None => {
                return Err(ClientError::Protocol("invalid query name"));
            },
        };
        let query = Question { name: parsed, query_type: record_type, query_class: CLASS_IN };
        if let Transport::RCode { code } = &self.transport {
            let ghost q = query@;
            let mut queries: Vec<Question> = Vec::new();
            queries.push(query);
            assert(message::questions_of(queries@) =~= seq![q]);
            return Ok(
                QueryStep::Answered(
                    DnsMessage {
                        id,
                        message_type: MessageType::Response,
                        op_code: OP_QUERY,
                        truncation: false,
                        recursion_desired: true,
                        recursion_available: true,
                        response_code: *code,
                        queries,
                        answers: Vec::new(),
                        authorities: Vec::new(),
                    },
                ),
            );
        }
        let wire = match message::encode_query(id, name, record_type, true) {
            Ok(w) => w,
            Err(why) => {
                return Err(ClientError::Proto(why));
            },
        };
        match self.exchange_route() {
            Ok(route) => Ok(
                QueryStep::Send { wire, expected: ExpectedResponse { id, query }, route },
            ),
            Err(e) => Err(e),
        }
    }

    /// What a query for `name` and `record_type` has to do, under a
    /// transaction ID picked at random.
    pub fn start_query(&self, name: &str, record_type: u16) -> (r: Result<QueryStep, ClientError>)
        ensures
            match message::parsed_name(name@) {
                None => r matches Err(e) && e.is_fault("invalid query name"@),
                Some(parsed) => match self.transport {
                    Transport::RCode { code } => r matches Ok(QueryStep::Answered(m))
                        && fixed_response(m@, m@.id, parsed, record_type, code),
                    _ => match r {
                        Ok(QueryStep::Send { wire, expected, route }) => {
                            &&& message::encoded_query(expected.id, name@, record_type, true)
                                == Ok::<Seq<u8>, Seq<char>>(wire@)
                            &&& expected.query@ == (QuestionModel {
                                name: parsed,
                                query_type: record_type,
                                query_class: CLASS_IN,
                            })
                            &&& route_of(*self, route)
                        },
                        Ok(QueryStep::Answered(_)) => false,
                        Err(e) => {
                            ||| e matches ClientError::Proto(s) && exists|id: u16|
                                #[trigger] message::encoded_query(id, name@, record_type, true)
                                    == Err::<Seq<u8>, Seq<char>>(s@)
                            ||| refused(*self, e)
                        },
                    },
                },
            },
    {
        let id: u16 = random_id();
        self.query_with_id(id, name, record_type)
    }
}

/// Whether a route is the one that the client's exchanges take.
pub open spec fn route_of(c: DnsClient, route: Route) -> bool {
    match (c.transport, route) {
        (Transport::Udp { addr }, Route::Proxy { addr: a }) => c.proxy is Some && a == addr,
        (Transport::Udp { addr }, Route::Udp { addr: a }) => c.proxy is None && a == addr,
        (Transport::Tcp { addr }, Route::Proxy { addr: a }) => c.proxy is Some && a == addr,
        (Transport::Tcp { addr }, Route::Tcp { addr: a }) => c.proxy is None && a == addr,
        (Transport::Dot { addr, sni }, Route::Dot { addr: a, sni: n }) => c.proxy is None && a
            == addr && n@ == sni@,
        (
            Transport::Doh { addr, sni, path },
            Route::Doh { addr: a, sni: n, path: p },
        ) => c.proxy is None && a == addr && n@ == sni@ && p@ == path@,
        _ => false,
    }
}

/// Whether the client is one whose exchanges are refused, with this error.
pub open spec fn refused(c: DnsClient, e: ClientError) -> bool {
    &&& c.proxy is Some
    &&& c.transport is Dot || c.transport is Doh
    &&& e matches ClientError::Tls(t) && t@ == proxied_tls_refusal()
}

// ---------------------------------------------------------------------------
// Reusing streams
// ---------------------------------------------------------------------------

/// Whether a stream returned at `at` may still be reused.
pub open spec fn reusable(at: Instant, now: Instant, idle_timeout: Duration) -> bool {
    clock::time_left(now, at) < idle_timeout.nanos
}

/// The streams that may still be reused, in their order.
pub open spec fn reusable_streams<T>(
    idle: Seq<(T, Instant)>,
    now: Instant,
    idle_timeout: Duration,
) -> Seq<(T, Instant)> {
    idle.filter(|p: (T, Instant)| reusable(p.1, now, idle_timeout))
}

/// Drops every stream that sat idle for `idle_timeout` or longer, and hands
/// out the freshest of the others.
pub fn take_fresh<T>(idle: &mut Vec<(T, Instant)>, now: Instant, idle_timeout: Duration) -> (out:
    Option<T>)
    ensures
        ({
            let kept = reusable_streams(old(idle)@, now, idle_timeout);
            if kept.len() == 0 {
                out is None && final(idle)@.len() == 0
            } else {
                out == Some(kept.last().0) && final(idle)@ == kept.drop_last()
            }
        }),
{
    let ghost pred = |p: (T, Instant)| reusable(p.1, now, idle_timeout);
    let ghost before = idle@;
    let mut i: usize = 0;
    let ghost mut seen: int = 0;
    assert(before.take(0).filter(pred) =~= Seq::empty()) by {
        reveal(Seq::filter);
        assert(before.take(0) =~= Seq::empty());
    }
    assert(before.skip(0) =~= before);
    while i < idle.len()
        invariant
            i <= idle@.len(),
            0 <= seen <= before.len(),
            pred == (|p: (T, Instant)| reusable(p.1, now, idle_timeout)),
            idle@.take(i as int) == before.take(seen).filter(pred),
            idle@.skip(i as int) == before.skip(seen),
        decreases idle@.len() - i,
    {
        let ghost cur = idle@;
        proof {
            assert(cur.skip(i as int).len() == before.skip(seen).len());
            assert(cur.skip(i as int)[0] == cur[i as int]);
            assert(before.skip(seen)[0] == before[seen]);
            assert(before.take(seen + 1) =~= before.take(seen).push(before[seen]));
            before.take(seen).lemma_filter_push(before[seen], pred);
        }
        if now.saturating_duration_since(idle[i].1).nanos < idle_timeout.nanos {
            assert(cur.take(i + 1) =~= cur.take(i as int).push(cur[i as int]));
            assert(cur.skip(i + 1) =~= cur.skip(i as int).drop_first());
            i += 1;
        } else {
            let gone = idle.remove(i);
            assert(idle@.take(i as int) =~= cur.take(i as int));
            assert(idle@.skip(i as int) =~= cur.skip(i as int).drop_first());
        }
        assert(before.skip(seen + 1) =~= before.skip(seen).drop_first());
        proof {
            seen = seen + 1;
        }
    }
    proof {
        assert(idle@.skip(i as int).len() == 0);
        assert(seen == before.len());
        assert(before.take(seen) =~= before);
        assert(idle@.take(i as int) =~= idle@);
    }
    let ghost kept = idle@;
    match idle.pop() {
        Some(p) => {
            assert(idle@ =~= kept.drop_last());
            Some(p.0)
        },
        None => None,
    }
}

/// Idle streams, the freshest last, each with the instant it was returned.
pub struct TcpPool<T> {
    pub idle: Vec<(T, Instant)>,
    pub idle_timeout: Duration,
}

/// How an exchange over a stream ended.
#[derive(Debug)]
pub enum TcpOutcome {
    Done(DnsMessage),
    /// The pooled stream was no good: open a fresh connection.
    Reconnect,
    Failed(ClientError),
}

impl<T> TcpPool<T> {
    /// The pool never holds more streams than it may.
    pub open spec fn wf(&self) -> bool {
        self.idle@.len() <= TCP_POOL_CAPACITY
    }

    /// An empty pool.
    pub fn new() -> (pool: Self)
        ensures
            pool.wf(),
            pool.idle@.len() == 0,
            pool.idle_timeout.nanos == TCP_POOL_IDLE_TIMEOUT,
    {
        TcpPool { idle: Vec::new(), idle_timeout: Duration { nanos: TCP_POOL_IDLE_TIMEOUT } }
    }

    /// Takes a stream back for reuse; a full pool closes it instead.
    pub fn push(&mut self, stream: T, now: Instant)
        requires
            old(self).wf(),
        ensures
            final(self).wf(),
            final(self).idle_timeout == old(self).idle_timeout,
            final(self).idle@ == if old(self).idle@.len() < TCP_POOL_CAPACITY {
                old(self).idle@.push((stream, now))
            } else {
                old(self).idle@
            },
    {
        if self.idle.len() < TCP_POOL_CAPACITY {
            self.idle.push((stream, now));
        }
    }

    /// Hands out the freshest stream that may still be reused.
    pub fn take(&mut self, now: Instant) -> (out: Option<T>)
        requires
            old(self).wf(),
        ensures
            final(self).wf(),
            final(self).idle_timeout == old(self).idle_timeout,
            ({
                let kept = reusable_streams(old(self).idle@, now, old(self).idle_timeout);
                if kept.len() == 0 {
                    out is None && final(self).idle@.len() == 0
                } else {
                    out == Some(kept.last().0) && final(self).idle@ == kept.drop_last()
                }
            }),
    {
        let timeout = self.idle_timeout;
        proof {
            self.idle@.lemma_filter_len(|p: (T, Instant)| reusable(p.1, now, timeout));
        }
        take_fresh(&mut self.idle, now, timeout)
    }

    /// Ends an exchange over a stream. Only a stream that delivered a response
    /// to just this query goes back to the pool; any other is dropped, and a
    /// pooled one is replaced by a fresh connection.
    pub fn settle(
        &mut self,
        stream: T,
        pooled: bool,
        reply: Result<Vec<u8>, ClientError>,
        expected: &ExpectedResponse,
        now: Instant,
    ) -> (out: TcpOutcome)
        requires
            old(self).wf(),
        ensures
            final(self).wf(),
            final(self).idle_timeout == old(self).idle_timeout,
            ({
                let good = reply matches Ok(wire) && (message::decoded_message(wire@) matches Some(
                    m,
                ) && response_fault(m, expected.id, expected.query@) is None);
                if good {
                    &&& out matches TcpOutcome::Done(d) && message::decoded_message(
                        reply->Ok_0@,
                    ) == Some(d@)
                    &&& final(self).idle@ == if old(self).idle@.len() < TCP_POOL_CAPACITY {
                        old(self).idle@.push((stream, now))
                    } else {
                        old(self).idle@
                    }
                } else {
                    &&& final(self).idle@ == old(self).idle@
                    &&& if pooled {
                        out is Reconnect
                    } else {
                        out matches TcpOutcome::Failed(e) && match reply {
                            Err(io) => e == io,
                            Ok(wire) => match message::decoded_message(wire@) {
                                None => e.is_decode(wire@),
                                Some(m) => response_fault(
                                    m,
                                    expected.id,
                                    expected.query@,
                                ) matches Some(what) && e.is_fault(what),
                            },
                        }
                    }
                }
            }),
    {
        let judged = match reply {
            Ok(wire) => decode_validated_response(wire.as_slice(), expected),
            Err(e) => Err(e),
        };
        match judged {
            Ok(response) => {
                self.push(stream, now);
                TcpOutcome::Done(response)
            },
            Err(e) => {
                if pooled {
                    TcpOutcome::Reconnect
                } else {
                    TcpOutcome::Failed(e)
                }
            },
        }
    }
}

/// How long a reused stream gets to answer: half the query's time limit, and
/// never more than [`POOLED_BUDGET_LIMIT`].
pub fn pooled_budget(timeout: Duration) -> (d: Duration)
    ensures
        d.nanos == if timeout.nanos / 2 <= POOLED_BUDGET_LIMIT {
            timeout.nanos / 2
        } else {
            POOLED_BUDGET_LIMIT
        },
{
    let half = Duration { nanos: timeout.nanos / 2 };
    half.min(Duration { nanos: POOLED_BUDGET_LIMIT })
}

// ---------------------------------------------------------------------------
// Framing
// ---------------------------------------------------------------------------

/// A message behind its length, as it goes over a stream.
pub open spec fn framed(payload: Seq<u8>) -> Seq<u8> {
    octets::be16_bytes(payload.len() as u16) + payload
}

/// Puts a message behind its length. A message that a two-byte length cannot
/// count is refused.
pub fn write_lp(payload: &[u8]) -> (r: Result<Vec<u8>, ClientError>)
    ensures
        if payload@.len() > 0xffff {
            r matches Err(ClientError::Io(t)) && t@ == "dns message too large"@
        } else {
            r matches Ok(out) && out@ == framed(payload@)
        },
{
    if payload.len() > 0xffff {
        return Err(ClientError::Io("dns message too large".to_owned()));
    }
    let mut out: Vec<u8> = Vec::new();
    octets::push_be16(&mut out, payload.len() as u16);
    octets::append(&mut out, payload);
    assert(out@ =~= framed(payload@));
    Ok(out)
}

/// The message at the start of what a stream delivered, without its length;
/// nothing while part of it is missing.
pub open spec fn unframed(received: Seq<u8>) -> Option<Seq<u8>> {
    if received.len() < 2 {
        None
    } else {
        let len = octets::be16(received[0], received[1]) as int;
        if received.len() < 2 + len {
            None
        } else {
            Some(received.subrange(2, 2 + len))
        }
    }
}

/// Takes the message at the start of what a stream delivered out of its
/// length-prefixed frame.
pub fn read_lp(received: &[u8]) -> (out: Option<Vec<u8>>)
    ensures
        match out {
            Some(m) => unframed(received@) == Some(m@),
            None => unframed(received@) is None,
        },
{
    if received.len() < 2 {
        return None;
    }
    let len: usize = octets::read_be16(received[0], received[1]) as usize;
    if received.len() - 2 < len {
        return None;
    }
    Some(octets::copy_range(received, 2, 2 + len))
}

/// A framed message is read back, whatever follows it on the stream.
pub proof fn law_read_framed(payload: Seq<u8>, rest: Seq<u8>)
    requires
        payload.len() <= 0xffff,
    ensures
        unframed(framed(payload) + rest) == Some(payload),
{
    let received = framed(payload) + rest;
    let n = payload.len() as u16;
    assert(received[0] == (n / 256) as u8 && received[1] == (n % 256) as u8);
    assert(octets::be16(received[0], received[1]) == n);
    assert(received.subrange(2, 2 + payload.len() as int) =~= payload);
}

/// Adds what arrived to a response over HTTPS; a response that grows beyond
/// [`MAX_DOH_RESPONSE_BYTES`] is refused.
pub fn read_bounded_http_response(all: &mut Vec<u8>, chunk: &[u8]) -> (r: Result<(), ClientError>)
    ensures
        final(all)@ == old(all)@ + chunk@,
        match r {
            Ok(_) => final(all)@.len() <= MAX_DOH_RESPONSE_BYTES,
            Err(e) => final(all)@.len() > MAX_DOH_RESPONSE_BYTES && e.is_fault(
                "doh: response exceeds maximum size"@,
            ),
        },
{
    octets::append(all, chunk);
    if all.len() > MAX_DOH_RESPONSE_BYTES {
        return Err(ClientError::Protocol("doh: response exceeds maximum size"));
    }
    Ok(())
}

/// The head of a request over HTTPS.
pub open spec fn doh_head(host: Seq<char>, path: Seq<char>, len: nat) -> Seq<char> {
    "POST "@ + path + " HTTP/1.1\r\nHost: "@ + host
        + "\r\nUser-Agent: meow-rs\r\nAccept: application/dns-message\r\nContent-Type: application/dns-message\r\nContent-Length: "@
        + text::decimal(len) + "\r\nConnection: close\r\n\r\n"@
}

/// A request over HTTPS: a POST of the query.
pub fn doh_request(sni: &str, path: &str, wire: &[u8]) -> (out: Vec<u8>)
    ensures
        out@ == vstd::utf8::encode_utf8(doh_head(sni@, path@, wire@.len())) + wire@,
{
    let mut head = String::new();
    text::push_text(&mut head, "POST ");
    text::push_text(&mut head, path);
    text::push_text(&mut head, " HTTP/1.1\r\nHost: ");
    text::push_text(&mut head, sni);
    text::push_text(
        &mut head,
        "\r\nUser-Agent: meow-rs\r\nAccept: application/dns-message\r\nContent-Type: application/dns-message\r\nContent-Length: ",
    );
    text::push_decimal(&mut head, wire.len() as u64);
    text::push_text(&mut head, "\r\nConnection: close\r\n\r\n");
    assert(head@ =~= doh_head(sni@, path@, wire@.len()));
    let mut out = octets::of_text(head.as_str());
    octets::append(&mut out, wire);
    out
}

/// The bytes that end the headers of a response.
pub open spec fn header_end() -> Seq<u8> {
    seq![13u8, 10, 13, 10]
}

/// The status in the first line of some headers: its second word.
pub open spec fn status_of(head: Seq<char>) -> Option<Seq<char>> {
    let lines = text::lines_of(head);
    if lines.len() == 0 {
        None
    } else {
        let words = text::words_of(lines[0]);
        Some(
            if words.len() < 2 {
                Seq::empty()
            } else {
                words[1]
            },
        )
    }
}

/// The outcome that a response over HTTPS has when its headers end at `split`.
pub open spec fn doh_outcome(
    all: Seq<u8>,
    split: int,
    r: Result<Vec<u8>, ClientError>,
) -> bool {
    let head = all.take(split);
    if !vstd::utf8::valid_utf8(head) {
        r matches Err(e) && e.is_fault("doh: bad headers"@)
    } else {
        match status_of(vstd::utf8::decode_utf8(head)) {
            None => r matches Err(e) && e.is_fault("doh: empty response"@),
            Some(status) => if status == "200"@ {
                r matches Ok(body) && body@ == all.skip(split + 4)
            } else {
                r matches Err(e) && e.is_fault("doh: non-200 status"@)
            },
        }
    }
}

/// Takes the DNS message out of a response over HTTPS: what follows the first
/// empty line, where the status is 200.
pub fn doh_response(all: &[u8]) -> (r: Result<Vec<u8>, ClientError>)
    ensures
        match octets::first_at(all@, header_end(), 0) {
            None => r matches Err(e) && e.is_fault("doh: missing header terminator"@),
            Some(i) => doh_outcome(all@, i, r),
        },
{
    let mut end: Vec<u8> = Vec::new();
    end.push(13);
    end.push(10);
    end.push(13);
    end.push(10);
    assert(end@ =~= header_end());
    proof {
        octets::lemma_first_at(all@, header_end(), 0);
    }
    let split: usize = match octets::find_subseq(all, end.as_slice()) {
        Some(i) => i,
        None => {
            return Err(ClientError::Protocol("doh: missing header terminator"));
        },
    };
    assert(octets::occurs_at(all@, header_end(), split as int));
    assert(octets::first_at(all@, header_end(), 0) == Some(split as int));
    let head = octets::copy_range(all, 0, split);
    assert(head@ =~= all@.take(split as int));
    let head_text = match text::from_utf8(head.as_slice()) {
        Some(t) => t,
        None => {
            return Err(ClientError::Protocol("doh: bad headers"));
        },
    };
    let lines = text::lines(head_text.as_str());
    assert(text::texts(lines@) == text::lines_of(head_text@));
    if lines.len() == 0 {
        return Err(ClientError::Protocol("doh: empty response"));
    }
    assert(text::texts(lines@)[0] == lines@[0]@);
    let words = text::split_whitespace(lines[0].as_str());
    assert(text::texts(words@) == text::words_of(lines@[0]@));
    if words.len() < 2 {
        assert("200"@.len() == 3) by {
            reveal_strlit("200");
        }
        return Err(ClientError::Protocol("doh: non-200 status"));
    }
    assert(text::texts(words@)[1] == words@[1]@);
    if !text::same(words[1].as_str(), "200") {
        return Err(ClientError::Protocol("doh: non-200 status"));
    }
    let size: usize = all.len();
    assert(octets::occurs_at(all@, header_end(), split as int));
    let body = octets::copy_range(all, split + 4, size);
    assert(body@ =~= all@.skip(split + 4));
    Ok(body)
}

} // verus!
