//! DNS messages as plain values, and their wire form.
use hickory_proto::op::{
    Message, MessageType as WireMessageType, OpCode, Query, ResponseCode as WireCode,
};
use hickory_proto::rr::{Name, RData, Record as WireRecord, RecordType as WireRecordType};
use hickory_proto::serialize::binary::{BinDecodable, BinEncodable};
use vstd::prelude::*;

verus! {

/// Whether a message asks or answers.
#[derive(Clone, Copy, Debug, PartialEq, Eq, Structural)]
pub enum MessageType {
    Query,
    Response,
}

/// The operation code of a standard query.
pub const OP_QUERY: u8 = 0;

/// The response code of a successful response.
pub const RCODE_NO_ERROR: u16 = 0;

/// The response code for a name that does not exist.
pub const RCODE_NX_DOMAIN: u16 = 3;

/// The Internet class.
pub const CLASS_IN: u16 = 1;

/// A domain name: its labels, the most specific one first.
#[derive(Debug)]
pub struct DnsName {
    pub labels: Vec<Vec<u8>>,
}

/// One question of a message.
#[derive(Debug)]
pub struct Question {
    pub name: DnsName,
    pub query_type: u16,
    pub query_class: u16,
}

/// The data of an answer record, as far as the client reads it.
#[derive(Debug)]
pub enum RecordData {
    A(u32),
    Aaaa(u128),
    Cname(DnsName),
    Other,
}

/// One record of the answer section.
#[derive(Debug)]
pub struct Record {
    pub name: DnsName,
    pub dns_class: u16,
    pub ttl: u32,
    pub data: RecordData,
}

/// One record of the authority section, as far as the client reads it: how
/// long it may be kept and, for a start-of-authority record, its minimum field.
#[derive(Clone, Copy, Debug, PartialEq, Eq, Structural)]
pub struct Authority {
    pub ttl: u32,
    pub soa_minimum: Option<u32>,
}

/// How a response came out.
#[derive(Clone, Copy, Debug, PartialEq, Eq, Structural)]
pub enum ResponseCode {
    /// By its number.
    Number(u16),
    /// A bad version, which shares its number with a bad signature.
    BadVers,
}

/// A message.
#[derive(Debug)]
pub struct DnsMessage {
    pub id: u16,
    pub message_type: MessageType,
    pub op_code: u8,
    pub truncation: bool,
    pub recursion_desired: bool,
    pub recursion_available: bool,
    pub response_code: ResponseCode,
    pub queries: Vec<Question>,
    pub answers: Vec<Record>,
    pub authorities: Vec<Authority>,
}

/// The model of a [`DnsName`].
pub type NameModel = Seq<Seq<u8>>;

/// The model of a [`Question`].
#[verifier::ext_equal]
pub struct QuestionModel {
    pub name: NameModel,
    pub query_type: u16,
    pub query_class: u16,
}

/// The model of a [`RecordData`].
#[verifier::ext_equal]
pub enum DataModel {
    A(u32),
    Aaaa(u128),
    Cname(NameModel),
    Other,
}

/// The model of a [`Record`].
#[verifier::ext_equal]
pub struct RecordModel {
    pub name: NameModel,
    pub dns_class: u16,
    pub ttl: u32,
    pub data: DataModel,
}

/// The model of a [`DnsMessage`].
#[verifier::ext_equal]
pub struct MessageModel {
    pub id: u16,
    pub message_type: MessageType,
    pub op_code: u8,
    pub truncation: bool,
    pub recursion_desired: bool,
    pub recursion_available: bool,
    pub response_code: ResponseCode,
    pub queries: Seq<QuestionModel>,
    pub answers: Seq<RecordModel>,
    pub authorities: Seq<Authority>,
}

impl View for DnsName {
    type V = NameModel;

    open spec fn view(&self) -> NameModel {
        self.labels@.map_values(|l: Vec<u8>| l@)
    }
}

impl View for Question {
    type V = QuestionModel;

    open spec fn view(&self) -> QuestionModel {
        QuestionModel {
            name: self.name@,
            query_type: self.query_type,
            query_class: self.query_class,
        }
    }
}

impl View for RecordData {
    type V = DataModel;

    open spec fn view(&self) -> DataModel {
        match self {
            RecordData::A(a) => DataModel::A(*a),
            RecordData::Aaaa(a) => DataModel::Aaaa(*a),
            RecordData::Cname(n) => DataModel::Cname(n@),
            RecordData::Other => DataModel::Other,
        }
    }
}

impl View for Record {
    type V = RecordModel;

    open spec fn view(&self) -> RecordModel {
        RecordModel {
            name: self.name@,
            dns_class: self.dns_class,
            ttl: self.ttl,
            data: self.data@,
        }
    }
}

/// The models of some records.
pub open spec fn records_of(records: Seq<Record>) -> Seq<RecordModel> {
    records.map_values(|r: Record| r@)
}

/// The models of some questions.
pub open spec fn questions_of(questions: Seq<Question>) -> Seq<QuestionModel> {
    questions.map_values(|q: Question| q@)
}

impl View for DnsMessage {
    type V = MessageModel;

    open spec fn view(&self) -> MessageModel {
        MessageModel {
            id: self.id,
            message_type: self.message_type,
            op_code: self.op_code,
            truncation: self.truncation,
            recursion_desired: self.recursion_desired,
            recursion_available: self.recursion_available,
            response_code: self.response_code,
            queries: questions_of(self.queries@),
            answers: records_of(self.answers@),
            authorities: self.authorities@,
        }
    }
}

/// The header of a message.
#[derive(Clone, Copy, Debug, PartialEq, Eq, Structural)]
pub struct MessageHeader {
    pub id: u16,
    pub message_type: MessageType,
    pub op_code: u8,
    pub truncation: bool,
    pub recursion_desired: bool,
    pub recursion_available: bool,
    pub response_code: ResponseCode,
}

/// The header of the message that some bytes encode, or why they encode none.
pub uninterp spec fn decoded_header(wire: Seq<u8>) -> Result<MessageHeader, Seq<char>>;

/// The questions of the message that some bytes encode, if they encode one.
pub uninterp spec fn decoded_questions(wire: Seq<u8>) -> Option<Seq<QuestionModel>>;

/// The answer section of the message that some bytes encode, if they encode
/// one.
pub uninterp spec fn decoded_answers(wire: Seq<u8>) -> Option<Seq<RecordModel>>;

/// The authority section of the message that some bytes encode, if they encode
/// one.
pub uninterp spec fn decoded_authorities(wire: Seq<u8>) -> Option<Seq<Authority>>;

/// `hickory_proto`'s `Message::from_bytes` decodes a message or fails; this
/// hands out the header. Which bytes encode which message is not stated here.
#[verifier::external_body]
fn decode_header(wire: &[u8]) -> (header: Result<MessageHeader, String>)
    ensures
        match header {
            Ok(h) => decoded_header(wire@) == Ok::<MessageHeader, Seq<char>>(h),
            Err(e) => decoded_header(wire@) == Err::<MessageHeader, Seq<char>>(e@),
        },
{
    let h = Message::from_bytes(wire).map_err(|e| e.to_string())?.metadata;
    Ok(MessageHeader {
        id: h.id,
        message_type: match h.message_type {
            WireMessageType::Query => MessageType::Query,
            WireMessageType::Response => MessageType::Response,
        },
        op_code: u8::from(h.op_code),
        truncation: h.truncation,
        recursion_desired: h.recursion_desired,
        recursion_available: h.recursion_available,
        response_code: ResponseCode::Number(h.response_code.into()),
    })
}

/// `hickory_proto`'s `Message::from_bytes` decodes a message or fails; this
/// hands out the questions, where there is a header. Which bytes encode which
/// message is not stated here.
#[verifier::external_body]
fn decode_questions(wire: &[u8]) -> (questions: Option<Vec<Question>>)
    ensures
        match questions {
            Some(q) => decoded_questions(wire@) == Some(questions_of(q@)),
            None => decoded_questions(wire@) is None,
        },
        questions is Some == (decoded_header(wire@) is Ok),
{
    let m = Message::from_bytes(wire).ok()?;
    let question = |q: &Query| Question {
        name: DnsName { labels: q.name.iter().map(<[u8]>::to_vec).collect() },
        query_type: u16::from(q.query_type),
        query_class: u16::from(q.query_class),
    };
    Some(m.queries.iter().map(question).collect())
}

/// `hickory_proto`'s `Message::from_bytes` decodes a message or fails; this
/// hands out the answer section, where there is a header. Which bytes encode
/// which message is not stated here.
#[verifier::external_body]
fn decode_answers(wire: &[u8]) -> (answers: Option<Vec<Record>>)
    ensures
        match answers {
            Some(r) => decoded_answers(wire@) == Some(records_of(r@)),
            None => decoded_answers(wire@) is None,
        },
        answers is Some == (decoded_header(wire@) is Ok),
{
    let m = Message::from_bytes(wire).ok()?;
    let name = |n: &Name| DnsName { labels: n.iter().map(<[u8]>::to_vec).collect() };
    let record = |r: &WireRecord| Record {
        name: name(&r.name),
        dns_class: u16::from(r.dns_class),
        ttl: r.ttl,
        data: match &r.data {
            RData::A(a) => RecordData::A(u32::from(a.0)),
            RData::AAAA(a) => RecordData::Aaaa(u128::from(a.0)),
            RData::CNAME(c) => RecordData::Cname(name(&c.0)),
            _ => RecordData::Other,
        },
    };
    Some(m.answers.iter().map(record).collect())
}

/// `hickory_proto`'s `Message::from_bytes` decodes a message or fails; this
/// hands out the authority section, where there is a header. Which bytes encode
/// which message is not stated here.
#[verifier::external_body]
fn decode_authorities(wire: &[u8]) -> (authorities: Option<Vec<Authority>>)
    ensures
        match authorities {
            Some(r) => decoded_authorities(wire@) == Some(r@),
            None => decoded_authorities(wire@) is None,
        },
        authorities is Some == (decoded_header(wire@) is Ok),
{
    let m = Message::from_bytes(wire).ok()?;
    let authority = |r: &WireRecord| Authority {
        ttl: r.ttl,
        soa_minimum: match &r.data {
            RData::SOA(s) => Some(s.minimum),
            _ => None,
        },
    };
    Some(m.authorities.iter().map(authority).collect())
}

/// The message that some bytes encode, if they encode one.
pub open spec fn decoded_message(wire: Seq<u8>) -> Option<MessageModel> {
    match (
        decoded_header(wire),
        decoded_questions(wire),
        decoded_answers(wire),
        decoded_authorities(wire),
    ) {
        (Ok(h), Some(queries), Some(answers), Some(authorities)) => Some(
            MessageModel {
                id: h.id,
                message_type: h.message_type,
                op_code: h.op_code,
                truncation: h.truncation,
                recursion_desired: h.recursion_desired,
                recursion_available: h.recursion_available,
                response_code: h.response_code,
                queries,
                answers,
                authorities,
            },
        ),
        _ => None,
    }
}

/// Decodes a message from its wire form, or says why it is none.
pub fn decode_message(wire: &[u8]) -> (m: Result<DnsMessage, String>)
    ensures
        match m {
            Ok(d) => decoded_message(wire@) == Some(d@),
            Err(e) => decoded_message(wire@) is None && decoded_header(wire@) == Err::<
                MessageHeader,
                Seq<char>,
            >(e@),
        },
{
    let h = match decode_header(wire) {
        Ok(h) => h,
        Err(e) => {
            return Err(e);
        },
    };
    match (decode_questions(wire), decode_answers(wire), decode_authorities(wire)) {
        (Some(queries), Some(answers), Some(authorities)) => Ok(
            DnsMessage {
                id: h.id,
                message_type: h.message_type,
                op_code: h.op_code,
                truncation: h.truncation,
                recursion_desired: h.recursion_desired,
                recursion_available: h.recursion_available,
                response_code: h.response_code,
                queries,
                answers,
                authorities,
            },
        ),
        _ => Err(String::new()),
    }
}

/// The name that a text writes, if it writes one.
pub uninterp spec fn parsed_name(name: Seq<char>) -> Option<NameModel>;

/// The wire form of a query with one question of the Internet class, or why it
/// has none.
pub uninterp spec fn encoded_query(
    id: u16,
    name: Seq<char>,
    record_type: u16,
    recursion_desired: bool,
) -> Result<Seq<u8>, Seq<char>>;

/// The name of a response code.
pub uninterp spec fn response_code_name(code: ResponseCode) -> Seq<char>;

/// `FromStr` of `hickory_proto`'s `Name`. Which texts write which name is not
/// stated here.
#[verifier::external_body]
pub(crate) fn parse_name(name: &str) -> (out: Option<DnsName>)
    ensures
        match out {
            Some(n) => parsed_name(name@) == Some(n@),
            None => parsed_name(name@) is None,
        },
{
    let parsed = name.parse::<Name>().ok()?;
    Some(DnsName { labels: parsed.iter().map(<[u8]>::to_vec).collect() })
}

/// `hickory_proto`'s `Message::to_bytes` writes a query with one question. Its
/// wire form is not stated here.
#[verifier::external_body]
pub(crate) fn encode_query(id: u16, name: &str, record_type: u16, recursion_desired: bool) -> (out:
    Result<Vec<u8>, String>)
    ensures
        match out {
            Ok(wire) => encoded_query(id, name@, record_type, recursion_desired) == Ok::<
                Seq<u8>,
                Seq<char>,
            >(wire@),
            Err(e) => encoded_query(id, name@, record_type, recursion_desired) == Err::<
                Seq<u8>,
                Seq<char>,
            >(e@),
        },
{
    let mut msg = Message::new(id, WireMessageType::Query, OpCode::Query);
    msg.metadata.recursion_desired = recursion_desired;
    let name = name.parse::<Name>().map_err(|e| e.to_string())?;
    msg.add_query(Query::query(name, WireRecordType::from(record_type)));
    msg.to_bytes().map_err(|e| e.to_string())
}

/// The `Debug` form of `hickory_proto`'s `ResponseCode`. The names are not
/// stated here.
#[verifier::external_body]
pub(crate) fn response_code_text(code: ResponseCode) -> (out: String)
    ensures
        out@ == response_code_name(code),
{
    let code: WireCode = match code {
        ResponseCode::Number(n) => n.into(),
        ResponseCode::BadVers => WireCode::BADVERS,
    };
    format!("{code:?}")
}

} // verus!
