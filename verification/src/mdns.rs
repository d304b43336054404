//! Multicast DNS service discovery: the query for a service type and the answer that
//! announces a service.
use vstd::prelude::*;
use crate::text::{chars_of, join_chars, join_with, string_from_chars};

verus! {

pub const MDNS_TYPE_A: u16 = 1;
pub const MDNS_TYPE_PTR: u16 = 12;
pub const MDNS_TYPE_TXT: u16 = 16;
pub const MDNS_TYPE_AAAA: u16 = 28;
pub const MDNS_TYPE_SRV: u16 = 33;
pub const MDNS_CLASS_IN: u16 = 1;
pub const MDNS_PORT: u16 = 5353;
/// The bit of a record's class that asks caches to flush older records (RFC 6762, 10.2).
pub const MDNS_CACHE_FLUSH: u16 = 0x8000;

/// The flag fields of a DNS header.
#[derive(Debug, Clone, Copy, PartialEq, Eq, Structural)]
pub struct DnsFlags {
    pub qr: bool,
    pub opcode: u8,
    pub aa: bool,
    pub tc: bool,
    pub rd: bool,
    pub ra: bool,
    pub rcode: u8,
}

/// A DNS header.
#[derive(Debug, Clone, Copy, PartialEq, Eq, Structural)]
pub struct DnsHeader {
    pub id: u16,
    pub flags: DnsFlags,
    pub qdcount: u16,
    pub ancount: u16,
    pub nscount: u16,
    pub arcount: u16,
}

/// A question: a name, a type and a class.
#[derive(Debug, Clone)]
pub struct DnsQuestion {
    pub name: String,
    pub qtype: u16,
    pub qclass: u16,
}

/// The data of the records an announcement carries.
#[derive(Debug, Clone)]
pub enum DnsRecordData {
    A([u8; 4]),
    AAAA([u8; 16]),
    PTR(String),
    TXT(String),
    SRV { priority: u16, weight: u16, port: u16, target: String },
}

/// A resource record.
#[derive(Debug, Clone)]
pub struct DnsRecord {
    pub name: String,
    pub rtype: u16,
    pub class: u16,
    pub ttl: u32,
    pub data: DnsRecordData,
}

/// A DNS message.
#[derive(Debug, Clone)]
pub struct DnsMessage {
    pub header: DnsHeader,
    pub questions: Vec<DnsQuestion>,
    pub answers: Vec<DnsRecord>,
    pub authorities: Vec<DnsRecord>,
    pub additionals: Vec<DnsRecord>,
}

pub struct QuestionModel {
    pub name: Seq<char>,
    pub qtype: u16,
    pub qclass: u16,
}

pub enum RecordDataModel {
    A(Seq<u8>),
    AAAA(Seq<u8>),
    PTR(Seq<char>),
    TXT(Seq<char>),
    SRV { priority: u16, weight: u16, port: u16, target: Seq<char> },
}

pub struct RecordModel {
    pub name: Seq<char>,
    pub rtype: u16,
    pub class: u16,
    pub ttl: u32,
    pub data: RecordDataModel,
}

pub struct DnsMessageModel {
    pub header: DnsHeader,
    pub questions: Seq<QuestionModel>,
    pub answers: Seq<RecordModel>,
    pub authorities: Seq<RecordModel>,
    pub additionals: Seq<RecordModel>,
}

impl View for DnsQuestion {
    type V = QuestionModel;

    open spec fn view(&self) -> QuestionModel {
        QuestionModel { name: self.name@, qtype: self.qtype, qclass: self.qclass }
    }
}

impl View for DnsRecordData {
    type V = RecordDataModel;

    open spec fn view(&self) -> RecordDataModel {
        match self {
            DnsRecordData::A(ip) => RecordDataModel::A(ip@),
            DnsRecordData::AAAA(ip) => RecordDataModel::AAAA(ip@),
            DnsRecordData::PTR(n) => RecordDataModel::PTR(n@),
            DnsRecordData::TXT(t) => RecordDataModel::TXT(t@),
            DnsRecordData::SRV { priority, weight, port, target } => RecordDataModel::SRV {
                priority: *priority,
                weight: *weight,
                port: *port,
                target: target@,
            },
        }
    }
}

impl View for DnsRecord {
    type V = RecordModel;

    open spec fn view(&self) -> RecordModel {
        RecordModel { name: self.name@, rtype: self.rtype, class: self.class, ttl: self.ttl, data: self.data@ }
    }
}

/// The records of a list, as values.
pub open spec fn records_model(rs: Seq<DnsRecord>) -> Seq<RecordModel> {
    rs.map_values(|r: DnsRecord| r@)
}

impl View for DnsMessage {
    type V = DnsMessageModel;

    open spec fn view(&self) -> DnsMessageModel {
        DnsMessageModel {
            header: self.header,
            questions: self.questions@.map_values(|q: DnsQuestion| q@),
            answers: records_model(self.answers@),
            authorities: records_model(self.authorities@),
            additionals: records_model(self.additionals@),
        }
    }
}

impl DnsRecord {
    /// Sets or clears the cache-flush bit of the record's class.
    pub fn set_mdns_cache_flush(&mut self, flush: bool)
        ensures
            final(self).class == if flush { old(self).class | MDNS_CACHE_FLUSH } else { old(self).class & 0x7fff },
            final(self).name == old(self).name,
            final(self).rtype == old(self).rtype,
            final(self).ttl == old(self).ttl,
            final(self).data == old(self).data,
    {
        if flush {
            self.class = self.class | MDNS_CACHE_FLUSH;
        } else {
            self.class = self.class & 0x7fff;
        }
    }
}

/// A name without the dots it ends with.
pub open spec fn trim_dots(s: Seq<char>) -> Seq<char>
    decreases s.len(),
{
    if s.len() > 0 && s.last() == '.' {
        trim_dots(s.drop_last())
    } else {
        s
    }
}

/// A name without the dots it ends with.
pub fn normalize_name(value: &str) -> (r: String)
    ensures
        r@ == trim_dots(value@),
{
    let mut cs = chars_of(value);
    while cs.len() > 0 && cs[cs.len() - 1] == '.'
        invariant
            trim_dots(cs@) == trim_dots(value@),
        decreases cs.len(),
    {
        let ghost before = cs@;
        cs.pop();
        assert(cs@ == before.drop_last());
    }
    string_from_chars(cs.as_slice())
}

/// A service to announce.
#[derive(Debug, Clone)]
pub struct MdnsService {
    pub instance: String,
    pub service_type: String,
    pub host: String,
    pub port: u16,
    pub txt: Vec<(String, String)>,
    pub ipv4: Option<[u8; 4]>,
    pub ipv6: Option<[u8; 16]>,
}

impl MdnsService {
    /// The instance name, without trailing dots.
    pub fn instance_name(&self) -> (r: String)
        ensures
            r@ == trim_dots(self.instance@),
    {
        normalize_name(self.instance.as_str())
    }

    /// The service type, without trailing dots.
    pub fn service_name(&self) -> (r: String)
        ensures
            r@ == trim_dots(self.service_type@),
    {
        normalize_name(self.service_type.as_str())
    }

    /// The host name, without trailing dots.
    pub fn host_name(&self) -> (r: String)
        ensures
            r@ == trim_dots(self.host@),
    {
        normalize_name(self.host.as_str())
    }
}

/// The header of a query: every flag and count clear but one question.
pub open spec fn query_header() -> DnsHeader {
    DnsHeader {
        id: 0,
        flags: DnsFlags { qr: false, opcode: 0, aa: false, tc: false, rd: false, ra: false, rcode: 0 },
        qdcount: 1,
        ancount: 0,
        nscount: 0,
        arcount: 0,
    }
}

/// The query for the instances of a service type: one PTR question of class IN.
pub open spec fn query_spec(service_type: Seq<char>) -> DnsMessageModel {
    DnsMessageModel {
        header: query_header(),
        questions: seq![QuestionModel { name: trim_dots(service_type), qtype: MDNS_TYPE_PTR, qclass: MDNS_CLASS_IN }],
        answers: Seq::empty(),
        authorities: Seq::empty(),
        additionals: Seq::empty(),
    }
}

/// Builds the query for the instances of a service type.
pub fn build_query(service_type: &str) -> (m: DnsMessage)
    ensures
        m@ == query_spec(service_type@),
{
    let name = normalize_name(service_type);
    let q = DnsQuestion { name, qtype: MDNS_TYPE_PTR, qclass: MDNS_CLASS_IN };
    let questions = vec![q];
    let m = DnsMessage {
        header: DnsHeader {
            id: 0,
            flags: DnsFlags { qr: false, opcode: 0, aa: false, tc: false, rd: false, ra: false, rcode: 0 },
            qdcount: 1,
            ancount: 0,
            nscount: 0,
            arcount: 0,
        },
        questions,
        answers: Vec::new(),
        authorities: Vec::new(),
        additionals: Vec::new(),
    };
    assert(m@.questions =~= query_spec(service_type@).questions);
    assert(m@.answers =~= Seq::<RecordModel>::empty());
    assert(m@.authorities =~= Seq::<RecordModel>::empty());
    assert(m@.additionals =~= Seq::<RecordModel>::empty());
    m
}

/// The TXT text of a service: its `key=value` pairs, one per line.
pub open spec fn txt_text(txt: Seq<(String, String)>) -> Seq<char> {
    join_with(txt.map_values(|p: (String, String)| p.0@ + seq!['='] + p.1@), '\n')
}

/// The records that answer for a service: PTR from the service type to the instance,
/// SRV from the instance to the host and port, and TXT with the pairs.
pub open spec fn service_answers(s: MdnsService) -> Seq<RecordModel> {
    let service = trim_dots(s.service_type@);
    let instance = trim_dots(s.instance@);
    let host = trim_dots(s.host@);
    seq![
        RecordModel { name: service, rtype: MDNS_TYPE_PTR, class: MDNS_CLASS_IN, ttl: 120, data: RecordDataModel::PTR(instance) },
        RecordModel {
            name: instance,
            rtype: MDNS_TYPE_SRV,
            class: MDNS_CLASS_IN | MDNS_CACHE_FLUSH,
            ttl: 120,
            data: RecordDataModel::SRV { priority: 0, weight: 0, port: s.port, target: host },
        },
        RecordModel { name: instance, rtype: MDNS_TYPE_TXT, class: MDNS_CLASS_IN, ttl: 120, data: RecordDataModel::TXT(txt_text(s.txt@)) }
    ]
}

/// The address records for a service's host: A, then AAAA, for the addresses it has.
pub open spec fn service_additionals(s: MdnsService) -> Seq<RecordModel> {
    let host = trim_dots(s.host@);
    (match s.ipv4 {
        Some(ip) => seq![RecordModel { name: host, rtype: MDNS_TYPE_A, class: MDNS_CLASS_IN | MDNS_CACHE_FLUSH, ttl: 120, data: RecordDataModel::A(ip@) }],
        None => Seq::empty(),
    }) + match s.ipv6 {
        Some(ip) => seq![RecordModel { name: host, rtype: MDNS_TYPE_AAAA, class: MDNS_CLASS_IN | MDNS_CACHE_FLUSH, ttl: 120, data: RecordDataModel::AAAA(ip@) }],
        None => Seq::empty(),
    }
}

/// The announcement of a service: an authoritative response with the service's answers
/// and its address records.
pub open spec fn response_spec(s: MdnsService) -> DnsMessageModel {
    DnsMessageModel {
        header: DnsHeader {
            id: 0,
            flags: DnsFlags { qr: true, opcode: 0, aa: true, tc: false, rd: false, ra: false, rcode: 0 },
            qdcount: 0,
            ancount: 3,
            nscount: 0,
            arcount: service_additionals(s).len() as u16,
        },
        questions: Seq::empty(),
        answers: service_answers(s),
        authorities: Seq::empty(),
        additionals: service_additionals(s),
    }
}

fn txt_of(txt: &Vec<(String, String)>) -> (r: String)
    ensures
        r@ == txt_text(txt@),
{
    let mut parts: Vec<Vec<char>> = Vec::new();
    let mut i: usize = 0;
    while i < txt.len()
        invariant
            i <= txt.len(),
            parts@.len() == i,
            forall|k: int| 0 <= k < i ==> (#[trigger] parts@[k])@ == txt@[k].0@ + seq!['='] + txt@[k].1@,
        decreases txt.len() - i,
    {
        let mut p = chars_of(txt[i].0.as_str());
        p.push('=');
        let v = chars_of(txt[i].1.as_str());
        let mut j: usize = 0;
        let ghost head = p@;
        while j < v.len()
            invariant
                j <= v.len(),
                p@ == head + v@.subrange(0, j as int),
            decreases v.len() - j,
        {
            p.push(v[j]);
            assert(v@.subrange(0, j + 1) == v@.subrange(0, j as int).push(v@[j as int]));
            j = j + 1;
        }
        assert(v@.subrange(0, j as int) == v@);
        parts.push(p);
        i = i + 1;
    }
    assert(parts@.map_values(|p: Vec<char>| p@) =~= txt@.map_values(|p: (String, String)| p.0@ + seq!['='] + p.1@));
    let joined = join_chars(&parts, '\n');
    string_from_chars(joined.as_slice())
}

/// Builds the announcement of a service.
pub fn build_response(service: &MdnsService) -> (m: DnsMessage)
    ensures
        m@ == response_spec(*service),
{
    let service_name = service.service_name();
    let instance_name = service.instance_name();
    let host_name = service.host_name();
    let mut answers: Vec<DnsRecord> = Vec::new();
    let mut additionals: Vec<DnsRecord> = Vec::new();
    answers.push(DnsRecord {
        name: service_name,
        rtype: MDNS_TYPE_PTR,
        class: MDNS_CLASS_IN,
        ttl: 120,
        data: DnsRecordData::PTR(instance_name.clone()),
    });
    let mut srv = DnsRecord {
        name: instance_name.clone(),
        rtype: MDNS_TYPE_SRV,
        class: MDNS_CLASS_IN,
        ttl: 120,
        data: DnsRecordData::SRV { priority: 0, weight: 0, port: service.port, target: host_name.clone() },
    };
    srv.set_mdns_cache_flush(true);
    answers.push(srv);
    answers.push(DnsRecord {
        name: instance_name,
        rtype: MDNS_TYPE_TXT,
        class: MDNS_CLASS_IN,
        ttl: 120,
        data: DnsRecordData::TXT(txt_of(&service.txt)),
    });
    if let Some(ip) = service.ipv4 {
        let mut record = DnsRecord {
            name: host_name.clone(),
            rtype: MDNS_TYPE_A,
            class: MDNS_CLASS_IN,
            ttl: 120,
            data: DnsRecordData::A(ip),
        };
        record.set_mdns_cache_flush(true);
        additionals.push(record);
    }
    if let Some(ip) = service.ipv6 {
        let mut record = DnsRecord {
            name: host_name,
            rtype: MDNS_TYPE_AAAA,
            class: MDNS_CLASS_IN,
            ttl: 120,
            data: DnsRecordData::AAAA(ip),
        };
        record.set_mdns_cache_flush(true);
        additionals.push(record);
    }
    let arcount = additionals.len() as u16;
    let m = DnsMessage {
        header: DnsHeader {
            id: 0,
            flags: DnsFlags { qr: true, opcode: 0, aa: true, tc: false, rd: false, ra: false, rcode: 0 },
            qdcount: 0,
            ancount: 3,
            nscount: 0,
            arcount,
        },
        questions: Vec::new(),
        answers,
        authorities: Vec::new(),
        additionals,
    };
    assert(m@.questions =~= Seq::<QuestionModel>::empty());
    assert(m@.authorities =~= Seq::<RecordModel>::empty());
    assert(m@.answers =~= service_answers(*service));
    assert(m@.additionals =~= service_additionals(*service));
    m
}

/// An announcement answers the query for its service type: the first answer is a PTR
/// record owned by the very name the query asks about and pointing to the instance name;
/// the instance name owns the SRV record, which points to the host and port, and the TXT
/// record; the address records are owned by the host.
pub proof fn lemma_announcement_links(s: MdnsService)
    ensures
        response_spec(s).answers.len() == 3,
        response_spec(s).answers[0].name == query_spec(s.service_type@).questions[0].name,
        response_spec(s).answers[0].rtype == MDNS_TYPE_PTR,
        response_spec(s).answers[0].data == RecordDataModel::PTR(trim_dots(s.instance@)),
        response_spec(s).answers[0].data == RecordDataModel::PTR(response_spec(s).answers[1].name),
        response_spec(s).answers[1].name == trim_dots(s.instance@),
        response_spec(s).answers[1].rtype == MDNS_TYPE_SRV,
        response_spec(s).answers[1].data matches RecordDataModel::SRV { port, target, .. } && port == s.port
            && target == trim_dots(s.host@),
        response_spec(s).answers[2].name == trim_dots(s.instance@),
        response_spec(s).answers[2].rtype == MDNS_TYPE_TXT,
        forall|i: int|
            0 <= i < response_spec(s).additionals.len() ==> (#[trigger] response_spec(s).additionals[i]).name
                == trim_dots(s.host@),
{
}

/// An announcement is an authoritative response with no questions, whose counts match its
/// sections.
pub proof fn lemma_announcement_header(s: MdnsService)
    ensures
        response_spec(s).header.flags.qr,
        response_spec(s).header.flags.aa,
        response_spec(s).questions.len() == 0,
        response_spec(s).header.ancount == response_spec(s).answers.len(),
        response_spec(s).header.arcount == response_spec(s).additionals.len(),
        response_spec(s).additionals.len() == (if s.ipv4 is Some { 1int } else { 0 }) + (if s.ipv6 is Some {
            1int
        } else {
            0
        }),
{
}

} // verus!
