//! DNS messages as the filter reads and writes them: the header fields it
//! uses and the question section. Wire encoding and decoding are done by
//! `trust_dns_proto`.

use vstd::prelude::*;

use trust_dns_proto::op::{Message, MessageType as WireType, OpCode, Query};
use trust_dns_proto::rr::{DNSClass, Name, RecordType};
use trust_dns_proto::serialize::binary::{BinDecodable, BinEncodable};

verus! {

/// Operation code of a standard query.
pub const OP_QUERY: u8 = 0;

/// Response code: no error.
pub const RCODE_NO_ERROR: u16 = 0;

/// Response code: format error.
pub const RCODE_FORMERR: u16 = 1;

/// Response code: server failure.
pub const RCODE_SERVFAIL: u16 = 2;

/// Response code: non-existent domain.
pub const RCODE_NXDOMAIN: u16 = 3;

/// Record type A.
pub const TYPE_A: u16 = 1;

/// Record type AAAA.
pub const TYPE_AAAA: u16 = 28;

/// Class IN.
pub const CLASS_IN: u16 = 1;

/// Whether a message asks or answers.
#[derive(Clone, Copy, Debug, PartialEq, Eq, Structural)]
pub enum MessageType {
    Query,
    Response,
}

/// A domain name: its labels as bytes, whether it is fully qualified, and
/// its text form.
#[derive(Clone, Debug)]
pub struct DnsName {
    labels: Vec<Vec<u8>>,
    fqdn: bool,
    text: String,
}

/// A domain name as values.
pub struct NameView {
    pub labels: Seq<Seq<u8>>,
    pub fqdn: bool,
    pub text: Seq<char>,
}

impl View for DnsName {
    type V = NameView;

    closed spec fn view(&self) -> NameView {
        NameView {
            labels: self.labels@.map_values(|l: Vec<u8>| l@),
            fqdn: self.fqdn,
            text: self.text@,
        }
    }
}

/// A question: a name, a record type and a class.
#[derive(Clone, Debug)]
pub struct DnsQuestion {
    pub name: DnsName,
    pub query_type: u16,
    pub query_class: u16,
}

/// A question as values.
pub struct QuestionView {
    pub name: NameView,
    pub query_type: u16,
    pub query_class: u16,
}

impl View for DnsQuestion {
    type V = QuestionView;

    open spec fn view(&self) -> QuestionView {
        QuestionView { name: self.name@, query_type: self.query_type, query_class: self.query_class }
    }
}

/// A DNS message: the header fields that the filter reads or sets, and the
/// questions.
#[derive(Clone, Debug)]
pub struct DnsMessage {
    pub id: u16,
    pub message_type: MessageType,
    pub op_code: u8,
    pub recursion_desired: bool,
    pub recursion_available: bool,
    pub response_code: u16,
    pub queries: Vec<DnsQuestion>,
}

/// A message as values.
pub struct MessageView {
    pub id: u16,
    pub message_type: MessageType,
    pub op_code: u8,
    pub recursion_desired: bool,
    pub recursion_available: bool,
    pub response_code: u16,
    pub queries: Seq<QuestionView>,
}

impl View for DnsMessage {
    type V = MessageView;

    open spec fn view(&self) -> MessageView {
        MessageView {
            id: self.id,
            message_type: self.message_type,
            op_code: self.op_code,
            recursion_desired: self.recursion_desired,
            recursion_available: self.recursion_available,
            response_code: self.response_code,
            queries: self.queries@.map_values(|q: DnsQuestion| q@),
        }
    }
}

/// What `Message::from_bytes` reads from bytes, as the fields above.
pub uninterp spec fn decoded_message(bytes: Seq<u8>) -> Option<MessageView>;

/// What decoding a message, setting its id, and encoding it again gives.
pub uninterp spec fn reencoded_with_id(bytes: Seq<u8>, id: u16) -> Option<Seq<u8>>;

/// Whether a class code names a class that `DNSClass::from_u16` knows.
pub open spec fn class_known(class: u16) -> bool {
    class == 1 || class == 3 || class == 4 || class == 254 || class == 255
}

/// Whether every question of a message has a known class.
pub open spec fn classes_known(m: MessageView) -> bool {
    forall|i: int| 0 <= i < m.queries.len() ==> class_known(#[trigger] m.queries[i].query_class)
}

/// What `Message::to_bytes` writes for a message with these fields.
pub uninterp spec fn encoded_message(m: MessageView) -> Option<Seq<u8>>;

/// What `Name::from_ascii` reads from a text.
pub uninterp spec fn ascii_name(s: Seq<char>) -> Option<NameView>;

/// What `Display` of `RecordType` writes for a type code.
pub uninterp spec fn record_type_text(code: u16) -> Seq<char>;

/// What `Debug` of `RecordType` writes for a type code.
pub uninterp spec fn record_type_debug_text(code: u16) -> Seq<char>;

/// What `Debug` of `DNSClass` writes for a class code that
/// `DNSClass::from_u16` accepts.
pub uninterp spec fn class_debug_text(class: u16) -> Seq<char>;

/// `Message::from_bytes`, its result turned into the fields above; `None`
/// when the bytes are no message. The result is named, as a function of the
/// bytes alone.
#[verifier::external_body]
pub(crate) fn decode_message(bytes: &[u8]) -> (res: Option<DnsMessage>)
    ensures
        res matches Some(m) ==> decoded_message(bytes@) == Some(m@) && classes_known(m@),
        res is None ==> decoded_message(bytes@) is None,
{
    let m = Message::from_bytes(bytes).ok()?;
    Some(DnsMessage {
        id: m.id(),
        message_type: if m.message_type() == WireType::Query { MessageType::Query } else { MessageType::Response },
        op_code: m.op_code().into(),
        recursion_desired: m.recursion_desired(),
        recursion_available: m.recursion_available(),
        response_code: m.response_code().into(),
        queries: m.queries().iter().map(|q| { let n = q.name(); DnsQuestion {
            name: DnsName { labels: n.iter().map(<[u8]>::to_vec).collect(), fqdn: n.is_fqdn(), text: n.to_utf8() },
            query_type: q.query_type().into(),
            query_class: q.query_class().into(),
        } }).collect(),
    })
}

/// `Message::to_bytes` of the message these fields describe; `None` when
/// the fields cannot be encoded. The result is named, as a function of the
/// fields alone.
#[verifier::external_body]
pub(crate) fn encode_message(m: &DnsMessage) -> (res: Option<Vec<u8>>)
    ensures
        res matches Some(b) ==> encoded_message(m@) == Some(b@),
        res is None ==> encoded_message(m@) is None,
{
    let mut out = Message::new();
    out.set_id(m.id).set_op_code(OpCode::from_u8(m.op_code).ok()?).set_recursion_desired(m.recursion_desired).set_recursion_available(m.recursion_available).set_response_code(m.response_code.into());
    out.set_message_type(match m.message_type { MessageType::Query => WireType::Query, MessageType::Response => WireType::Response });
    for q in &m.queries {
        let mut name = Name::from_labels(q.name.labels.iter().map(|l| l.as_slice())).ok()?;
        name.set_fqdn(q.name.fqdn);
        let mut query = Query::query(name, q.query_type.into());
        query.set_query_class(DNSClass::from_u16(q.query_class).ok()?);
        out.add_query(query);
    }
    out.to_bytes().ok()
}

/// `Message::from_bytes`, `Message::set_id` and `Message::to_bytes` in
/// turn: the message with its id replaced; `None` when the bytes are no
/// message or cannot be encoded again. The result is named, as a function of
/// the bytes and the id alone.
#[verifier::external_body]
pub(crate) fn with_message_id(bytes: &[u8], id: u16) -> (res: Option<Vec<u8>>)
    ensures
        res matches Some(b) ==> reencoded_with_id(bytes@, id) == Some(b@),
        res is None ==> reencoded_with_id(bytes@, id) is None,
{
    let mut m = Message::from_bytes(bytes).ok()?;
    m.set_id(id);
    m.to_bytes().ok()
}

/// `Display` of the record type with this code.
#[verifier::external_body]
pub(crate) fn record_type_name(code: u16) -> (res: String)
    ensures
        res@ == record_type_text(code),
{
    format!("{}", RecordType::from(code))
}

/// `Debug` of the record type with this code.
#[verifier::external_body]
pub(crate) fn record_type_debug(code: u16) -> (res: String)
    ensures
        res@ == record_type_debug_text(code),
{
    format!("{:?}", RecordType::from(code))
}

/// `Debug` of the class with this code. `DNSClass::from_u16` accepts every
/// known class code.
#[verifier::external_body]
pub(crate) fn class_debug(class: u16) -> (res: String)
    requires
        class_known(class),
    ensures
        res@ == class_debug_text(class),
{
    format!("{:?}", DNSClass::from_u16(class).unwrap())
}

/// `Name::from_ascii`: the name that an ASCII text writes, if any.
#[verifier::external_body]
fn name_from_ascii(s: &str) -> (res: Option<DnsName>)
    ensures
        res matches Some(n) ==> ascii_name(s@) == Some(n@),
        res is None ==> ascii_name(s@) is None,
{
    let n = Name::from_ascii(s).ok()?;
    Some(DnsName { labels: n.iter().map(|l| l.to_vec()).collect(), fqdn: n.is_fqdn(), text: n.to_utf8() })
}

impl DnsName {
    /// The name that an ASCII text writes, if any.
    pub fn from_ascii(s: &str) -> (res: Option<DnsName>)
        ensures
            res matches Some(n) ==> ascii_name(s@) == Some(n@),
            res is None ==> ascii_name(s@) is None,
    {
        name_from_ascii(s)
    }

    /// A copy of the name.
    pub fn duplicate(&self) -> (r: DnsName)
        ensures
            r@ == self@,
    {
        let mut labels: Vec<Vec<u8>> = Vec::new();
        let mut k: usize = 0;
        while k < self.labels.len()
            invariant
                k <= self.labels@.len(),
                labels@.len() == k,
                labels@.map_values(|l: Vec<u8>| l@) == self.labels@.subrange(0, k as int).map_values(
                    |l: Vec<u8>| l@,
                ),
            decreases self.labels@.len() - k,
        {
            let l = copy_bytes(self.labels[k].as_slice());
            assert(l@ == self.labels@[k as int]@);
            let ghost before = labels@;
            labels.push(l);
            assert(labels@[k as int]@ == self.labels@[k as int]@);
            assert forall|i: int| 0 <= i < k implies labels@[i]@ == self.labels@[i]@ by {
                assert(labels@[i] == before[i]);
                assert(before.map_values(|l: Vec<u8>| l@)[i] == self.labels@.subrange(0, k as int).map_values(
                    |l: Vec<u8>| l@,
                )[i]);
            }
            k = k + 1;
            assert(labels@.map_values(|l: Vec<u8>| l@) =~= self.labels@.subrange(0, k as int).map_values(
                |l: Vec<u8>| l@,
            ));
        }
        assert(self.labels@.subrange(0, self.labels@.len() as int) =~= self.labels@);
        DnsName { labels, fqdn: self.fqdn, text: self.text.clone() }
    }

    /// The text form of the name.
    pub fn text(&self) -> (r: &String)
        ensures
            r@ == self@.text,
    {
        &self.text
    }

    /// Whether the name is fully qualified.
    pub fn is_fqdn(&self) -> (b: bool)
        ensures
            b == self@.fqdn,
    {
        self.fqdn
    }
}

/// A copy of some bytes.
pub fn copy_bytes(b: &[u8]) -> (r: Vec<u8>)
    ensures
        r@ == b@,
{
    let mut out: Vec<u8> = Vec::new();
    let mut k: usize = 0;
    while k < b.len()
        invariant
            k <= b@.len(),
            out@ == b@.subrange(0, k as int),
        decreases b@.len() - k,
    {
        out.push(b[k]);
        k = k + 1;
        assert(out@ =~= b@.subrange(0, k as int));
    }
    assert(b@.subrange(0, b@.len() as int) =~= b@);
    out
}

/// Copies of some questions.
pub fn copy_questions(qs: &Vec<DnsQuestion>) -> (r: Vec<DnsQuestion>)
    ensures
        r@.map_values(|q: DnsQuestion| q@) == qs@.map_values(|q: DnsQuestion| q@),
{
    let mut out: Vec<DnsQuestion> = Vec::new();
    let mut k: usize = 0;
    while k < qs.len()
        invariant
            k <= qs@.len(),
            out@.len() == k,
            out@.map_values(|q: DnsQuestion| q@) == qs@.subrange(0, k as int).map_values(
                |q: DnsQuestion| q@,
            ),
        decreases qs@.len() - k,
    {
        let q = DnsQuestion {
            name: qs[k].name.duplicate(),
            query_type: qs[k].query_type,
            query_class: qs[k].query_class,
        };
        assert(q@ == qs@[k as int]@);
        let ghost before = out@;
        out.push(q);
        assert forall|i: int| 0 <= i < k implies out@[i]@ == qs@[i]@ by {
            assert(out@[i] == before[i]);
            assert(before.map_values(|q: DnsQuestion| q@)[i] == qs@.subrange(0, k as int).map_values(
                |q: DnsQuestion| q@,
            )[i]);
        }
        k = k + 1;
        assert(out@.map_values(|q: DnsQuestion| q@) =~= qs@.subrange(0, k as int).map_values(
            |q: DnsQuestion| q@,
        ));
    }
    assert(qs@.subrange(0, qs@.len() as int) =~= qs@);
    out
}

impl DnsQuestion {
    /// A question of class IN.
    pub fn new(name: DnsName, query_type: u16) -> (q: DnsQuestion)
        ensures
            q@ == (QuestionView { name: name@, query_type, query_class: CLASS_IN }),
    {
        DnsQuestion { name, query_type, query_class: CLASS_IN }
    }
}

impl DnsMessage {
    /// A message with no questions and every flag clear, as `Message::new`.
    pub fn new(id: u16, message_type: MessageType) -> (m: DnsMessage)
        ensures
            m@ == (MessageView {
                id,
                message_type,
                op_code: OP_QUERY,
                recursion_desired: false,
                recursion_available: false,
                response_code: RCODE_NO_ERROR,
                queries: Seq::empty(),
            }),
    {
        let m = DnsMessage {
            id,
            message_type,
            op_code: OP_QUERY,
            recursion_desired: false,
            recursion_available: false,
            response_code: RCODE_NO_ERROR,
            queries: Vec::new(),
        };
        assert(m@.queries =~= Seq::<QuestionView>::empty());
        m
    }

    /// Appends a question.
    pub fn add_query(&mut self, q: DnsQuestion)
        ensures
            final(self)@ == (MessageView { queries: old(self)@.queries.push(q@), ..old(self)@ }),
    {
        self.queries.push(q);
        assert(self@.queries =~= old(self)@.queries.push(q@));
    }

    /// The wire form of the message.
    pub fn to_bytes(&self) -> (res: Option<Vec<u8>>)
        ensures
            res matches Some(b) ==> encoded_message(self@) == Some(b@),
            res is None ==> encoded_message(self@) is None,
    {
        encode_message(self)
    }

    /// The message that bytes hold, if any.
    pub fn from_bytes(bytes: &[u8]) -> (res: Option<DnsMessage>)
        ensures
            res matches Some(m) ==> decoded_message(bytes@) == Some(m@) && classes_known(m@),
            res is None ==> decoded_message(bytes@) is None,
    {
        decode_message(bytes)
    }
}

} // verus!
