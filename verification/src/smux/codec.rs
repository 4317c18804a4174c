//! The encoding of the SMUX PDUs.

use vstd::prelude::*;
use vstd::slice::slice_subrange;

use crate::ber::be;
use crate::ber::ber_integer;
use crate::ber::ber_integer_content;
use crate::ber::ber_octet_string;
use crate::ber::ber_oid;
use crate::ber::ber_tlv;
use crate::ber::ber_unsigned_content;
use crate::ber::int_octets;
use crate::ber::int_value;
use crate::ber::lemma_tlv_size;
use crate::ber::oid_octets;
use crate::ber::oid_of;
use crate::ber::packable;
use crate::ber::parse_integer;
use crate::ber::parse_octet_string;
use crate::ber::parse_oid;
use crate::ber::parse_tlv;
use crate::ber::parse_unsigned;
use crate::ber::parse_unsigned_u64;
use crate::ber::push_bytes;
use crate::ber::tlv_octets;
use crate::ber::tlv_of;
use crate::ber::unsigned_octets;
use crate::ber::wrap_i64;
use crate::ber::Truncated;
use crate::oid::copy_arcs;
use crate::oid::Oid;
use crate::pdu::Pdu;
use crate::pdu::PduType;
use crate::pdu::PduView;
use crate::pdu::Version;
use crate::smux::tags::SMUX_CLOSE;
use crate::smux::tags::SMUX_OPEN;
use crate::smux::tags::SMUX_RRSP;
use crate::smux::tags::SMUX_SOUT;
use crate::text::bytes_text;
use crate::text::text_of_bytes;
use crate::value::binds;
use crate::value::utf8;
use crate::value::Ipv4Addr;
use crate::value::Value;
use crate::value::ValueView;
use crate::value::VarBind;
use crate::value::VarBindView;

verus! {

/// The codes that answer a register request.
#[derive(Clone, Copy, Debug, PartialEq, Eq, Structural)]
pub enum RRspCode {
    /// Rejected.
    Reject,
    /// Accepted for reading.
    ReadOnly,
    /// Accepted for reading and writing.
    ReadWrite,
}

impl RRspCode {
    /// The number carried on the wire.
    pub open spec fn code_of(self) -> i64 {
        match self {
            RRspCode::Reject => -1i64,
            RRspCode::ReadOnly => 0,
            RRspCode::ReadWrite => 1,
        }
    }

    /// The number carried on the wire.
    pub fn code(self) -> (r: i64)
        ensures
            r == self.code_of(),
    {
        match self {
            RRspCode::Reject => -1,
            RRspCode::ReadOnly => 0,
            RRspCode::ReadWrite => 1,
        }
    }
}

/// Opens a session.
#[derive(Debug, PartialEq, Eq)]
pub struct SmuxOpen {
    /// The protocol version; zero is version 1.
    pub version: i64,
    /// The identity of the peer.
    pub identity: Oid,
    /// A description of the peer.
    pub description: String,
    /// The shared password.
    pub password: String,
}

/// Closes a session.
#[derive(Clone, Copy, Debug, PartialEq, Eq, Structural)]
pub struct SmuxClose {
    /// The reason.
    pub code: i64,
}

/// Answers a register request.
#[derive(Clone, Copy, Debug, PartialEq, Eq, Structural)]
pub struct SmuxRRsp {
    /// The code.
    pub code: i64,
}

/// Signals a commit.
#[derive(Clone, Copy, Debug, PartialEq, Eq, Structural)]
pub struct SmuxSout {
    /// The argument.
    pub arg: i64,
}

/// A community message.
#[derive(Debug, PartialEq, Eq)]
pub struct Message {
    /// The version.
    pub version: Version,
    /// The community.
    pub community: Vec<u8>,
    /// The PDU.
    pub pdu: Pdu,
}

/// A decoded SMUX PDU.
#[derive(Debug, PartialEq, Eq)]
pub enum SmuxPdu {
    /// Open a session.
    Open(SmuxOpen),
    /// Close a session.
    Close(SmuxClose),
    /// The answer to a register request.
    RRsp(SmuxRRsp),
    /// A commit signal.
    Sout(SmuxSout),
    /// An SNMP PDU, in a version 1 message without community.
    Snmp(Message),
    /// A register request.
    Register {
        /// The subtree.
        subtree: Oid,
        /// The priority; the lower one wins.
        priority: i64,
        /// 1 to register, -1 to unregister.
        operation: i64,
    },
}

/// The mathematical content of a [`SmuxPdu`].
#[verifier::ext_equal]
pub enum SmuxPduView {
    Open { version: i64, identity: Seq<u32>, description: Seq<char>, password: Seq<char> },
    Close(i64),
    RRsp(i64),
    Sout(i64),
    Snmp { snmp_version: Version, community: Seq<u8>, pdu: PduView },
    Register { subtree: Seq<u32>, priority: i64, operation: i64 },
}

impl View for SmuxPdu {
    type V = SmuxPduView;

    open spec fn view(&self) -> SmuxPduView {
        match self {
            SmuxPdu::Open(o) => SmuxPduView::Open {
                version: o.version,
                identity: o.identity@,
                description: o.description@,
                password: o.password@,
            },
            SmuxPdu::Close(c) => SmuxPduView::Close(c.code),
            SmuxPdu::RRsp(c) => SmuxPduView::RRsp(c.code),
            SmuxPdu::Sout(c) => SmuxPduView::Sout(c.arg),
            SmuxPdu::Snmp(m) => SmuxPduView::Snmp {
                snmp_version: m.version,
                community: m.community@,
                pdu: m.pdu@,
            },
            SmuxPdu::Register { subtree, priority, operation } => SmuxPduView::Register {
                subtree: subtree@,
                priority: *priority,
                operation: *operation,
            },
        }
    }
}

/// What can go wrong with a peer.
#[derive(Debug, PartialEq, Eq)]
pub enum SmuxError {
    /// The peer sent incomplete data.
    Truncated,
    /// A PDU did not decode.
    Decode(String),
    /// The stream failed.
    Io(String),
}

impl SmuxError {
    /// The text of the error.
    pub open spec fn text(self) -> Seq<char> {
        match self {
            SmuxError::Truncated => "truncated SMUX message"@,
            SmuxError::Decode(s) => "SMUX decode error: "@ + s@,
            SmuxError::Io(s) => "SMUX i/o error: "@ + s@,
        }
    }

    /// The text of the error.
    pub fn to_string(&self) -> (r: String)
        ensures
            r@ == self.text(),
    {
        match self {
            SmuxError::Truncated => "truncated SMUX message".to_owned(),
            SmuxError::Decode(s) => {
                let mut out = "SMUX decode error: ".to_owned();
                out.append(s.as_str());
                out
            },
            SmuxError::Io(s) => {
                let mut out = "SMUX i/o error: ".to_owned();
                out.append(s.as_str());
                out
            },
        }
    }
}

/// An INTEGER triple.
pub open spec fn int_tlv(v: int) -> Seq<u8> {
    tlv_octets(0x02, int_octets(v))
}

/// An OBJECT IDENTIFIER triple.
pub open spec fn oid_tlv(arcs: Seq<u32>) -> Seq<u8> {
    tlv_octets(0x06, oid_octets(arcs))
}

/// Decode an INTEGER triple at the front of `buf`: the value and what follows.
pub open spec fn int_field(buf: Seq<u8>) -> Option<(int, Seq<u8>)> {
    match tlv_of(buf) {
        Some((_, content, n)) => if content.len() > 0 {
            Some((wrap_i64(int_value(content)), buf.skip(n as int)))
        } else {
            None
        },
        None => None,
    }
}

/// The 32-bit integer that is congruent to `x`.
pub open spec fn wrap_i32(x: int) -> int {
    let m = x % 0x1_0000_0000;
    if m >= 0x8000_0000 {
        m - 0x1_0000_0000
    } else {
        m
    }
}

/// The octets of an open PDU.
pub open spec fn open_octets(
    version: int,
    identity: Seq<u32>,
    description: Seq<char>,
    password: Seq<char>,
) -> Seq<u8> {
    tlv_octets(
        SMUX_OPEN,
        int_tlv(version) + oid_tlv(identity) + tlv_octets(0x04, utf8(description)) + tlv_octets(
            0x04,
            utf8(password),
        ),
    )
}

/// Decode the content of an open PDU.
pub open spec fn open_of(content: Seq<u8>) -> Option<SmuxPduView> {
    match int_field(content) {
        Some((version, r1)) => match tlv_of(r1) {
            Some((_, id, n2)) => match oid_of(id) {
                Some(identity) => {
                    let r2 = r1.skip(n2 as int);
                    match tlv_of(r2) {
                        Some((_, d, n3)) => match tlv_of(r2.skip(n3 as int)) {
                            Some((_, p, _)) => Some(
                                SmuxPduView::Open {
                                    version: version as i64,
                                    identity,
                                    description: bytes_text(d),
                                    password: bytes_text(p),
                                },
                            ),
                            None => None,
                        },
                        None => None,
                    }
                },
                None => None,
            },
            None => None,
        },
        None => None,
    }
}

/// Decode the single INTEGER in the content of a close, a register answer or a commit signal.
pub open spec fn single_int(content: Seq<u8>) -> Option<i64> {
    match int_field(content) {
        Some((v, _)) => Some(v as i64),
        None => None,
    }
}

/// The value with the given tag and content.
pub open spec fn value_of(tag: u8, content: Seq<u8>) -> ValueView {
    if tag == 0x02 {
        ValueView::Integer(
            if content.len() > 0 {
                wrap_i64(int_value(content)) as i64
            } else {
                0
            },
        )
    } else if tag == 0x04 {
        ValueView::OctetString(content)
    } else if tag == 0x06 {
        ValueView::Oid(
            match oid_of(content) {
                Some(o) => o,
                None => seq![0u32, 0u32],
            },
        )
    } else if tag == 0x41 {
        ValueView::Counter32((be(content) % 0x1_0000_0000) as u32)
    } else if tag == 0x42 {
        ValueView::Gauge32((be(content) % 0x1_0000_0000) as u32)
    } else if tag == 0x43 {
        ValueView::TimeTicks((be(content) % 0x1_0000_0000) as u32)
    } else if tag == 0x40 {
        if content.len() == 4 {
            ValueView::IpAddress(
                Ipv4Addr { a: content[0], b: content[1], c: content[2], d: content[3] },
            )
        } else {
            ValueView::Null
        }
    } else if tag == 0x44 {
        ValueView::Opaque(content)
    } else if tag == 0x46 {
        ValueView::Counter64((be(content) % 0x1_0000_0000_0000_0000) as u64)
    } else if tag == 0x80 {
        ValueView::NoSuchObject
    } else if tag == 0x81 {
        ValueView::NoSuchInstance
    } else if tag == 0x82 {
        ValueView::EndOfMibView
    } else {
        ValueView::Null
    }
}

/// The octets of a value.
pub open spec fn value_octets(v: ValueView) -> Seq<u8> {
    match v {
        ValueView::Integer(n) => int_tlv(n as int),
        ValueView::OctetString(b) => tlv_octets(0x04, b),
        ValueView::Oid(o) => oid_tlv(o),
        ValueView::Null => tlv_octets(0x05, seq![]),
        ValueView::Counter32(n) => tlv_octets(0x41, unsigned_octets(n as nat, 4)),
        ValueView::Gauge32(n) => tlv_octets(0x42, unsigned_octets(n as nat, 4)),
        ValueView::TimeTicks(n) => tlv_octets(0x43, unsigned_octets(n as nat, 4)),
        ValueView::IpAddress(a) => tlv_octets(0x40, a.octet_seq()),
        ValueView::Opaque(b) => tlv_octets(0x44, b),
        ValueView::Counter64(n) => tlv_octets(0x46, unsigned_octets(n as nat, 8)),
        ValueView::NoSuchObject => tlv_octets(0x80, seq![]),
        ValueView::NoSuchInstance => tlv_octets(0x81, seq![]),
        ValueView::EndOfMibView => tlv_octets(0x82, seq![]),
    }
}

/// Whether every OID in a value can be encoded.
pub open spec fn value_packable(v: ValueView) -> bool {
    match v {
        ValueView::Oid(o) => packable(o),
        _ => true,
    }
}

/// The octets of a binding.
pub open spec fn bind_octets(b: VarBindView) -> Seq<u8> {
    tlv_octets(0x30, oid_tlv(b.oid) + value_octets(b.value))
}

/// The octets of several bindings.
pub open spec fn binds_octets(vars: Seq<VarBindView>) -> Seq<u8>
    decreases vars.len(),
{
    if vars.len() == 0 {
        seq![]
    } else {
        binds_octets(vars.drop_last()) + bind_octets(vars.last())
    }
}

/// The octets of an SNMP PDU.
pub open spec fn pdu_octets(p: PduView) -> Seq<u8> {
    tlv_octets(
        p.pdu_type.tag_of(),
        int_tlv(p.request_id as int) + int_tlv(p.error_status as int) + int_tlv(
            p.error_index as int,
        ) + tlv_octets(0x30, binds_octets(p.variables)),
    )
}

/// Whether every OID in a PDU can be encoded.
pub open spec fn pdu_packable(p: PduView) -> bool {
    forall|i: int|
        0 <= i < p.variables.len() ==> packable((#[trigger] p.variables[i]).oid) && value_packable(
            p.variables[i].value,
        )
}

/// Decode the content of a binding.
pub open spec fn bind_of(content: Seq<u8>) -> Option<VarBindView> {
    match tlv_of(content) {
        Some((_, name, n)) => match oid_of(name) {
            Some(oid) => match tlv_of(content.skip(n as int)) {
                Some((tag, c, _)) => Some(VarBindView { oid, value: value_of(tag, c) }),
                None => None,
            },
            None => None,
        },
        None => None,
    }
}

/// Decode a list of bindings.
pub open spec fn binds_of(buf: Seq<u8>) -> Option<Seq<VarBindView>>
    decreases buf.len(),
{
    if buf.len() == 0 {
        Some(seq![])
    } else {
        proof {
            lemma_tlv_size(buf);
        }
        match tlv_of(buf) {
            Some((_, content, n)) => match (bind_of(content), binds_of(buf.skip(n as int))) {
                (Some(b), Some(rest)) => Some(seq![b] + rest),
                _ => None,
            },
            None => None,
        }
    }
}

/// Decode the content of an SNMP PDU.
pub open spec fn pdu_of(pdu_type: PduType, content: Seq<u8>) -> Option<PduView> {
    match int_field(content) {
        Some((id, r1)) => match int_field(r1) {
            Some((status, r2)) => match int_field(r2) {
                Some((index, r3)) => match tlv_of(r3) {
                    Some((_, list, _)) => match binds_of(list) {
                        Some(variables) => Some(
                            PduView {
                                pdu_type,
                                request_id: wrap_i32(id) as i32,
                                error_status: status as i64,
                                error_index: index as i64,
                                variables,
                            },
                        ),
                        None => None,
                    },
                    None => None,
                },
                None => None,
            },
            None => None,
        },
        None => None,
    }
}

/// The tags of the first `k` triples in `content`.
pub open spec fn tags_of(content: Seq<u8>, k: nat) -> Option<Seq<u8>>
    decreases k,
{
    if k == 0 {
        Some(seq![])
    } else {
        match tlv_of(content) {
            Some((tag, _, n)) => match tags_of(content.skip(n as int), (k - 1) as nat) {
                Some(rest) => Some(seq![tag] + rest),
                None => None,
            },
            None => None,
        }
    }
}

/// The register request that a name carries: the subtree, then the priority, then the
/// operation, which is 1 or -1.
pub open spec fn register_of(name: Seq<u32>) -> Option<SmuxPduView> {
    if name.len() < 3 {
        None
    } else {
        let operation = wrap_i32(name.last() as int);
        if operation == 1 || operation == -1 {
            Some(
                SmuxPduView::Register {
                    subtree: name.take(name.len() - 2),
                    priority: name[name.len() - 2] as i64,
                    operation: operation as i64,
                },
            )
        } else {
            None
        }
    }
}

/// A decoded SNMP PDU as a SMUX PDU: a GET of one name that carries a register request is
/// that request.
pub open spec fn carried(p: PduView) -> SmuxPduView {
    let plain = SmuxPduView::Snmp { snmp_version: Version::V1, community: seq![], pdu: p };
    if p.pdu_type == PduType::Get && p.variables.len() == 1 {
        match register_of(p.variables[0].oid) {
            Some(r) => r,
            None => plain,
        }
    } else {
        plain
    }
}

/// Whether the content under the tag that open PDUs and GET requests share is that of a GET
/// request: its second element is no OID, and its fourth is a SEQUENCE.
pub open spec fn looks_like_get(tags: Seq<u8>) -> bool {
    tags[1] != 0x06 && tags[3] == 0x30
}

/// What is wrong with a message.
pub enum Fault {
    Truncated,
    Decode,
}

/// The kind of PDU with the given tag.
pub open spec fn type_of_tag(tag: u8) -> Option<PduType> {
    if exists|t: PduType| t.tag_of() == tag {
        Some(choose|t: PduType| t.tag_of() == tag)
    } else {
        None
    }
}

/// `o`, with a missing value meaning that the message was cut short.
pub open spec fn or_truncated(o: Option<SmuxPduView>, total: nat) -> Result<
    (SmuxPduView, nat),
    Fault,
> {
    match o {
        Some(p) => Ok((p, total)),
        None => Err(Fault::Truncated),
    }
}

/// Decode a single SMUX PDU: the PDU and its size.
pub open spec fn smux_of(buf: Seq<u8>) -> Result<(SmuxPduView, nat), Fault> {
    match tlv_of(buf) {
        None => Err(Fault::Truncated),
        Some((tag, content, total)) => {
            if tag == SMUX_OPEN {
                match tags_of(content, 4) {
                    None => Err(Fault::Truncated),
                    Some(tags) => if looks_like_get(tags) {
                        or_truncated(
                            match pdu_of(PduType::Get, content) {
                                Some(p) => Some(carried(p)),
                                None => None,
                            },
                            total,
                        )
                    } else {
                        or_truncated(open_of(content), total)
                    },
                }
            } else if tag == SMUX_CLOSE {
                match single_int(content) {
                    Some(v) => Ok((SmuxPduView::Close(v), total)),
                    None => Err(Fault::Truncated),
                }
            } else if tag == SMUX_RRSP {
                match single_int(content) {
                    Some(v) => Ok((SmuxPduView::RRsp(v), total)),
                    None => Err(Fault::Truncated),
                }
            } else if tag == SMUX_SOUT {
                match single_int(content) {
                    Some(v) => Ok((SmuxPduView::Sout(v), total)),
                    None => Err(Fault::Truncated),
                }
            } else {
                match type_of_tag(tag) {
                    None => Err(Fault::Decode),
                    Some(t) => or_truncated(
                        match pdu_of(t, content) {
                            Some(p) => Some(carried(p)),
                            None => None,
                        },
                        total,
                    ),
                }
            }
        },
    }
}

fn truncated(t: Truncated) -> (r: SmuxError)
    ensures
        r == SmuxError::Truncated,
{
    SmuxError::Truncated
}

fn low_i32(v: i64) -> (r: i32)
    ensures
        r == wrap_i32(v as int),
{
    let m: i64 = if v >= 0 {
        v % 0x1_0000_0000
    } else {
        0xffff_ffff - (-1 - v) % 0x1_0000_0000
    };
    assert(m == v as int % 0x1_0000_0000);
    if m >= 0x8000_0000 {
        (m - 0x1_0000_0000) as i32
    } else {
        m as i32
    }
}

/// Decode an INTEGER triple at the front of `buf`: the value and the size of the triple.
fn take_int(buf: &[u8]) -> (r: Result<(i64, usize), Truncated>)
    ensures
        r is Ok <==> int_field(buf@) is Some,
        r matches Ok((v, n)) ==> n <= buf@.len() && int_field(buf@) == Some(
            (v as int, buf@.skip(n as int)),
        ),
{
    match parse_tlv(buf) {
        Ok((_, content, n)) => match parse_integer(content) {
            Ok(v) => Ok((v, n)),
            Err(e) => Err(e),
        },
        Err(e) => Err(e),
    }
}

fn rest_of(buf: &[u8], n: usize) -> (r: &[u8])
    requires
        n <= buf@.len(),
    ensures
        r@ == buf@.skip(n as int),
{
    let r = slice_subrange(buf, n, buf.len());
    assert(r@ =~= buf@.skip(n as int));
    r
}

impl SmuxOpen {
    /// Encode as a constructed triple of version, identity, description and password.
    pub fn encode(&self) -> (r: Vec<u8>)
        requires
            packable(self.identity@),
        ensures
            r@ == open_octets(
                self.version as int,
                self.identity@,
                self.description@,
                self.password@,
            ),
    {
        let mut content = ber_integer(self.version);
        push_bytes(&mut content, ber_oid(&self.identity).as_slice());
        push_bytes(&mut content, ber_octet_string(self.description.as_str().as_bytes()).as_slice());
        push_bytes(&mut content, ber_octet_string(self.password.as_str().as_bytes()).as_slice());
        ber_tlv(SMUX_OPEN, content.as_slice())
    }

    /// Decode the content of an open PDU.
    pub fn decode_content(content: &[u8]) -> (r: Result<SmuxOpen, SmuxError>)
        ensures
            r is Ok <==> open_of(content@) is Some,
            r matches Ok(o) ==> open_of(content@) == Some(SmuxPdu::Open(o)@),
            r matches Err(e) ==> e == SmuxError::Truncated,
    {
        let (version, n1) = match take_int(content) {
            Ok(x) => x,
            Err(e) => {
                return Err(truncated(e));
            },
        };
        let r1 = rest_of(content, n1);
        let (_, id, n2) = match parse_tlv(r1) {
            Ok(x) => x,
            Err(e) => {
                return Err(truncated(e));
            },
        };
        let identity = match parse_oid(id) {
            Ok(x) => x,
            Err(e) => {
                return Err(truncated(e));
            },
        };
        let r2 = rest_of(r1, n2);
        let (_, d, n3) = match parse_tlv(r2) {
            Ok(x) => x,
            Err(e) => {
                return Err(truncated(e));
            },
        };
        let r3 = rest_of(r2, n3);
        let (_, p, _) = match parse_tlv(r3) {
            Ok(x) => x,
            Err(e) => {
                return Err(truncated(e));
            },
        };
        let description = text_of_bytes(parse_octet_string(d).as_slice());
        let password = text_of_bytes(parse_octet_string(p).as_slice());
        Ok(SmuxOpen { version, identity, description, password })
    }
}

impl SmuxClose {
    /// Encode as a constructed triple of one INTEGER.
    pub fn encode(&self) -> (r: Vec<u8>)
        ensures
            r@ == tlv_octets(SMUX_CLOSE, int_tlv(self.code as int)),
    {
        ber_tlv(SMUX_CLOSE, ber_integer(self.code).as_slice())
    }

    /// Decode the content of a close PDU.
    pub fn decode_content(content: &[u8]) -> (r: Result<SmuxClose, SmuxError>)
        ensures
            r is Ok <==> single_int(content@) is Some,
            r matches Ok(c) ==> single_int(content@) == Some(c.code),
            r matches Err(e) ==> e == SmuxError::Truncated,
    {
        match take_int(content) {
            Ok((code, _)) => Ok(SmuxClose { code }),
            Err(e) => Err(truncated(e)),
        }
    }
}

impl SmuxRRsp {
    /// Encode as a constructed triple of one INTEGER.
    pub fn encode(&self) -> (r: Vec<u8>)
        ensures
            r@ == tlv_octets(SMUX_RRSP, int_tlv(self.code as int)),
    {
        ber_tlv(SMUX_RRSP, ber_integer(self.code).as_slice())
    }

    /// Decode the content of a register answer.
    pub fn decode_content(content: &[u8]) -> (r: Result<SmuxRRsp, SmuxError>)
        ensures
            r is Ok <==> single_int(content@) is Some,
            r matches Ok(c) ==> single_int(content@) == Some(c.code),
            r matches Err(e) ==> e == SmuxError::Truncated,
    {
        match take_int(content) {
            Ok((code, _)) => Ok(SmuxRRsp { code }),
            Err(e) => Err(truncated(e)),
        }
    }
}

impl SmuxSout {
    /// Encode as a constructed triple of one INTEGER.
    pub fn encode(&self) -> (r: Vec<u8>)
        ensures
            r@ == tlv_octets(SMUX_SOUT, int_tlv(self.arg as int)),
    {
        ber_tlv(SMUX_SOUT, ber_integer(self.arg).as_slice())
    }
}

/// The value with the given tag and content.
pub fn decode_value_by_tag(tag: u8, content: &[u8]) -> (r: Value)
    ensures
        r@ == value_of(tag, content@),
{
    if tag == 0x02 {
        Value::Integer(
            match parse_integer(content) {
                Ok(v) => v,
                Err(_) => 0,
            },
        )
    } else if tag == 0x04 {
        Value::OctetString(parse_octet_string(content))
    } else if tag == 0x06 {
        Value::Oid(
            match parse_oid(content) {
                Ok(o) => o,
                Err(_) => Oid::null(),
            },
        )
    } else if tag == 0x41 {
        Value::Counter32(parse_unsigned(content))
    } else if tag == 0x42 {
        Value::Gauge32(parse_unsigned(content))
    } else if tag == 0x43 {
        Value::TimeTicks(parse_unsigned(content))
    } else if tag == 0x40 {
        if content.len() == 4 {
            Value::IpAddress(Ipv4Addr::new(content[0], content[1], content[2], content[3]))
        } else {
            Value::Null
        }
    } else if tag == 0x44 {
        Value::Opaque(parse_octet_string(content))
    } else if tag == 0x46 {
        Value::Counter64(parse_unsigned_u64(content))
    } else if tag == 0x80 {
        Value::NoSuchObject
    } else if tag == 0x81 {
        Value::NoSuchInstance
    } else if tag == 0x82 {
        Value::EndOfMibView
    } else {
        Value::Null
    }
}

/// Encode a value.
pub fn encode_value(value: &Value) -> (r: Vec<u8>)
    requires
        value_packable(value@),
    ensures
        r@ == value_octets(value@),
{
    match value {
        Value::Integer(v) => ber_tlv(0x02, ber_integer_content(*v).as_slice()),
        Value::OctetString(b) => ber_octet_string(b.as_slice()),
        Value::Oid(o) => ber_oid(o),
        Value::Null => empty_tlv(0x05),
        Value::Counter32(v) => ber_tlv(0x41, ber_unsigned_content(*v as u64, 4).as_slice()),
        Value::Gauge32(v) => ber_tlv(0x42, ber_unsigned_content(*v as u64, 4).as_slice()),
        Value::TimeTicks(v) => ber_tlv(0x43, ber_unsigned_content(*v as u64, 4).as_slice()),
        Value::IpAddress(ip) => {
            let mut octets: Vec<u8> = Vec::new();
            octets.push(ip.a);
            octets.push(ip.b);
            octets.push(ip.c);
            octets.push(ip.d);
            assert(octets@ =~= ip.octet_seq());
            ber_tlv(0x40, octets.as_slice())
        },
        Value::Opaque(b) => ber_tlv(0x44, b.as_slice()),
        Value::Counter64(v) => ber_tlv(0x46, ber_unsigned_content(*v, 8).as_slice()),
        Value::NoSuchObject => empty_tlv(0x80),
        Value::NoSuchInstance => empty_tlv(0x81),
        Value::EndOfMibView => empty_tlv(0x82),
    }
}

fn empty_tlv(tag: u8) -> (r: Vec<u8>)
    ensures
        r@ == tlv_octets(tag, seq![]),
{
    let none: Vec<u8> = Vec::new();
    assert(none@ =~= seq![]);
    ber_tlv(tag, none.as_slice())
}

fn decode_bind(content: &[u8]) -> (r: Result<VarBind, Truncated>)
    ensures
        r is Ok <==> bind_of(content@) is Some,
        r matches Ok(b) ==> bind_of(content@) == Some(b@),
{
    let (_, name, n) = match parse_tlv(content) {
        Ok(x) => x,
        Err(e) => {
            return Err(e);
        },
    };
    let oid = match parse_oid(name) {
        Ok(x) => x,
        Err(e) => {
            return Err(e);
        },
    };
    let rest = rest_of(content, n);
    match parse_tlv(rest) {
        Ok((tag, c, _)) => Ok(VarBind::new(oid, decode_value_by_tag(tag, c))),
        Err(e) => Err(e),
    }
}

fn decode_binds(buf: &[u8]) -> (r: Result<Vec<VarBind>, Truncated>)
    ensures
        r is Ok <==> binds_of(buf@) is Some,
        r matches Ok(v) ==> binds_of(buf@) == Some(binds(v@)),
{
    let mut out: Vec<VarBind> = Vec::new();
    let mut off: usize = 0;
    proof {
        assert(buf@.skip(0) =~= buf@);
        assert(binds(out@) =~= seq![]);
        match binds_of(buf@) {
            Some(rest) => {
                assert(binds(out@) + rest =~= rest);
            },
            None => {},
        }
    }
    while off < buf.len()
        invariant
            off <= buf@.len(),
            binds_of(buf@) == match binds_of(buf@.skip(off as int)) {
                Some(rest) => Some(binds(out@) + rest),
                None => None,
            },
        decreases buf@.len() - off,
    {
        let rest = rest_of(buf, off);
        let (_, content, n) = match parse_tlv(rest) {
            Ok(x) => x,
            Err(e) => {
                return Err(e);
            },
        };
        let b = match decode_bind(content) {
            Ok(x) => x,
            Err(e) => {
                return Err(e);
            },
        };
        let ghost before = binds(out@);
        let ghost bv = b@;
        out.push(b);
        proof {
            assert(binds(out@) =~= before.push(bv));
            assert(rest@.skip(n as int) =~= buf@.skip(off + n));
            match binds_of(buf@.skip(off + n)) {
                Some(tail) => {
                    assert(before + (seq![bv] + tail) =~= binds(out@) + tail);
                },
                None => {},
            }
        }
        off += n;
    }
    assert(buf@.skip(off as int) =~= seq![]);
    assert(binds(out@) + Seq::<VarBindView>::empty() =~= binds(out@));
    Ok(out)
}

/// Decode the content of an SNMP PDU: request id, error status, error index and bindings.
pub fn decode_bare_snmp_pdu(pdu_type: PduType, content: &[u8]) -> (r: Result<Pdu, SmuxError>)
    ensures
        r is Ok <==> pdu_of(pdu_type, content@) is Some,
        r matches Ok(p) ==> pdu_of(pdu_type, content@) == Some(p@),
        r matches Err(e) ==> e == SmuxError::Truncated,
{
    let (id, n1) = match take_int(content) {
        Ok(x) => x,
        Err(e) => {
            return Err(truncated(e));
        },
    };
    let r1 = rest_of(content, n1);
    let (error_status, n2) = match take_int(r1) {
        Ok(x) => x,
        Err(e) => {
            return Err(truncated(e));
        },
    };
    let r2 = rest_of(r1, n2);
    let (error_index, n3) = match take_int(r2) {
        Ok(x) => x,
        Err(e) => {
            return Err(truncated(e));
        },
    };
    let r3 = rest_of(r2, n3);
    let (_, list, _) = match parse_tlv(r3) {
        Ok(x) => x,
        Err(e) => {
            return Err(truncated(e));
        },
    };
    match decode_binds(list) {
        Ok(variables) => Ok(
            Pdu { pdu_type, request_id: low_i32(id), error_status, error_index, variables },
        ),
        Err(e) => Err(truncated(e)),
    }
}

/// The tags of the first four triples in `content`.
pub fn peek_four_tlv_tags(content: &[u8]) -> (r: Result<[u8; 4], SmuxError>)
    ensures
        r is Ok <==> tags_of(content@, 4) is Some,
        r matches Ok(t) ==> tags_of(content@, 4) == Some(t@),
        r matches Err(e) ==> e == SmuxError::Truncated,
{
    proof {
        reveal_with_fuel(tags_of, 5);
    }
    let (t0, _, n0) = match parse_tlv(content) {
        Ok(x) => x,
        Err(e) => {
            return Err(truncated(e));
        },
    };
    let c1 = rest_of(content, n0);
    let (t1, _, n1) = match parse_tlv(c1) {
        Ok(x) => x,
        Err(e) => {
            return Err(truncated(e));
        },
    };
    let c2 = rest_of(c1, n1);
    let (t2, _, n2) = match parse_tlv(c2) {
        Ok(x) => x,
        Err(e) => {
            return Err(truncated(e));
        },
    };
    let c3 = rest_of(c2, n2);
    let (t3, _, _) = match parse_tlv(c3) {
        Ok(x) => x,
        Err(e) => {
            return Err(truncated(e));
        },
    };
    let t = [t0, t1, t2, t3];
    assert(tags_of(content@, 4)->0 =~= t@);
    Ok(t)
}

/// The register request that the name of a binding carries.
pub fn decode_register_from_varbind(vb: &VarBind) -> (r: Option<(Oid, i64, i64)>)
    ensures
        r is Some <==> register_of(vb.oid@) is Some,
        r matches Some((subtree, priority, operation)) ==> register_of(vb.oid@) == Some(
            SmuxPduView::Register { subtree: subtree@, priority, operation },
        ),
{
    let parts = vb.oid.as_slice();
    let n: usize = parts.len();
    if n < 3 {
        return None;
    }
    let operation: i64 = low_i32(parts[n - 1] as i64) as i64;
    if operation != 1 && operation != -1 {
        return None;
    }
    let subtree = Oid::of(slice_subrange(parts, 0, n - 2));
    assert(subtree@ =~= vb.oid@.take(n - 2));
    Some((subtree, parts[n - 2] as i64, operation))
}

/// A decoded SNMP PDU as a SMUX PDU.
fn carry(pdu: Pdu) -> (r: SmuxPdu)
    ensures
        r@ == carried(pdu@),
{
    if pdu.pdu_type == PduType::Get && pdu.variables.len() == 1 {
        assert(pdu@.variables[0] == pdu.variables@[0]@);
        match decode_register_from_varbind(&pdu.variables[0]) {
            Some((subtree, priority, operation)) => {
                return SmuxPdu::Register { subtree, priority, operation };
            },
            None => {},
        }
    }
    let community: Vec<u8> = Vec::new();
    assert(community@ =~= seq![]);
    SmuxPdu::Snmp(Message { version: Version::V1, community, pdu })
}

/// The fault of an error that decoding gives.
pub open spec fn fault_of(e: SmuxError) -> Fault {
    match e {
        SmuxError::Truncated => Fault::Truncated,
        _ => Fault::Decode,
    }
}

/// Decode a single SMUX PDU: the PDU and its size.
pub fn decode_smux_pdu(buf: &[u8]) -> (r: Result<(SmuxPdu, usize), SmuxError>)
    ensures
        match r {
            Ok((p, n)) => smux_of(buf@) == Ok::<(SmuxPduView, nat), Fault>((p@, n as nat)),
            Err(e) => smux_of(buf@) == Err::<(SmuxPduView, nat), Fault>(fault_of(e))
                && !(e is Io),
        },
{
    let (tag, content, total) = match parse_tlv(buf) {
        Ok(x) => x,
        Err(e) => {
            return Err(truncated(e));
        },
    };
    if tag == SMUX_OPEN {
        let tags = match peek_four_tlv_tags(content) {
            Ok(t) => t,
            Err(e) => {
                return Err(e);
            },
        };
        proof {
            lemma_tags_len(content@, 4);
        }
        if tags[1] != 0x06 && tags[3] == 0x30 {
            match decode_bare_snmp_pdu(PduType::Get, content) {
                Ok(pdu) => Ok((carry(pdu), total)),
                Err(e) => Err(e),
            }
        } else {
            match SmuxOpen::decode_content(content) {
                Ok(o) => Ok((SmuxPdu::Open(o), total)),
                Err(e) => Err(e),
            }
        }
    } else if tag == SMUX_CLOSE {
        match SmuxClose::decode_content(content) {
            Ok(c) => Ok((SmuxPdu::Close(c), total)),
            Err(e) => Err(e),
        }
    } else if tag == SMUX_RRSP {
        match SmuxRRsp::decode_content(content) {
            Ok(c) => Ok((SmuxPdu::RRsp(c), total)),
            Err(e) => Err(e),
        }
    } else if tag == SMUX_SOUT {
        match take_int(content) {
            Ok((arg, _)) => Ok((SmuxPdu::Sout(SmuxSout { arg }), total)),
            Err(e) => Err(truncated(e)),
        }
    } else {
        match PduType::from_tag(tag) {
            Some(t) => {
                proof {
                    lemma_type_of_tag(t);
                }
                match decode_bare_snmp_pdu(t, content) {
                    Ok(pdu) => Ok((carry(pdu), total)),
                    Err(e) => Err(e),
                }
            },
            None => Err(SmuxError::Decode("unknown PDU tag".to_owned())),
        }
    }
}

/// A kind of PDU is found by its tag.
pub proof fn lemma_type_of_tag(t: PduType)
    ensures
        type_of_tag(t.tag_of()) == Some(t),
{
    let c = choose|x: PduType| x.tag_of() == t.tag_of();
    assert(c.tag_of() == t.tag_of());
}

proof fn lemma_tags_len(content: Seq<u8>, k: nat)
    ensures
        tags_of(content, k) matches Some(t) ==> t.len() == k,
    decreases k,
{
    if k > 0 {
        match tlv_of(content) {
            Some((_, _, n)) => {
                lemma_tags_len(content.skip(n as int), (k - 1) as nat);
            },
            None => {},
        }
    }
}

/// Encode an SNMP PDU.
fn encode_pdu(
    pdu_type: PduType,
    request_id: i32,
    error_status: i64,
    error_index: i64,
    variables: &[VarBind],
) -> (r: Vec<u8>)
    requires
        pdu_packable(
            PduView {
                pdu_type,
                request_id,
                error_status,
                error_index,
                variables: binds(variables@),
            },
        ),
    ensures
        r@ == pdu_octets(
            (PduView {
                pdu_type,
                request_id,
                error_status,
                error_index,
                variables: binds(variables@),
            }),
        ),
{
    let ghost vars = binds(variables@);
    let mut body = ber_integer(request_id as i64);
    push_bytes(&mut body, ber_integer(error_status).as_slice());
    push_bytes(&mut body, ber_integer(error_index).as_slice());
    let mut list: Vec<u8> = Vec::new();
    let mut i: usize = 0;
    assert(vars.take(0) =~= seq![]);
    while i < variables.len()
        invariant
            i <= variables@.len(),
            vars == binds(variables@),
            forall|k: int|
                0 <= k < vars.len() ==> packable((#[trigger] vars[k]).oid) && value_packable(
                    vars[k].value,
                ),
            list@ == binds_octets(vars.take(i as int)),
        decreases variables@.len() - i,
    {
        let vb = &variables[i];
        assert(vars[i as int] == vb@);
        let mut one = ber_oid(&vb.oid);
        push_bytes(&mut one, encode_value(&vb.value).as_slice());
        push_bytes(&mut list, ber_tlv(0x30, one.as_slice()).as_slice());
        proof {
            let t = vars.take(i + 1);
            assert(t.drop_last() =~= vars.take(i as int));
            assert(t.last() == vb@);
        }
        i += 1;
    }
    assert(vars.take(i as int) =~= vars);
    push_bytes(&mut body, ber_tlv(0x30, list.as_slice()).as_slice());
    ber_tlv(pdu_type.tag(), body.as_slice())
}

/// The PDU of a request for one name.
pub open spec fn request_view(pdu_type: PduType, request_id: i32, oid: Seq<u32>) -> PduView {
    PduView {
        pdu_type,
        request_id,
        error_status: 0,
        error_index: 0,
        variables: seq![VarBindView { oid, value: ValueView::Null }],
    }
}

/// Encode a request for one name.
pub fn encode_snmp_request(pdu_type: PduType, request_id: i32, oid: &Oid) -> (r: Vec<u8>)
    requires
        packable(oid@),
    ensures
        r@ == pdu_octets(request_view(pdu_type, request_id, oid@)),
{
    let mut variables: Vec<VarBind> = Vec::new();
    variables.push(VarBind::null(oid.clone()));
    assert(binds(variables@) =~= request_view(pdu_type, request_id, oid@).variables);
    encode_pdu(pdu_type, request_id, 0, 0, variables.as_slice())
}

/// Encode an SNMP response with the id, the error and the bindings of `pdu`.
pub fn encode_snmp_response(pdu: &Pdu) -> (r: Vec<u8>)
    requires
        pdu_packable(pdu@),
    ensures
        r@ == pdu_octets((PduView { pdu_type: PduType::Response, ..pdu@ })),
{
    encode_pdu(
        PduType::Response,
        pdu.request_id,
        pdu.error_status,
        pdu.error_index,
        pdu.variables.as_slice(),
    )
}

/// The 32-bit arc that is congruent to `x`.
pub open spec fn arc_of(x: int) -> u32 {
    (x % 0x1_0000_0000) as u32
}

fn to_arc(v: i64) -> (r: u32)
    ensures
        r == arc_of(v as int),
{
    let m: i64 = if v >= 0 {
        v % 0x1_0000_0000
    } else {
        0xffff_ffff - (-1 - v) % 0x1_0000_0000
    };
    assert(m == v as int % 0x1_0000_0000);
    m as u32
}

/// The name that carries a register request.
pub open spec fn register_name(subtree: Seq<u32>, priority: int, operation: int) -> Seq<u32> {
    subtree.push(arc_of(priority)).push(arc_of(operation))
}

/// Encode a register request: a GET of the subtree followed by priority and operation.
pub fn encode_register(subtree: &Oid, priority: i64, operation: i64) -> (r: Vec<u8>)
    requires
        packable(register_name(subtree@, priority as int, operation as int)),
    ensures
        r@ == pdu_octets(
            request_view(
                PduType::Get,
                0,
                register_name(subtree@, priority as int, operation as int),
            ),
        ),
{
    let mut name = copy_arcs(subtree.as_slice());
    name.push(to_arc(priority));
    name.push(to_arc(operation));
    let oid = Oid::new(name);
    encode_snmp_request(PduType::Get, 0, &oid)
}

/// Decode an SNMP response.
pub fn decode_snmp_response(buf: &[u8]) -> (r: Option<(Pdu, usize)>)
    ensures
        r is Some <==> response_of(buf@) is Some,
        r matches Some((p, n)) ==> response_of(buf@) == Some((p@, n as nat)),
{
    match parse_tlv(buf) {
        Ok((tag, content, total)) => {
            if tag != PduType::Response.tag() {
                return None;
            }
            match decode_bare_snmp_pdu(PduType::Response, content) {
                Ok(pdu) => Some((pdu, total)),
                Err(_) => None,
            }
        },
        Err(_) => None,
    }
}

/// The response at the front of `buf`, and its size.
pub open spec fn response_of(buf: Seq<u8>) -> Option<(PduView, nat)> {
    match tlv_of(buf) {
        Some((tag, content, total)) => if tag == PduType::Response.tag_of() {
            match pdu_of(PduType::Response, content) {
                Some(p) => Some((p, total)),
                None => None,
            }
        } else {
            None
        },
        None => None,
    }
}

} // verus!
