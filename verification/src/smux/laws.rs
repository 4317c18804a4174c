//! What the SMUX encoding keeps: each PDU reads back from its octets.

use vstd::prelude::*;

use crate::ber::be;
use crate::ber::int_octets;
use crate::ber::int_octets_read_back;
use crate::ber::lemma_be_octets_len;
use crate::ber::lemma_be_reads_back;
use crate::ber::lemma_fixed_reads_back;
use crate::ber::lemma_int_octets_len;
use crate::ber::lemma_tlv_len;
use crate::ber::oid_octets;
use crate::ber::oid_octets_read_back;
use crate::ber::pow256;
use crate::ber::readable_oid;
use crate::ber::tlv_alone_reads_back;
use crate::ber::tlv_octets;
use crate::ber::tlv_of;
use crate::ber::tlv_reads_back;
use crate::ber::unsigned_octets;
use crate::pdu::PduType;
use crate::pdu::PduView;
use crate::smux::codec::arc_of;
use crate::smux::codec::bind_octets;
use crate::smux::codec::bind_of;
use crate::smux::codec::binds_octets;
use crate::smux::codec::binds_of;
use crate::smux::codec::carried;
use crate::smux::codec::int_field;
use crate::smux::codec::int_tlv;
use crate::smux::codec::lemma_type_of_tag;
use crate::smux::codec::oid_tlv;
use crate::smux::codec::open_octets;
use crate::smux::codec::pdu_octets;
use crate::smux::codec::pdu_of;
use crate::smux::codec::register_name;
use crate::smux::codec::request_view;
use crate::smux::codec::response_of;
use crate::smux::codec::single_int;
use crate::smux::codec::smux_of;
use crate::smux::codec::tags_of;
use crate::smux::codec::value_octets;
use crate::smux::codec::value_of;
use crate::smux::codec::Fault;
use crate::smux::codec::SmuxPduView;
use crate::smux::tags::SMUX_CLOSE;
use crate::smux::tags::SMUX_OPEN;
use crate::smux::tags::SMUX_RRSP;
use crate::smux::tags::SMUX_SOUT;
use crate::value::utf8;
use crate::value::ValueView;
use crate::value::VarBindView;

verus! {

/// An INTEGER at the front of a message reads back, whatever follows.
pub proof fn int_field_reads_back(v: i64, rest: Seq<u8>)
    ensures
        int_field(int_tlv(v as int) + rest) == Some((v as int, rest)),
        tlv_of(int_tlv(v as int) + rest) == Some(
            (0x02u8, int_octets(v as int), int_tlv(v as int).len()),
        ),
{
    int_octets_read_back(v as int);
    reveal_with_fuel(pow256, 9);
    lemma_int_octets_len(v as int, 8);
    tlv_reads_back(0x02, int_octets(v as int), rest);
    let buf = int_tlv(v as int) + rest;
    assert(buf.skip(int_tlv(v as int).len() as int) =~= rest);
}

proof fn lemma_single_int(v: i64)
    ensures
        single_int(int_tlv(v as int)) == Some(v),
        int_tlv(v as int).len() < 0x1_0000_0000,
{
    int_field_reads_back(v, seq![]);
    assert(int_tlv(v as int) + Seq::<u8>::empty() =~= int_tlv(v as int));
    reveal_with_fuel(pow256, 9);
    lemma_int_octets_len(v as int, 8);
    reveal(tlv_octets);
}

/// A close PDU reads back.
pub proof fn close_reads_back(code: i64)
    ensures
        ({
            let buf = tlv_octets(SMUX_CLOSE, int_tlv(code as int));
            smux_of(buf) == Ok::<(SmuxPduView, nat), Fault>((SmuxPduView::Close(code), buf.len()))
        }),
{
    lemma_single_int(code);
    tlv_alone_reads_back(SMUX_CLOSE, int_tlv(code as int));
}

/// A register answer reads back.
pub proof fn rrsp_reads_back(code: i64)
    ensures
        ({
            let buf = tlv_octets(SMUX_RRSP, int_tlv(code as int));
            smux_of(buf) == Ok::<(SmuxPduView, nat), Fault>((SmuxPduView::RRsp(code), buf.len()))
        }),
{
    lemma_single_int(code);
    tlv_alone_reads_back(SMUX_RRSP, int_tlv(code as int));
}

/// A commit signal reads back.
pub proof fn sout_reads_back(arg: i64)
    ensures
        ({
            let buf = tlv_octets(SMUX_SOUT, int_tlv(arg as int));
            smux_of(buf) == Ok::<(SmuxPduView, nat), Fault>((SmuxPduView::Sout(arg), buf.len()))
        }),
{
    lemma_single_int(arg);
    tlv_alone_reads_back(SMUX_SOUT, int_tlv(arg as int));
}

/// The content octets of an open PDU.
pub open spec fn open_content(
    version: int,
    identity: Seq<u32>,
    description: Seq<char>,
    password: Seq<char>,
) -> Seq<u8> {
    int_tlv(version) + oid_tlv(identity) + tlv_octets(0x04, utf8(description)) + tlv_octets(
        0x04,
        utf8(password),
    )
}

/// An open PDU reads back: the identity must be one that reads back, and the content shorter
/// than 2^32 octets.
pub proof fn open_reads_back(
    version: i64,
    identity: Seq<u32>,
    description: Seq<char>,
    password: Seq<char>,
)
    requires
        readable_oid(identity),
        open_content(version as int, identity, description, password).len() < 0x1_0000_0000,
    ensures
        ({
            let buf = open_octets(version as int, identity, description, password);
            smux_of(buf) == Ok::<(SmuxPduView, nat), Fault>(
                (
                    SmuxPduView::Open {
                        version,
                        identity,
                        description,
                        password,
                    },
                    buf.len(),
                ),
            )
        }),
{
    let content = open_content(version as int, identity, description, password);
    let d = tlv_octets(0x04, utf8(description));
    let p = tlv_octets(0x04, utf8(password));
    let i = oid_tlv(identity);
    lemma_tlv_len(0x04, utf8(description));
    lemma_tlv_len(0x04, utf8(password));
    lemma_tlv_len(0x06, oid_octets(identity));
    let r1 = i + d + p;
    let r2 = d + p;
    tlv_alone_reads_back(SMUX_OPEN, content);
    assert(content =~= int_tlv(version as int) + r1);
    int_field_reads_back(version, r1);
    assert(r1 =~= i + r2);
    tlv_reads_back(0x06, oid_octets(identity), r2);
    oid_octets_read_back(identity);
    assert(r1.skip(i.len() as int) =~= r2);
    tlv_reads_back(0x04, utf8(description), p);
    assert(r2.skip(d.len() as int) =~= p);
    tlv_alone_reads_back(0x04, utf8(password));
    reveal_with_fuel(tags_of, 5);
    assert(content.skip(int_tlv(version as int).len() as int) =~= r1);
    let tags = tags_of(content, 4)->0;
    assert(tags =~= seq![0x02u8, 0x06u8, 0x04u8, 0x04u8]);
    vstd::utf8::encode_utf8_valid_utf8(description);
    vstd::utf8::encode_utf8_decode_utf8(description);
    vstd::utf8::encode_utf8_valid_utf8(password);
    vstd::utf8::encode_utf8_decode_utf8(password);
}

/// Whether a value reads back: an OID in it must be one that reads back.
pub open spec fn readable_value(v: ValueView) -> bool {
    match v {
        ValueView::Oid(o) => readable_oid(o),
        _ => true,
    }
}

proof fn lemma_unsigned_reads_back(n: nat, k: nat)
    requires
        n < pow256(k),
        k > 0,
    ensures
        be(unsigned_octets(n, k)) == n,
        unsigned_octets(n, k).len() == k,
{
    lemma_be_octets_len(n, k);
    lemma_be_reads_back(n);
    lemma_fixed_reads_back(n, k);
}

/// A value reads back from its octets, shorter than 2^32, whatever follows.
pub proof fn value_reads_back(v: ValueView)
    requires
        readable_value(v),
        value_octets(v).len() < 0x1_0000_0000,
    ensures
        tlv_of(value_octets(v)) matches Some((tag, content, _)) && value_of(tag, content) == v,
{
    reveal_with_fuel(pow256, 9);
    match v {
        ValueView::Integer(n) => {
            int_field_reads_back(n, seq![]);
            assert(int_tlv(n as int) + Seq::<u8>::empty() =~= int_tlv(n as int));
            int_octets_read_back(n as int);
        },
        ValueView::OctetString(b) => {
            lemma_tlv_len(0x04, b);
            tlv_alone_reads_back(0x04, b);
        },
        ValueView::Oid(o) => {
            lemma_tlv_len(0x06, oid_octets(o));
            tlv_alone_reads_back(0x06, oid_octets(o));
            oid_octets_read_back(o);
        },
        ValueView::Null => {
            tlv_alone_reads_back(0x05, seq![]);
        },
        ValueView::Counter32(n) => {
            lemma_unsigned_reads_back(n as nat, 4);
            tlv_alone_reads_back(0x41, unsigned_octets(n as nat, 4));
        },
        ValueView::Gauge32(n) => {
            lemma_unsigned_reads_back(n as nat, 4);
            tlv_alone_reads_back(0x42, unsigned_octets(n as nat, 4));
        },
        ValueView::TimeTicks(n) => {
            lemma_unsigned_reads_back(n as nat, 4);
            tlv_alone_reads_back(0x43, unsigned_octets(n as nat, 4));
        },
        ValueView::IpAddress(a) => {
            tlv_alone_reads_back(0x40, a.octet_seq());
        },
        ValueView::Opaque(b) => {
            lemma_tlv_len(0x44, b);
            tlv_alone_reads_back(0x44, b);
        },
        ValueView::Counter64(n) => {
            lemma_unsigned_reads_back(n as nat, 8);
            tlv_alone_reads_back(0x46, unsigned_octets(n as nat, 8));
        },
        ValueView::NoSuchObject => {
            tlv_alone_reads_back(0x80, seq![]);
        },
        ValueView::NoSuchInstance => {
            tlv_alone_reads_back(0x81, seq![]);
        },
        ValueView::EndOfMibView => {
            tlv_alone_reads_back(0x82, seq![]);
        },
    }
}

proof fn lemma_bind_reads_back(b: VarBindView)
    requires
        readable_oid(b.oid),
        readable_value(b.value),
        (oid_tlv(b.oid) + value_octets(b.value)).len() < 0x1_0000_0000,
    ensures
        bind_of(oid_tlv(b.oid) + value_octets(b.value)) == Some(b),
{
    let o = oid_tlv(b.oid);
    let v = value_octets(b.value);
    lemma_tlv_len(0x06, oid_octets(b.oid));
    tlv_reads_back(0x06, oid_octets(b.oid), v);
    oid_octets_read_back(b.oid);
    assert((o + v).skip(o.len() as int) =~= v);
    value_reads_back(b.value);
}

proof fn lemma_binds_front(vars: Seq<VarBindView>)
    ensures
        vars.len() > 0 ==> binds_octets(vars) == bind_octets(vars[0]) + binds_octets(
            vars.drop_first(),
        ),
    decreases vars.len(),
{
    if vars.len() == 1 {
        assert(vars.drop_last() =~= seq![]);
        assert(vars.drop_first() =~= seq![]);
        assert(binds_octets(vars.drop_last()) =~= seq![]);
        assert(binds_octets(vars) =~= bind_octets(vars[0]));
        assert(bind_octets(vars[0]) + Seq::<u8>::empty() =~= bind_octets(vars[0]));
    } else if vars.len() > 1 {
        let d = vars.drop_last();
        lemma_binds_front(d);
        let t = vars.drop_first();
        assert(t.drop_last() =~= d.drop_first());
        assert(binds_octets(vars) =~= bind_octets(vars[0]) + binds_octets(t));
    }
}

/// Bindings read back from their octets, when every OID in them does.
pub proof fn binds_read_back(vars: Seq<VarBindView>)
    requires
        binds_octets(vars).len() < 0x1_0000_0000,
        forall|i: int|
            0 <= i < vars.len() ==> readable_oid((#[trigger] vars[i]).oid) && readable_value(
                vars[i].value,
            ),
    ensures
        binds_of(binds_octets(vars)) == Some(vars),
    decreases vars.len(),
{
    lemma_binds_front(vars);
    if vars.len() > 0 {
        let b = vars[0];
        let content = oid_tlv(b.oid) + value_octets(b.value);
        let first = bind_octets(b);
        let t = vars.drop_first();
        let rest = binds_octets(t);
        assert forall|i: int| 0 <= i < t.len() implies readable_oid((#[trigger] t[i]).oid)
            && readable_value(t[i].value) by {
            assert(t[i] == vars[i + 1]);
        }
        lemma_tlv_len(0x30, content);
        tlv_reads_back(0x30, content, rest);
        lemma_bind_reads_back(b);
        binds_read_back(t);
        assert((first + rest).skip(first.len() as int) =~= rest);
        assert(seq![b] + t =~= vars);
    }
}

/// The content octets of an SNMP PDU.
pub open spec fn pdu_content(p: PduView) -> Seq<u8> {
    int_tlv(p.request_id as int) + int_tlv(p.error_status as int) + int_tlv(p.error_index as int)
        + tlv_octets(0x30, binds_octets(p.variables))
}

/// Whether a PDU reads back: its OIDs do, and its content is shorter than 2^32 octets.
pub open spec fn readable_pdu(p: PduView) -> bool {
    &&& pdu_content(p).len() < 0x1_0000_0000
    &&& forall|i: int|
        0 <= i < p.variables.len() ==> readable_oid((#[trigger] p.variables[i]).oid)
            && readable_value(p.variables[i].value)
}

/// The content of an SNMP PDU reads back.
pub proof fn pdu_reads_back(p: PduView)
    requires
        readable_pdu(p),
    ensures
        pdu_of(p.pdu_type, pdu_content(p)) == Some(p),
        tags_of(pdu_content(p), 4) == Some(seq![0x02u8, 0x02u8, 0x02u8, 0x30u8]),
{
    let a = int_tlv(p.request_id as int);
    let b = int_tlv(p.error_status as int);
    let c = int_tlv(p.error_index as int);
    let list = binds_octets(p.variables);
    let l = tlv_octets(0x30, list);
    lemma_tlv_len(0x30, list);
    let content = pdu_content(p);
    assert(content =~= a + (b + (c + l)));
    int_field_reads_back(p.request_id as i64, b + (c + l));
    int_field_reads_back(p.error_status, c + l);
    int_field_reads_back(p.error_index, l);
    tlv_alone_reads_back(0x30, list);
    binds_read_back(p.variables);
    assert(content.skip(a.len() as int) =~= b + (c + l));
    assert((b + (c + l)).skip(b.len() as int) =~= c + l);
    assert((c + l).skip(c.len() as int) =~= l);
    reveal_with_fuel(tags_of, 5);
    assert(tags_of(content, 4)->0 =~= seq![0x02u8, 0x02u8, 0x02u8, 0x30u8]);
}

/// A response reads back.
pub proof fn response_reads_back(p: PduView)
    requires
        p.pdu_type == PduType::Response,
        readable_pdu(p),
    ensures
        response_of(pdu_octets(p)) == Some((p, pdu_octets(p).len())),
{
    pdu_reads_back(p);
    assert(pdu_octets(p) == tlv_octets(p.pdu_type.tag_of(), pdu_content(p)));
    tlv_alone_reads_back(p.pdu_type.tag_of(), pdu_content(p));
}

/// An SNMP request of a kind with a tag of its own reads back as that request, and a GET as
/// itself or the register request that it carries.
pub proof fn request_reads_back(p: PduView)
    requires
        readable_pdu(p),
        p.pdu_type == PduType::Get || p.pdu_type == PduType::Response || p.pdu_type
            == PduType::SetRequest || p.pdu_type == PduType::Inform || p.pdu_type
            == PduType::TrapV2 || p.pdu_type == PduType::Report,
    ensures
        smux_of(pdu_octets(p)) == Ok::<(SmuxPduView, nat), Fault>(
            (carried(p), pdu_octets(p).len()),
        ),
{
    pdu_reads_back(p);
    assert(pdu_octets(p) == tlv_octets(p.pdu_type.tag_of(), pdu_content(p)));
    tlv_alone_reads_back(p.pdu_type.tag_of(), pdu_content(p));
    lemma_type_of_tag(p.pdu_type);
}

/// A register request reads back: its name must read back and be short enough, the priority
/// must be an arc, and the operation is 1 or -1.
pub proof fn register_reads_back(subtree: Seq<u32>, priority: i64, operation: i64)
    requires
        0 <= priority <= u32::MAX,
        operation == 1 || operation == -1,
        subtree.len() >= 1,
        readable_pdu(
            request_view(
                PduType::Get,
                0,
                register_name(subtree, priority as int, operation as int),
            ),
        ),
    ensures
        ({
            let buf = pdu_octets(
                request_view(
                    PduType::Get,
                    0,
                    register_name(subtree, priority as int, operation as int),
                ),
            );
            smux_of(buf) == Ok::<(SmuxPduView, nat), Fault>(
                (SmuxPduView::Register { subtree, priority, operation }, buf.len()),
            )
        }),
{
    let name = register_name(subtree, priority as int, operation as int);
    let p = request_view(PduType::Get, 0, name);
    request_reads_back(p);
    assert(name.take(name.len() - 2) =~= subtree);
    assert(name[name.len() - 2] == arc_of(priority as int));
    assert(name.last() == arc_of(operation as int));
}

} // verus!
