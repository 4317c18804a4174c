//! What peers may register, who answers for what, and the octets that go over the wire.

use vstd::prelude::*;

use crate::ber::arc_octets;
use crate::ber::be;
use crate::ber::be_octets;
use crate::ber::fixed_octets;
use crate::ber::high_octets;
use crate::ber::int_octets;
use crate::ber::lemma_be_octets_len;
use crate::ber::len_octets;
use crate::ber::oid_octets;
use crate::ber::pow256;
use crate::ber::tlv_octets;
use crate::ber::unsigned_octets;
use crate::config::lowered;
use crate::config::Directive;
use crate::oid::is_prefix;
use crate::oid::parse_oid;
use crate::pdu::PduType;
use crate::pdu::PduView;
use crate::smux::codec::arc_of;
use crate::smux::codec::bind_octets;
use crate::smux::codec::binds_octets;
use crate::smux::codec::carried;
use crate::smux::codec::pdu_octets;
use crate::smux::codec::register_name;
use crate::smux::codec::request_view;
use crate::smux::codec::response_of;
use crate::smux::codec::value_octets;
use crate::smux::codec::RRspCode;
use crate::smux::codec::SmuxPduView;
use crate::smux::server::accepts;
use crate::smux::server::answer_code;
use crate::smux::server::authorized;
use crate::smux::server::best_among;
use crate::smux::server::best_owner;
use crate::smux::server::configured;
use crate::smux::server::forwarded;
use crate::smux::server::more_length_octets;
use crate::smux::server::owner_is_most_specific;
use crate::smux::server::owners;
use crate::smux::server::registered;
use crate::smux::server::SmuxConfigView;
use crate::smux::server::SmuxServer;
use crate::smux::tags::SMUX_CLOSE;
use crate::smux::tags::SMUX_OPEN;
use crate::smux::tags::SMUX_RRSP;
use crate::smux::tags::SMUX_SOUT;
use crate::value::Ipv4Addr;
use crate::value::ValueView;
use crate::value::VarBindView;

verus! {

/// Without any line peers are awaited on port 199 of every address, and none is configured.
pub proof fn port_199_is_the_default()
    ensures
        configured(Seq::empty()).listen_addr == "0.0.0.0:199"@,
        configured(Seq::empty()).peers == Seq::<(Seq<char>, Seq<u32>)>::empty(),
{
}

/// A `smuxsocket` line sets the address and nothing else; a `smuxpeer` line adds a peer, with its
/// password and its subtree, behind those that there are. Others change nothing.
pub proof fn lines_configure_peers(ds: Seq<Directive>, d: Directive)
    ensures
        ({
            let before = configured(ds);
            let after = configured(ds.push(d));
            let socket = lowered(d.token@) == lowered("smuxsocket"@);
            let peer = lowered(d.token@) == lowered("smuxpeer"@);
            &&& socket && d.args@.len() > 0 ==> after.listen_addr == d.args@[0]@ && after.peers
                == before.peers
            &&& peer && d.args@.len() > 1 && parse_oid(d.args@[1]@) is Some ==> after.listen_addr
                == before.listen_addr && after.peers == before.peers.push(
                (d.args@[0]@, parse_oid(d.args@[1]@)->0),
            )
            &&& !socket && !peer ==> after == before
            &&& d.args@.len() == 0 ==> after == before
            &&& peer && d.args@.len() > 1 && parse_oid(d.args@[1]@) is None ==> after == before
        }),
{
    reveal_strlit("smuxsocket");
    reveal_strlit("smuxpeer");
    assert(ds.push(d).drop_last() =~= ds);
    assert(lowered("smuxsocket"@).len() == 10);
    assert(lowered("smuxpeer"@).len() == 8);
}

/// Where peers are configured, one may register what is under a subtree that is configured for its
/// password, and nothing else. Where none is, any peer may register anything.
pub proof fn passwords_open_their_subtrees(
    c: SmuxConfigView,
    password: Seq<char>,
    subtree: Seq<u32>,
    i: int,
)
    ensures
        c.peers.len() == 0 ==> authorized(c, password, subtree),
        0 <= i < c.peers.len() && c.peers[i].0 == password && is_prefix(c.peers[i].1, subtree)
            ==> authorized(c, password, subtree),
        c.peers.len() > 0 && (forall|j: int|
            0 <= j < c.peers.len() && (#[trigger] c.peers[j]).0 == password ==> !is_prefix(
                c.peers[j].1,
                subtree,
            )) ==> !authorized(c, password, subtree),
{
}

/// A registration is answered with code 0 where it is accepted and with -1 where it is not. Only a
/// request to register that the password allows is accepted.
pub proof fn registrations_are_answered(
    s: SmuxServer,
    password: Seq<char>,
    subtree: Seq<u32>,
    operation: i64,
)
    ensures
        answer_code(true) == 0,
        answer_code(false) == -1,
        accepts(s, password, subtree, operation) ==> operation == 1 && authorized(
            s.config_view(),
            password,
            subtree,
        ),
        authorized(s.config_view(), password, subtree) ==> accepts(s, password, subtree, 1),
        RRspCode::ReadWrite.code_of() == 1,
{
}

/// After a peer's registration was accepted the peer answers for everything under the subtree,
/// unless a subtree at least as long that begins the name was registered before.
pub proof fn registered_subtree_is_served(
    before: SmuxServer,
    after: SmuxServer,
    peer_id: u32,
    subtree: Seq<u32>,
    oid: Seq<u32>,
)
    requires
        registered(before, after, peer_id, subtree, true),
        before.peers@.contains_key(peer_id),
        is_prefix(subtree, oid),
        forall|j: int|
            0 <= j < before.subtrees@.len() && is_prefix(
                owners(before.subtrees@)[j].0,
                oid,
            ) ==> #[trigger] owners(before.subtrees@)[j].0.len() < subtree.len(),
    ensures
        best_owner(after, oid) == Some(peer_id),
{
    let a = owners(before.subtrees@);
    let b = owners(after.subtrees@);
    assert(b == a.push((subtree, peer_id)));
    let n = a.len();
    assert(b[n as int] == (subtree, peer_id));
    owner_is_most_specific(b, oid, n as int);
    let k = best_among(b, oid, b.len())->0;
    if k < n {
        assert(b[k] == a[k]);
        assert(a[k].0.len() < subtree.len());
    }
    assert(k == n);
    assert(b[k].1 == after.subtrees@[k].1);
    assert(after.peers@.dom().contains(peer_id));
}

/// A registration that was not accepted changes nobody's subtrees.
pub proof fn refused_registration_changes_nothing(
    before: SmuxServer,
    after: SmuxServer,
    peer_id: u32,
    subtree: Seq<u32>,
    oid: Seq<u32>,
)
    requires
        registered(before, after, peer_id, subtree, false),
    ensures
        best_owner(after, oid) == best_owner(before, oid),
{
    let a = owners(before.subtrees@);
    let b = owners(after.subtrees@);
    assert(a == b);
    assert(a.len() == before.subtrees@.len() && b.len() == after.subtrees@.len());
    if let Some(k) = best_among(a, oid, a.len()) {
        lemma_best_in_range(a, oid, a.len());
        assert(a[k].1 == before.subtrees@[k].1);
        assert(b[k].1 == after.subtrees@[k].1);
        let id = a[k].1;
        assert(after.peers@.dom().contains(id) == before.peers@.dom().contains(id));
    }
}

proof fn lemma_best_in_range(subs: Seq<(Seq<u32>, u32)>, oid: Seq<u32>, n: nat)
    ensures
        best_among(subs, oid, n) matches Some(k) ==> 0 <= k < n,
    decreases n,
{
    if n > 0 {
        lemma_best_in_range(subs, oid, (n - 1) as nat);
    }
}

/// A name that no registered subtree begins has no owner.
pub proof fn outside_all_subtrees(s: SmuxServer, oid: Seq<u32>)
    requires
        forall|j: int|
            0 <= j < s.subtrees@.len() ==> !is_prefix(
                (#[trigger] owners(s.subtrees@)[j]).0,
                oid,
            ),
    ensures
        best_owner(s, oid) is None,
{
    lemma_no_best(owners(s.subtrees@), oid, s.subtrees@.len());
}

proof fn lemma_no_best(subs: Seq<(Seq<u32>, u32)>, oid: Seq<u32>, n: nat)
    requires
        n <= subs.len(),
        forall|j: int| 0 <= j < n ==> !is_prefix((#[trigger] subs[j]).0, oid),
    ensures
        best_among(subs, oid, n) is None,
    decreases n,
{
    if n > 0 {
        lemma_no_best(subs, oid, (n - 1) as nat);
        assert(!is_prefix(subs[n - 1].0, oid));
    }
}

/// What a peer answers to a forwarded request is its first binding as it is, unless that is an
/// exception or there is none.
pub proof fn peers_answer_with_their_first_binding(buf: Seq<u8>, p: PduView, n: nat)
    requires
        response_of(buf) == Some((p, n)),
    ensures
        p.variables.len() == 0 ==> forwarded(buf) is None,
        p.variables.len() > 0 && (p.variables[0].value is NoSuchObject
            || p.variables[0].value is NoSuchInstance || p.variables[0].value is EndOfMibView)
            ==> forwarded(buf) is None,
        p.variables.len() > 0 && !(p.variables[0].value is NoSuchObject)
            && !(p.variables[0].value is NoSuchInstance)
            && !(p.variables[0].value is EndOfMibView) ==> forwarded(buf) == Some(p.variables[0]),
{
}

/// A request for one name carries it with no value and no error.
pub proof fn requests_name_one_instance(t: PduType, id: i32, oid: Seq<u32>)
    ensures
        request_view(t, id, oid).pdu_type == t,
        request_view(t, id, oid).request_id == id,
        request_view(t, id, oid).error_status == 0,
        request_view(t, id, oid).error_index == 0,
        request_view(t, id, oid).variables == seq![VarBindView { oid, value: ValueView::Null }],
{
}

/// A register request is a GET of the subtree with the priority and the operation behind it, and is
/// told from a GET of an instance by its last arc: 1 to register, -1 to leave.
pub proof fn registrations_are_names(subtree: Seq<u32>, priority: u32, p: PduView)
    requires
        subtree.len() > 0,
        p.pdu_type == PduType::Get,
        p.variables.len() == 1,
    ensures
        p.variables[0].oid == subtree.push(priority).push(1) ==> carried(p)
            == (SmuxPduView::Register { subtree, priority: priority as i64, operation: 1 }),
        p.variables[0].oid == subtree.push(priority).push(0xffff_ffff) ==> carried(p)
            == (SmuxPduView::Register { subtree, priority: priority as i64, operation: -1i64 }),
        register_name(subtree, priority as int, 1) == subtree.push(priority).push(1),
        register_name(subtree, -1, -1) == subtree.push(0xffff_ffff).push(0xffff_ffff),
        p.variables[0].oid.len() > 0 && p.variables[0].oid.last() != 1
            && p.variables[0].oid.last() != 0xffff_ffff ==> carried(p) is Snmp,
{
    let a = subtree.push(priority).push(1);
    let b = subtree.push(priority).push(0xffff_ffff);
    assert(a.take(a.len() - 2) =~= subtree);
    assert(b.take(b.len() - 2) =~= subtree);
    assert(a[a.len() - 2] == priority);
    assert(b[b.len() - 2] == priority);
    assert(arc_of(-1) == 0xffff_ffff);
}

/// The tags of messages.
pub proof fn messages_have_tags()
    ensures
        SMUX_OPEN == 0xa0,
        SMUX_RRSP == 0xa1,
        SMUX_CLOSE == 0xa4,
        SMUX_SOUT == 0xa5,
        PduType::Get.tag_of() == 0xa0,
        PduType::GetNext.tag_of() == 0xa1,
        PduType::Response.tag_of() == 0xa2,
        PduType::SetRequest.tag_of() == 0xa3,
        PduType::GetBulk.tag_of() == 0xa5,
{
}

/// Every field is its tag, the length of its content, and the content. A length up to 127 is one
/// octet, and a longer one is the number of its octets and then these, from the highest.
pub proof fn fields_have_tag_length_content(tag: u8, content: Seq<u8>)
    requires
        content.len() < 0x1_0000_0000,
    ensures
        ({
            let s = tlv_octets(tag, content);
            let n = content.len();
            &&& s[0] == tag
            &&& n < 128 ==> s[1] == n && s.skip(2) == content
            &&& n >= 128 ==> s[1] > 128 && be(s.subrange(2, 2 + s[1] - 128)) == n && s.skip(
                2 + s[1] - 128,
            ) == content
        }),
{
    reveal(tlv_octets);
    let s = tlv_octets(tag, content);
    let n = content.len();
    if n < 128 {
        assert(s.skip(2) =~= content);
    } else {
        let b = be_octets(n);
        lemma_be_octets(n);
        reveal_with_fuel(pow256, 5);
        lemma_be_octets_len(n, 4);
        assert(b.len() > 0);
        let l = b.len() as int;
        assert(s[1] == 128 + l);
        assert(s.subrange(2, 2 + l) =~= b);
        assert(s.skip(2 + l) =~= content);
    }
}

proof fn lemma_be_octets(n: nat)
    ensures
        be(be_octets(n)) == n,
        n > 0 ==> be_octets(n).len() > 0,
    decreases n,
{
    if n > 0 {
        lemma_be_octets(n / 256);
        assert(be_octets(n).drop_last() =~= be_octets(n / 256));
    }
}

/// Each kind of value has a tag of its own; exceptions and NULL have no content.
pub proof fn values_have_tags(n: i64, m: u32, l: u64, b: Seq<u8>, o: Seq<u32>, ip: Ipv4Addr)
    ensures
        value_octets(ValueView::Integer(n)) == tlv_octets(2, int_octets(n as int)),
        value_octets(ValueView::OctetString(b)) == tlv_octets(4, b),
        value_octets(ValueView::Null) == tlv_octets(5, seq![]),
        value_octets(ValueView::Oid(o)) == tlv_octets(6, oid_octets(o)),
        value_octets(ValueView::IpAddress(ip)) == tlv_octets(0x40, seq![ip.a, ip.b, ip.c, ip.d]),
        value_octets(ValueView::Counter32(m)) == tlv_octets(0x41, unsigned_octets(m as nat, 4)),
        value_octets(ValueView::Gauge32(m)) == tlv_octets(0x42, unsigned_octets(m as nat, 4)),
        value_octets(ValueView::TimeTicks(m)) == tlv_octets(0x43, unsigned_octets(m as nat, 4)),
        value_octets(ValueView::Opaque(b)) == tlv_octets(0x44, b),
        value_octets(ValueView::Counter64(l)) == tlv_octets(0x46, unsigned_octets(l as nat, 8)),
        value_octets(ValueView::NoSuchObject) == tlv_octets(0x80, seq![]),
        value_octets(ValueView::NoSuchInstance) == tlv_octets(0x81, seq![]),
        value_octets(ValueView::EndOfMibView) == tlv_octets(0x82, seq![]),
{
}

/// An integer takes as few octets as its sign allows, from the highest.
pub proof fn integers_are_short(v: int)
    ensures
        -128 <= v < 128 ==> int_octets(v).len() == 1,
        int_octets(v).last() == v % 256,
        !(-128 <= v < 128) ==> int_octets(v).drop_last() == int_octets(v / 256),
{
    if !(-128 <= v < 128) {
        assert(int_octets(v).drop_last() =~= int_octets(v / 256));
    }
}

proof fn lemma_fixed(n: nat, k: nat)
    ensures
        fixed_octets(n, k).len() == k,
        k == 4 && n < 0x1_0000_0000 ==> be(fixed_octets(n, k)) == n,
    decreases k,
{
    reveal_with_fuel(fixed_octets, 5);
    reveal_with_fuel(be, 5);
    if k > 0 {
        lemma_fixed(n / 256, (k - 1) as nat);
    }
    if k == 4 && n < 0x1_0000_0000 {
        let s = fixed_octets(n, 4);
        let a = s.drop_last();
        let b = a.drop_last();
        let c = b.drop_last();
        assert(a =~= fixed_octets(n / 256, 3));
        assert(b =~= fixed_octets(n / 256 / 256, 2));
        assert(c =~= fixed_octets(n / 256 / 256 / 256, 1));
        assert(c.drop_last() =~= fixed_octets(n / 256 / 256 / 256 / 256, 0));
    }
}

/// A 32-bit counter takes four octets, from the highest.
pub proof fn counters_take_four_octets(n: u32)
    ensures
        unsigned_octets(n as nat, 4).len() == 4,
        be(unsigned_octets(n as nat, 4)) == n,
{
    lemma_fixed(n as nat, 4);
    lemma_be_octets(n as nat);
    reveal_with_fuel(pow256, 5);
    lemma_be_octets_len(n as nat, 4);
}

/// The first two arcs share an octet, and each further arc takes its own, seven bits to an octet,
/// with the high bit on all but the last.
pub proof fn arcs_take_seven_bits(o: Seq<u32>, n: nat)
    ensures
        o.len() == 2 && o[0] <= 2 && o[1] < 40 ==> oid_octets(o) == seq![(40 * o[0] + o[1]) as u8],
        n < 128 ==> arc_octets(n) == seq![n as u8],
        arc_octets(n).last() == n % 128,
        forall|i: int| 0 <= i < arc_octets(n).len() - 1 ==> #[trigger] arc_octets(n)[i] >= 128,
        128 <= n < 16384 ==> arc_octets(n) == seq![(128 + n / 128) as u8, (n % 128) as u8],
{
    lemma_high(n / 128);
    if n < 128 {
        assert(arc_octets(n) =~= seq![n as u8]);
    }
    if 128 <= n < 16384 {
        assert(n / 128 / 128 == 0);
        assert(high_octets(0) =~= Seq::<u8>::empty());
        assert((n / 128) % 128 == n / 128);
        assert(high_octets(n / 128) =~= seq![(128 + n / 128) as u8]);
        assert(arc_octets(n) =~= seq![(128 + n / 128) as u8, (n % 128) as u8]);
    }
    if o.len() == 2 && o[0] <= 2 && o[1] < 40 {
        let p = (40 * o[0] + o[1]) as nat;
        assert(p < 128);
        assert(arc_octets(p) =~= seq![p as u8]);
        assert(oid_octets(o) =~= seq![p as u8]);
    }
}

proof fn lemma_high(n: nat)
    ensures
        forall|i: int| 0 <= i < high_octets(n).len() ==> #[trigger] high_octets(n)[i] >= 128,
    decreases n,
{
    if n > 0 {
        lemma_high(n / 128);
        let before = high_octets(n / 128);
        let s = high_octets(n);
        assert(s == before.push((128 + n % 128) as u8));
        assert forall|i: int| 0 <= i < s.len() implies #[trigger] s[i] >= 128 by {
            if i < before.len() {
                assert(s[i] == before[i]);
            }
        }
    }
}

/// Bindings are written one after the other, each as its name and its value.
pub proof fn bindings_are_written_in_order(vars: Seq<VarBindView>, b: VarBindView)
    ensures
        binds_octets(Seq::empty()) == Seq::<u8>::empty(),
        binds_octets(vars.push(b)) == binds_octets(vars) + bind_octets(b),
        bind_octets(b) == tlv_octets(
            0x30,
            tlv_octets(6, oid_octets(b.oid)) + value_octets(b.value),
        ),
{
    assert(vars.push(b).drop_last() =~= vars);
}

/// A message is its request id, its error and the place of the error, and its bindings, under the
/// tag of its type.
pub proof fn messages_are_written_in_order(p: PduView)
    ensures
        pdu_octets(p) == tlv_octets(
            p.pdu_type.tag_of(),
            tlv_octets(2, int_octets(p.request_id as int)) + tlv_octets(
                2,
                int_octets(p.error_status as int),
            ) + tlv_octets(2, int_octets(p.error_index as int)) + tlv_octets(
                0x30,
                binds_octets(p.variables),
            ),
        ),
{
}

/// After a first length octet below 128 nothing of the length is left; else as many octets as it
/// says.
pub proof fn long_lengths_say_how_long(first: u8)
    ensures
        first < 128 ==> more_length_octets(first) == 0,
        first >= 128 ==> more_length_octets(first) == first - 128,
        len_octets(5) == seq![5u8],
{
}

} // verus!
