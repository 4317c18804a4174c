//! The state of the SMUX server: its peers, the subtrees they registered, and what it does
//! with each PDU that a peer sends.

use std::collections::HashMap;
use vstd::prelude::*;

use crate::ber::be;
use crate::ber::packable;
use crate::ber::parse_unsigned_u64;
use crate::ber::tlv_octets;
use crate::config::Directive;
use crate::handler::Reading;
use crate::oid::is_prefix;
use crate::oid::parse_oid;
use crate::oid::Oid;
use crate::pdu::ErrorStatus;
use crate::pdu::PduType;
use crate::smux::codec::decode_smux_pdu;
use crate::smux::codec::decode_snmp_response;
use crate::smux::codec::encode_snmp_request;
use crate::smux::codec::fault_of;
use crate::smux::codec::int_tlv;
use crate::smux::codec::pdu_octets;
use crate::smux::codec::request_view;
use crate::smux::codec::response_of;
use crate::smux::codec::smux_of;
use crate::smux::codec::wrap_i32;
use crate::smux::codec::RRspCode;
use crate::smux::codec::SmuxError;
use crate::smux::codec::SmuxOpen;
use crate::smux::codec::SmuxPdu;
use crate::smux::codec::SmuxPduView;
use crate::smux::codec::SmuxRRsp;
use crate::smux::tags::SMUX_RRSP;
use crate::text::str_eq;
use crate::value::Value;
use crate::value::ValueView;
use crate::value::VarBindView;

verus! {

broadcast use vstd::std_specs::hash::group_hash_axioms;

/// The TCP port that the protocol is assigned.
pub const SMUX_PORT: u16 = 199;

/// One connected peer.
#[derive(Debug)]
pub struct SmuxPeer {
    /// The identity from its open PDU.
    pub identity: Oid,
    /// Its description.
    pub description: String,
    /// The subtrees it has registered.
    pub subtrees: Vec<Oid>,
}

/// One configured peer.
#[derive(Debug)]
pub struct SmuxPeerEntry {
    /// The password it must give.
    pub password: String,
    /// The subtree it may register in.
    pub subtree: Oid,
}

/// The configuration of the server.
#[derive(Debug)]
pub struct SmuxServerConfig {
    /// The address to listen on.
    pub listen_addr: String,
    /// The peers that may register.
    pub peers: Vec<SmuxPeerEntry>,
}

/// The mathematical content of a [`SmuxServerConfig`].
#[verifier::ext_equal]
pub struct SmuxConfigView {
    pub listen_addr: Seq<char>,
    pub peers: Seq<(Seq<char>, Seq<u32>)>,
}

impl View for SmuxServerConfig {
    type V = SmuxConfigView;

    open spec fn view(&self) -> SmuxConfigView {
        SmuxConfigView {
            listen_addr: self.listen_addr@,
            peers: self.peers@.map_values(|p: SmuxPeerEntry| (p.password@, p.subtree@)),
        }
    }
}

/// The configuration without any directive.
pub open spec fn default_config() -> SmuxConfigView {
    SmuxConfigView { listen_addr: "0.0.0.0:199"@, peers: seq![] }
}

impl Default for SmuxServerConfig {
    fn default() -> (r: SmuxServerConfig)
        ensures
            r@ == default_config(),
    {
        let r = SmuxServerConfig { listen_addr: "0.0.0.0:199".to_owned(), peers: Vec::new() };
        assert(r@ =~= default_config());
        r
    }
}

/// A configuration with one more directive.
pub open spec fn configure(c: SmuxConfigView, d: Directive) -> SmuxConfigView {
    if d.named("smuxsocket"@) {
        if d.args@.len() > 0 {
            SmuxConfigView { listen_addr: d.args@[0]@, ..c }
        } else {
            c
        }
    } else if d.named("smuxpeer"@) && d.args@.len() > 1 {
        match parse_oid(d.args@[1]@) {
            Some(subtree) => SmuxConfigView { peers: c.peers.push((d.args@[0]@, subtree)), ..c },
            None => c,
        }
    } else {
        c
    }
}

/// The configuration that a list of directives makes.
pub open spec fn configured(ds: Seq<Directive>) -> SmuxConfigView
    decreases ds.len(),
{
    if ds.len() == 0 {
        default_config()
    } else {
        configure(configured(ds.drop_last()), ds.last())
    }
}

/// The configuration made by the `smuxpeer` and `smuxsocket` directives; the others are left
/// aside.
pub fn from_config_directives(directives: &[Directive]) -> (r: SmuxServerConfig)
    ensures
        r@ == configured(directives@),
{
    let mut cfg = SmuxServerConfig::default();
    let mut i: usize = 0;
    assert(directives@.take(0) =~= seq![]);
    while i < directives.len()
        invariant
            i <= directives@.len(),
            cfg@ == configured(directives@.take(i as int)),
        decreases directives@.len() - i,
    {
        let d = &directives[i];
        let ghost before = cfg@;
        let ghost peers0 = cfg.peers@;
        if d.is("smuxsocket") {
            match d.arg(0) {
                Some(addr) => {
                    cfg.listen_addr = addr.clone();
                },
                None => {},
            }
        } else if d.is("smuxpeer") {
            match (d.arg(0), d.arg(1)) {
                (Some(pw), Some(oid)) => match Oid::parse(oid.as_str()) {
                    Ok(subtree) => {
                        let entry = SmuxPeerEntry { password: pw.clone(), subtree };
                        cfg.peers.push(entry);
                        assert(cfg@.peers =~= before.peers.push((pw@, subtree@)));
                    },
                    Err(_) => {},
                },
                _ => {},
            }
        }
        proof {
            assert(cfg@ =~= configure(before, *d));
            let t = directives@.take(i + 1);
            assert(t.drop_last() =~= directives@.take(i as int));
            assert(t.last() == *d);
        }
        i += 1;
    }
    assert(directives@.take(i as int) =~= directives@);
    cfg
}

/// The SMUX server: the peers by number, and which peer owns which subtree.
#[derive(Debug)]
pub struct SmuxServer {
    /// The connected peers.
    pub peers: HashMap<u32, SmuxPeer>,
    /// The registered subtrees, each with the number of its peer.
    pub subtrees: Vec<(Oid, u32)>,
    /// The number that the next peer gets.
    pub next_peer_id: u32,
    /// The configuration.
    pub config: SmuxServerConfig,
}

/// What the server does with a PDU of a peer.
#[derive(Debug, PartialEq, Eq)]
pub enum SmuxAction {
    /// Write these octets to the peer.
    Reply(Vec<u8>),
    /// Hand the PDU to whoever waits for the answer to a forwarded request.
    Deliver,
    /// Do nothing.
    Ignore,
    /// End the session.
    Close,
}

/// Whether a password lets a peer register a subtree: any does where no peer is configured,
/// else a configured peer must have the password and a subtree that begins it.
pub open spec fn authorized(c: SmuxConfigView, password: Seq<char>, subtree: Seq<u32>) -> bool {
    c.peers.len() == 0 || exists|i: int|
        0 <= i < c.peers.len() && (#[trigger] c.peers[i]).0 == password && is_prefix(
            c.peers[i].1,
            subtree,
        )
}

/// The subtrees with their peers.
pub open spec fn owners(v: Seq<(Oid, u32)>) -> Seq<(Seq<u32>, u32)> {
    v.map_values(|x: (Oid, u32)| (x.0@, x.1))
}

/// The registration among the first `n` that answers for `oid`: the first of those with the
/// longest subtree that begins it.
pub open spec fn best_among(subs: Seq<(Seq<u32>, u32)>, oid: Seq<u32>, n: nat) -> Option<int>
    decreases n,
{
    if n == 0 {
        None
    } else {
        let prev = best_among(subs, oid, (n - 1) as nat);
        if is_prefix(subs[n - 1].0, oid) && (prev is None || subs[prev->0].0.len() < subs[n
            - 1].0.len()) {
            Some(n - 1)
        } else {
            prev
        }
    }
}

/// Whether a register request succeeds: it asks to register, and the password allows it.
pub open spec fn accepts(
    server: SmuxServer,
    password: Seq<char>,
    subtree: Seq<u32>,
    operation: i64,
) -> bool {
    operation == 1 && authorized(server.config_view(), password, subtree)
}

/// The code that answers a register request.
pub open spec fn answer_code(accepted: bool) -> i64 {
    if accepted {
        RRspCode::ReadOnly.code_of()
    } else {
        RRspCode::Reject.code_of()
    }
}

/// What a register request of a peer changes: where it succeeds, the subtree is the last one of
/// the server and of the peer; all else stays as it is.
pub open spec fn registered(
    before: SmuxServer,
    after: SmuxServer,
    peer_id: u32,
    subtree: Seq<u32>,
    accepted: bool,
) -> bool {
    &&& owners(after.subtrees@) == (if accepted {
        owners(before.subtrees@).push((subtree, peer_id))
    } else {
        owners(before.subtrees@)
    })
    &&& after.peers@.dom() == before.peers@.dom()
    &&& forall|k: u32|
        k != peer_id && before.peers@.contains_key(k) ==> #[trigger] after.peers@[k]
            == before.peers@[k]
    &&& before.peers@.contains_key(peer_id) ==> {
        let old_peer = before.peers@[peer_id];
        let new_peer = after.peers@[peer_id];
        &&& new_peer.identity == old_peer.identity
        &&& new_peer.description == old_peer.description
        &&& oids(new_peer.subtrees@) == (if accepted {
            oids(old_peer.subtrees@).push(subtree)
        } else {
            oids(old_peer.subtrees@)
        })
    }
    &&& after.next_number() == before.next_number()
    &&& after.config_view() == before.config_view()
}

impl SmuxServer {
    /// The configuration.
    pub open spec fn config_view(self) -> SmuxConfigView {
        self.config@
    }

    /// The number that the next peer gets.
    pub open spec fn next_number(self) -> u32 {
        self.next_peer_id
    }

    /// A server without peers.
    pub fn new(config: SmuxServerConfig) -> (r: SmuxServer)
        ensures
            r.peers@ == Map::<u32, SmuxPeer>::empty(),
            r.subtrees@ == Seq::<(Oid, u32)>::empty(),
            r.next_number() == 1,
            r.config_view() == config@,
    {
        SmuxServer { peers: HashMap::new(), subtrees: Vec::new(), next_peer_id: 1, config }
    }

    /// A server with the default configuration.
    pub fn new_default() -> (r: SmuxServer)
        ensures
            r.peers@ == Map::<u32, SmuxPeer>::empty(),
            r.subtrees@ == Seq::<(Oid, u32)>::empty(),
            r.next_number() == 1,
            r.config_view() == default_config(),
    {
        SmuxServer::new(SmuxServerConfig::default())
    }

    /// Whether a password lets a peer register a subtree.
    pub fn authorize(&self, password: &str, subtree: &Oid) -> (r: bool)
        ensures
            r == authorized(self.config_view(), password@, subtree@),
    {
        let ghost c = self.config@;
        if self.config.peers.len() == 0 {
            return true;
        }
        let mut i: usize = 0;
        while i < self.config.peers.len()
            invariant
                i <= self.config.peers@.len(),
                c == self.config@,
                c.peers.len() > 0,
                forall|k: int|
                    0 <= k < i ==> !((#[trigger] c.peers[k]).0 == password@ && is_prefix(
                        c.peers[k].1,
                        subtree@,
                    )),
            decreases self.config.peers@.len() - i,
        {
            let p = &self.config.peers[i];
            assert(c.peers[i as int] == (p.password@, p.subtree@));
            if str_eq(p.password.as_str(), password) && p.subtree.is_prefix_of(subtree) {
                return true;
            }
            i += 1;
        }
        false
    }

    /// Take the next peer number. After the greatest comes zero.
    fn next_id(&mut self) -> (r: u32)
        ensures
            r == old(self).next_number(),
            final(self).next_number() == (r + 1) % 0x1_0000_0000,
            final(self).peers == old(self).peers,
            final(self).subtrees == old(self).subtrees,
            final(self).config_view() == old(self).config_view(),
    {
        let id: u32 = self.next_peer_id;
        self.next_peer_id = if id == u32::MAX {
            0
        } else {
            id + 1
        };
        id
    }

    /// Take in the first PDU of a connection, which must be an open PDU: record the peer and
    /// give its number and its password.
    pub fn open_session(&mut self, buf: &[u8]) -> (r: Result<(u32, String), SmuxError>)
        ensures
            match smux_of(buf@) {
                Ok((SmuxPduView::Open { version, identity, description, password }, _)) => {
                    &&& r matches Ok((id, pw)) && id == old(self).next_number() && pw@ == password
                    &&& final(self).next_number() == (old(self).next_number() + 1) % 0x1_0000_0000
                    &&& final(self).peers@.dom() == old(self).peers@.dom().insert(
                        old(self).next_number(),
                    )
                    &&& forall|k: u32|
                        k != old(self).next_number() && old(self).peers@.contains_key(k)
                            ==> #[trigger] final(self).peers@[k] == old(self).peers@[k]
                    &&& final(self).peers@[old(self).next_number()].identity@ == identity
                    &&& final(self).peers@[old(self).next_number()].description@ == description
                    &&& final(self).peers@[old(self).next_number()].subtrees@.len() == 0
                },
                Ok(_) => (r matches Err(SmuxError::Decode(m)) && m@
                    == "expected SMUX_OPEN as first PDU"@) && *final(self) == *old(self),
                Err(f) => (r matches Err(e) && fault_of(e) == f) && *final(self) == *old(self),
            },
            final(self).subtrees == old(self).subtrees,
            final(self).config_view() == old(self).config_view(),
    {
        match decode_smux_pdu(buf) {
            Ok((SmuxPdu::Open(open), _)) => {
                let id: u32 = self.next_id();
                let SmuxOpen { version: _, identity, description, password } = open;
                let peer = SmuxPeer { identity, description, subtrees: Vec::new() };
                self.peers.insert(id, peer);
                assert(self.peers@.dom() =~= old(self).peers@.dom().insert(id));
                Ok((id, password))
            },
            Ok(_) => Err(SmuxError::Decode("expected SMUX_OPEN as first PDU".to_owned())),
            Err(e) => Err(e),
        }
    }

    /// Register a subtree for a peer, if it asks for that and its password allows it, and give
    /// the answer to send.
    pub fn register_subtree(
        &mut self,
        peer_id: u32,
        password: &str,
        subtree: Oid,
        operation: i64,
    ) -> (r: SmuxRRsp)
        ensures
            r.code == answer_code(accepts(*old(self), password@, subtree@, operation)),
            registered(
                *old(self),
                *final(self),
                peer_id,
                subtree@,
                accepts(*old(self), password@, subtree@, operation),
            ),
    {
        if operation != 1 || !self.authorize(password, &subtree) {
            return SmuxRRsp { code: RRspCode::Reject.code() };
        }
        let ghost subs0 = self.subtrees@;
        self.subtrees.push((subtree.clone(), peer_id));
        assert(owners(self.subtrees@) =~= owners(subs0).push((subtree@, peer_id)));
        match self.peers.remove(&peer_id) {
            Some(peer) => {
                let SmuxPeer { identity, description, subtrees } = peer;
                let mut subtrees = subtrees;
                let ghost before = subtrees@;
                let ghost arcs = subtree@;
                subtrees.push(subtree);
                assert(oids(subtrees@) =~= oids(before).push(arcs));
                self.peers.insert(peer_id, SmuxPeer { identity, description, subtrees });
                assert(self.peers@.dom() =~= old(self).peers@.dom());
            },
            None => {
                assert(self.peers@ =~= old(self).peers@);
            },
        }
        SmuxRRsp { code: RRspCode::ReadOnly.code() }
    }

    /// What to do with a PDU of an open session. A register request changes the state and is
    /// answered; a response goes to whoever waits for it; a close ends the session; anything
    /// else is dropped.
    pub fn on_pdu(&mut self, peer_id: u32, password: &str, pdu: SmuxPdu) -> (r: SmuxAction)
        ensures
            match pdu@ {
                SmuxPduView::Register { subtree, priority, operation } => {
                    let accepted = accepts(*old(self), password@, subtree, operation);
                    &&& r matches SmuxAction::Reply(b) && b@ == tlv_octets(
                        SMUX_RRSP,
                        int_tlv(answer_code(accepted) as int),
                    )
                    &&& registered(*old(self), *final(self), peer_id, subtree, accepted)
                },
                SmuxPduView::Close(_) => r == SmuxAction::Close && *final(self) == *old(self),
                SmuxPduView::Snmp { snmp_version, community, pdu } => r == (if pdu.pdu_type
                    == PduType::Response {
                    SmuxAction::Deliver
                } else {
                    SmuxAction::Ignore
                }) && *final(self) == *old(self),
                _ => r == SmuxAction::Ignore && *final(self) == *old(self),
            },
    {
        match pdu {
            SmuxPdu::Register { subtree, priority: _, operation } => {
                let rsp = self.register_subtree(peer_id, password, subtree, operation);
                SmuxAction::Reply(rsp.encode())
            },
            SmuxPdu::Close(_) => SmuxAction::Close,
            SmuxPdu::Snmp(m) => {
                if m.pdu.pdu_type == PduType::Response {
                    SmuxAction::Deliver
                } else {
                    SmuxAction::Ignore
                }
            },
            _ => SmuxAction::Ignore,
        }
    }

    /// Forget a peer and its subtrees.
    pub fn close_session(&mut self, peer_id: u32)
        ensures
            final(self).peers@ == old(self).peers@.remove(peer_id),
            owners(final(self).subtrees@) == owners(old(self).subtrees@).filter(
                |x: (Seq<u32>, u32)| x.1 != peer_id,
            ),
            final(self).next_number() == old(self).next_number(),
            final(self).config_view() == old(self).config_view(),
    {
        self.peers.remove(&peer_id);
        let ghost keep = |x: (Seq<u32>, u32)| x.1 != peer_id;
        let ghost all = owners(self.subtrees@);
        let mut kept: Vec<(Oid, u32)> = Vec::new();
        let mut i: usize = 0;
        proof {
            reveal(Seq::filter);
            assert(all.take(0) =~= seq![]);
            assert(owners(kept@) =~= all.take(0).filter(keep));
        }
        while i < self.subtrees.len()
            invariant
                i <= self.subtrees@.len(),
                all == owners(self.subtrees@),
                keep == (|x: (Seq<u32>, u32)| x.1 != peer_id),
                owners(kept@) == all.take(i as int).filter(keep),
            decreases self.subtrees@.len() - i,
        {
            let ghost before = kept@;
            if self.subtrees[i].1 != peer_id {
                kept.push((self.subtrees[i].0.clone(), self.subtrees[i].1));
            }
            proof {
                reveal(Seq::filter);
                let t = all.take(i + 1);
                assert(t.drop_last() =~= all.take(i as int));
                assert(t.last() == all[i as int]);
                if keep(all[i as int]) {
                    assert(owners(kept@) =~= owners(before).push(all[i as int]));
                }
            }
            i += 1;
        }
        assert(all.take(i as int) =~= all);
        self.subtrees = kept;
    }

    /// The number of the connected peer that owns the subtree of `oid`.
    pub fn owner_of(&self, oid: &Oid) -> (r: Option<u32>)
        ensures
            r == match best_among(owners(self.subtrees@), oid@, self.subtrees@.len()) {
                Some(i) => if self.peers@.contains_key(self.subtrees@[i].1) {
                    Some(self.subtrees@[i].1)
                } else {
                    None::<u32>
                },
                None => None::<u32>,
            },
    {
        let ghost subs = owners(self.subtrees@);
        let mut best: Option<usize> = None;
        let mut i: usize = 0;
        while i < self.subtrees.len()
            invariant
                i <= self.subtrees@.len(),
                subs == owners(self.subtrees@),
                best is None <==> best_among(subs, oid@, i as nat) is None,
                best matches Some(b) ==> b < i && best_among(subs, oid@, i as nat) == Some(
                    b as int,
                ),
            decreases self.subtrees@.len() - i,
        {
            assert(subs[i as int] == (self.subtrees@[i as int].0@, self.subtrees@[i as int].1));
            if self.subtrees[i].0.is_prefix_of(oid) {
                let better = match best {
                    Some(b) => {
                        assert(subs[b as int].0 == self.subtrees@[b as int].0@);
                        self.subtrees[b].0.len() < self.subtrees[i].0.len()
                    },
                    None => true,
                };
                if better {
                    best = Some(i);
                }
            }
            i += 1;
        }
        match best {
            Some(b) => {
                let id: u32 = self.subtrees[b].1;
                if self.peers.contains_key(&id) {
                    Some(id)
                } else {
                    None
                }
            },
            None => None,
        }
    }

    /// A copy of the registered subtrees with their peers.
    pub fn registered_subtrees(&self) -> (r: Vec<(Oid, u32)>)
        ensures
            owners(r@) == owners(self.subtrees@),
    {
        let mut out: Vec<(Oid, u32)> = Vec::new();
        let mut i: usize = 0;
        while i < self.subtrees.len()
            invariant
                i <= self.subtrees@.len(),
                owners(out@) == owners(self.subtrees@.take(i as int)),
            decreases self.subtrees@.len() - i,
        {
            let ghost before = out@;
            out.push((self.subtrees[i].0.clone(), self.subtrees[i].1));
            proof {
                let x = self.subtrees@[i as int];
                assert(owners(out@) =~= owners(before).push((x.0@, x.1)));
                assert(owners(self.subtrees@.take(i + 1)) =~= owners(
                    self.subtrees@.take(i as int),
                ).push((x.0@, x.1)));
            }
            i += 1;
        }
        assert(self.subtrees@.take(i as int) =~= self.subtrees@);
        out
    }
}

/// The contents of a list of OIDs.
pub open spec fn oids(v: Seq<Oid>) -> Seq<Seq<u32>> {
    v.map_values(|o: Oid| o@)
}

/// The first binding of the response to a forwarded request, unless it is an exception.
pub open spec fn forwarded(buf: Seq<u8>) -> Option<VarBindView> {
    match response_of(buf) {
        Some((p, _)) => if p.variables.len() > 0 {
            match p.variables[0].value {
                ValueView::NoSuchObject => None,
                ValueView::NoSuchInstance => None,
                ValueView::EndOfMibView => None,
                _ => Some(p.variables[0]),
            }
        } else {
            None
        },
        None => None,
    }
}

/// What the answer of a peer to a forwarded GETNEXT says.
pub fn forwarded_reading(resp: &[u8]) -> (r: Option<Reading>)
    ensures
        r is Some <==> forwarded(resp@) is Some,
        r matches Some(x) ==> forwarded(resp@) == Some(
            VarBindView { oid: x.oid@, value: x.value@ },
        ),
{
    match decode_snmp_response(resp) {
        Some((pdu, _)) => {
            if pdu.variables.len() == 0 {
                return None;
            }
            assert(pdu@.variables[0] == pdu.variables@[0]@);
            let vb = pdu.variables[0].clone();
            match vb.value {
                Value::NoSuchObject => None,
                Value::NoSuchInstance => None,
                Value::EndOfMibView => None,
                _ => Some(Reading { oid: vb.oid, value: vb.value }),
            }
        },
        None => None,
    }
}

/// What the answer of a peer to a forwarded GET says.
pub fn forwarded_value(resp: &[u8]) -> (r: Option<Value>)
    ensures
        r is Some <==> forwarded(resp@) is Some,
        r matches Some(v) ==> forwarded(resp@)->0.value == v@,
{
    match forwarded_reading(resp) {
        Some(x) => Some(x.value),
        None => None,
    }
}

/// The source of request ids for forwarded requests: 1, 2, 3 and so on, in 32 bits.
#[derive(Debug)]
pub struct RequestIds {
    next: u32,
}

impl RequestIds {
    /// The number that the next id is made of.
    pub closed spec fn upcoming(self) -> u32 {
        self.next
    }

    /// A source that starts at 1.
    pub fn new() -> (r: RequestIds)
        ensures
            r.upcoming() == 1,
    {
        RequestIds { next: 1 }
    }

    /// The next id.
    pub fn next_request_id(&mut self) -> (r: i32)
        ensures
            r == wrap_i32(old(self).upcoming() as int),
            final(self).upcoming() == (old(self).upcoming() + 1) % 0x1_0000_0000,
    {
        let n: u32 = self.next;
        self.next = if n == u32::MAX {
            0
        } else {
            n + 1
        };
        if n >= 0x8000_0000 {
            (n as i64 - 0x1_0000_0000) as i32
        } else {
            n as i32
        }
    }
}

/// The handler of one registered subtree, which forwards what it is asked to the owner.
#[derive(Debug)]
pub struct SmuxSubtreeHandler {
    root: Oid,
}

impl SmuxSubtreeHandler {
    /// The root of the subtree.
    pub closed spec fn root_view(self) -> Seq<u32> {
        self.root@
    }

    /// A handler for the subtree `root`.
    pub fn new(root: Oid) -> (r: SmuxSubtreeHandler)
        ensures
            r.root_view() == root@,
    {
        SmuxSubtreeHandler { root }
    }

    /// The root of the subtree.
    pub fn root(&self) -> (r: &Oid)
        ensures
            r@ == self.root_view(),
    {
        &self.root
    }

    /// The peer to forward a GET to, and the octets to write to it.
    pub fn get_request(&self, server: &SmuxServer, request_id: i32, oid: &Oid) -> (r: Option<
        (u32, Vec<u8>),
    >)
        requires
            packable(oid@),
        ensures
            r is Some <==> best_owner(*server, oid@) is Some,
            r matches Some((id, b)) ==> best_owner(*server, oid@) == Some(id) && b@ == pdu_octets(
                request_view(PduType::Get, request_id, oid@),
            ),
    {
        match server.owner_of(oid) {
            Some(id) => Some((id, encode_snmp_request(PduType::Get, request_id, oid))),
            None => None,
        }
    }

    /// The peer to forward a GETNEXT to, and the octets to write to it.
    pub fn get_next_request(&self, server: &SmuxServer, request_id: i32, oid: &Oid) -> (r: Option<
        (u32, Vec<u8>),
    >)
        requires
            packable(oid@),
        ensures
            r is Some <==> best_owner(*server, oid@) is Some,
            r matches Some((id, b)) ==> best_owner(*server, oid@) == Some(id) && b@ == pdu_octets(
                request_view(PduType::GetNext, request_id, oid@),
            ),
    {
        match server.owner_of(oid) {
            Some(id) => Some((id, encode_snmp_request(PduType::GetNext, request_id, oid))),
            None => None,
        }
    }

    /// A SET is never forwarded.
    pub fn set(&self, oid: &Oid, value: &Value) -> (r: Result<(), ErrorStatus>)
        ensures
            r == Err::<(), ErrorStatus>(ErrorStatus::NotWritable),
    {
        Err(ErrorStatus::NotWritable)
    }
}

/// The number of the connected peer that owns the subtree of `oid`.
pub open spec fn best_owner(server: SmuxServer, oid: Seq<u32>) -> Option<u32> {
    match best_among(owners(server.subtrees@), oid, server.subtrees@.len()) {
        Some(i) => if server.peers@.contains_key(server.subtrees@[i].1) {
            Some(server.subtrees@[i].1)
        } else {
            None
        },
        None => None,
    }
}

/// One handler for each registered subtree.
pub fn smux_handler(server: &SmuxServer) -> (r: Vec<SmuxSubtreeHandler>)
    ensures
        r@.len() == server.subtrees@.len(),
        forall|i: int|
            0 <= i < r@.len() ==> (#[trigger] r@[i]).root_view() == server.subtrees@[i].0@,
{
    let mut out: Vec<SmuxSubtreeHandler> = Vec::new();
    let mut i: usize = 0;
    while i < server.subtrees.len()
        invariant
            i <= server.subtrees@.len(),
            out@.len() == i,
            forall|k: int|
                0 <= k < i ==> (#[trigger] out@[k]).root_view() == server.subtrees@[k].0@,
        decreases server.subtrees@.len() - i,
    {
        out.push(SmuxSubtreeHandler::new(server.subtrees[i].0.clone()));
        i += 1;
    }
    out
}

/// How the octets of a message that is being read from a stream continue after the tag and the
/// first octet of the length.
pub open spec fn more_length_octets(first: u8) -> nat {
    if first < 128 {
        0
    } else {
        (first - 128) as nat
    }
}

/// The number of further length octets after the first.
pub fn length_octets_to_read(first: u8) -> (r: usize)
    ensures
        r == more_length_octets(first),
{
    if first < 128 {
        0
    } else {
        (first - 128) as usize
    }
}

/// The number of content octets that a length announces, in 64 bits.
pub fn content_octets_to_read(first: u8, rest: &[u8]) -> (r: u64)
    ensures
        r == (if first < 128 {
            first as nat
        } else {
            be(rest@) % 0x1_0000_0000_0000_0000
        }),
{
    if first < 128 {
        first as u64
    } else {
        parse_unsigned_u64(rest)
    }
}

/// A peer that has gone owns nothing.
pub proof fn closed_peer_owns_nothing(before: SmuxServer, after: SmuxServer, peer_id: u32, oid: Seq<u32>)
    requires
        after.peers@ == before.peers@.remove(peer_id),
    ensures
        best_owner(after, oid) != Some(peer_id),
{
}

/// The subtree that answers begins the OID, and no registered subtree that begins it is
/// longer.
pub proof fn owner_is_most_specific(subs: Seq<(Seq<u32>, u32)>, oid: Seq<u32>, j: int)
    requires
        0 <= j < subs.len(),
        is_prefix(subs[j].0, oid),
    ensures
        best_among(subs, oid, subs.len()) matches Some(k) && 0 <= k < subs.len() && is_prefix(
            subs[k].0,
            oid,
        ) && subs[j].0.len() <= subs[k].0.len() && (subs[j].0.len() == subs[k].0.len() ==> k <= j),
{
    lemma_best_among(subs, oid, subs.len());
}

proof fn lemma_best_among(subs: Seq<(Seq<u32>, u32)>, oid: Seq<u32>, n: nat)
    requires
        n <= subs.len(),
    ensures
        best_among(subs, oid, n) matches Some(k) ==> 0 <= k < n && is_prefix(subs[k].0, oid),
        forall|j: int|
            0 <= j < n && is_prefix((#[trigger] subs[j]).0, oid) ==> {
                &&& best_among(subs, oid, n) matches Some(k)
                &&& subs[j].0.len() <= subs[k].0.len()
                &&& (subs[j].0.len() == subs[k].0.len() ==> k <= j)
            },
    decreases n,
{
    if n > 0 {
        lemma_best_among(subs, oid, (n - 1) as nat);
    }
}

} // verus!
