//! SNMP values and variable bindings.

use vstd::prelude::*;

use crate::oid::Oid;

verus! {

/// An IPv4 address.
#[derive(Clone, Copy, Debug, PartialEq, Eq, PartialOrd, Ord, Hash, Structural)]
pub struct Ipv4Addr {
    /// The first octet, in network order.
    pub a: u8,
    /// The second octet.
    pub b: u8,
    /// The third octet.
    pub c: u8,
    /// The fourth octet.
    pub d: u8,
}

impl Ipv4Addr {
    /// The address with the given octets.
    pub fn new(a: u8, b: u8, c: u8, d: u8) -> (r: Ipv4Addr)
        ensures
            r == (Ipv4Addr { a, b, c, d }),
    {
        Ipv4Addr { a, b, c, d }
    }

    /// The address whose octets, from the first, are the bytes of `word` from the lowest.
    pub open spec fn from_low_first(word: u32) -> Ipv4Addr {
        Ipv4Addr {
            a: (word % 256) as u8,
            b: (word / 256 % 256) as u8,
            c: (word / 65536 % 256) as u8,
            d: (word / 16777216) as u8,
        }
    }

    /// The address whose first octet is the lowest of a word.
    pub fn of_low_first(word: u32) -> (r: Ipv4Addr)
        ensures
            r == Ipv4Addr::from_low_first(word),
    {
        Ipv4Addr {
            a: (word % 256) as u8,
            b: ((word / 256) % 256) as u8,
            c: ((word / 65536) % 256) as u8,
            d: ((word / 16777216) % 256) as u8,
        }
    }

    /// The address as four OID arcs.
    pub open spec fn arcs(self) -> Seq<u32> {
        seq![self.a as u32, self.b as u32, self.c as u32, self.d as u32]
    }

    /// The address as four octets.
    pub open spec fn octet_seq(self) -> Seq<u8> {
        seq![self.a, self.b, self.c, self.d]
    }

    /// The octets, in network order.
    pub fn octets(&self) -> (r: [u8; 4])
        ensures
            r@ == self.octet_seq(),
    {
        [self.a, self.b, self.c, self.d]
    }

    /// Append the address to `out` as four arcs.
    pub fn push_arcs(&self, out: &mut Vec<u32>)
        ensures
            final(out)@ == old(out)@ + self.arcs(),
    {
        out.push(self.a as u32);
        out.push(self.b as u32);
        out.push(self.c as u32);
        out.push(self.d as u32);
    }
}

/// A typed SNMP value.
#[derive(Debug, PartialEq, Eq)]
pub enum Value {
    /// INTEGER.
    Integer(i64),
    /// OCTET STRING.
    OctetString(Vec<u8>),
    /// OBJECT IDENTIFIER.
    Oid(Oid),
    /// NULL.
    Null,
    /// Counter32.
    Counter32(u32),
    /// Gauge32.
    Gauge32(u32),
    /// TimeTicks.
    TimeTicks(u32),
    /// IpAddress.
    IpAddress(Ipv4Addr),
    /// Opaque.
    Opaque(Vec<u8>),
    /// Counter64.
    Counter64(u64),
    /// The object does not exist.
    NoSuchObject,
    /// The object exists, the instance does not.
    NoSuchInstance,
    /// There is no lexicographic successor.
    EndOfMibView,
}

/// The mathematical content of a [`Value`].
#[verifier::ext_equal]
pub enum ValueView {
    Integer(i64),
    OctetString(Seq<u8>),
    Oid(Seq<u32>),
    Null,
    Counter32(u32),
    Gauge32(u32),
    TimeTicks(u32),
    IpAddress(Ipv4Addr),
    Opaque(Seq<u8>),
    Counter64(u64),
    NoSuchObject,
    NoSuchInstance,
    EndOfMibView,
}

impl View for Value {
    type V = ValueView;

    open spec fn view(&self) -> ValueView {
        match self {
            Value::Integer(n) => ValueView::Integer(*n),
            Value::OctetString(b) => ValueView::OctetString(b@),
            Value::Oid(o) => ValueView::Oid(o@),
            Value::Null => ValueView::Null,
            Value::Counter32(n) => ValueView::Counter32(*n),
            Value::Gauge32(n) => ValueView::Gauge32(*n),
            Value::TimeTicks(n) => ValueView::TimeTicks(*n),
            Value::IpAddress(a) => ValueView::IpAddress(*a),
            Value::Opaque(b) => ValueView::Opaque(b@),
            Value::Counter64(n) => ValueView::Counter64(*n),
            Value::NoSuchObject => ValueView::NoSuchObject,
            Value::NoSuchInstance => ValueView::NoSuchInstance,
            Value::EndOfMibView => ValueView::EndOfMibView,
        }
    }
}

/// A copy of the bytes `v`.
pub fn copy_bytes(v: &[u8]) -> (r: Vec<u8>)
    ensures
        r@ == v@,
{
    let mut out: Vec<u8> = Vec::new();
    let mut i: usize = 0;
    while i < v.len()
        invariant
            i <= v@.len(),
            out@ == v@.take(i as int),
        decreases v@.len() - i,
    {
        out.push(v[i]);
        i += 1;
    }
    out
}

/// Whether two byte strings are the same.
pub fn bytes_eq(a: &[u8], b: &[u8]) -> (r: bool)
    ensures
        r == (a@ == b@),
{
    if a.len() != b.len() {
        return false;
    }
    let mut i: usize = 0;
    while i < a.len()
        invariant
            i <= a@.len(),
            a@.len() == b@.len(),
            forall|k: int| 0 <= k < i ==> a@[k] == b@[k],
        decreases a@.len() - i,
    {
        if a[i] != b[i] {
            return false;
        }
        i += 1;
    }
    assert(a@ =~= b@);
    true
}

/// The UTF-8 bytes of a text.
pub open spec fn utf8(s: Seq<char>) -> Seq<u8> {
    vstd::utf8::encode_utf8(s)
}

/// The UTF-8 bytes of a text.
pub fn bytes_of(s: &str) -> (r: Vec<u8>)
    ensures
        r@ == utf8(s@),
{
    copy_bytes(s.as_bytes())
}

/// The OCTET STRING holding the UTF-8 bytes of a text.
pub fn text_value(s: &str) -> (r: Value)
    ensures
        r@ == ValueView::OctetString(utf8(s@)),
{
    Value::OctetString(bytes_of(s))
}

impl Clone for Value {
    fn clone(&self) -> (r: Self)
        ensures
            r@ == self@,
    {
        match self {
            Value::Integer(n) => Value::Integer(*n),
            Value::OctetString(b) => Value::OctetString(copy_bytes(b.as_slice())),
            Value::Oid(o) => Value::Oid(o.clone()),
            Value::Null => Value::Null,
            Value::Counter32(n) => Value::Counter32(*n),
            Value::Gauge32(n) => Value::Gauge32(*n),
            Value::TimeTicks(n) => Value::TimeTicks(*n),
            Value::IpAddress(a) => Value::IpAddress(*a),
            Value::Opaque(b) => Value::Opaque(copy_bytes(b.as_slice())),
            Value::Counter64(n) => Value::Counter64(*n),
            Value::NoSuchObject => Value::NoSuchObject,
            Value::NoSuchInstance => Value::NoSuchInstance,
            Value::EndOfMibView => Value::EndOfMibView,
        }
    }
}

impl Value {
    /// Whether this is the end-of-MIB-view marker.
    pub fn is_end(&self) -> (r: bool)
        ensures
            r == (self@ == ValueView::EndOfMibView),
    {
        match self {
            Value::EndOfMibView => true,
            _ => false,
        }
    }
}

/// A variable binding: an OID and its value.
#[derive(Debug, PartialEq, Eq)]
pub struct VarBind {
    /// The name.
    pub oid: Oid,
    /// The value.
    pub value: Value,
}

/// The mathematical content of a [`VarBind`].
#[verifier::ext_equal]
pub struct VarBindView {
    pub oid: Seq<u32>,
    pub value: ValueView,
}

impl View for VarBind {
    type V = VarBindView;

    open spec fn view(&self) -> VarBindView {
        VarBindView { oid: self.oid@, value: self.value@ }
    }
}

impl Clone for VarBind {
    fn clone(&self) -> (r: Self)
        ensures
            r@ == self@,
    {
        VarBind { oid: self.oid.clone(), value: self.value.clone() }
    }
}

impl VarBind {
    /// The binding of `oid` to `value`.
    pub fn new(oid: Oid, value: Value) -> (r: VarBind)
        ensures
            r@ == (VarBindView { oid: oid@, value: value@ }),
    {
        VarBind { oid, value }
    }

    /// The binding of `oid` to NULL, as in a read request.
    pub fn null(oid: Oid) -> (r: VarBind)
        ensures
            r@ == (VarBindView { oid: oid@, value: ValueView::Null }),
    {
        VarBind { oid, value: Value::Null }
    }
}

/// The contents of a list of bindings.
pub open spec fn binds(v: Seq<VarBind>) -> Seq<VarBindView> {
    v.map_values(|b: VarBind| b@)
}

/// A copy of the bindings `v`.
pub fn copy_binds(v: &[VarBind]) -> (r: Vec<VarBind>)
    ensures
        binds(r@) == binds(v@),
{
    let mut out: Vec<VarBind> = Vec::new();
    let mut i: usize = 0;
    while i < v.len()
        invariant
            i <= v@.len(),
            binds(out@) == binds(v@.take(i as int)),
        decreases v@.len() - i,
    {
        let ghost before = out@;
        out.push(v[i].clone());
        assert(binds(out@) =~= binds(before).push(v@[i as int]@));
        assert(binds(v@.take(i + 1)) =~= binds(v@.take(i as int)).push(v@[i as int]@));
        i += 1;
    }
    assert(v@.take(i as int) =~= v@);
    out
}

} // verus!
