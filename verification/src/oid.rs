//! Object identifiers: construction, lexicographic order, prefixes and text form.

use vstd::prelude::*;

use crate::text::chars_of;
use crate::text::decimal;
use crate::text::decimal_reads_back;
use crate::text::find_char;
use crate::text::lemma_decimal;
use crate::text::lemma_find_char;
use crate::text::parse_unsigned;
use crate::text::push_decimal;
use crate::text::slice_of;
use crate::text::split;
use crate::text::split_at_char;
use crate::text::texts;
use crate::text::unsigned_value;

verus! {

/// An object identifier: a sequence of 32-bit arcs.
#[derive(Debug, PartialEq, Eq, PartialOrd, Ord, Hash)]
pub struct Oid {
    arcs: Vec<u32>,
}

/// The text of an OID did not parse.
#[derive(Clone, Copy, Debug, PartialEq, Eq, Structural)]
pub struct OidParseError;

impl View for Oid {
    type V = Seq<u32>;

    closed spec fn view(&self) -> Seq<u32> {
        self.arcs@
    }
}

/// Whether `a` comes before `b` in lexicographic order.
pub open spec fn lex_lt(a: Seq<u32>, b: Seq<u32>) -> bool
    decreases a.len(),
{
    if b.len() == 0 {
        false
    } else if a.len() == 0 {
        true
    } else if a[0] != b[0] {
        a[0] < b[0]
    } else {
        lex_lt(a.drop_first(), b.drop_first())
    }
}

/// Whether `p` is an initial segment of `o`.
pub open spec fn is_prefix(p: Seq<u32>, o: Seq<u32>) -> bool {
    p.len() <= o.len() && o.take(p.len() as int) == p
}

/// The dotted text of an OID, each arc preceded by a dot.
pub open spec fn oid_text(o: Seq<u32>) -> Seq<char>
    decreases o.len(),
{
    if o.len() == 0 {
        seq![]
    } else {
        seq!['.'] + decimal(o[0] as nat) + oid_text(o.drop_first())
    }
}

/// The arcs that the pieces spell, if each is a 32-bit number.
pub open spec fn arcs_of(parts: Seq<Seq<char>>) -> Option<Seq<u32>>
    decreases parts.len(),
{
    if parts.len() == 0 {
        Some(seq![])
    } else {
        match (unsigned_value(parts[0], 10, u32::MAX as nat), arcs_of(parts.drop_first())) {
            (Some(n), Some(rest)) => Some(seq![n as u32] + rest),
            _ => None,
        }
    }
}

/// The OID that a text spells: dot-separated numbers, with an optional leading dot.
pub open spec fn parse_oid(s: Seq<char>) -> Option<Seq<u32>> {
    let body = if s.len() > 0 && s[0] == '.' {
        s.drop_first()
    } else {
        s
    };
    arcs_of(split(body, '.'))
}

/// No OID comes before itself.
pub proof fn lex_lt_irreflexive(a: Seq<u32>)
    ensures
        !lex_lt(a, a),
    decreases a.len(),
{
    if a.len() > 0 {
        lex_lt_irreflexive(a.drop_first());
    }
}

/// The order is transitive.
pub proof fn lex_lt_transitive(a: Seq<u32>, b: Seq<u32>, c: Seq<u32>)
    requires
        lex_lt(a, b),
        lex_lt(b, c),
    ensures
        lex_lt(a, c),
    decreases a.len(),
{
    if a.len() > 0 && a[0] == b[0] && b[0] == c[0] {
        lex_lt_transitive(a.drop_first(), b.drop_first(), c.drop_first());
    }
}

/// Of two different OIDs one comes before the other.
pub proof fn lex_lt_total(a: Seq<u32>, b: Seq<u32>)
    ensures
        lex_lt(a, b) || a == b || lex_lt(b, a),
    decreases a.len(),
{
    if a.len() == 0 && b.len() == 0 {
        assert(a =~= b);
    } else if a.len() > 0 && b.len() > 0 && a[0] == b[0] {
        lex_lt_total(a.drop_first(), b.drop_first());
        if a.drop_first() == b.drop_first() {
            assert(a =~= seq![a[0]] + a.drop_first());
            assert(b =~= seq![b[0]] + b.drop_first());
        }
    }
}

/// Two OIDs are never each before the other.
pub proof fn lex_lt_asymmetric(a: Seq<u32>, b: Seq<u32>)
    requires
        lex_lt(a, b),
    ensures
        !lex_lt(b, a),
{
    if lex_lt(b, a) {
        lex_lt_transitive(a, b, a);
        lex_lt_irreflexive(a);
    }
}

/// An OID comes before each of its proper extensions.
pub proof fn prefix_comes_first(p: Seq<u32>, o: Seq<u32>)
    requires
        is_prefix(p, o),
    ensures
        p == o || lex_lt(p, o),
    decreases p.len(),
{
    if p.len() == 0 {
        if o.len() == 0 {
            assert(p =~= o);
        }
    } else {
        assert(o.take(p.len() as int)[0] == o[0]);
        assert(o.drop_first().take(p.len() - 1) =~= o.take(p.len() as int).drop_first());
        prefix_comes_first(p.drop_first(), o.drop_first());
        if p.drop_first() == o.drop_first() {
            assert(p =~= seq![p[0]] + p.drop_first());
            assert(o =~= seq![o[0]] + o.drop_first());
        }
    }
}

/// Extensions of two OIDs of which neither begins the other keep their order.
pub proof fn extensions_keep_order(a: Seq<u32>, b: Seq<u32>, x: Seq<u32>, y: Seq<u32>)
    requires
        lex_lt(a, b),
        !is_prefix(a, b),
        is_prefix(a, x),
        is_prefix(b, y),
    ensures
        lex_lt(x, y),
    decreases a.len(),
{
    if a.len() == 0 {
        assert(b.take(0) =~= a);
    } else {
        assert(x.take(a.len() as int)[0] == x[0]);
        assert(y.take(b.len() as int)[0] == y[0]);
        if a[0] == b[0] {
            let (a1, b1, x1, y1) = (
                a.drop_first(),
                b.drop_first(),
                x.drop_first(),
                y.drop_first(),
            );
            assert(x1.take(a1.len() as int) =~= x.take(a.len() as int).drop_first());
            assert(y1.take(b1.len() as int) =~= y.take(b.len() as int).drop_first());
            if is_prefix(a1, b1) {
                assert(b.take(a.len() as int) =~= seq![b[0]] + b1.take(a1.len() as int));
                assert(a =~= seq![a[0]] + a1);
            }
            extensions_keep_order(a1, b1, x1, y1);
        }
    }
}

/// The number of different arcs, and one more for "no arc".
pub open spec fn arc_base() -> nat {
    0x1_0000_0001
}

/// `arc_base()` to the power `n`.
pub open spec fn arc_width(n: nat) -> nat
    decreases n,
{
    if n == 0 {
        1
    } else {
        arc_base() * arc_width((n - 1) as nat)
    }
}

/// The position of `s` among the OIDs of at most `n` arcs.
pub open spec fn rank(s: Seq<u32>, n: nat) -> nat
    decreases n,
{
    if n == 0 || s.len() == 0 {
        0
    } else {
        (s[0] + 1) as nat * arc_width((n - 1) as nat) + rank(s.drop_first(), (n - 1) as nat)
    }
}

/// An upper bound on the number of OIDs after `s` that fit into memory.
pub open spec fn room(s: Seq<u32>) -> int {
    arc_width(usize::MAX as nat) - rank(s, usize::MAX as nat)
}

proof fn lemma_rank_bound(s: Seq<u32>, n: nat)
    requires
        s.len() <= n,
    ensures
        rank(s, n) < arc_width(n),
    decreases n,
{
    if n > 0 {
        let w = arc_width((n - 1) as nat);
        if s.len() > 0 {
            lemma_rank_bound(s.drop_first(), (n - 1) as nat);
            let r = rank(s.drop_first(), (n - 1) as nat);
            let d = (s[0] + 1) as nat;
            assert(d * w + r < 0x1_0000_0001 * w) by (nonlinear_arith)
                requires
                    d <= 0x1_0000_0000,
                    0 <= r < w,
            ;
        } else {
            lemma_rank_bound(s, (n - 1) as nat);
            assert(0x1_0000_0001 * w > 0) by (nonlinear_arith)
                requires
                    w > 0,
            ;
        }
    }
}

proof fn lemma_rank_grows(a: Seq<u32>, b: Seq<u32>, n: nat)
    requires
        lex_lt(a, b),
        a.len() <= n,
        b.len() <= n,
    ensures
        rank(a, n) < rank(b, n),
    decreases n,
{
    let w = arc_width((n - 1) as nat);
    let db = (b[0] + 1) as nat;
    let rb = rank(b.drop_first(), (n - 1) as nat);
    lemma_rank_bound(b.drop_first(), (n - 1) as nat);
    if a.len() == 0 {
        assert(db * w + rb > 0) by (nonlinear_arith)
            requires
                db >= 1,
                0 <= rb < w,
        ;
    } else {
        let da = (a[0] + 1) as nat;
        let ra = rank(a.drop_first(), (n - 1) as nat);
        lemma_rank_bound(a.drop_first(), (n - 1) as nat);
        if a[0] == b[0] {
            lemma_rank_grows(a.drop_first(), b.drop_first(), (n - 1) as nat);
        } else {
            assert(da * w + ra < db * w + rb) by (nonlinear_arith)
                requires
                    da + 1 <= db,
                    0 <= ra < w,
                    0 <= rb,
            ;
        }
    }
}

/// Moving to a later OID leaves less room.
pub proof fn lemma_room_shrinks(a: Seq<u32>, b: Seq<u32>)
    requires
        lex_lt(a, b),
        a.len() <= usize::MAX,
        b.len() <= usize::MAX,
    ensures
        0 <= room(b) < room(a),
{
    lemma_rank_grows(a, b, usize::MAX as nat);
    lemma_rank_bound(b, usize::MAX as nat);
}

/// Reading back the text of a non-empty OID gives the OID.
pub proof fn oid_text_reads_back(o: Seq<u32>)
    requires
        o.len() > 0,
    ensures
        parse_oid(oid_text(o)) == Some(o),
{
    let body = decimal(o[0] as nat) + oid_text(o.drop_first());
    assert(oid_text(o).drop_first() =~= body);
    lemma_body_reads_back(o);
}

proof fn lemma_body_reads_back(o: Seq<u32>)
    requires
        o.len() > 0,
    ensures
        arcs_of(split(decimal(o[0] as nat) + oid_text(o.drop_first()), '.')) == Some(o),
    decreases o.len(),
{
    let d = decimal(o[0] as nat);
    let rest = o.drop_first();
    let body = d + oid_text(rest);
    lemma_decimal(o[0] as nat);
    decimal_reads_back(o[0] as nat, u32::MAX as nat);
    lemma_find_char(body, '.');
    let n = find_char(body, '.');
    assert(forall|i: int| 0 <= i < d.len() ==> body[i] == d[i]);
    if n < d.len() {
        assert('0' <= d[n as int] <= '9');
    }
    if rest.len() == 0 {
        assert(body =~= d);
        assert(split(body, '.') =~= seq![d]);
        assert(seq![d].drop_first() =~= seq![]);
        assert(arcs_of(seq![d].drop_first()) == Some(Seq::<u32>::empty()));
        assert(seq![o[0]] + Seq::<u32>::empty() =~= o);
    } else {
        assert(oid_text(rest)[0] == '.');
        assert(body[d.len() as int] == '.');
        assert(n == d.len());
        let tail = decimal(rest[0] as nat) + oid_text(rest.drop_first());
        assert(body.skip(n as int + 1) =~= tail);
        assert(body.take(n as int) =~= d);
        lemma_body_reads_back(rest);
        let parts = split(body, '.');
        assert(parts =~= seq![d] + split(tail, '.'));
        assert(parts.drop_first() =~= split(tail, '.'));
        assert(seq![o[0]] + rest =~= o);
    }
}

impl Clone for Oid {
    fn clone(&self) -> (r: Self)
        ensures
            r@ == self@,
    {
        Oid { arcs: copy_arcs(self.arcs.as_slice()) }
    }
}

/// A copy of the arcs `v`.
pub fn copy_arcs(v: &[u32]) -> (r: Vec<u32>)
    ensures
        r@ == v@,
{
    let mut out: Vec<u32> = Vec::new();
    let mut i: usize = 0;
    while i < v.len()
        invariant
            i <= v@.len(),
            out@ == v@.take(i as int),
        decreases v@.len() - i,
    {
        out.push(v[i]);
        i += 1;
    }
    out
}

impl Oid {
    /// The OID with the given arcs.
    pub fn new(arcs: Vec<u32>) -> (r: Oid)
        ensures
            r@ == arcs@,
    {
        Oid { arcs }
    }

    /// The OID with the given arcs.
    pub fn of(arcs: &[u32]) -> (r: Oid)
        ensures
            r@ == arcs@,
    {
        Oid { arcs: copy_arcs(arcs) }
    }

    /// The null OID `0.0`.
    pub fn null() -> (r: Oid)
        ensures
            r@ == seq![0u32, 0u32],
    {
        let mut arcs: Vec<u32> = Vec::new();
        arcs.push(0);
        arcs.push(0);
        Oid { arcs }
    }

    /// This OID extended by one arc.
    pub fn child(&self, arc: u32) -> (r: Oid)
        ensures
            r@ == self@.push(arc),
    {
        let mut arcs = copy_arcs(self.arcs.as_slice());
        arcs.push(arc);
        Oid { arcs }
    }

    /// This OID extended by several arcs.
    pub fn extended(&self, tail: &[u32]) -> (r: Oid)
        ensures
            r@ == self@ + tail@,
    {
        let mut arcs = copy_arcs(self.arcs.as_slice());
        let mut i: usize = 0;
        while i < tail.len()
            invariant
                i <= tail@.len(),
                arcs@ == self@ + tail@.take(i as int),
            decreases tail@.len() - i,
        {
            arcs.push(tail[i]);
            i += 1;
        }
        assert(tail@.take(i as int) =~= tail@);
        Oid { arcs }
    }

    /// The arcs.
    pub fn as_slice(&self) -> (r: &[u32])
        ensures
            r@ == self@,
    {
        self.arcs.as_slice()
    }

    /// The number of arcs.
    pub fn len(&self) -> (r: usize)
        ensures
            r == self@.len(),
    {
        self.arcs.len()
    }

    /// Whether there are no arcs.
    pub fn is_empty(&self) -> (r: bool)
        ensures
            r == (self@.len() == 0),
    {
        self.arcs.len() == 0
    }

    /// Whether this OID is an initial segment of `other`.
    pub fn is_prefix_of(&self, other: &Oid) -> (r: bool)
        ensures
            r == is_prefix(self@, other@),
    {
        if self.arcs.len() > other.arcs.len() {
            return false;
        }
        let mut i: usize = 0;
        while i < self.arcs.len()
            invariant
                i <= self@.len() <= other@.len(),
                forall|k: int| 0 <= k < i ==> self@[k] == other@[k],
            decreases self@.len() - i,
        {
            if self.arcs[i] != other.arcs[i] {
                assert(other@.take(self@.len() as int)[i as int] == other@[i as int]);
                return false;
            }
            i += 1;
        }
        assert(other@.take(self@.len() as int) =~= self@);
        true
    }

    /// Whether this OID comes before `other` in lexicographic order.
    pub fn before(&self, other: &Oid) -> (r: bool)
        ensures
            r == lex_lt(self@, other@),
    {
        let mut i: usize = 0;
        assert(self@.skip(0) =~= self@);
        assert(other@.skip(0) =~= other@);
        loop
            invariant
                i <= self@.len(),
                i <= other@.len(),
                lex_lt(self@, other@) == lex_lt(self@.skip(i as int), other@.skip(i as int)),
            decreases self@.len() - i,
        {
            if i >= other.arcs.len() {
                return false;
            }
            if i >= self.arcs.len() {
                return true;
            }
            if self.arcs[i] != other.arcs[i] {
                return self.arcs[i] < other.arcs[i];
            }
            assert(self@.skip(i as int).drop_first() =~= self@.skip(i + 1));
            assert(other@.skip(i as int).drop_first() =~= other@.skip(i + 1));
            i += 1;
        }
    }

    /// Whether this OID has the same arcs as `other`.
    pub fn same(&self, other: &Oid) -> (r: bool)
        ensures
            r == (self@ == other@),
    {
        if self.arcs.len() != other.arcs.len() {
            return false;
        }
        let p = self.is_prefix_of(other);
        assert(other@.take(self@.len() as int) =~= other@);
        p
    }

    /// The dotted text, each arc preceded by a dot.
    pub fn to_string(&self) -> (r: String)
        ensures
            r@ == oid_text(self@),
    {
        let mut out = String::new();
        let mut i: usize = 0;
        assert(self@.skip(0) =~= self@);
        assert(out@ + oid_text(self@) =~= oid_text(self@));
        while i < self.arcs.len()
            invariant
                i <= self@.len(),
                out@ + oid_text(self@.skip(i as int)) == oid_text(self@),
            decreases self@.len() - i,
        {
            let ghost before = out@;
            out.push('.');
            push_decimal(&mut out, self.arcs[i] as u64);
            proof {
                let rest = self@.skip(i as int);
                assert(rest.drop_first() =~= self@.skip(i + 1));
                assert(out@ =~= before + seq!['.'] + decimal(rest[0] as nat));
                assert(out@ + oid_text(rest.drop_first()) =~= before + oid_text(rest));
            }
            i += 1;
        }
        assert(self@.skip(i as int) =~= seq![]);
        assert(out@ + oid_text(self@.skip(i as int)) =~= out@);
        out
    }

    /// Parse dot-separated numbers, with an optional leading dot.
    pub fn parse(s: &str) -> (r: Result<Oid, OidParseError>)
        ensures
            r is Ok <==> parse_oid(s@) is Some,
            r matches Ok(o) ==> parse_oid(s@) == Some(o@),
    {
        let all = chars_of(s);
        Oid::parse_chars(all.as_slice())
    }

    /// Parse dot-separated numbers, with an optional leading dot.
    pub fn parse_chars(all: &[char]) -> (r: Result<Oid, OidParseError>)
        ensures
            r is Ok <==> parse_oid(all@) is Some,
            r matches Ok(o) ==> parse_oid(all@) == Some(o@),
    {
        let from: usize = if all.len() > 0 && all[0] == '.' {
            1
        } else {
            0
        };
        let body = slice_of(all, from, all.len());
        proof {
            assert(all@.subrange(0, all@.len() as int) =~= all@);
            if all@.len() > 0 {
                assert(all@.subrange(1, all@.len() as int) =~= all@.drop_first());
            }
        }
        let parts = split_at_char(body.as_slice(), '.');
        let ghost pieces = texts(parts@);
        let mut arcs: Vec<u32> = Vec::new();
        let mut i: usize = 0;
        assert(pieces.skip(0) =~= pieces);
        assert(match arcs_of(pieces) {
            Some(rest) => arcs@ + rest =~= rest,
            None => true,
        });
        while i < parts.len()
            invariant
                i <= parts@.len(),
                pieces == texts(parts@),
                parse_oid(all@) == arcs_of(pieces),
                arcs_of(pieces) == match arcs_of(pieces.skip(i as int)) {
                    Some(rest) => Some(arcs@ + rest),
                    None => None,
                },
            decreases parts@.len() - i,
        {
            assert(pieces.skip(i as int)[0] == parts@[i as int]@);
            assert(pieces.skip(i as int).drop_first() =~= pieces.skip(i + 1));
            let ghost before = arcs@;
            match parse_unsigned(parts[i].as_slice(), 10, u32::MAX as u64) {
                Some(n) => {
                    arcs.push(n as u32);
                    proof {
                        match arcs_of(pieces.skip(i + 1)) {
                            Some(rest) => {
                                assert(arcs@ + rest =~= before + (seq![n as u32] + rest));
                            },
                            None => {},
                        }
                    }
                },
                None => {
                    return Err(OidParseError);
                },
            }
            i += 1;
        }
        assert(pieces.skip(i as int) =~= seq![]);
        assert(arcs@ + Seq::<u32>::empty() =~= arcs@);
        Ok(Oid { arcs })
    }
}

impl std::str::FromStr for Oid {
    type Err = OidParseError;

    fn from_str(s: &str) -> Result<Oid, OidParseError> {
        Oid::parse(s)
    }
}

} // verus!
