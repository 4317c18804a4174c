//! The BER primitives: lengths, tag-length-value triples, integers and object identifiers.

use vstd::arithmetic::div_mod::lemma_fundamental_div_mod;
use vstd::arithmetic::div_mod::lemma_fundamental_div_mod_converse;
use vstd::arithmetic::div_mod::lemma_mod_multiples_vanish;
use vstd::prelude::*;
use vstd::slice::slice_subrange;

use crate::oid::Oid;
use crate::value::copy_bytes;

verus! {

/// A message ended before what it announced.
#[derive(Clone, Copy, Debug, PartialEq, Eq, Structural)]
pub struct Truncated;

/// The number whose big-endian octets are `s`.
pub open spec fn be(s: Seq<u8>) -> nat
    decreases s.len(),
{
    if s.len() == 0 {
        0
    } else {
        be(s.drop_last()) * 256 + s.last() as nat
    }
}

/// The big-endian octets of `n`, without leading zeros.
pub open spec fn be_octets(n: nat) -> Seq<u8>
    decreases n,
{
    if n == 0 {
        seq![]
    } else {
        be_octets(n / 256).push((n % 256) as u8)
    }
}

/// The big-endian octets of `n`, `k` of them.
pub open spec fn fixed_octets(n: nat, k: nat) -> Seq<u8>
    decreases k,
{
    if k == 0 {
        seq![]
    } else {
        fixed_octets(n / 256, (k - 1) as nat).push((n % 256) as u8)
    }
}

/// The encoding of the length `n`: one octet below 128, else the number of octets and the
/// octets.
pub open spec fn len_octets(n: nat) -> Seq<u8> {
    if n < 128 {
        seq![n as u8]
    } else {
        seq![(128 + be_octets(n).len()) as u8] + be_octets(n)
    }
}

/// The triple of tag, length and content.
#[verifier::opaque]
pub open spec fn tlv_octets(tag: u8, content: Seq<u8>) -> Seq<u8> {
    seq![tag] + len_octets(content.len()) + content
}

/// The two's-complement octets of `v`, as few as hold it.
pub open spec fn int_octets(v: int) -> Seq<u8>
    decreases (if v < 0 { -v } else { v }),
{
    if -128 <= v < 128 {
        seq![(v % 256) as u8]
    } else {
        int_octets(v / 256).push((v % 256) as u8)
    }
}

/// The number whose two's-complement octets are `s`.
pub open spec fn int_value(s: Seq<u8>) -> int
    decreases s.len(),
{
    if s.len() == 0 {
        0
    } else if s.len() == 1 {
        if s[0] < 128 {
            s[0] as int
        } else {
            s[0] - 256
        }
    } else {
        int_value(s.drop_last()) * 256 + s.last()
    }
}

/// The 64-bit integer that is congruent to `x`.
pub open spec fn wrap_i64(x: int) -> int {
    let m = x % 0x1_0000_0000_0000_0000;
    if m >= 0x8000_0000_0000_0000 {
        m - 0x1_0000_0000_0000_0000
    } else {
        m
    }
}

/// The base-128 octets of `n` with the continuation bit set in each.
pub open spec fn high_octets(n: nat) -> Seq<u8>
    decreases n,
{
    if n == 0 {
        seq![]
    } else {
        high_octets(n / 128).push((128 + n % 128) as u8)
    }
}

/// The base-128 octets of one arc: the continuation bit is set in all but the last.
pub open spec fn arc_octets(n: nat) -> Seq<u8> {
    high_octets(n / 128).push((n % 128) as u8)
}

/// The base-128 octets of several arcs.
pub open spec fn arcs_octets(arcs: Seq<u32>) -> Seq<u8>
    decreases arcs.len(),
{
    if arcs.len() == 0 {
        seq![]
    } else {
        arcs_octets(arcs.drop_last()) + arc_octets(arcs.last() as nat)
    }
}

/// The number that the first two arcs are packed into.
pub open spec fn packed(arcs: Seq<u32>) -> int {
    if arcs.len() >= 2 {
        40 * arcs[0] + arcs[1]
    } else {
        40 * arcs[0]
    }
}

/// The content octets of an object identifier.
pub open spec fn oid_octets(arcs: Seq<u32>) -> Seq<u8> {
    if arcs.len() == 0 {
        seq![0u8]
    } else {
        arc_octets(packed(arcs) as nat) + arcs_octets(
            if arcs.len() >= 2 {
                arcs.skip(2)
            } else {
                seq![]
            },
        )
    }
}

/// Whether the first two arcs can be packed into 32 bits.
pub open spec fn packable(arcs: Seq<u32>) -> bool {
    arcs.len() > 0 ==> packed(arcs) <= u32::MAX
}

/// Decode a length: the length and the number of octets it takes. At most four octets are
/// accepted after the first.
pub open spec fn length_of(buf: Seq<u8>) -> Option<(nat, nat)> {
    if buf.len() == 0 {
        None
    } else if buf[0] < 128 {
        Some((buf[0] as nat, 1))
    } else {
        let n = (buf[0] - 128) as nat;
        if n == 0 || n > 4 || 1 + n > buf.len() {
            None
        } else {
            Some((be(buf.subrange(1, 1 + n as int)), 1 + n))
        }
    }
}

/// Split off the first triple: its tag, its content and its whole size.
#[verifier::opaque]
pub open spec fn tlv_of(buf: Seq<u8>) -> Option<(u8, Seq<u8>, nat)> {
    if buf.len() < 2 {
        None
    } else {
        match length_of(buf.skip(1)) {
            Some((len, used)) => {
                let start = 1 + used;
                if start + len > buf.len() {
                    None
                } else {
                    Some(
                        (
                            buf[0],
                            buf.subrange(start as int, (start + len) as int),
                            start + len,
                        ),
                    )
                }
            },
            None => None,
        }
    }
}

/// The number of octets of the first arc in `buf`: up to the first without continuation bit;
/// `None` if there is none.
pub open spec fn arc_len(buf: Seq<u8>) -> Option<nat>
    decreases buf.len(),
{
    if buf.len() == 0 {
        None
    } else if buf[0] < 128 {
        Some(1)
    } else {
        match arc_len(buf.drop_first()) {
            Some(n) => Some(1 + n),
            None => None,
        }
    }
}

/// The arc that the octets `s` spell, in 32 bits.
pub open spec fn arc_value(s: Seq<u8>) -> nat
    decreases s.len(),
{
    if s.len() == 0 {
        0
    } else {
        (arc_value(s.drop_last()) * 128 + (s.last() % 128) as nat) % 0x1_0000_0000
    }
}

pub proof fn lemma_arc_len(buf: Seq<u8>)
    ensures
        arc_len(buf) matches Some(n) ==> 1 <= n <= buf.len() && buf[n - 1] < 128 && forall|i: int|
            0 <= i < n - 1 ==> buf[i] >= 128,
        arc_len(buf) is None ==> forall|i: int| 0 <= i < buf.len() ==> buf[i] >= 128,
    decreases buf.len(),
{
    if buf.len() > 0 && buf[0] >= 128 {
        let t = buf.drop_first();
        lemma_arc_len(t);
        assert forall|i: int| 0 < i < buf.len() implies buf[i] == t[i - 1] by {}
    }
}

/// The arcs that the octets spell; `None` if the last one does not end.
pub open spec fn arcs_from(buf: Seq<u8>) -> Option<Seq<u32>>
    decreases buf.len(),
{
    if buf.len() == 0 {
        Some(seq![])
    } else {
        match arc_len(buf) {
            None => None,
            Some(n) => {
                proof {
                    lemma_arc_len(buf);
                }
                match arcs_from(buf.skip(n as int)) {
                    Some(rest) => Some(seq![arc_value(buf.take(n as int)) as u32] + rest),
                    None => None,
                }
            },
        }
    }
}

/// The object identifier that content octets spell. The first octet holds two arcs.
pub open spec fn oid_of(buf: Seq<u8>) -> Option<Seq<u32>> {
    if buf.len() == 0 {
        None
    } else {
        match arcs_from(buf.skip(1)) {
            Some(rest) => Some(seq![(buf[0] / 40) as u32, (buf[0] % 40) as u32] + rest),
            None => None,
        }
    }
}

/// Append `more` to `out`.
pub fn push_bytes(out: &mut Vec<u8>, more: &[u8])
    ensures
        final(out)@ == old(out)@ + more@,
{
    let ghost before = out@;
    let mut i: usize = 0;
    while i < more.len()
        invariant
            i <= more@.len(),
            out@ == before + more@.take(i as int),
        decreases more@.len() - i,
    {
        out.push(more[i]);
        i += 1;
    }
    assert(more@.take(i as int) =~= more@);
}

fn push_be(out: &mut Vec<u8>, n: usize)
    ensures
        final(out)@ == old(out)@ + be_octets(n as nat),
    decreases n,
{
    if n > 0 {
        push_be(out, n / 256);
        out.push((n % 256) as u8);
    }
}

/// 256 to the power `k`.
pub open spec fn pow256(k: nat) -> nat
    decreases k,
{
    if k == 0 {
        1
    } else {
        256 * pow256((k - 1) as nat)
    }
}

/// A number below the `k`-th power of 256 has at most `k` octets.
pub proof fn lemma_be_octets_len(n: nat, k: nat)
    requires
        n < pow256(k),
    ensures
        be_octets(n).len() <= k,
    decreases k,
{
    if n > 0 {
        assert(n / 256 < pow256((k - 1) as nat)) by {
            assert(pow256(k) == 256 * pow256((k - 1) as nat));
        }
        lemma_be_octets_len(n / 256, (k - 1) as nat);
    }
}

/// Reading back the octets of a number gives the number.
pub proof fn lemma_be_reads_back(n: nat)
    ensures
        be(be_octets(n)) == n,
    decreases n,
{
    if n > 0 {
        lemma_be_reads_back(n / 256);
        assert(be_octets(n).drop_last() =~= be_octets(n / 256));
    }
}

/// Octets of a fixed width read back, as far as the number fits.
pub proof fn lemma_fixed_reads_back(n: nat, k: nat)
    requires
        n < pow256(k),
    ensures
        be(fixed_octets(n, k)) == n,
        fixed_octets(n, k).len() == k,
    decreases k,
{
    if k > 0 {
        assert(n / 256 < pow256((k - 1) as nat)) by {
            assert(pow256(k) == 256 * pow256((k - 1) as nat));
        }
        lemma_fixed_reads_back(n / 256, (k - 1) as nat);
        assert(fixed_octets(n, k).drop_last() =~= fixed_octets(n / 256, (k - 1) as nat));
    }
}

/// Encode a length.
pub fn ber_len(n: usize) -> (r: Vec<u8>)
    ensures
        r@ == len_octets(n as nat),
{
    let mut out: Vec<u8> = Vec::new();
    if n < 0x80 {
        out.push(n as u8);
    } else {
        let mut bytes: Vec<u8> = Vec::new();
        push_be(&mut bytes, n);
        assert(bytes@ =~= be_octets(n as nat));
        proof {
            reveal_with_fuel(pow256, 9);
            assert(pow256(8) == 0x1_0000_0000_0000_0000);
            lemma_be_octets_len(n as nat, 8);
        }
        out.push((128 + bytes.len()) as u8);
        push_bytes(&mut out, bytes.as_slice());
    }
    assert(out@ =~= len_octets(n as nat));
    out
}

/// Encode a tag-length-value triple.
pub fn ber_tlv(tag: u8, content: &[u8]) -> (r: Vec<u8>)
    ensures
        r@ == tlv_octets(tag, content@),
{
    proof {
        reveal(tlv_octets);
    }
    let mut out: Vec<u8> = Vec::new();
    out.push(tag);
    let len = ber_len(content.len());
    push_bytes(&mut out, len.as_slice());
    push_bytes(&mut out, content);
    assert(out@ =~= tlv_octets(tag, content@));
    out
}

fn push_int(out: &mut Vec<u8>, v: i64)
    ensures
        final(out)@ == old(out)@ + int_octets(v as int),
    decreases (if v < 0 { -v } else { v as int }),
{
    let q: i64 = if v >= 0 {
        v / 256
    } else {
        -1 - (-1 - v) / 256
    };
    assert(q == v as int / 256);
    let low: i64 = v - q * 256;
    assert(low == v as int % 256);
    if v < -128 || v > 127 {
        push_int(out, q);
    }
    out.push(low as u8);
}

/// The content octets of an INTEGER: two's complement, as few as hold the value.
pub fn ber_integer_content(v: i64) -> (r: Vec<u8>)
    ensures
        r@ == int_octets(v as int),
{
    let mut out: Vec<u8> = Vec::new();
    push_int(&mut out, v);
    assert(out@ =~= int_octets(v as int));
    out
}

/// Encode an INTEGER.
pub fn ber_integer(v: i64) -> (r: Vec<u8>)
    ensures
        r@ == tlv_octets(0x02, int_octets(v as int)),
{
    let content = ber_integer_content(v);
    ber_tlv(0x02, content.as_slice())
}

/// Encode an OCTET STRING.
pub fn ber_octet_string(bytes: &[u8]) -> (r: Vec<u8>)
    ensures
        r@ == tlv_octets(0x04, bytes@),
{
    ber_tlv(0x04, bytes)
}

fn push_high(out: &mut Vec<u8>, n: u32)
    ensures
        final(out)@ == old(out)@ + high_octets(n as nat),
    decreases n,
{
    if n > 0 {
        push_high(out, n / 128);
        out.push((128 + n % 128) as u8);
    }
}

/// Append the base-128 octets of one arc.
pub fn encode_base128(value: u32, out: &mut Vec<u8>)
    ensures
        final(out)@ == old(out)@ + arc_octets(value as nat),
{
    let ghost before = out@;
    push_high(out, value / 128);
    out.push((value % 128) as u8);
    assert(out@ =~= before + arc_octets(value as nat));
}

/// Whether the first two arcs can be packed into 32 bits, so that the identifier can be encoded.
pub fn is_packable(oid: &Oid) -> (r: bool)
    ensures
        r == packable(oid@),
{
    let arcs = oid.as_slice();
    if arcs.len() == 0 {
        true
    } else if arcs.len() == 1 {
        arcs[0] <= u32::MAX / 40
    } else {
        arcs[0] as u64 * 40 + arcs[1] as u64 <= u32::MAX as u64
    }
}

/// Encode an OBJECT IDENTIFIER. The first two arcs `a`, `b` are packed into `40 * a + b`.
pub fn ber_oid(oid: &Oid) -> (r: Vec<u8>)
    requires
        packable(oid@),
    ensures
        r@ == tlv_octets(0x06, oid_octets(oid@)),
{
    let arcs = oid.as_slice();
    let mut content: Vec<u8> = Vec::new();
    if arcs.len() == 0 {
        content.push(0);
        assert(content@ =~= oid_octets(oid@));
    } else {
        let first: u32 = if arcs.len() >= 2 {
            40 * arcs[0] + arcs[1]
        } else {
            40 * arcs[0]
        };
        encode_base128(first, &mut content);
        let ghost head = content@;
        assert(head =~= arc_octets(packed(oid@) as nat));
        let ghost tail = if oid@.len() >= 2 {
            oid@.skip(2)
        } else {
            Seq::<u32>::empty()
        };
        let mut i: usize = 2;
        assert(tail.take(0) =~= seq![]);
        while i < arcs.len()
            invariant
                arcs@ == oid@,
                2 <= i,
                arcs@.len() >= 2 ==> i <= arcs@.len(),
                arcs@.len() < 2 ==> i == 2,
                tail == (if oid@.len() >= 2 {
                    oid@.skip(2)
                } else {
                    Seq::<u32>::empty()
                }),
                content@ == head + arcs_octets(tail.take(i - 2)),
            decreases arcs@.len() - i,
        {
            encode_base128(arcs[i], &mut content);
            proof {
                let t = tail.take(i - 1);
                assert(t.drop_last() =~= tail.take(i - 2));
                assert(t.last() == arcs@[i as int]);
                assert(content@ =~= head + arcs_octets(t));
            }
            i += 1;
        }
        assert(tail.take(i - 2) =~= tail);
        assert(content@ =~= oid_octets(oid@));
    }
    ber_tlv(0x06, content.as_slice())
}

/// The octets of an unsigned number, eight of them without leading zeros down to
/// `min_bytes`.
pub open spec fn unsigned_octets(v: nat, min_bytes: nat) -> Seq<u8> {
    if be_octets(v).len() >= min_bytes {
        if v == 0 {
            seq![0u8]
        } else {
            be_octets(v)
        }
    } else {
        fixed_octets(v, min_bytes)
    }
}

fn push_fixed(out: &mut Vec<u8>, v: u64, k: u8)
    ensures
        final(out)@ == old(out)@ + fixed_octets(v as nat, k as nat),
    decreases k,
{
    if k > 0 {
        push_fixed(out, v / 256, k - 1);
        out.push((v % 256) as u8);
    }
}

fn push_be_u64(out: &mut Vec<u8>, n: u64)
    ensures
        final(out)@ == old(out)@ + be_octets(n as nat),
    decreases n,
{
    if n > 0 {
        push_be_u64(out, n / 256);
        out.push((n % 256) as u8);
    }
}

/// The content octets of an unsigned number, at least `min_bytes` and at most eight.
pub fn ber_unsigned_content(v: u64, min_bytes: u8) -> (r: Vec<u8>)
    requires
        min_bytes <= 8,
    ensures
        r@ == unsigned_octets(v as nat, min_bytes as nat),
{
    let mut out: Vec<u8> = Vec::new();
    push_be_u64(&mut out, v);
    assert(out@ =~= be_octets(v as nat));
    if out.len() < min_bytes as usize {
        let mut wide: Vec<u8> = Vec::new();
        push_fixed(&mut wide, v, min_bytes);
        assert(wide@ =~= fixed_octets(v as nat, min_bytes as nat));
        return wide;
    }
    if v == 0 {
        out.push(0);
        assert(out@ =~= seq![0u8]);
    }
    out
}

/// Decode a length: the length and the number of octets it takes.
pub fn parse_len(buf: &[u8]) -> (r: Result<(usize, usize), Truncated>)
    ensures
        r is Ok <==> length_of(buf@) is Some,
        r matches Ok((len, used)) ==> length_of(buf@) == Some((len as nat, used as nat))
            && used <= buf@.len() && used <= 5,
{
    if buf.len() == 0 {
        return Err(Truncated);
    }
    let first: u8 = buf[0];
    if first < 128 {
        return Ok((first as usize, 1));
    }
    let n: usize = (first - 128) as usize;
    if n == 0 || n > 4 || 1 + n > buf.len() {
        return Err(Truncated);
    }
    let mut len: u64 = 0;
    let mut i: usize = 0;
    assert(buf@.subrange(1, 1) =~= seq![]);
    proof {
        reveal_with_fuel(pow256, 6);
    }
    while i < n
        invariant
            i <= n <= 4,
            1 + n <= buf@.len(),
            len == be(buf@.subrange(1, 1 + i as int)),
            len < pow256(i as nat),
            pow256(4) == 0x1_0000_0000,
        decreases n - i,
    {
        let ghost s = buf@.subrange(1, 2 + i as int);
        assert(s.drop_last() =~= buf@.subrange(1, 1 + i as int));
        assert(pow256((i + 1) as nat) == 256 * pow256(i as nat));
        proof {
            lemma_pow256_le(i as nat, 3);
            reveal_with_fuel(pow256, 5);
        }
        len = len * 256 + buf[1 + i] as u64;
        i += 1;
    }
    proof {
        lemma_pow256_le(n as nat, 4);
    }
    assert(len < 0x1_0000_0000);
    Ok((len as usize, 1 + n))
}

proof fn lemma_pow256_le(a: nat, b: nat)
    requires
        a <= b,
    ensures
        pow256(a) <= pow256(b),
        pow256(a) >= 1,
    decreases b,
{
    if a < b {
        lemma_pow256_le(a, (b - 1) as nat);
    } else if a > 0 {
        lemma_pow256_le((a - 1) as nat, (a - 1) as nat);
    }
}

/// Split off the first triple: its tag, its content and its whole size.
pub fn parse_tlv(buf: &[u8]) -> (r: Result<(u8, &[u8], usize), Truncated>)
    ensures
        r is Ok <==> tlv_of(buf@) is Some,
        r matches Ok((tag, content, total)) ==> tlv_of(buf@) == Some((tag, content@, total as nat))
            && 2 <= total <= buf@.len(),
{
    proof {
        reveal(tlv_of);
    }
    if buf.len() < 2 {
        return Err(Truncated);
    }
    let tail = slice_subrange(buf, 1, buf.len());
    assert(tail@ =~= buf@.skip(1));
    let (len, used) = match parse_len(tail) {
        Ok(x) => x,
        Err(e) => {
            return Err(e);
        },
    };
    let start: usize = 1 + used;
    if len > buf.len() - start {
        return Err(Truncated);
    }
    Ok((buf[0], slice_subrange(buf, start, start + len), start + len))
}

/// Decode the content octets of an INTEGER, in 64 bits.
pub fn parse_integer(buf: &[u8]) -> (r: Result<i64, Truncated>)
    ensures
        r is Ok <==> buf@.len() > 0,
        r matches Ok(v) ==> v == wrap_i64(int_value(buf@)),
{
    if buf.len() == 0 {
        return Err(Truncated);
    }
    let first: u8 = buf[0];
    let mut v: i64 = if first < 128 {
        first as i64
    } else {
        first as i64 - 256
    };
    let mut i: usize = 1;
    assert(buf@.take(1) =~= seq![first]);
    while i < buf.len()
        invariant
            1 <= i <= buf@.len(),
            v == wrap_i64(int_value(buf@.take(i as int))),
        decreases buf@.len() - i,
    {
        let ghost x = int_value(buf@.take(i as int));
        let b: u8 = buf[i];
        assert(buf@.take(i + 1).drop_last() =~= buf@.take(i as int));
        v = shift_in(v, b, Ghost(x));
        i += 1;
    }
    assert(buf@.take(i as int) =~= buf@);
    Ok(v)
}

/// `v * 256 + b` in 64 bits.
fn shift_in(v: i64, b: u8, x: Ghost<int>) -> (r: i64)
    requires
        v == wrap_i64(x@),
    ensures
        r == wrap_i64(x@ * 256 + b),
{
    let wide: i128 = v as i128 * 256 + b as i128;
    let m: u128 = if wide >= 0 {
        (wide as u128) % 0x1_0000_0000_0000_0000
    } else {
        let k: u128 = ((-wide) as u128) % 0x1_0000_0000_0000_0000;
        if k == 0 {
            0
        } else {
            0x1_0000_0000_0000_0000 - k
        }
    };
    proof {
        let y = x@;
        let d = 0x1_0000_0000_0000_0000int;
        let w = wide as int;
        if w < 0 {
            let q = (-w) / d;
            let k = (-w) % d;
            lemma_fundamental_div_mod(-w, d);
            if k == 0 {
                assert(w == (-q) * d) by (nonlinear_arith)
                    requires
                        -w == d * q,
                ;
                lemma_fundamental_div_mod_converse(w, d, -q, 0);
            } else {
                assert(w == (-q - 1) * d + (d - k)) by (nonlinear_arith)
                    requires
                        -w == d * q + k,
                ;
                lemma_fundamental_div_mod_converse(w, d, -q - 1, d - k);
            }
        }
        assert(m == w % d);
        let q = y / d;
        lemma_fundamental_div_mod(y, d);
        if v == y - d * q {
            assert(y * 256 + b == d * (256 * q) + w) by (nonlinear_arith)
                requires
                    v == y - d * q,
                    w == v * 256 + b,
            ;
            lemma_mod_multiples_vanish(256 * q, w, d);
        } else {
            assert(v == y - d * q - d);
            assert(y * 256 + b == d * (256 * (q + 1)) + w) by (nonlinear_arith)
                requires
                    v == y - d * q - d,
                    w == v * 256 + b,
            ;
            lemma_mod_multiples_vanish(256 * (q + 1), w, d);
        }
    }
    if m >= 0x8000_0000_0000_0000 {
        (m as i128 - 0x1_0000_0000_0000_0000) as i64
    } else {
        m as i64
    }
}

/// Decode the content octets of an OBJECT IDENTIFIER.
pub fn parse_oid(buf: &[u8]) -> (r: Result<Oid, Truncated>)
    ensures
        r is Ok <==> oid_of(buf@) is Some,
        r matches Ok(o) ==> oid_of(buf@) == Some(o@),
{
    if buf.len() == 0 {
        return Err(Truncated);
    }
    let ghost body = buf@.skip(1);
    let mut arcs: Vec<u32> = Vec::new();
    arcs.push((buf[0] / 40) as u32);
    arcs.push((buf[0] % 40) as u32);
    let ghost head = arcs@;
    let mut idx: usize = 1;
    proof {
        assert(body.skip(0) =~= body);
        match arcs_from(body) {
            Some(rest) => {
                assert(arcs@ + rest =~= seq![(buf[0] / 40) as u32, (buf[0] % 40) as u32] + rest);
            },
            None => {},
        }
    }
    while idx < buf.len()
        invariant
            1 <= idx <= buf@.len(),
            body == buf@.skip(1),
            oid_of(buf@) == match arcs_from(body.skip(idx - 1)) {
                Some(rest) => Some(arcs@ + rest),
                None => None,
            },
        decreases buf@.len() - idx,
    {
        let ghost rest = body.skip(idx - 1);
        let ghost from = idx;
        let mut value: u32 = 0;
        let mut done = false;
        assert(rest.take(0) =~= seq![]);
        assert(rest.skip(0) =~= rest);
        while !done
            invariant
                1 <= from <= idx <= buf@.len(),
                body == buf@.skip(1),
                rest == body.skip(from - 1),
                from < buf@.len(),
                value == arc_value(rest.take(idx - from)),
                oid_of(buf@) == match arcs_from(rest) {
                    Some(tail) => Some(arcs@ + tail),
                    None => None,
                },
                !done ==> arc_len(rest) == match arc_len(rest.skip(idx - from)) {
                    Some(n) => Some((n + idx - from) as nat),
                    None => None,
                },
                done ==> idx > from && arc_len(rest) == Some((idx - from) as nat),
            decreases buf@.len() - idx,
        {
            if idx >= buf.len() {
                assert(rest.skip(idx - from) =~= seq![]);
                return Err(Truncated);
            }
            let b: u8 = buf[idx];
            assert(b == rest[idx - from]);
            proof {
                assert(rest.take(idx - from + 1).drop_last() =~= rest.take(idx - from));
                assert(rest.skip(idx - from).drop_first() =~= rest.skip(idx - from + 1));
                assert(rest.skip(idx - from)[0] == b);
            }
            let wide: u64 = value as u64 * 128 + (b % 128) as u64;
            value = (wide % 0x1_0000_0000) as u32;
            idx += 1;
            if b < 128 {
                done = true;
            }
        }
        let ghost before = arcs@;
        arcs.push(value);
        proof {
            let n = idx - from;
            assert(rest.skip(n) =~= body.skip(idx - 1));
            match arcs_from(rest.skip(n)) {
                Some(tail) => {
                    assert(before + (seq![value] + tail) =~= arcs@ + tail);
                },
                None => {},
            }
        }
    }
    assert(body.skip(idx - 1) =~= seq![]);
    assert(arcs@ + Seq::<u32>::empty() =~= arcs@);
    Ok(Oid::new(arcs))
}

/// Decode the content octets of an OCTET STRING.
pub fn parse_octet_string(buf: &[u8]) -> (r: Vec<u8>)
    ensures
        r@ == buf@,
{
    copy_bytes(buf)
}

/// Decode an unsigned number in 32 bits.
pub fn parse_unsigned(content: &[u8]) -> (r: u32)
    ensures
        r == be(content@) % 0x1_0000_0000,
{
    let mut v: u32 = 0;
    let mut i: usize = 0;
    while i < content.len()
        invariant
            i <= content@.len(),
            v == be(content@.take(i as int)) % 0x1_0000_0000,
        decreases content@.len() - i,
    {
        assert(content@.take(i + 1).drop_last() =~= content@.take(i as int));
        let wide: u64 = v as u64 * 256 + content[i] as u64;
        v = (wide % 0x1_0000_0000) as u32;
        i += 1;
    }
    assert(content@.take(i as int) =~= content@);
    v
}

/// Decode an unsigned number in 64 bits.
pub fn parse_unsigned_u64(content: &[u8]) -> (r: u64)
    ensures
        r == be(content@) % 0x1_0000_0000_0000_0000,
{
    let mut v: u64 = 0;
    let mut i: usize = 0;
    while i < content.len()
        invariant
            i <= content@.len(),
            v == be(content@.take(i as int)) % 0x1_0000_0000_0000_0000,
        decreases content@.len() - i,
    {
        assert(content@.take(i + 1).drop_last() =~= content@.take(i as int));
        let wide: u128 = v as u128 * 256 + content[i] as u128;
        v = (wide % 0x1_0000_0000_0000_0000) as u64;
        i += 1;
    }
    assert(content@.take(i as int) =~= content@);
    v
}

/// An integer reads back from its octets, whatever follows them being cut off by the length.
pub proof fn int_octets_read_back(v: int)
    ensures
        int_value(int_octets(v)) == v,
        int_octets(v).len() > 0,
    decreases (if v < 0 { -v } else { v }),
{
    if -128 <= v < 128 {
    } else {
        int_octets_read_back(v / 256);
        assert(int_octets(v).drop_last() =~= int_octets(v / 256));
    }
}

/// A number with few octets.
pub proof fn lemma_int_octets_len(v: int, k: nat)
    requires
        k >= 1,
        -(pow256(k) as int) <= 2 * v < pow256(k),
    ensures
        int_octets(v).len() <= k,
    decreases k,
{
    if -128 <= v < 128 {
    } else {
        assert(pow256(k) == 256 * pow256((k - 1) as nat));
        reveal_with_fuel(pow256, 2);
        assert(k >= 2);
        lemma_int_octets_len(v / 256, (k - 1) as nat);
    }
}

/// A triple is longer than its content.
pub proof fn lemma_tlv_len(tag: u8, content: Seq<u8>)
    ensures
        tlv_octets(tag, content).len() >= content.len() + 2,
{
    reveal(tlv_octets);
}

/// A triple that was split off takes at least two octets and lies in the message.
pub proof fn lemma_tlv_size(buf: Seq<u8>)
    ensures
        tlv_of(buf) matches Some((_, content, n)) ==> 2 <= n <= buf.len() && content.len() <= n,
{
    reveal(tlv_of);
}

/// A triple whose content is shorter than 2^32 octets splits off again, whatever follows it.
pub proof fn tlv_reads_back(tag: u8, content: Seq<u8>, rest: Seq<u8>)
    requires
        content.len() < 0x1_0000_0000,
    ensures
        tlv_of(tlv_octets(tag, content) + rest) == Some(
            (tag, content, tlv_octets(tag, content).len()),
        ),
        tlv_octets(tag, content).len() >= 2,
{
    reveal(tlv_octets);
    reveal(tlv_of);
    let n = content.len();
    let l = len_octets(n);
    let buf = tlv_octets(tag, content) + rest;
    let tail = buf.skip(1);
    assert(tail =~= l + content + rest);
    if n < 128 {
        assert(tail[0] == n as u8);
        assert(length_of(tail) == Some((n, 1nat)));
    } else {
        reveal_with_fuel(pow256, 6);
        lemma_be_octets_len(n, 4);
        lemma_be_reads_back(n);
        let k = be_octets(n).len();
        assert(tail[0] == (128 + k) as u8);
        assert(tail.subrange(1, 1 + k as int) =~= be_octets(n));
        assert(length_of(tail) == Some((n, 1 + k)));
    }
    assert(buf.subrange((1 + l.len()) as int, (1 + l.len() + n) as int) =~= content);
}

/// A triple alone splits off again.
pub proof fn tlv_alone_reads_back(tag: u8, content: Seq<u8>)
    requires
        content.len() < 0x1_0000_0000,
    ensures
        tlv_of(tlv_octets(tag, content)) == Some((tag, content, tlv_octets(tag, content).len())),
        tlv_octets(tag, content).len() >= 2,
{
    tlv_reads_back(tag, content, seq![]);
    assert(tlv_octets(tag, content) + Seq::<u8>::empty() =~= tlv_octets(tag, content));
}

/// The high octets of an arc followed by its last octet make one arc.
proof fn lemma_high_octets(n: nat, last: u8, rest: Seq<u8>)
    requires
        last < 128,
        n < 0x0200_0000,
    ensures
        arc_len(high_octets(n).push(last) + rest) == Some(high_octets(n).len() + 1),
        arc_value(high_octets(n)) == n,
    decreases n,
{
    let buf = high_octets(n).push(last) + rest;
    lemma_arc_len(buf);
    lemma_all_high(n);
    let k = high_octets(n).len() as int;
    assert(buf[k] == last);
    assert(forall|i: int| 0 <= i < k ==> buf[i] == high_octets(n)[i]);
    assert(arc_len(buf) == Some((k + 1) as nat)) by {
        match arc_len(buf) {
            Some(m) => {
                if m - 1 < k {
                    assert(high_octets(n)[m - 1] >= 128);
                }
                if m - 1 > k {
                    assert(buf[k] >= 128);
                }
            },
            None => {
                assert(buf[k] >= 128);
            },
        }
    }
    if n > 0 {
        lemma_high_octets(n / 128, last, rest);
        assert(high_octets(n).drop_last() =~= high_octets(n / 128));
    }
}

proof fn lemma_all_high(n: nat)
    ensures
        forall|i: int| 0 <= i < high_octets(n).len() ==> high_octets(n)[i] >= 128,
    decreases n,
{
    if n > 0 {
        lemma_all_high(n / 128);
        let s = high_octets(n / 128);
        assert forall|i: int| 0 <= i < high_octets(n).len() implies high_octets(n)[i] >= 128 by {
            if i < s.len() {
                assert(high_octets(n)[i] == s[i]);
            } else {
                assert(high_octets(n)[i] == (128 + n % 128) as u8);
            }
        }
    }
}

/// An arc reads back from its octets, whatever follows.
pub proof fn arc_reads_back(n: nat, rest: Seq<u8>)
    requires
        n <= u32::MAX,
    ensures
        arc_len(arc_octets(n) + rest) == Some(arc_octets(n).len()),
        arc_value(arc_octets(n)) == n,
{
    lemma_high_octets(n / 128, (n % 128) as u8, rest);
    assert(arc_octets(n).drop_last() =~= high_octets(n / 128));
}

/// Arcs read back from their octets.
pub proof fn arcs_read_back(arcs: Seq<u32>)
    ensures
        arcs_from(arcs_octets(arcs)) == Some(arcs),
    decreases arcs.len(),
{
    lemma_arcs_octets_front(arcs);
    if arcs.len() > 0 {
        let first = arc_octets(arcs[0] as nat);
        let rest = arcs_octets(arcs.drop_first());
        arc_reads_back(arcs[0] as nat, rest);
        arcs_read_back(arcs.drop_first());
        let buf = first + rest;
        assert(buf.take(first.len() as int) =~= first);
        assert(buf.skip(first.len() as int) =~= rest);
        assert(seq![arcs[0]] + arcs.drop_first() =~= arcs);
    }
}

proof fn lemma_arcs_octets_front(arcs: Seq<u32>)
    ensures
        arcs.len() > 0 ==> arcs_octets(arcs) == arc_octets(arcs[0] as nat) + arcs_octets(
            arcs.drop_first(),
        ),
    decreases arcs.len(),
{
    if arcs.len() == 1 {
        assert(arcs.drop_last() =~= seq![]);
        assert(arcs.drop_first() =~= seq![]);
        assert(arcs_octets(arcs.drop_last()) =~= seq![]);
        assert(arcs_octets(arcs) =~= arc_octets(arcs[0] as nat));
        assert(arc_octets(arcs[0] as nat) + Seq::<u8>::empty() =~= arc_octets(arcs[0] as nat));
    } else if arcs.len() > 1 {
        let d = arcs.drop_last();
        lemma_arcs_octets_front(d);
        let t = arcs.drop_first();
        assert(t.drop_last() =~= d.drop_first());
        assert(arcs_octets(arcs) =~= arc_octets(arcs[0] as nat) + arcs_octets(t));
    }
}

/// Whether an OID reads back from its octets: it has two arcs, the second below 40, that pack
/// into less than 128.
pub open spec fn readable_oid(arcs: Seq<u32>) -> bool {
    arcs.len() >= 2 && arcs[1] < 40 && packed(arcs) < 128
}

/// An OID whose first two arcs pack into one octet reads back from its octets.
pub proof fn oid_octets_read_back(arcs: Seq<u32>)
    requires
        readable_oid(arcs),
    ensures
        oid_of(oid_octets(arcs)) == Some(arcs),
{
    let p = packed(arcs) as nat;
    let tail = arcs.skip(2);
    assert(high_octets(p / 128) =~= seq![]);
    assert(arc_octets(p) =~= seq![p as u8]);
    let buf = oid_octets(arcs);
    assert(buf =~= seq![p as u8] + arcs_octets(tail));
    assert(buf.skip(1) =~= arcs_octets(tail));
    arcs_read_back(tail);
    assert(seq![(buf[0] / 40) as u32, (buf[0] % 40) as u32] + tail =~= arcs);
}

} // verus!
