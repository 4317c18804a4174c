//! The text forms of IPv4 addresses and of transport addresses.

use vstd::prelude::*;

use crate::text::decimal;
use crate::text::decimal_reads_back;
use crate::text::find_char;
use crate::text::lemma_decimal;
use crate::text::lemma_find_char;
use crate::text::parse_unsigned;
use crate::text::push_decimal;
use crate::text::split;
use crate::text::split_at_char;
use crate::text::texts;
use crate::text::unsigned_value;
use crate::value::Ipv4Addr;

verus! {

/// The octet that a text spells: one to three decimal digits, without a leading zero.
pub open spec fn octet_value(s: Seq<char>) -> Option<u8> {
    if s.len() == 0 || s.len() > 3 || (s.len() > 1 && s[0] == '0') || s[0] == '+' {
        None
    } else {
        match unsigned_value(s, 10, 255) {
            Some(n) => Some(n as u8),
            None => None,
        }
    }
}

/// The address that a text spells: four octets separated by dots.
pub open spec fn ipv4_of(s: Seq<char>) -> Option<Ipv4Addr> {
    let parts = split(s, '.');
    if parts.len() != 4 {
        None
    } else {
        match (
            octet_value(parts[0]),
            octet_value(parts[1]),
            octet_value(parts[2]),
            octet_value(parts[3]),
        ) {
            (Some(a), Some(b), Some(c), Some(d)) => Some(Ipv4Addr { a, b, c, d }),
            _ => None,
        }
    }
}

/// The dotted text of an address.
pub open spec fn ipv4_text(ip: Ipv4Addr) -> Seq<char> {
    decimal(ip.a as nat) + seq!['.'] + decimal(ip.b as nat) + seq!['.'] + decimal(ip.c as nat)
        + seq!['.'] + decimal(ip.d as nat)
}

fn parse_octet(s: &[char]) -> (r: Option<u8>)
    ensures
        r == octet_value(s@),
{
    if s.len() == 0 || s.len() > 3 || (s.len() > 1 && s[0] == '0') || s[0] == '+' {
        return None;
    }
    match parse_unsigned(s, 10, 255) {
        Some(n) => Some(n as u8),
        None => None,
    }
}

/// Parse a dotted IPv4 address.
pub fn parse_ipv4(s: &[char]) -> (r: Option<Ipv4Addr>)
    ensures
        r == ipv4_of(s@),
{
    let parts = split_at_char(s, '.');
    assert(texts(parts@) == split(s@, '.'));
    if parts.len() != 4 {
        return None;
    }
    assert(split(s@, '.')[0] == parts@[0]@);
    assert(split(s@, '.')[1] == parts@[1]@);
    assert(split(s@, '.')[2] == parts@[2]@);
    assert(split(s@, '.')[3] == parts@[3]@);
    match (
        parse_octet(parts[0].as_slice()),
        parse_octet(parts[1].as_slice()),
        parse_octet(parts[2].as_slice()),
        parse_octet(parts[3].as_slice()),
    ) {
        (Some(a), Some(b), Some(c), Some(d)) => Some(Ipv4Addr { a, b, c, d }),
        _ => None,
    }
}

/// The dotted text of an address.
pub fn ipv4_to_string(ip: &Ipv4Addr) -> (r: String)
    ensures
        r@ == ipv4_text(*ip),
{
    let mut out = String::new();
    push_decimal(&mut out, ip.a as u64);
    out.push('.');
    push_decimal(&mut out, ip.b as u64);
    out.push('.');
    push_decimal(&mut out, ip.c as u64);
    out.push('.');
    push_decimal(&mut out, ip.d as u64);
    assert(out@ =~= ipv4_text(*ip));
    out
}

proof fn lemma_octet_text(n: nat)
    requires
        n <= 255,
    ensures
        octet_value(decimal(n)) == Some(n as u8),
        forall|i: int| 0 <= i < decimal(n).len() ==> decimal(n)[i] != '.',
{
    lemma_decimal(n);
    decimal_reads_back(n, 255);
    reveal_with_fuel(decimal, 4);
    assert forall|i: int| 0 <= i < decimal(n).len() implies decimal(n)[i] != '.' by {
        assert('0' <= decimal(n)[i] <= '9');
    }
    assert('0' <= decimal(n)[0] <= '9');
}

proof fn lemma_split_front(p: Seq<char>, rest: Seq<char>)
    requires
        forall|i: int| 0 <= i < p.len() ==> p[i] != '.',
    ensures
        split(p + seq!['.'] + rest, '.') == seq![p] + split(rest, '.'),
{
    let s = p + seq!['.'] + rest;
    lemma_find_char(s, '.');
    let n = find_char(s, '.');
    assert(s[p.len() as int] == '.');
    assert(n == p.len()) by {
        if n < p.len() {
            assert(s[n as int] == p[n as int]);
        }
    }
    assert(s.take(n as int) =~= p);
    assert(s.skip(n as int + 1) =~= rest);
}

proof fn lemma_split_last(p: Seq<char>)
    requires
        forall|i: int| 0 <= i < p.len() ==> p[i] != '.',
    ensures
        split(p, '.') == seq![p],
{
    lemma_find_char(p, '.');
    let n = find_char(p, '.');
    if n < p.len() {
        assert(p[n as int] == '.');
    }
}

/// The text of an address reads back.
pub proof fn ipv4_text_reads_back(ip: Ipv4Addr)
    ensures
        ipv4_of(ipv4_text(ip)) == Some(ip),
{
    let a = decimal(ip.a as nat);
    let b = decimal(ip.b as nat);
    let c = decimal(ip.c as nat);
    let d = decimal(ip.d as nat);
    lemma_octet_text(ip.a as nat);
    lemma_octet_text(ip.b as nat);
    lemma_octet_text(ip.c as nat);
    lemma_octet_text(ip.d as nat);
    let dot = seq!['.'];
    let r2 = c + dot + d;
    let r1 = b + dot + r2;
    assert(ipv4_text(ip) =~= a + dot + r1);
    lemma_split_front(a, r1);
    lemma_split_front(b, r2);
    lemma_split_front(c, d);
    lemma_split_last(d);
    assert(split(ipv4_text(ip), '.') =~= seq![a, b, c, d]);
}

} // verus!
