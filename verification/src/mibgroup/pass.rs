//! Subtrees that an external command serves: the requests it gets and what its replies mean.
//!
//! A `pass` command is run anew for each request. A `pass_persist` command keeps running and is
//! spoken to over its standard input and output.

use vstd::prelude::*;

use crate::config::lower;
use crate::config::lowered;
use crate::config::same_word;
use crate::handler::Reading;
use crate::inet::ipv4_of;
use crate::inet::ipv4_text;
use crate::inet::ipv4_text_reads_back;
use crate::inet::ipv4_to_string;
use crate::inet::parse_ipv4;
use crate::oid::is_prefix;
use crate::oid::oid_text;
use crate::oid::oid_text_reads_back;
use crate::oid::parse_oid;
use crate::oid::Oid;
use crate::text::bytes_text;
use crate::text::chars_of;
use crate::text::decimal;
use crate::text::decimal_reads_back;
use crate::text::is_space;
use crate::text::lemma_decimal;
use crate::text::lines;
use crate::text::parse_i64;
use crate::text::parse_unsigned;
use crate::text::push_decimal;
use crate::text::push_signed;
use crate::text::signed_decimal;
use crate::text::signed_decimal_reads_back;
use crate::text::signed_value;
use crate::text::slice_of;
use crate::text::space;
use crate::text::split_lines;
use crate::text::split_words;
use crate::text::string_of;
use crate::text::strings;
use crate::text::text_of_bytes;
use crate::text::texts;
use crate::text::trim;
use crate::text::trim_end;
use crate::text::trimmed;
use crate::text::trimmed_end;
use crate::text::unsigned_value;
use crate::text::words;
use crate::value::bytes_of;
use crate::value::utf8;
use crate::value::Ipv4Addr;
use crate::value::Value;
use crate::value::ValueView;

verus! {

/// How long a command may take to reply, in seconds.
pub const PASS_TIMEOUT_SECS: u64 = 5;

/// Whether a character stands between quotes.
#[derive(Clone, Copy, Debug, PartialEq, Eq, Structural)]
pub enum Quoting {
    /// Outside quotes.
    Plain,
    /// Between single quotes.
    Single,
    /// Between double quotes.
    Double,
}

/// The finished words with the current one, which counts unless it is empty.
pub open spec fn flushed(done: Seq<Seq<char>>, current: Seq<char>) -> Seq<Seq<char>> {
    if current.len() == 0 {
        done
    } else {
        done.push(current)
    }
}

/// The words of the command line `s`, where `done` are finished and `current` has begun; `None`
/// if a quote is not closed.
///
/// White space outside quotes separates words. A backslash takes the next character as it is,
/// outside quotes and between double quotes; between single quotes every character stands for
/// itself. A word without characters does not count.
pub open spec fn shell_words(
    s: Seq<char>,
    quoting: Quoting,
    current: Seq<char>,
    done: Seq<Seq<char>>,
) -> Option<Seq<Seq<char>>>
    decreases s.len(),
{
    if s.len() == 0 {
        if quoting == Quoting::Plain {
            Some(flushed(done, current))
        } else {
            None
        }
    } else if quoting == Quoting::Single {
        if s[0] == '\'' {
            shell_words(s.skip(1), Quoting::Plain, current, done)
        } else {
            shell_words(s.skip(1), Quoting::Single, current.push(s[0]), done)
        }
    } else if s[0] == '\\' && s.len() > 1 {
        shell_words(s.skip(2), quoting, current.push(s[1]), done)
    } else if quoting == Quoting::Double {
        if s[0] == '"' {
            shell_words(s.skip(1), Quoting::Plain, current, done)
        } else {
            shell_words(s.skip(1), Quoting::Double, current.push(s[0]), done)
        }
    } else if s[0] == '\\' {
        shell_words(s.skip(1), Quoting::Plain, current, done)
    } else if s[0] == '\'' {
        shell_words(s.skip(1), Quoting::Single, current, done)
    } else if s[0] == '"' {
        shell_words(s.skip(1), Quoting::Double, current, done)
    } else if is_space(s[0]) {
        shell_words(s.skip(1), Quoting::Plain, seq![], flushed(done, current))
    } else {
        shell_words(s.skip(1), Quoting::Plain, current.push(s[0]), done)
    }
}

/// The program and the arguments of a command line; `None` if it has no word or a quote is not
/// closed.
pub open spec fn command_of(s: Seq<char>) -> Option<(Seq<char>, Seq<Seq<char>>)> {
    match shell_words(s, Quoting::Plain, seq![], seq![]) {
        Some(w) => if w.len() == 0 {
            None
        } else {
            Some((w[0], w.skip(1)))
        },
        None => None,
    }
}

fn flush(done: &mut Vec<String>, current: &[char])
    ensures
        strings(final(done)@) == flushed(strings(old(done)@), current@),
{
    if current.len() > 0 {
        let ghost before = done@;
        done.push(string_of(current));
        assert(strings(done@) =~= strings(before).push(current@));
    }
}

/// The words of a command line.
fn command_words(s: &[char]) -> (r: Option<Vec<String>>)
    ensures
        (match r {
            Some(w) => Some(strings(w@)),
            None => None,
        }) == shell_words(s@, Quoting::Plain, seq![], seq![]),
{
    let mut done: Vec<String> = Vec::new();
    let mut current: Vec<char> = Vec::new();
    let mut quoting = Quoting::Plain;
    let mut i: usize = 0;
    proof {
        assert(s@.skip(0) =~= s@);
        assert(strings(done@) =~= Seq::<Seq<char>>::empty());
        assert(current@ =~= Seq::<char>::empty());
    }
    while i < s.len()
        invariant
            i <= s@.len(),
            shell_words(s@, Quoting::Plain, seq![], seq![]) == shell_words(
                s@.skip(i as int),
                quoting,
                current@,
                strings(done@),
            ),
        decreases s@.len() - i,
    {
        let ghost rest = s@.skip(i as int);
        let c: char = s[i];
        let more = s.len() - i > 1;
        proof {
            assert(rest[0] == c);
            assert(rest.skip(1) =~= s@.skip(i + 1));
            if more {
                assert(rest[1] == s@[i + 1]);
                assert(rest.skip(2) =~= s@.skip(i + 2));
            }
        }
        if quoting == Quoting::Single {
            if c == '\'' {
                quoting = Quoting::Plain;
            } else {
                current.push(c);
            }
        } else if c == '\\' && more {
            current.push(s[i + 1]);
            i += 1;
        } else if quoting == Quoting::Double {
            if c == '"' {
                quoting = Quoting::Plain;
            } else {
                current.push(c);
            }
        } else if c == '\\' {
        } else if c == '\'' {
            quoting = Quoting::Single;
        } else if c == '"' {
            quoting = Quoting::Double;
        } else if space(c) {
            flush(&mut done, current.as_slice());
            current = Vec::new();
            assert(current@ =~= Seq::<char>::empty());
        } else {
            current.push(c);
        }
        i += 1;
    }
    assert(s@.skip(i as int).len() == 0);
    if quoting != Quoting::Plain {
        return None;
    }
    flush(&mut done, current.as_slice());
    Some(done)
}

/// Split a command line into the program and its arguments.
pub fn split_command(s: &str) -> (r: Option<(String, Vec<String>)>)
    ensures
        (match r {
            Some((program, args)) => Some((program@, strings(args@))),
            None => None,
        }) == command_of(s@),
{
    let v = chars_of(s);
    let mut w = match command_words(v.as_slice()) {
        Some(w) => w,
        None => {
            return None;
        },
    };
    if w.len() == 0 {
        return None;
    }
    let ghost all = w@;
    let program = w.remove(0);
    assert(strings(w@) =~= strings(all).skip(1));
    Some((program, w))
}

/// What a command replies: an instance, the name of a type and the text of a value.
#[derive(Debug)]
pub struct PassReply {
    /// The instance.
    pub oid: Oid,
    /// The name of the type.
    pub type_token: String,
    /// The text of the value.
    pub value: String,
}

/// The mathematical content of a [`PassReply`].
#[verifier::ext_equal]
pub struct ReplyView {
    pub oid: Seq<u32>,
    pub type_token: Seq<char>,
    pub value: Seq<char>,
}

impl View for PassReply {
    type V = ReplyView;

    open spec fn view(&self) -> ReplyView {
        ReplyView { oid: self.oid@, type_token: self.type_token@, value: self.value@ }
    }
}

/// The reply, if there is one.
pub open spec fn opt_reply(r: Option<PassReply>) -> Option<ReplyView> {
    match r {
        Some(x) => Some(x@),
        None => None,
    }
}

/// The text number `i`, or the empty text.
pub open spec fn nth_text(v: Seq<Seq<char>>, i: int) -> Seq<char> {
    if i < v.len() {
        v[i]
    } else {
        seq![]
    }
}

/// What the output of a command says: the lines with the instance, the type and the value. There
/// is no reply where the first line is missing, empty, `NONE`, or no object identifier.
pub open spec fn reply_of(stdout: Seq<char>) -> Option<ReplyView> {
    let ls = lines(stdout);
    if ls.len() == 0 {
        None
    } else {
        let first = trim(ls[0]);
        if first.len() == 0 || lowered(first) == lowered("NONE"@) {
            None
        } else {
            match parse_oid(first) {
                Some(oid) => Some(
                    ReplyView {
                        oid,
                        type_token: trim(nth_text(ls, 1)),
                        value: trim_end(nth_text(ls, 2)),
                    },
                ),
                None => None,
            }
        }
    }
}

/// Read the output of a command.
pub fn parse_pass_reply(stdout: &str) -> (r: Option<PassReply>)
    ensures
        opt_reply(r) == reply_of(stdout@),
{
    let v = chars_of(stdout);
    let ls = split_lines(v.as_slice());
    let ghost all = texts(ls@);
    if ls.len() == 0 {
        return None;
    }
    assert(all[0] == ls@[0]@);
    let first = trimmed(ls[0].as_slice());
    if first.len() == 0 || same_word(first.as_slice(), "NONE") {
        return None;
    }
    let oid = match Oid::parse_chars(first.as_slice()) {
        Ok(o) => o,
        Err(_) => {
            return None;
        },
    };
    let type_token = if ls.len() > 1 {
        assert(all[1] == ls@[1]@);
        string_of(trimmed(ls[1].as_slice()).as_slice())
    } else {
        let s = String::new();
        assert(s@ =~= trim(seq![]));
        s
    };
    let value = if ls.len() > 2 {
        assert(all[2] == ls@[2]@);
        string_of(trimmed_end(ls[2].as_slice()).as_slice())
    } else {
        let s = String::new();
        assert(s@ =~= trim_end(seq![]));
        s
    };
    Some(PassReply { oid, type_token, value })
}

/// `n`, or zero.
pub open spec fn or_zero(n: Option<nat>) -> nat {
    match n {
        Some(x) => x,
        None => 0,
    }
}

/// Whether a type is called `name`, whatever the case of its letters.
pub open spec fn type_is(t: Seq<char>, name: Seq<char>) -> bool {
    lowered(trim(t)) == lowered(name)
}

/// The value that a type and a text stand for. A number that cannot be read is zero, and an
/// unknown type is an octet string.
pub open spec fn pass_value(t: Seq<char>, text: Seq<char>) -> ValueView {
    if type_is(t, "integer"@) || type_is(t, "int"@) || type_is(t, "integer32"@) {
        match signed_value(trim(text), i64::MIN as int, i64::MAX as int) {
            Some(n) => ValueView::Integer(n as i64),
            None => ValueView::Integer(0),
        }
    } else if type_is(t, "gauge"@) || type_is(t, "gauge32"@) || type_is(t, "unsigned"@) || type_is(
        t,
        "uinteger"@,
    ) || type_is(t, "uint32"@) {
        ValueView::Gauge32(or_zero(unsigned_value(trim(text), 10, u32::MAX as nat)) as u32)
    } else if type_is(t, "counter"@) || type_is(t, "counter32"@) {
        ValueView::Counter32(or_zero(unsigned_value(trim(text), 10, u32::MAX as nat)) as u32)
    } else if type_is(t, "counter64"@) {
        ValueView::Counter64(or_zero(unsigned_value(trim(text), 10, u64::MAX as nat)) as u64)
    } else if type_is(t, "timeticks"@) || type_is(t, "timetick"@) {
        ValueView::TimeTicks(or_zero(unsigned_value(trim(text), 10, u32::MAX as nat)) as u32)
    } else if type_is(t, "ipaddress"@) || type_is(t, "ip"@) {
        match ipv4_of(trim(text)) {
            Some(ip) => ValueView::IpAddress(ip),
            None => ValueView::IpAddress(Ipv4Addr { a: 0, b: 0, c: 0, d: 0 }),
        }
    } else if type_is(t, "objectid"@) || type_is(t, "oid"@) {
        match parse_oid(trim(text)) {
            Some(o) => ValueView::Oid(o),
            None => ValueView::Oid(seq![0u32, 0]),
        }
    } else if type_is(t, "opaque"@) {
        ValueView::Opaque(utf8(text))
    } else {
        ValueView::OctetString(utf8(text))
    }
}

fn u32_or_zero(s: &[char]) -> (r: u32)
    ensures
        r == or_zero(unsigned_value(s@, 10, u32::MAX as nat)),
{
    match parse_unsigned(s, 10, u32::MAX as u64) {
        Some(n) => n as u32,
        None => 0,
    }
}

/// The value that a type and a text stand for.
pub fn value_from_pass(type_token: &str, text: &str) -> (r: Value)
    ensures
        r@ == pass_value(type_token@, text@),
{
    let tv = chars_of(type_token);
    let tt = trimmed(tv.as_slice());
    let t = tt.as_slice();
    let xv = chars_of(text);
    let xt = trimmed(xv.as_slice());
    let x = xt.as_slice();
    if same_word(t, "integer") || same_word(t, "int") || same_word(t, "integer32") {
        match parse_i64(x) {
            Some(n) => Value::Integer(n),
            None => Value::Integer(0),
        }
    } else if same_word(t, "gauge") || same_word(t, "gauge32") || same_word(t, "unsigned")
        || same_word(t, "uinteger") || same_word(t, "uint32") {
        Value::Gauge32(u32_or_zero(x))
    } else if same_word(t, "counter") || same_word(t, "counter32") {
        Value::Counter32(u32_or_zero(x))
    } else if same_word(t, "counter64") {
        match parse_unsigned(x, 10, u64::MAX) {
            Some(n) => Value::Counter64(n),
            None => Value::Counter64(0),
        }
    } else if same_word(t, "timeticks") || same_word(t, "timetick") {
        Value::TimeTicks(u32_or_zero(x))
    } else if same_word(t, "ipaddress") || same_word(t, "ip") {
        match parse_ipv4(x) {
            Some(ip) => Value::IpAddress(ip),
            None => Value::IpAddress(Ipv4Addr::new(0, 0, 0, 0)),
        }
    } else if same_word(t, "objectid") || same_word(t, "oid") {
        match Oid::parse_chars(x) {
            Ok(o) => Value::Oid(o),
            Err(_) => Value::Oid(Oid::null()),
        }
    } else if same_word(t, "opaque") {
        Value::Opaque(bytes_of(text))
    } else {
        Value::OctetString(bytes_of(text))
    }
}

/// Numbers with a comma and a space between them.
pub open spec fn comma_list(bytes: Seq<u8>) -> Seq<char>
    decreases bytes.len(),
{
    if bytes.len() == 0 {
        seq![]
    } else if bytes.len() == 1 {
        decimal(bytes[0] as nat)
    } else {
        comma_list(bytes.drop_last()) + ", "@ + decimal(bytes.last() as nat)
    }
}

/// Bytes as a list of numbers in square brackets.
pub open spec fn byte_list(bytes: Seq<u8>) -> Seq<char> {
    seq!['['] + comma_list(bytes) + seq![']']
}

fn byte_list_text(bytes: &[u8]) -> (r: String)
    ensures
        r@ == byte_list(bytes@),
{
    let mut out = String::new();
    out.push('[');
    let mut i: usize = 0;
    proof {
        assert(bytes@.take(0) =~= Seq::<u8>::empty());
        assert(out@ =~= seq!['['] + comma_list(bytes@.take(0)));
    }
    while i < bytes.len()
        invariant
            i <= bytes@.len(),
            out@ == seq!['['] + comma_list(bytes@.take(i as int)),
        decreases bytes@.len() - i,
    {
        let ghost before = bytes@.take(i as int);
        let ghost after = bytes@.take(i + 1);
        proof {
            assert(after.drop_last() =~= before);
            assert(after.last() == bytes@[i as int]);
            if i == 0 {
                assert(after[0] == bytes@[0]);
            }
        }
        if i > 0 {
            out.append(", ");
        }
        push_decimal(&mut out, bytes[i] as u64);
        assert(out@ =~= seq!['['] + comma_list(after));
        i += 1;
    }
    assert(bytes@.take(i as int) =~= bytes@);
    out.push(']');
    assert(out@ =~= byte_list(bytes@));
    out
}

/// The type and the text that a value is handed to a command as. Octets that are not UTF-8 are
/// replaced.
pub open spec fn pass_pair(v: ValueView) -> (Seq<char>, Seq<char>) {
    match v {
        ValueView::Integer(n) => ("integer"@, signed_decimal(n as int)),
        ValueView::Gauge32(n) => ("gauge"@, decimal(n as nat)),
        ValueView::Counter32(n) => ("counter"@, decimal(n as nat)),
        ValueView::Counter64(n) => ("counter64"@, decimal(n as nat)),
        ValueView::TimeTicks(n) => ("timeticks"@, decimal(n as nat)),
        ValueView::IpAddress(ip) => ("ipaddress"@, ipv4_text(ip)),
        ValueView::Oid(o) => ("objectid"@, oid_text(o)),
        ValueView::OctetString(b) => ("string"@, bytes_text(b)),
        ValueView::Opaque(b) => ("opaque"@, byte_list(b)),
        _ => ("string"@, seq![]),
    }
}

fn number_text(n: u64) -> (r: String)
    ensures
        r@ == decimal(n as nat),
{
    let mut s = String::new();
    push_decimal(&mut s, n);
    assert(s@ =~= decimal(n as nat));
    s
}

/// The type and the text that a value is handed to a command as.
pub fn value_to_pass(value: &Value) -> (r: (String, String))
    ensures
        (r.0@, r.1@) == pass_pair(value@),
{
    match value {
        Value::Integer(n) => {
            let mut s = String::new();
            push_signed(&mut s, *n);
            assert(s@ =~= signed_decimal(*n as int));
            ("integer".to_owned(), s)
        },
        Value::Gauge32(n) => ("gauge".to_owned(), number_text(*n as u64)),
        Value::Counter32(n) => ("counter".to_owned(), number_text(*n as u64)),
        Value::Counter64(n) => ("counter64".to_owned(), number_text(*n)),
        Value::TimeTicks(n) => ("timeticks".to_owned(), number_text(*n as u64)),
        Value::IpAddress(ip) => ("ipaddress".to_owned(), ipv4_to_string(ip)),
        Value::Oid(o) => ("objectid".to_owned(), o.to_string()),
        Value::OctetString(b) => ("string".to_owned(), text_of_bytes(b.as_slice())),
        Value::Opaque(b) => ("opaque".to_owned(), byte_list_text(b.as_slice())),
        _ => {
            let s = String::new();
            assert(s@ =~= Seq::<char>::empty());
            ("string".to_owned(), s)
        },
    }
}

/// A text between characters that are no white space is its own trimming.
proof fn lemma_trim_same(s: Seq<char>)
    requires
        s.len() > 0,
        !is_space(s[0]),
        !is_space(s.last()),
    ensures
        trim(s) == s,
{
}

/// What a command gets as a number, an address, an object identifier or UTF-8 text, it gives back
/// as the same value by replying with the same type and text.
pub proof fn passed_value_reads_back(v: ValueView)
    requires
        match v {
            ValueView::Integer(_) => true,
            ValueView::Gauge32(_) => true,
            ValueView::Counter32(_) => true,
            ValueView::Counter64(_) => true,
            ValueView::TimeTicks(_) => true,
            ValueView::IpAddress(_) => true,
            ValueView::Oid(o) => o.len() > 0,
            ValueView::OctetString(b) => vstd::utf8::valid_utf8(b),
            _ => false,
        },
    ensures
        pass_value(pass_pair(v).0, pass_pair(v).1) == v,
{
    reveal_strlit("integer");
    reveal_strlit("int");
    reveal_strlit("integer32");
    reveal_strlit("gauge");
    reveal_strlit("gauge32");
    reveal_strlit("unsigned");
    reveal_strlit("uinteger");
    reveal_strlit("uint32");
    reveal_strlit("counter");
    reveal_strlit("counter32");
    reveal_strlit("counter64");
    reveal_strlit("timeticks");
    reveal_strlit("timetick");
    reveal_strlit("ipaddress");
    reveal_strlit("ip");
    reveal_strlit("objectid");
    reveal_strlit("oid");
    reveal_strlit("string");
    let (t, text) = pass_pair(v);
    lemma_trim_same(t);
    let low = lowered(t);
    assert(low[0] == lower(t[0]));
    assert(lowered("integer"@)[0] == 'i');
    assert(lowered("counter32"@).len() == 9);
    match v {
        ValueView::Integer(n) => {
            lemma_signed_trim(n as int);
            signed_decimal_reads_back(n as int, i64::MIN as int, i64::MAX as int);
            assert(pass_value(t, text) == v);
        },
        ValueView::Gauge32(n) => {
            lemma_decimal_trim(n as nat);
            decimal_reads_back(n as nat, u32::MAX as nat);
            assert(pass_value(t, text) == v);
        },
        ValueView::Counter32(n) => {
            lemma_decimal_trim(n as nat);
            decimal_reads_back(n as nat, u32::MAX as nat);
            assert(pass_value(t, text) == v);
        },
        ValueView::Counter64(n) => {
            lemma_decimal_trim(n as nat);
            decimal_reads_back(n as nat, u64::MAX as nat);
            assert(lowered("integer32"@)[0] == 'i');
            assert(lowered("counter32"@)[7] == '3');
            assert(low[7] == lower(t[7]));
            assert(lowered("gauge32"@)[0] == 'g');
            assert(lowered("timeticks"@).len() == 9);
            assert(low.len() == 9);
        },
        ValueView::TimeTicks(n) => {
            lemma_decimal_trim(n as nat);
            decimal_reads_back(n as nat, u32::MAX as nat);
            assert(lowered("integer32"@)[0] == 'i');
            assert(lowered("counter32"@)[0] == 'c');
            assert(lowered("counter64"@)[0] == 'c');
            assert(pass_value(t, text) == v);
        },
        ValueView::IpAddress(ip) => {
            lemma_ipv4_trim(ip);
            ipv4_text_reads_back(ip);
            assert(lowered("integer32"@)[1] == 'n');
            assert(low[1] == lower(t[1]));
            assert(lowered("counter32"@)[0] == 'c');
            assert(lowered("counter64"@)[0] == 'c');
            assert(lowered("timeticks"@)[0] == 't');
            assert(pass_value(t, text) == v);
        },
        ValueView::Oid(o) => {
            lemma_oid_trim(o);
            oid_text_reads_back(o);
            assert(lowered("unsigned"@)[0] == 'u');
            assert(lowered("uinteger"@)[0] == 'u');
            assert(lowered("timetick"@)[0] == 't');
            assert(pass_value(t, text) == v);
        },
        ValueView::OctetString(b) => {
            reveal_strlit("opaque");
            assert(lowered("integer"@)[0] == 'i');
            assert(lowered("int"@)[0] == 'i');
            assert(lowered("integer32"@)[0] == 'i');
            assert(lowered("gauge"@)[0] == 'g');
            assert(lowered("gauge32"@)[0] == 'g');
            assert(lowered("unsigned"@)[0] == 'u');
            assert(lowered("uinteger"@)[0] == 'u');
            assert(lowered("uint32"@)[0] == 'u');
            assert(lowered("counter"@)[0] == 'c');
            assert(lowered("counter32"@)[0] == 'c');
            assert(lowered("counter64"@)[0] == 'c');
            assert(lowered("timeticks"@)[0] == 't');
            assert(lowered("timetick"@)[0] == 't');
            assert(lowered("ipaddress"@)[0] == 'i');
            assert(lowered("ip"@)[0] == 'i');
            assert(lowered("objectid"@)[0] == 'o');
            assert(lowered("oid"@)[0] == 'o');
            assert(lowered("opaque"@)[0] == 'o');
            assert(low[0] == 's');
            vstd::utf8::decode_utf8_encode_utf8(b);
            assert(pass_value(t, text) == v);
        },
        _ => {},
    }
}

proof fn lemma_decimal_trim(n: nat)
    ensures
        trim(decimal(n)) == decimal(n),
{
    lemma_decimal(n);
    let s = decimal(n);
    assert('0' <= s[0] <= '9');
    assert('0' <= s[s.len() - 1] <= '9');
    lemma_trim_same(s);
}

proof fn lemma_signed_trim(n: int)
    ensures
        trim(signed_decimal(n)) == signed_decimal(n),
{
    if n < 0 {
        let d = decimal((-n) as nat);
        lemma_decimal((-n) as nat);
        assert('0' <= d[d.len() - 1] <= '9');
        assert(signed_decimal(n).last() == d.last());
        lemma_trim_same(signed_decimal(n));
    } else {
        lemma_decimal_trim(n as nat);
    }
}

proof fn lemma_ipv4_trim(ip: Ipv4Addr)
    ensures
        trim(ipv4_text(ip)) == ipv4_text(ip),
{
    let a = decimal(ip.a as nat);
    let d = decimal(ip.d as nat);
    lemma_decimal(ip.a as nat);
    lemma_decimal(ip.d as nat);
    assert('0' <= a[0] <= '9');
    assert('0' <= d[d.len() - 1] <= '9');
    assert(ipv4_text(ip)[0] == a[0]);
    assert(ipv4_text(ip).last() == d.last());
    lemma_trim_same(ipv4_text(ip));
}

proof fn lemma_oid_trim(o: Seq<u32>)
    requires
        o.len() > 0,
    ensures
        trim(oid_text(o)) == oid_text(o),
{
    lemma_oid_text_ends(o);
    lemma_trim_same(oid_text(o));
}

proof fn lemma_oid_text_ends(o: Seq<u32>)
    requires
        o.len() > 0,
    ensures
        oid_text(o).len() > 0,
        oid_text(o)[0] == '.',
        '0' <= oid_text(o).last() <= '9',
    decreases o.len(),
{
    let d = decimal(o[0] as nat);
    lemma_decimal(o[0] as nat);
    assert('0' <= d[d.len() - 1] <= '9');
    let rest = o.drop_first();
    if o.len() > 1 {
        lemma_oid_text_ends(rest);
        assert(oid_text(o).last() == oid_text(rest).last());
    } else {
        assert(oid_text(rest).len() == 0);
        assert(oid_text(o).last() == d.last());
    }
}

/// One request to a command.
#[derive(Debug)]
pub enum PassRequest {
    /// Run a program with arguments.
    Run {
        /// The program.
        program: String,
        /// Its arguments.
        args: Vec<String>,
    },
    /// Send a line to the running command.
    Send {
        /// The line, without its end.
        line: String,
    },
}

/// The mathematical content of a [`PassRequest`].
pub enum RequestView {
    /// Run a program with arguments.
    Run { program: Seq<char>, args: Seq<Seq<char>> },
    /// Send a line to the running command.
    Send { line: Seq<char> },
}

impl View for PassRequest {
    type V = RequestView;

    open spec fn view(&self) -> RequestView {
        match *self {
            PassRequest::Run { program, args } => RequestView::Run {
                program: program@,
                args: strings(args@),
            },
            PassRequest::Send { line } => RequestView::Send { line: line@ },
        }
    }
}

/// The request, if there is one.
pub open spec fn opt_request(r: Option<PassRequest>) -> Option<RequestView> {
    match r {
        Some(x) => Some(x@),
        None => None,
    }
}

/// A run of a command line with more arguments; none for a line that cannot be split.
pub open spec fn run_of(command: Seq<char>, more: Seq<Seq<char>>) -> Option<RequestView> {
    match command_of(command) {
        Some((program, args)) => Some(RequestView::Run { program, args: args + more }),
        None => None,
    }
}

/// A subtree that an external command serves.
#[derive(Debug)]
pub struct PassHandler {
    /// The root of the subtree.
    pub root: Oid,
    /// The command line.
    pub command: String,
    /// Whether the command keeps running.
    pub persist: bool,
}

impl PassHandler {
    /// A subtree whose command is run anew for each request.
    pub fn pass(root: Oid, command: &str) -> (r: PassHandler)
        ensures
            r.root@ == root@,
            r.command@ == command@,
            !r.persist,
    {
        PassHandler { root, command: command.to_owned(), persist: false }
    }

    /// A subtree whose command keeps running.
    pub fn pass_persist(root: Oid, command: &str) -> (r: PassHandler)
        ensures
            r.root@ == root@,
            r.command@ == command@,
            r.persist,
    {
        PassHandler { root, command: command.to_owned(), persist: true }
    }

    /// The root of the subtree.
    pub fn root(&self) -> (r: &Oid)
        ensures
            r@ == self.root@,
    {
        &self.root
    }

    fn run(&self, more: Vec<String>) -> (r: Option<PassRequest>)
        ensures
            opt_request(r) == run_of(self.command@, strings(more@)),
    {
        match split_command(self.command.as_str()) {
            Some((program, base)) => {
                let mut args = base;
                let mut more = more;
                let ghost a = args@;
                let ghost b = more@;
                args.append(&mut more);
                assert(strings(args@) =~= strings(a) + strings(b));
                Some(PassRequest::Run { program, args })
            },
            None => None,
        }
    }

    /// What the command is asked for a GET: `-g OID`, or the lines `get` and the instance.
    pub fn get_request(&self, oid: &Oid) -> (r: Option<PassRequest>)
        ensures
            opt_request(r) == (if self.persist {
                Some(RequestView::Send { line: "get\n"@ + oid_text(oid@) })
            } else {
                run_of(self.command@, seq!["-g"@, oid_text(oid@)])
            }),
    {
        if self.persist {
            let mut line = "get\n".to_owned();
            line.append(oid.to_string().as_str());
            Some(PassRequest::Send { line })
        } else {
            let more = vec!["-g".to_owned(), oid.to_string()];
            assert(strings(more@) =~= seq!["-g"@, oid_text(oid@)]);
            self.run(more)
        }
    }

    /// What the command is asked for a GETNEXT: `-n OID`, or the lines `getnext` and the instance.
    pub fn get_next_request(&self, oid: &Oid) -> (r: Option<PassRequest>)
        ensures
            opt_request(r) == (if self.persist {
                Some(RequestView::Send { line: "getnext\n"@ + oid_text(oid@) })
            } else {
                run_of(self.command@, seq!["-n"@, oid_text(oid@)])
            }),
    {
        if self.persist {
            let mut line = "getnext\n".to_owned();
            line.append(oid.to_string().as_str());
            Some(PassRequest::Send { line })
        } else {
            let more = vec!["-n".to_owned(), oid.to_string()];
            assert(strings(more@) =~= seq!["-n"@, oid_text(oid@)]);
            self.run(more)
        }
    }

    /// What the command is asked for a SET: `-s OID TYPE VALUE`, or the line `set` and a line with
    /// the instance, the type and the value.
    pub fn set_request(&self, oid: &Oid, value: &Value) -> (r: Option<PassRequest>)
        ensures
            opt_request(r) == ({
                let (t, x) = pass_pair(value@);
                if self.persist {
                    Some(
                        RequestView::Send {
                            line: "set\n"@ + oid_text(oid@) + " "@ + t + " "@ + x,
                        },
                    )
                } else {
                    run_of(self.command@, seq!["-s"@, oid_text(oid@), t, x])
                }
            }),
    {
        let (t, x) = value_to_pass(value);
        if self.persist {
            let mut line = "set\n".to_owned();
            line.append(oid.to_string().as_str());
            line.append(" ");
            line.append(t.as_str());
            line.append(" ");
            line.append(x.as_str());
            Some(PassRequest::Send { line })
        } else {
            let ghost expected = seq!["-s"@, oid_text(oid@), t@, x@];
            let more = vec!["-s".to_owned(), oid.to_string(), t, x];
            assert(strings(more@) =~= expected);
            self.run(more)
        }
    }

    /// What a reply to a GET means.
    pub fn get_answer(reply: Option<PassReply>) -> (r: Option<Value>)
        ensures
            match reply {
                Some(p) => r is Some && r->0@ == pass_value(p@.type_token, p@.value),
                None => r is None,
            },
    {
        match reply {
            Some(p) => Some(value_from_pass(p.type_token.as_str(), p.value.as_str())),
            None => None,
        }
    }

    /// What a reply to a GETNEXT means: an instance outside the subtree is no successor.
    pub fn get_next_answer(&self, reply: Option<PassReply>) -> (r: Option<Reading>)
        ensures
            match reply {
                Some(p) => if is_prefix(self.root@, p@.oid) {
                    r is Some && r->0.oid@ == p@.oid && r->0.value@ == pass_value(
                        p@.type_token,
                        p@.value,
                    )
                } else {
                    r is None
                },
                None => r is None,
            },
    {
        match reply {
            Some(p) => {
                if !self.root.is_prefix_of(&p.oid) {
                    return None;
                }
                let value = value_from_pass(p.type_token.as_str(), p.value.as_str());
                Some(Reading { oid: p.oid, value })
            },
            None => None,
        }
    }
}

/// A line without the line ends behind it.
pub open spec fn without_line_end(s: Seq<char>) -> Seq<char>
    decreases s.len(),
{
    if s.len() > 0 && (s.last() == '\n' || s.last() == '\r') {
        without_line_end(s.drop_last())
    } else {
        s
    }
}

/// The lines of a reply that a running command has sent so far.
#[derive(Debug)]
pub struct PersistReader {
    /// The lines.
    pub lines: Vec<String>,
}

impl PersistReader {
    /// Before the first line.
    pub fn new() -> (r: PersistReader)
        ensures
            strings(r.lines@) == Seq::<Seq<char>>::empty(),
    {
        let r = PersistReader { lines: Vec::new() };
        assert(strings(r.lines@) =~= Seq::<Seq<char>>::empty());
        r
    }

    /// Take the next line, and say whether the reply is complete: it ends with an empty line or
    /// the third line.
    pub fn take_line(&mut self, line: &str) -> (r: bool)
        ensures
            ({
                let t = without_line_end(line@);
                let before = strings(old(self).lines@);
                let after = strings(final(self).lines@);
                &&& after == (if t.len() == 0 {
                    before
                } else {
                    before.push(t)
                })
                &&& r == (t.len() == 0 || after.len() >= 3)
            }),
    {
        let v = chars_of(line);
        let mut n: usize = v.len();
        assert(v@.take(n as int) =~= v@);
        while n > 0 && (v[n - 1] == '\n' || v[n - 1] == '\r')
            invariant
                n <= v@.len(),
                v@ == line@,
                without_line_end(v@.take(n as int)) == without_line_end(line@),
            decreases n,
        {
            assert(v@.take(n as int).drop_last() =~= v@.take(n - 1));
            n -= 1;
        }
        let t = slice_of(v.as_slice(), 0, n);
        assert(t@ =~= v@.take(n as int));
        if t.len() == 0 {
            return true;
        }
        let ghost before = self.lines@;
        self.lines.push(string_of(t.as_slice()));
        assert(strings(self.lines@) =~= strings(before).push(t@));
        self.lines.len() >= 3
    }

    /// What the lines say; nothing where the first is missing or no object identifier.
    pub fn finish(&self) -> (r: Option<PassReply>)
        ensures
            opt_reply(r) == ({
                let ls = strings(self.lines@);
                if ls.len() == 0 {
                    None
                } else {
                    match parse_oid(ls[0]) {
                        Some(oid) => Some(
                            ReplyView { oid, type_token: nth_text(ls, 1), value: nth_text(ls, 2) },
                        ),
                        None => None,
                    }
                }
            }),
    {
        let ghost ls = strings(self.lines@);
        if self.lines.len() == 0 {
            return None;
        }
        let oid = match Oid::parse(self.lines[0].as_str()) {
            Ok(o) => o,
            Err(_) => {
                return None;
            },
        };
        let type_token = self.nth(1);
        let value = self.nth(2);
        Some(PassReply { oid, type_token, value })
    }

    fn nth(&self, i: usize) -> (r: String)
        ensures
            r@ == nth_text(strings(self.lines@), i as int),
    {
        if i < self.lines.len() {
            self.lines[i].clone()
        } else {
            let s = String::new();
            assert(s@ =~= Seq::<char>::empty());
            s
        }
    }
}

/// The subtree and the command of a `pass` line without its keyword.
pub open spec fn pass_directive(line: Seq<char>) -> Option<(Seq<u32>, Seq<char>)> {
    let w = words(line);
    if w.len() < 2 {
        None
    } else {
        match parse_oid(w[0]) {
            Some(o) => Some((o, w[1])),
            None => None,
        }
    }
}

/// Read `OID CMD`, the arguments of a `pass` or `pass_persist` line.
pub fn parse_pass_directive(line: &str) -> (r: Option<(Oid, String)>)
    ensures
        (match r {
            Some((o, c)) => Some((o@, c@)),
            None => None,
        }) == pass_directive(line@),
{
    let v = chars_of(line);
    let w = split_words(v.as_slice());
    let ghost all = texts(w@);
    if w.len() < 2 {
        return None;
    }
    assert(all[0] == w@[0]@);
    assert(all[1] == w@[1]@);
    match Oid::parse_chars(w[0].as_slice()) {
        Ok(o) => Some((o, string_of(w[1].as_slice()))),
        Err(_) => None,
    }
}

} // verus!
