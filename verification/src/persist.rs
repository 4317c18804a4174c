//! Keeping writable state over a restart: state is written as configuration directives, one
//! per line, and read back at startup.

use vstd::prelude::*;

use crate::any_handler::AnyHandler;
use crate::any_handler::AnyState;
use crate::config::directives;
use crate::config::parse_str;
use crate::config::parse_text;
use crate::config::Directive;
use crate::config::DirectiveView;
use crate::handler::unknown;
use crate::handler::MibHandler;
use crate::inet::ipv4_of;
use crate::inet::ipv4_text;
use crate::inet::ipv4_to_string;
use crate::inet::parse_ipv4;
use crate::oid::oid_text;
use crate::oid::parse_oid;
use crate::oid::Oid;
use crate::proxy::is_exception;
use crate::registry::read;
use crate::registry::Registry;
use crate::scalar::ScalarHandler;
use crate::scalar::ScalarState;
use crate::served::served_at;
use crate::served::with_value;
use crate::served::ServedScalar;
use crate::text::chars_of;
use crate::text::decimal;
use crate::text::hex_encode;
use crate::text::hex_pairs;
use crate::text::hex_text;
use crate::text::is_space;
use crate::text::parse_hex_pairs;
use crate::text::parse_i64;
use crate::text::parse_unsigned;
use crate::text::push_decimal;
use crate::text::push_signed;
use crate::text::signed_decimal;
use crate::text::signed_value;
use crate::text::space;
use crate::text::str_eq;
use crate::text::strings;
use crate::text::trim;
use crate::text::trimmed;
use crate::text::unsigned_value;
use crate::text::utf8_text;
use crate::value::bytes_of;
use crate::value::utf8;
use crate::value::Value;
use crate::value::ValueView;

verus! {

/// The name of the file in the persistent directory.
pub const PERSIST_FILE: &'static str = "snmpd.persist";

/// The control characters.
pub open spec fn is_control(c: char) -> bool {
    c <= '\u{1f}' || '\u{7f}' <= c <= '\u{9f}'
}

/// Whether a text holds no control character.
pub open spec fn is_printable(s: Seq<char>) -> bool {
    forall|i: int| 0 <= i < s.len() ==> !is_control(#[trigger] s[i])
}

fn printable(s: &str) -> (r: bool)
    ensures
        r == is_printable(s@),
{
    let v = chars_of(s);
    let mut i: usize = 0;
    while i < v.len()
        invariant
            i <= v@.len(),
            v@ == s@,
            forall|k: int| 0 <= k < i ==> !is_control(#[trigger] s@[k]),
        decreases v@.len() - i,
    {
        let c: char = v[i];
        if c <= '\u{1f}' || ('\u{7f}' <= c && c <= '\u{9f}') {
            assert(is_control(s@[i as int]));
            return false;
        }
        i += 1;
    }
    true
}

/// The tag and the text that a value is stored as. Octets that are printable text are stored
/// as such, others in hexadecimal, and so are opaque octets under a tag of their own. Exceptions
/// are stored as NULL.
pub open spec fn value_pair(v: ValueView) -> (Seq<char>, Seq<char>) {
    match v {
        ValueView::OctetString(b) => if vstd::utf8::valid_utf8(b) && is_printable(
            vstd::utf8::decode_utf8(b),
        ) {
            ("s"@, vstd::utf8::decode_utf8(b))
        } else {
            ("x"@, hex_text(b))
        },
        ValueView::Integer(n) => ("i"@, signed_decimal(n as int)),
        ValueView::Counter32(n) => ("c"@, decimal(n as nat)),
        ValueView::Gauge32(n) => ("u"@, decimal(n as nat)),
        ValueView::TimeTicks(n) => ("t"@, decimal(n as nat)),
        ValueView::Counter64(n) => ("6"@, decimal(n as nat)),
        ValueView::Oid(o) => ("o"@, oid_text(o)),
        ValueView::IpAddress(ip) => ("a"@, ipv4_text(ip)),
        ValueView::Opaque(b) => ("p"@, hex_text(b)),
        _ => ("n"@, seq![]),
    }
}

fn decimal_string(n: u64) -> (r: String)
    ensures
        r@ == decimal(n as nat),
{
    let mut s = String::new();
    push_decimal(&mut s, n);
    assert(s@ =~= decimal(n as nat));
    s
}

/// The tag and the text that a value is stored as.
pub fn encode_value(value: &Value) -> (r: (&'static str, String))
    ensures
        (r.0@, r.1@) == value_pair(value@),
{
    match value {
        Value::OctetString(b) => {
            match utf8_text(b.as_slice()) {
                Some(s) => {
                    if printable(s.as_str()) {
                        return ("s", s);
                    }
                },
                None => {},
            }
            ("x", hex_encode(b.as_slice()))
        },
        Value::Integer(n) => {
            let mut s = String::new();
            push_signed(&mut s, *n);
            assert(s@ =~= signed_decimal(*n as int));
            ("i", s)
        },
        Value::Counter32(n) => ("c", decimal_string(*n as u64)),
        Value::Gauge32(n) => ("u", decimal_string(*n as u64)),
        Value::TimeTicks(n) => ("t", decimal_string(*n as u64)),
        Value::Counter64(n) => ("6", decimal_string(*n)),
        Value::Oid(o) => ("o", o.to_string()),
        Value::IpAddress(ip) => ("a", ipv4_to_string(ip)),
        Value::Opaque(b) => ("p", hex_encode(b.as_slice())),
        _ => {
            let s = String::new();
            assert(s@ =~= seq![]);
            ("n", s)
        },
    }
}

/// `s` without its blanks.
pub open spec fn without_blanks(s: Seq<char>) -> Seq<char>
    decreases s.len(),
{
    if s.len() == 0 {
        seq![]
    } else if s.last() == ' ' {
        without_blanks(s.drop_last())
    } else {
        without_blanks(s.drop_last()).push(s.last())
    }
}

/// The value that a tag and a text stand for.
pub open spec fn pair_value(tag: Seq<char>, payload: Seq<char>) -> Option<ValueView> {
    if tag == "s"@ {
        Some(ValueView::OctetString(utf8(payload)))
    } else if tag == "x"@ {
        match hex_pairs(without_blanks(payload)) {
            Some(b) => Some(ValueView::OctetString(b)),
            None => None,
        }
    } else if tag == "p"@ {
        match hex_pairs(without_blanks(payload)) {
            Some(b) => Some(ValueView::Opaque(b)),
            None => None,
        }
    } else if tag == "i"@ {
        match signed_value(payload, i64::MIN as int, i64::MAX as int) {
            Some(n) => Some(ValueView::Integer(n as i64)),
            None => None,
        }
    } else if tag == "c"@ {
        match unsigned_value(payload, 10, u32::MAX as nat) {
            Some(n) => Some(ValueView::Counter32(n as u32)),
            None => None,
        }
    } else if tag == "u"@ {
        match unsigned_value(payload, 10, u32::MAX as nat) {
            Some(n) => Some(ValueView::Gauge32(n as u32)),
            None => None,
        }
    } else if tag == "t"@ {
        match unsigned_value(payload, 10, u32::MAX as nat) {
            Some(n) => Some(ValueView::TimeTicks(n as u32)),
            None => None,
        }
    } else if tag == "6"@ {
        match unsigned_value(payload, 10, u64::MAX as nat) {
            Some(n) => Some(ValueView::Counter64(n as u64)),
            None => None,
        }
    } else if tag == "o"@ && payload.len() == 0 {
        Some(ValueView::Oid(seq![]))
    } else if tag == "o"@ {
        match parse_oid(payload) {
            Some(o) => Some(ValueView::Oid(o)),
            None => None,
        }
    } else if tag == "a"@ {
        match ipv4_of(payload) {
            Some(ip) => Some(ValueView::IpAddress(ip)),
            None => None,
        }
    } else if tag == "n"@ {
        Some(ValueView::Null)
    } else {
        None
    }
}

fn drop_blanks(s: &[char]) -> (r: Vec<char>)
    ensures
        r@ == without_blanks(s@),
{
    let mut out: Vec<char> = Vec::new();
    let mut i: usize = 0;
    assert(s@.take(0) =~= seq![]);
    while i < s.len()
        invariant
            i <= s@.len(),
            out@ == without_blanks(s@.take(i as int)),
        decreases s@.len() - i,
    {
        assert(s@.take(i + 1).drop_last() =~= s@.take(i as int));
        if s[i] != ' ' {
            out.push(s[i]);
        }
        i += 1;
    }
    assert(s@.take(i as int) =~= s@);
    out
}

/// The value that a tag and a text stand for; `None` for an unknown tag or a malformed text.
pub fn decode_value(type_tag: &str, payload: &str) -> (r: Option<Value>)
    ensures
        r is Some <==> pair_value(type_tag@, payload@) is Some,
        r matches Some(v) ==> pair_value(type_tag@, payload@) == Some(v@),
{
    let p = chars_of(payload);
    if str_eq(type_tag, "s") {
        Some(Value::OctetString(bytes_of(payload)))
    } else if str_eq(type_tag, "x") {
        match parse_hex_pairs(drop_blanks(p.as_slice()).as_slice()) {
            Some(b) => Some(Value::OctetString(b)),
            None => None,
        }
    } else if str_eq(type_tag, "p") {
        match parse_hex_pairs(drop_blanks(p.as_slice()).as_slice()) {
            Some(b) => Some(Value::Opaque(b)),
            None => None,
        }
    } else if str_eq(type_tag, "i") {
        match parse_i64(p.as_slice()) {
            Some(n) => Some(Value::Integer(n)),
            None => None,
        }
    } else if str_eq(type_tag, "c") {
        match parse_unsigned(p.as_slice(), 10, u32::MAX as u64) {
            Some(n) => Some(Value::Counter32(n as u32)),
            None => None,
        }
    } else if str_eq(type_tag, "u") {
        match parse_unsigned(p.as_slice(), 10, u32::MAX as u64) {
            Some(n) => Some(Value::Gauge32(n as u32)),
            None => None,
        }
    } else if str_eq(type_tag, "t") {
        match parse_unsigned(p.as_slice(), 10, u32::MAX as u64) {
            Some(n) => Some(Value::TimeTicks(n as u32)),
            None => None,
        }
    } else if str_eq(type_tag, "6") {
        match parse_unsigned(p.as_slice(), 10, u64::MAX) {
            Some(n) => Some(Value::Counter64(n)),
            None => None,
        }
    } else if str_eq(type_tag, "o") && p.len() == 0 {
        let none: Vec<u32> = Vec::new();
        assert(none@ =~= Seq::<u32>::empty());
        Some(Value::Oid(Oid::new(none)))
    } else if str_eq(type_tag, "o") {
        match Oid::parse(payload) {
            Ok(o) => Some(Value::Oid(o)),
            Err(_) => None,
        }
    } else if str_eq(type_tag, "a") {
        match parse_ipv4(p.as_slice()) {
            Some(ip) => Some(Value::IpAddress(ip)),
            None => None,
        }
    } else if str_eq(type_tag, "n") {
        Some(Value::Null)
    } else {
        None
    }
}

/// Whether a word must be quoted to be read back.
pub open spec fn needs_quote(s: Seq<char>) -> bool {
    s.len() == 0 || exists|i: int| 0 <= i < s.len() && #[trigger] is_special(s[i])
}

/// The characters that keep a word from standing bare.
pub open spec fn is_special(c: char) -> bool {
    is_space(c) || c == '"' || c == '\'' || c == '\\'
}

/// `s` with a backslash before each quote, backslash and line feed.
pub open spec fn escaped(s: Seq<char>) -> Seq<char>
    decreases s.len(),
{
    if s.len() == 0 {
        seq![]
    } else if s[0] == '"' || s[0] == '\\' || s[0] == '\n' {
        seq!['\\', s[0]] + escaped(s.drop_first())
    } else {
        seq![s[0]] + escaped(s.drop_first())
    }
}

/// A word as it is written: bare if it can be, else in quotes.
pub open spec fn quote(s: Seq<char>) -> Seq<char> {
    if needs_quote(s) {
        seq!['"'] + escaped(s) + seq!['"']
    } else {
        s
    }
}

fn must_quote(s: &[char]) -> (r: bool)
    ensures
        r == needs_quote(s@),
{
    if s.len() == 0 {
        return true;
    }
    let mut i: usize = 0;
    while i < s.len()
        invariant
            i <= s@.len(),
            forall|k: int| 0 <= k < i ==> !is_special(#[trigger] s@[k]),
        decreases s@.len() - i,
    {
        let c: char = s[i];
        if space(c) || c == '"' || c == '\'' || c == '\\' {
            assert(is_special(s@[i as int]));
            return true;
        }
        i += 1;
    }
    false
}

/// A word as it is written: bare if it can be, else in quotes.
pub fn quote_word(s: &str) -> (r: String)
    ensures
        r@ == quote(s@),
{
    let v = chars_of(s);
    if !must_quote(v.as_slice()) {
        return s.to_owned();
    }
    let mut out = String::new();
    out.push('"');
    let mut i: usize = 0;
    assert(v@.skip(0) =~= s@);
    assert(out@ + escaped(s@) =~= seq!['"'] + escaped(s@));
    while i < v.len()
        invariant
            i <= v@.len(),
            v@ == s@,
            out@ + escaped(v@.skip(i as int)) == seq!['"'] + escaped(s@),
        decreases v@.len() - i,
    {
        let ghost rest = v@.skip(i as int);
        let ghost before = out@;
        assert(rest.drop_first() =~= v@.skip(i + 1));
        let c: char = v[i];
        if c == '"' || c == '\\' || c == '\n' {
            out.push('\\');
            out.push(c);
            assert(out@ + escaped(rest.drop_first()) =~= before + (seq!['\\', c] + escaped(
                rest.drop_first(),
            )));
        } else {
            out.push(c);
            assert(out@ + escaped(rest.drop_first()) =~= before + (seq![c] + escaped(
                rest.drop_first(),
            )));
        }
        i += 1;
    }
    assert(v@.skip(i as int) =~= seq![]);
    assert(out@ =~= seq!['"'] + escaped(s@));
    out.push('"');
    assert(out@ =~= quote(s@));
    out
}

/// Arguments as they are written, each after a blank.
pub open spec fn args_text(args: Seq<Seq<char>>) -> Seq<char>
    decreases args.len(),
{
    if args.len() == 0 {
        seq![]
    } else {
        seq![' '] + quote(args[0]) + args_text(args.drop_first())
    }
}

/// A directive as it is written.
pub open spec fn line_text(d: DirectiveView) -> Seq<char> {
    d.token + args_text(d.args)
}

/// A directive as a line, without the line feed.
pub fn serialize_directive(dir: &Directive) -> (r: String)
    ensures
        r@ == line_text(dir@),
{
    let mut out = dir.token.clone();
    let ghost args = strings(dir.args@);
    let mut i: usize = 0;
    assert(args.skip(0) =~= args);
    while i < dir.args.len()
        invariant
            i <= dir.args@.len(),
            args == strings(dir.args@),
            out@ + args_text(args.skip(i as int)) == dir.token@ + args_text(args),
        decreases dir.args@.len() - i,
    {
        let ghost before = out@;
        let ghost rest = args.skip(i as int);
        assert(rest[0] == dir.args@[i as int]@);
        assert(rest.drop_first() =~= args.skip(i + 1));
        out.push(' ');
        let q = quote_word(dir.args[i].as_str());
        out.append(q.as_str());
        assert(out@ + args_text(rest.drop_first()) =~= before + (seq![' '] + quote(rest[0])
            + args_text(rest.drop_first())));
        i += 1;
    }
    assert(args.skip(i as int) =~= seq![]);
    assert(out@ + Seq::<char>::empty() =~= out@);
    out
}

/// Several directives as lines.
pub open spec fn lines_text(ds: Seq<DirectiveView>) -> Seq<char>
    decreases ds.len(),
{
    if ds.len() == 0 {
        seq![]
    } else {
        line_text(ds[0]) + seq!['\n'] + lines_text(ds.drop_first())
    }
}

/// A copy of a directive.
pub fn copy_directive(d: &Directive) -> (r: Directive)
    ensures
        r@ == d@,
{
    let mut args: Vec<String> = Vec::new();
    let mut i: usize = 0;
    while i < d.args.len()
        invariant
            i <= d.args@.len(),
            strings(args@) == strings(d.args@.take(i as int)),
        decreases d.args@.len() - i,
    {
        let ghost before = args@;
        args.push(d.args[i].clone());
        proof {
            assert(strings(args@) =~= strings(before).push(d.args@[i as int]@));
            assert(strings(d.args@.take(i + 1)) =~= strings(d.args@.take(i as int)).push(
                d.args@[i as int]@,
            ));
        }
        i += 1;
    }
    assert(d.args@.take(i as int) =~= d.args@);
    let section = match &d.section {
        Some(x) => Some(x.clone()),
        None => None,
    };
    let source = match &d.source {
        Some(x) => Some(x.clone()),
        None => None,
    };
    Directive {
        token: d.token.clone(),
        args,
        rest: d.rest.clone(),
        section,
        source,
        line_no: d.line_no,
    }
}

/// State that is kept over a restart. `kept` is what matters of an item.
///
/// An item that is written in ordinary Rust leaves the functions on states out, so that nothing is
/// known of them, and must guarantee by itself that they exist: its `Kept` is rich enough to tell
/// apart what gives different directives, its key never changes, its directives depend on its
/// state alone, and its state after a replay on its state before and the directives alone.
pub trait Persistable: Sized {
    /// What is kept.
    type Kept;

    /// The current state.
    open spec fn kept(&self) -> Self::Kept {
        unknown(0, *self)
    }

    /// The token of the directives that belong to the item.
    open spec fn key_of(s: Self::Kept) -> Seq<char> {
        unknown(1, s)
    }

    /// The state as directives.
    open spec fn snapshot_of(s: Self::Kept) -> Seq<DirectiveView> {
        unknown(2, s)
    }

    /// The state after directives have been replayed.
    open spec fn restored(s: Self::Kept, dirs: Seq<DirectiveView>) -> Self::Kept {
        unknown(3, (s, dirs))
    }

    /// The token of the directives that belong to the item.
    fn key(&self) -> (r: &str)
        ensures
            r@ == Self::key_of(self.kept()),
    ;

    /// The state as directives.
    fn snapshot(&self) -> (r: Vec<Directive>)
        ensures
            directives(r@) == Self::snapshot_of(self.kept()),
    ;

    /// Replay directives.
    fn restore(&mut self, dirs: &[Directive])
        ensures
            final(self).kept() == Self::restored(old(self).kept(), directives(dirs@)),
            Self::key_of(final(self).kept()) == Self::key_of(old(self).kept()),
    ;
}

/// The items that are kept, and the directory of their file.
#[derive(Debug)]
pub struct Persistence<P: Persistable> {
    dir: String,
    items: Vec<P>,
}

/// `items` with `item` in place of the first that has its key, or behind them.
pub open spec fn put_item<P: Persistable>(items: Seq<P::Kept>, item: P::Kept) -> Seq<P::Kept>
    decreases items.len(),
{
    if items.len() == 0 {
        seq![item]
    } else if P::key_of(items[0]) == P::key_of(item) {
        items.update(0, item)
    } else {
        seq![items[0]] + put_item::<P>(items.drop_first(), item)
    }
}

/// The directives of all items.
pub open spec fn all_directives<P: Persistable>(items: Seq<P::Kept>) -> Seq<DirectiveView>
    decreases items.len(),
{
    if items.len() == 0 {
        seq![]
    } else {
        P::snapshot_of(items[0]) + all_directives::<P>(items.drop_first())
    }
}

/// An item after its own directives have been replayed; without any it stays as it is.
pub open spec fn replayed<P: Persistable>(s: P::Kept, ds: Seq<DirectiveView>) -> P::Kept {
    let own = ds.filter(|d: DirectiveView| d.token == P::key_of(s));
    if own.len() == 0 {
        s
    } else {
        P::restored(s, own)
    }
}

impl<P: Persistable> Persistence<P> {
    /// The states of the items.
    pub closed spec fn states(self) -> Seq<P::Kept> {
        self.items@.map_values(|p: P| p.kept())
    }

    /// The directory.
    pub closed spec fn directory(self) -> Seq<char> {
        self.dir@
    }

    /// No items, in the directory `dir`.
    pub fn new(dir: &str) -> (r: Persistence<P>)
        ensures
            r.states() == Seq::<P::Kept>::empty(),
            r.directory() == dir@,
    {
        let items: Vec<P> = Vec::new();
        assert(items@.map_values(|p: P| p.kept()) =~= Seq::<P::Kept>::empty());
        Persistence { dir: dir.to_owned(), items }
    }

    /// Add an item, in place of one with the same key if there is one.
    pub fn register(&mut self, item: P)
        ensures
            final(self).states() == put_item::<P>(old(self).states(), item.kept()),
            final(self).directory() == old(self).directory(),
    {
        let ghost all = self.states();
        let ghost kept = item.kept();
        let mut i: usize = 0;
        assert(all.skip(0) =~= all);
        assert(all.take(0) + put_item::<P>(all, kept) =~= put_item::<P>(all, kept));
        while i < self.items.len()
            invariant
                i <= self.items@.len(),
                all == self.states(),
                kept == item.kept(),
                all == old(self).states(),
                self.directory() == old(self).directory(),
                put_item::<P>(all, kept) == all.take(i as int) + put_item::<P>(
                    all.skip(i as int),
                    kept,
                ),
            decreases self.items@.len() - i,
        {
            let ghost rest = all.skip(i as int);
            assert(rest[0] == self.items@[i as int].kept());
            assert(rest.drop_first() =~= all.skip(i + 1));
            if str_eq(self.items[i].key(), item.key()) {
                proof {
                    assert(all.take(i as int) + rest.update(0, kept) =~= all.update(
                        i as int,
                        kept,
                    ));
                }
                self.items.set(i, item);
                assert(self.states() =~= all.update(i as int, kept));
                return;
            }
            proof {
                let tail = put_item::<P>(all.skip(i + 1), kept);
                assert(all.take(i as int) + (seq![rest[0]] + tail) =~= all.take(i + 1) + tail);
            }
            i += 1;
        }
        proof {
            assert(all.skip(i as int) =~= seq![]);
            assert(all.take(i as int) =~= all);
            assert(all + seq![kept] =~= all.push(kept));
        }
        self.items.push(item);
        assert(self.states() =~= all.push(kept));
    }

    /// The directory.
    pub fn dir(&self) -> (r: &str)
        ensures
            r@ == self.directory(),
    {
        self.dir.as_str()
    }

    /// The items.
    pub fn items(&self) -> (r: &Vec<P>)
        ensures
            r@.map_values(|p: P| p.kept()) == self.states(),
    {
        &self.items
    }

    /// The text of the file that keeps the items: one directive per line.
    pub fn save(&self) -> (r: String)
        ensures
            r@ == lines_text(all_directives::<P>(self.states())),
    {
        let ghost all = self.states();
        let mut text = String::new();
        let mut i: usize = 0;
        assert(all.skip(0) =~= all);
        assert(text@ + lines_text(all_directives::<P>(all)) =~= lines_text(
            all_directives::<P>(all),
        ));
        while i < self.items.len()
            invariant
                i <= self.items@.len(),
                all == self.states(),
                text@ + lines_text(all_directives::<P>(all.skip(i as int))) == lines_text(
                    all_directives::<P>(all),
                ),
            decreases self.items@.len() - i,
        {
            let ghost rest = all.skip(i as int);
            assert(rest[0] == self.items@[i as int].kept());
            assert(rest.drop_first() =~= all.skip(i + 1));
            let dirs = self.items[i].snapshot();
            let ghost ds = directives(dirs@);
            let ghost after = all_directives::<P>(all.skip(i + 1));
            let mut j: usize = 0;
            assert(ds.skip(0) =~= ds);
            while j < dirs.len()
                invariant
                    j <= dirs@.len(),
                    ds == directives(dirs@),
                    text@ + lines_text(ds.skip(j as int) + after) == lines_text(
                        all_directives::<P>(all),
                    ),
                decreases dirs@.len() - j,
            {
                let ghost before = text@;
                let ghost tail = ds.skip(j as int) + after;
                let line = serialize_directive(&dirs[j]);
                text.append(line.as_str());
                text.push('\n');
                proof {
                    assert(tail[0] == dirs@[j as int]@);
                    assert(tail.drop_first() =~= ds.skip(j + 1) + after);
                    assert(text@ + lines_text(tail.drop_first()) =~= before + (line@ + seq!['\n']
                        + lines_text(tail.drop_first())));
                }
                j += 1;
            }
            assert(ds.skip(j as int) + after =~= after);
            i += 1;
        }
        assert(all.skip(i as int) =~= seq![]);
        assert(text@ + Seq::<char>::empty() =~= text@);
        text
    }

    /// Replay the text of a file into the items, each directive into the item with its token.
    pub fn load(&mut self, content: &str)
        ensures
            final(self).states() == old(self).states().map_values(
                |s: P::Kept| replayed::<P>(s, parse_text(content@)),
            ),
            final(self).directory() == old(self).directory(),
    {
        let dirs = parse_str(content);
        let ghost ds = directives(dirs@);
        let ghost f = |s: P::Kept| replayed::<P>(s, ds);
        let ghost all = self.states();
        let mut i: usize = 0;
        while i < self.items.len()
            invariant
                i <= self.items@.len() == all.len(),
                ds == directives(dirs@),
                ds == parse_text(content@),
                all == old(self).states(),
                f == (|s: P::Kept| replayed::<P>(s, ds)),
                self.directory() == old(self).directory(),
                forall|k: int| 0 <= k < i ==> self.states()[k] == f(#[trigger] all[k]),
                forall|k: int| i <= k < all.len() ==> self.states()[k] == #[trigger] all[k],
            decreases self.items@.len() - i,
        {
            assert(all[i as int] == self.states()[i as int]);
            assert(self.states()[i as int] == self.items@[i as int].kept());
            let owned = select_directives(dirs.as_slice(), self.items[i].key());
            let ghost before = self.items@;
            if owned.len() > 0 {
                self.items[i].restore(owned.as_slice());
            }
            proof {
                let pred = |d: DirectiveView| d.token == P::key_of(all[i as int]);
                assert(directives(owned@) == ds.filter(pred));
                assert forall|k: int| 0 <= k < all.len() && k != i implies self.states()[k]
                    == before[k].kept() by {
                    assert(self.items@[k] == before[k]);
                }
            }
            i += 1;
        }
        assert(self.states() =~= all.map_values(f));
        assert(all.map_values(f) =~= all.map_values(
            |s: P::Kept| replayed::<P>(s, parse_text(content@)),
        ));
    }
}

/// The directives with the given token, in order.
fn select_directives(dirs: &[Directive], key: &str) -> (r: Vec<Directive>)
    ensures
        directives(r@) == directives(dirs@).filter(|d: DirectiveView| d.token == key@),
        directives(r@).len() == r@.len(),
{
    let ghost pred = |d: DirectiveView| d.token == key@;
    let ghost ds = directives(dirs@);
    let mut out: Vec<Directive> = Vec::new();
    let mut i: usize = 0;
    proof {
        reveal(Seq::filter);
        assert(ds.take(0) =~= seq![]);
        assert(directives(out@) =~= ds.take(0).filter(pred));
    }
    while i < dirs.len()
        invariant
            i <= dirs@.len(),
            ds == directives(dirs@),
            pred == (|d: DirectiveView| d.token == key@),
            directives(out@) == ds.take(i as int).filter(pred),
        decreases dirs@.len() - i,
    {
        let ghost before = out@;
        assert(ds[i as int] == dirs@[i as int]@);
        if str_eq(dirs[i].token.as_str(), key) {
            out.push(copy_directive(&dirs[i]));
        }
        proof {
            reveal(Seq::filter);
            let t = ds.take(i + 1);
            assert(t.drop_last() =~= ds.take(i as int));
            if pred(ds[i as int]) {
                assert(directives(out@) =~= directives(before).push(ds[i as int]));
            }
        }
        i += 1;
    }
    assert(ds.take(i as int) =~= ds);
    out
}

/// The persistent directory: the one that the environment names, unless it is empty.
pub fn default_persistent_dir(from_env: Option<&str>) -> (r: String)
    ensures
        r@ == match from_env {
            Some(s) => if s@.len() > 0 {
                s@
            } else {
                "/var/lib/snmp"@
            },
            None => "/var/lib/snmp"@,
        },
{
    match from_env {
        Some(s) => {
            if !s.is_empty() {
                return s.to_owned();
            }
        },
        None => {},
    }
    "/var/lib/snmp".to_owned()
}

/// Keeps the value of a scalar under a key.
#[derive(Debug)]
pub struct ScalarPersistable {
    key: String,
    handler: ScalarHandler,
}

/// The state of a [`ScalarPersistable`].
#[verifier::ext_equal]
pub struct ScalarKept {
    pub key: Seq<char>,
    pub scalar: ScalarState,
}

impl ScalarPersistable {
    /// Keep the value of `handler` under `key`.
    pub fn new(key: &str, handler: ScalarHandler) -> (r: ScalarPersistable)
        ensures
            r.kept() == (ScalarKept { key: key@, scalar: handler.state() }),
    {
        ScalarPersistable { key: key.to_owned(), handler }
    }

    /// Keep the value of a scalar that a registry serves under `key`, beginning with the value that
    /// is served; nothing if it is not served.
    pub fn of_served<P: MibHandler>(
        key: &str,
        scalar: &ServedScalar,
        registry: &Registry<AnyHandler<P>>,
    ) -> (r: Option<ScalarPersistable>)
        ensures
            match served_at(registry.states(), scalar@) {
                Some(i) => r is Some && r->0.kept().key == key@ && registry.states()[i]
                    == AnyState::<P>::Scalar(r->0.kept().scalar),
                None => r is None,
            },
    {
        match scalar.handler(registry) {
            Some(h) => {
                let copy = ScalarHandler::new(h.root().clone(), h.get_value());
                let copy = if h.is_writable() {
                    copy.writable()
                } else {
                    copy
                };
                Some(ScalarPersistable::new(key, copy))
            },
            None => None,
        }
    }

    /// The scalar.
    pub fn handler(&self) -> (r: &ScalarHandler)
        ensures
            r.state() == self.kept().scalar,
    {
        &self.handler
    }

    /// The scalar, for whoever changes its value.
    pub fn handler_mut(&mut self) -> (r: &mut ScalarHandler)
        ensures
            r.state() == old(self).kept().scalar,
            final(self).kept() == (ScalarKept { scalar: final(r).state(), ..old(self).kept() }),
    {
        &mut self.handler
    }
}

/// The value after one directive: `<type> <value>`, or `<value>` alone for text. A directive
/// that does not decode is passed over.
pub open spec fn scalar_after(v: ValueView, d: DirectiveView) -> ValueView {
    if d.args.len() == 0 {
        v
    } else {
        let decoded = if d.args.len() == 1 {
            pair_value("s"@, d.args[0])
        } else {
            pair_value(d.args[0], d.args[1])
        };
        match decoded {
            Some(x) => x,
            None => v,
        }
    }
}

/// The value after several directives.
pub open spec fn scalar_replayed(v: ValueView, ds: Seq<DirectiveView>) -> ValueView
    decreases ds.len(),
{
    if ds.len() == 0 {
        v
    } else {
        scalar_after(scalar_replayed(v, ds.drop_last()), ds.last())
    }
}

/// The directive that keeps a value.
pub open spec fn scalar_directive(key: Seq<char>, v: ValueView) -> DirectiveView {
    let p = value_pair(v);
    DirectiveView {
        token: key,
        args: seq![p.0, p.1],
        rest: p.0 + seq![' '] + p.1,
        section: None,
        source: None,
        line_no: 0,
    }
}

impl Persistable for ScalarPersistable {
    type Kept = ScalarKept;

    closed spec fn kept(&self) -> ScalarKept {
        ScalarKept { key: self.key@, scalar: self.handler.state() }
    }

    open spec fn key_of(s: ScalarKept) -> Seq<char> {
        s.key
    }

    open spec fn snapshot_of(s: ScalarKept) -> Seq<DirectiveView> {
        seq![scalar_directive(s.key, s.scalar.value)]
    }

    open spec fn restored(s: ScalarKept, dirs: Seq<DirectiveView>) -> ScalarKept {
        ScalarKept {
            scalar: ScalarState { value: scalar_replayed(s.scalar.value, dirs), ..s.scalar },
            ..s
        }
    }

    fn key(&self) -> (r: &str) {
        self.key.as_str()
    }

    fn snapshot(&self) -> (r: Vec<Directive>) {
        let value = self.handler.get_value();
        let (tag, encoded) = encode_value(&value);
        let mut rest = tag.to_owned();
        rest.push(' ');
        rest.append(encoded.as_str());
        let mut args: Vec<String> = Vec::new();
        args.push(tag.to_owned());
        args.push(encoded);
        let d = Directive {
            token: self.key.clone(),
            args,
            rest,
            section: None,
            source: None,
            line_no: 0,
        };
        proof {
            let p = value_pair(value@);
            assert(strings(args@) =~= seq![p.0, p.1]);
            assert(rest@ =~= p.0 + seq![' '] + p.1);
        }
        let mut out: Vec<Directive> = Vec::new();
        let ghost dv = d@;
        out.push(d);
        assert(directives(out@) =~= seq![dv]);
        out
    }

    fn restore(&mut self, dirs: &[Directive]) {
        let ghost ds = directives(dirs@);
        let ghost start = self.handler.state();
        let mut i: usize = 0;
        assert(ds.take(0) =~= seq![]);
        while i < dirs.len()
            invariant
                i <= dirs@.len(),
                ds == directives(dirs@),
                self.key == old(self).key,
                start == old(self).handler.state(),
                self.handler.state() == (ScalarState {
                    value: scalar_replayed(start.value, ds.take(i as int)),
                    ..start
                }),
            decreases dirs@.len() - i,
        {
            let d = &dirs[i];
            proof {
                let t = ds.take(i + 1);
                assert(t.drop_last() =~= ds.take(i as int));
                assert(t.last() == d@);
                assert(d@.args.len() == d.args@.len());
            }
            let n: usize = d.args.len();
            if n > 0 {
                let decoded = if n == 1 {
                    decode_value("s", d.args[0].as_str())
                } else {
                    decode_value(d.args[0].as_str(), d.args[1].as_str())
                };
                match decoded {
                    Some(v) => {
                        self.handler.set_value(v);
                    },
                    None => {},
                }
            }
            i += 1;
        }
        assert(ds.take(i as int) =~= ds);
    }
}

/// Keeps the number of times that an engine has booted.
#[derive(Debug)]
pub struct EngineBootsPersistable {
    boots: u32,
    engine_id: Vec<u8>,
}

/// The state of an [`EngineBootsPersistable`].
#[verifier::ext_equal]
pub struct BootsKept {
    pub boots: u32,
    pub engine_id: Seq<u8>,
}

/// The number that a boots file holds.
pub open spec fn boots_of(content: Seq<char>) -> Option<u32> {
    match unsigned_value(trim(content), 10, u32::MAX as nat) {
        Some(n) => Some(n as u32),
        None => None,
    }
}

/// `n + 1`, unless that is too great.
pub open spec fn bumped(n: u32) -> u32 {
    if n == u32::MAX {
        n
    } else {
        (n + 1) as u32
    }
}

/// The name of a file in a directory.
pub open spec fn join_path(dir: Seq<char>, name: Seq<char>) -> Seq<char> {
    if dir.len() == 0 {
        name
    } else if dir.last() == '/' {
        dir + name
    } else {
        dir + seq!['/'] + name
    }
}

/// The file that keeps the boots of an engine: its id in hexadecimal, with `.boots`.
pub open spec fn boots_path(dir: Seq<char>, engine_id: Seq<u8>) -> Seq<char> {
    join_path(dir, hex_text(engine_id) + ".boots"@)
}

/// The file that keeps the boots of an engine: its id in hexadecimal, with `.boots`.
pub fn engine_boots_file(dir: &str, engine_id: &[u8]) -> (r: String)
    ensures
        r@ == boots_path(dir@, engine_id@),
{
    let mut name = hex_encode(engine_id);
    name.append(".boots");
    let d = chars_of(dir);
    if d.len() == 0 {
        return name;
    }
    let mut out = dir.to_owned();
    if d[d.len() - 1] != '/' {
        out.push('/');
    }
    out.append(name.as_str());
    assert(out@ =~= boots_path(dir@, engine_id@));
    out
}

/// The boots that the content of a file gives; `None` if there was no file or it holds no
/// number.
pub fn load_engine_boots(content: Option<&str>) -> (r: Option<u32>)
    ensures
        r == match content {
            Some(s) => boots_of(s@),
            None => None::<u32>,
        },
{
    match content {
        Some(s) => {
            let v = chars_of(s);
            match parse_unsigned(trimmed(v.as_slice()).as_slice(), 10, u32::MAX as u64) {
                Some(n) => Some(n as u32),
                None => None,
            }
        },
        None => None,
    }
}

/// The content of the file that keeps `boots`.
pub open spec fn boots_text(boots: u32) -> Seq<char> {
    decimal(boots as nat).push('\n')
}

/// The file that keeps the boots of an engine, and its content.
pub fn save_engine_boots(dir: &str, engine_id: &[u8], boots: u32) -> (r: (String, String))
    ensures
        r.0@ == boots_path(dir@, engine_id@),
        r.1@ == boots_text(boots),
{
    let mut text = decimal_string(boots as u64);
    text.push('\n');
    (engine_boots_file(dir, engine_id), text)
}

impl EngineBootsPersistable {
    /// Keep the boots of the engine `engine_id`.
    pub fn new(engine_id: Vec<u8>, boots: u32) -> (r: EngineBootsPersistable)
        ensures
            r.kept() == (BootsKept { boots, engine_id: engine_id@ }),
    {
        EngineBootsPersistable { boots, engine_id }
    }

    /// The counter, for whoever advances it.
    pub fn handle(&mut self) -> (r: &mut u32)
        ensures
            *r == old(self).kept().boots,
            final(self).kept() == (BootsKept { boots: *final(r), ..old(self).kept() }),
    {
        &mut self.boots
    }

    /// The boots after a clean restart: one more than the file holds, or `fallback` if there is
    /// no readable file.
    pub fn load_and_bump(content: Option<&str>, fallback: u32) -> (r: u32)
        ensures
            r == match content {
                Some(s) => match boots_of(s@) {
                    Some(n) => bumped(n),
                    None => fallback,
                },
                None => fallback,
            },
    {
        match load_engine_boots(content) {
            Some(n) => n.saturating_add(1),
            None => fallback,
        }
    }

    /// Set the counter.
    pub fn set(&mut self, boots: u32)
        ensures
            final(self).kept() == (BootsKept { boots, ..old(self).kept() }),
    {
        self.boots = boots;
    }

    /// The counter.
    pub fn get(&self) -> (r: u32)
        ensures
            r == self.kept().boots,
    {
        self.boots
    }

    /// The file to write, and its content.
    pub fn save_to(&self, dir: &str) -> (r: (String, String))
        ensures
            r.0@ == boots_path(dir@, self.kept().engine_id),
            r.1@ == boots_text(self.kept().boots),
    {
        save_engine_boots(dir, self.engine_id.as_slice(), self.boots)
    }

    /// The engine.
    pub fn engine_id(&self) -> (r: &[u8])
        ensures
            r@ == self.kept().engine_id,
    {
        self.engine_id.as_slice()
    }
}

/// The boots after one directive; one without a number is passed over.
pub open spec fn boots_after(n: u32, d: DirectiveView) -> u32 {
    if d.args.len() > 0 {
        match unsigned_value(d.args[0], 10, u32::MAX as nat) {
            Some(x) => x as u32,
            None => n,
        }
    } else {
        n
    }
}

/// The boots after several directives.
pub open spec fn boots_replayed(n: u32, ds: Seq<DirectiveView>) -> u32
    decreases ds.len(),
{
    if ds.len() == 0 {
        n
    } else {
        boots_after(boots_replayed(n, ds.drop_last()), ds.last())
    }
}

impl Persistable for EngineBootsPersistable {
    type Kept = BootsKept;

    closed spec fn kept(&self) -> BootsKept {
        BootsKept { boots: self.boots, engine_id: self.engine_id@ }
    }

    open spec fn key_of(s: BootsKept) -> Seq<char> {
        "engineBoots"@
    }

    open spec fn snapshot_of(s: BootsKept) -> Seq<DirectiveView> {
        seq![
            DirectiveView {
                token: "engineBoots"@,
                args: seq![decimal(s.boots as nat)],
                rest: decimal(s.boots as nat),
                section: None,
                source: None,
                line_no: 0,
            },
        ]
    }

    open spec fn restored(s: BootsKept, dirs: Seq<DirectiveView>) -> BootsKept {
        BootsKept { boots: boots_replayed(s.boots, dirs), ..s }
    }

    fn key(&self) -> (r: &str) {
        "engineBoots"
    }

    fn snapshot(&self) -> (r: Vec<Directive>) {
        let mut args: Vec<String> = Vec::new();
        args.push(decimal_string(self.boots as u64));
        let ghost av = strings(args@);
        assert(av =~= seq![decimal(self.boots as nat)]);
        let d = Directive {
            token: "engineBoots".to_owned(),
            args,
            rest: decimal_string(self.boots as u64),
            section: None,
            source: None,
            line_no: 0,
        };
        let mut out: Vec<Directive> = Vec::new();
        let ghost dv = d@;
        out.push(d);
        assert(directives(out@) =~= seq![dv]);
        out
    }

    fn restore(&mut self, dirs: &[Directive]) {
        let ghost ds = directives(dirs@);
        let mut i: usize = 0;
        assert(ds.take(0) =~= seq![]);
        while i < dirs.len()
            invariant
                i <= dirs@.len(),
                ds == directives(dirs@),
                self.engine_id == old(self).engine_id,
                self.boots == boots_replayed(old(self).boots, ds.take(i as int)),
            decreases dirs@.len() - i,
        {
            let d = &dirs[i];
            proof {
                let t = ds.take(i + 1);
                assert(t.drop_last() =~= ds.take(i as int));
                assert(t.last() == d@);
                assert(d@.args.len() == d.args@.len());
            }
            match d.arg(0) {
                Some(a) => {
                    let v = chars_of(a.as_str());
                    assert(d@.args[0] == a@);
                    match parse_unsigned(v.as_slice(), 10, u32::MAX as u64) {
                        Some(n) => {
                            self.boots = n as u32;
                        },
                        None => {},
                    }
                },
                None => {},
            }
            i += 1;
        }
        assert(ds.take(i as int) =~= ds);
    }
}

/// An item of an agent: a scalar or the boots of its engine.
#[derive(Debug)]
pub enum KeptItem {
    /// A scalar.
    Scalar(ScalarPersistable),
    /// The boots of an engine.
    Boots(EngineBootsPersistable),
}

/// The state of a [`KeptItem`].
pub enum AnyKept {
    /// A scalar.
    Scalar(ScalarKept),
    /// The boots of an engine.
    Boots(BootsKept),
}

impl Persistable for KeptItem {
    type Kept = AnyKept;

    open spec fn kept(&self) -> AnyKept {
        match *self {
            KeptItem::Scalar(x) => AnyKept::Scalar(x.kept()),
            KeptItem::Boots(x) => AnyKept::Boots(x.kept()),
        }
    }

    open spec fn key_of(s: AnyKept) -> Seq<char> {
        match s {
            AnyKept::Scalar(x) => ScalarPersistable::key_of(x),
            AnyKept::Boots(x) => EngineBootsPersistable::key_of(x),
        }
    }

    open spec fn snapshot_of(s: AnyKept) -> Seq<DirectiveView> {
        match s {
            AnyKept::Scalar(x) => ScalarPersistable::snapshot_of(x),
            AnyKept::Boots(x) => EngineBootsPersistable::snapshot_of(x),
        }
    }

    open spec fn restored(s: AnyKept, dirs: Seq<DirectiveView>) -> AnyKept {
        match s {
            AnyKept::Scalar(x) => AnyKept::Scalar(ScalarPersistable::restored(x, dirs)),
            AnyKept::Boots(x) => AnyKept::Boots(EngineBootsPersistable::restored(x, dirs)),
        }
    }

    fn key(&self) -> (r: &str) {
        match self {
            KeptItem::Scalar(x) => x.key(),
            KeptItem::Boots(x) => x.key(),
        }
    }

    fn snapshot(&self) -> (r: Vec<Directive>) {
        match self {
            KeptItem::Scalar(x) => x.snapshot(),
            KeptItem::Boots(x) => x.snapshot(),
        }
    }

    fn restore(&mut self, dirs: &[Directive]) {
        match self {
            KeptItem::Scalar(x) => x.restore(dirs),
            KeptItem::Boots(x) => x.restore(dirs),
        }
    }
}

/// An item after it has taken over what the handlers serve: a scalar has the value that a GET of
/// its instance answers, unless that is an exception.
pub open spec fn kept_from<P: MibHandler>(hs: Seq<AnyState<P>>, k: AnyKept) -> AnyKept {
    match k {
        AnyKept::Scalar(s) => {
            let v = read::<AnyHandler<P>>(hs, s.scalar.instance());
            if is_exception(v) {
                k
            } else {
                AnyKept::Scalar(
                    ScalarKept { scalar: ScalarState { value: v, ..s.scalar }, ..s },
                )
            }
        },
        AnyKept::Boots(_) => k,
    }
}

/// The states of the handlers after an item has been put into service: the scalar with the root of
/// the item has its value.
pub open spec fn served<P: MibHandler>(hs: Seq<AnyState<P>>, k: AnyKept) -> Seq<AnyState<P>> {
    match k {
        AnyKept::Scalar(s) => with_value(hs, s.scalar.root, s.scalar.value),
        AnyKept::Boots(_) => hs,
    }
}

/// The states of the handlers after items have been put into service, one after the other.
pub open spec fn served_all<P: MibHandler>(
    hs: Seq<AnyState<P>>,
    items: Seq<AnyKept>,
) -> Seq<AnyState<P>>
    decreases items.len(),
{
    if items.len() == 0 {
        hs
    } else {
        served(served_all(hs, items.drop_last()), items.last())
    }
}

impl KeptItem {
    fn keep_from<P: MibHandler>(&mut self, registry: &Registry<AnyHandler<P>>)
        ensures
            final(self).kept() == kept_from(registry.states(), old(self).kept()),
            KeptItem::key_of(final(self).kept()) == KeptItem::key_of(old(self).kept()),
    {
        match self {
            KeptItem::Scalar(x) => {
                let instance = x.handler().root().child(0);
                let value = registry.get(&instance);
                let ghost v = value@;
                match value {
                    Value::NoSuchObject => {},
                    Value::NoSuchInstance => {},
                    Value::EndOfMibView => {},
                    _ => {
                        assert(!is_exception(v));
                        x.handler_mut().set_value(value);
                    },
                }
            },
            KeptItem::Boots(_) => {},
        }
    }

    fn serve_in<P: MibHandler>(&self, registry: &mut Registry<AnyHandler<P>>)
        requires
            old(registry).wf(),
        ensures
            final(registry).wf(),
            final(registry).states() == served(old(registry).states(), self.kept()),
    {
        match self {
            KeptItem::Scalar(x) => {
                let place = ServedScalar::new(x.handler().root().clone());
                let _ = place.set_value(registry, x.handler().get_value());
            },
            KeptItem::Boots(_) => {},
        }
    }
}

impl Persistence<KeptItem> {
    /// Take over what a registry serves, so that what has been set is saved.
    pub fn keep_from<P: MibHandler>(&mut self, registry: &Registry<AnyHandler<P>>)
        ensures
            final(self).states() == old(self).states().map_values(
                |k: AnyKept| kept_from(registry.states(), k),
            ),
            final(self).directory() == old(self).directory(),
    {
        let ghost all = self.states();
        let ghost f = |k: AnyKept| kept_from(registry.states(), k);
        let mut i: usize = 0;
        while i < self.items.len()
            invariant
                i <= self.items@.len() == all.len(),
                all == old(self).states(),
                f == (|k: AnyKept| kept_from(registry.states(), k)),
                self.directory() == old(self).directory(),
                forall|k: int| 0 <= k < i ==> self.states()[k] == f(#[trigger] all[k]),
                forall|k: int| i <= k < all.len() ==> self.states()[k] == #[trigger] all[k],
            decreases self.items@.len() - i,
        {
            assert(all[i as int] == self.states()[i as int]);
            assert(self.states()[i as int] == self.items@[i as int].kept());
            let ghost before = self.items@;
            self.items[i].keep_from(registry);
            proof {
                assert forall|k: int| 0 <= k < all.len() && k != i implies self.states()[k]
                    == before[k].kept() by {
                    assert(self.items@[k] == before[k]);
                }
            }
            i += 1;
        }
        assert(self.states() =~= all.map_values(f));
    }

    /// Put the items into service in a registry, so that what has been loaded is answered.
    pub fn serve_in<P: MibHandler>(&self, registry: &mut Registry<AnyHandler<P>>)
        requires
            old(registry).wf(),
        ensures
            final(registry).wf(),
            final(registry).states() == served_all(old(registry).states(), self.states()),
    {
        let ghost all = self.states();
        let ghost hs = registry.states();
        let mut i: usize = 0;
        assert(all.take(0) =~= Seq::<AnyKept>::empty());
        while i < self.items.len()
            invariant
                i <= self.items@.len(),
                all == self.states(),
                registry.wf(),
                registry.states() == served_all(hs, all.take(i as int)),
            decreases self.items@.len() - i,
        {
            assert(all.take(i + 1).drop_last() =~= all.take(i as int));
            assert(all.take(i + 1).last() == self.items@[i as int].kept());
            self.items[i].serve_in(registry);
            i += 1;
        }
        assert(all.take(i as int) =~= all);
    }
}

} // verus!
