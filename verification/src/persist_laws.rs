//! What persistence keeps: values, words, lines and items read back as they were written.

use vstd::prelude::*;

use crate::any_handler::AnyHandler;
use crate::any_handler::AnyState;
use crate::config::bare;
use crate::config::directive_of;
use crate::config::line_kind;
use crate::config::line_words;
use crate::config::parse_lines;
use crate::config::parse_text;
use crate::config::quoted;
use crate::config::word_at;
use crate::config::DirectiveView;
use crate::config::LineKind;
use crate::handler::MibHandler;
use crate::inet::ipv4_text_reads_back;
use crate::oid::oid_text;
use crate::oid::oid_text_reads_back;
use crate::persist::all_directives;
use crate::persist::args_text;
use crate::persist::boots_of;
use crate::persist::boots_replayed;
use crate::persist::boots_text;
use crate::persist::escaped;
use crate::persist::is_special;
use crate::persist::kept_from;
use crate::persist::line_text;
use crate::persist::lines_text;
use crate::persist::needs_quote;
use crate::persist::pair_value;
use crate::persist::put_item;
use crate::persist::quote;
use crate::persist::replayed;
use crate::persist::scalar_after;
use crate::persist::scalar_directive;
use crate::persist::scalar_replayed;
use crate::persist::served;
use crate::persist::served_all;
use crate::persist::value_pair;
use crate::persist::without_blanks;
use crate::persist::AnyKept;
use crate::persist::BootsKept;
use crate::persist::EngineBootsPersistable;
use crate::persist::KeptItem;
use crate::persist::Persistable;
use crate::persist::ScalarKept;
use crate::persist::ScalarPersistable;
use crate::registry::read;
use crate::registry::same_roots;
use crate::registry::transact;
use crate::registry_laws::lemma_owner_among;
use crate::registry_laws::lemma_owner_same_roots;
use crate::scalar::ScalarState;
use crate::served::served_at;
use crate::text::decimal;
use crate::text::decimal_reads_back;
use crate::text::find_char;
use crate::text::hex_reads_back;
use crate::text::hex_text;
use crate::text::is_space;
use crate::text::lemma_decimal;
use crate::text::lemma_find_char;
use crate::text::lines;
use crate::text::signed_decimal_reads_back;
use crate::text::strip_cr;
use crate::text::trim;
use crate::text::trim_end;
use crate::text::trim_start;
use crate::transaction_laws::is_stored;
use crate::transaction_laws::owners_are;
use crate::transaction_laws::set_values_read_back;
use crate::transaction_laws::stored_values_are_remembered;
use crate::value::ValueView;
use crate::value::VarBindView;

verus! {

/// Whether a value is stored as what it is: all are but the exceptions, which are stored as NULL.
pub open spec fn is_storable(v: ValueView) -> bool {
    match v {
        ValueView::NoSuchObject => false,
        ValueView::NoSuchInstance => false,
        ValueView::EndOfMibView => false,
        _ => true,
    }
}

proof fn lemma_without_blanks_same(s: Seq<char>)
    requires
        forall|i: int| 0 <= i < s.len() ==> #[trigger] s[i] != ' ',
    ensures
        without_blanks(s) == s,
    decreases s.len(),
{
    if s.len() > 0 {
        assert(s[s.len() - 1] != ' ');
        assert forall|i: int| 0 <= i < s.drop_last().len() implies #[trigger] s.drop_last()[i]
            != ' ' by {
            assert(s.drop_last()[i] == s[i]);
        }
        lemma_without_blanks_same(s.drop_last());
        assert(s.drop_last().push(s.last()) =~= s);
    }
}

proof fn lemma_tags_differ()
    ensures
        "s"@ == seq!['s'],
        "x"@ == seq!['x'],
        "p"@ == seq!['p'],
        "i"@ == seq!['i'],
        "c"@ == seq!['c'],
        "u"@ == seq!['u'],
        "t"@ == seq!['t'],
        "6"@ == seq!['6'],
        "o"@ == seq!['o'],
        "a"@ == seq!['a'],
        "n"@ == seq!['n'],
{
    reveal_strlit("s");
    reveal_strlit("x");
    reveal_strlit("p");
    reveal_strlit("i");
    reveal_strlit("c");
    reveal_strlit("u");
    reveal_strlit("t");
    reveal_strlit("6");
    reveal_strlit("o");
    reveal_strlit("a");
    reveal_strlit("n");
    assert("s"@ =~= seq!['s']);
    assert("x"@ =~= seq!['x']);
    assert("p"@ =~= seq!['p']);
    assert("i"@ =~= seq!['i']);
    assert("c"@ =~= seq!['c']);
    assert("u"@ =~= seq!['u']);
    assert("t"@ =~= seq!['t']);
    assert("6"@ =~= seq!['6']);
    assert("o"@ =~= seq!['o']);
    assert("a"@ =~= seq!['a']);
    assert("n"@ =~= seq!['n']);
}

/// A stored value reads back.
pub proof fn stored_value_reads_back(v: ValueView)
    requires
        is_storable(v),
    ensures
        pair_value(value_pair(v).0, value_pair(v).1) == Some(v),
{
    lemma_tags_differ();
    assert(seq!['s'][0] == 's');
    assert(seq!['x'][0] == 'x');
    assert(seq!['p'][0] == 'p');
    assert(seq!['i'][0] == 'i');
    assert(seq!['c'][0] == 'c');
    assert(seq!['u'][0] == 'u');
    assert(seq!['t'][0] == 't');
    assert(seq!['6'][0] == '6');
    assert(seq!['o'][0] == 'o');
    assert(seq!['a'][0] == 'a');
    assert(seq!['n'][0] == 'n');
    match v {
        ValueView::OctetString(b) => {
            if vstd::utf8::valid_utf8(b) {
                vstd::utf8::decode_utf8_encode_utf8(b);
            }
            hex_reads_back(b);
            lemma_without_blanks_same(hex_text(b));
        },
        ValueView::Integer(n) => {
            signed_decimal_reads_back(n as int, i64::MIN as int, i64::MAX as int);
        },
        ValueView::Counter32(n) => {
            decimal_reads_back(n as nat, u32::MAX as nat);
        },
        ValueView::Gauge32(n) => {
            decimal_reads_back(n as nat, u32::MAX as nat);
        },
        ValueView::TimeTicks(n) => {
            decimal_reads_back(n as nat, u32::MAX as nat);
        },
        ValueView::Counter64(n) => {
            decimal_reads_back(n as nat, u64::MAX as nat);
        },
        ValueView::Opaque(b) => {
            hex_reads_back(b);
            lemma_without_blanks_same(hex_text(b));
        },
        ValueView::Oid(o) => {
            if o.len() > 0 {
                oid_text_reads_back(o);
                assert(oid_text(o)[0] == '.');
            } else {
                assert(o =~= seq![]);
            }
        },
        ValueView::IpAddress(ip) => {
            ipv4_text_reads_back(ip);
        },
        _ => {},
    }
}

/// A scalar whose snapshot is replayed is as it was.
pub proof fn scalar_snapshot_restores(s: ScalarKept)
    requires
        is_storable(s.scalar.value),
    ensures
        ScalarPersistable::restored(s, ScalarPersistable::snapshot_of(s)) == s,
{
    let ds = ScalarPersistable::snapshot_of(s);
    stored_value_reads_back(s.scalar.value);
    assert(ds.drop_last() =~= seq![]);
    assert(scalar_replayed(s.scalar.value, ds.drop_last()) == s.scalar.value);
}

/// A scalar with any value takes the value of the snapshot that is replayed.
pub proof fn scalar_takes_snapshot(saved: ScalarKept, fresh: ScalarKept)
    requires
        is_storable(saved.scalar.value),
    ensures
        ScalarPersistable::restored(fresh, ScalarPersistable::snapshot_of(saved)).scalar.value
            == saved.scalar.value,
{
    let ds = ScalarPersistable::snapshot_of(saved);
    stored_value_reads_back(saved.scalar.value);
    assert(ds.drop_last() =~= seq![]);
    assert(scalar_replayed(fresh.scalar.value, ds.drop_last()) == fresh.scalar.value);
}

/// A boots counter takes the value of the snapshot that is replayed.
pub proof fn boots_take_snapshot(saved: BootsKept, fresh: BootsKept)
    ensures
        EngineBootsPersistable::restored(
            fresh,
            EngineBootsPersistable::snapshot_of(saved),
        ).boots == saved.boots,
{
    let ds = EngineBootsPersistable::snapshot_of(saved);
    decimal_reads_back(saved.boots as nat, u32::MAX as nat);
    assert(ds.drop_last() =~= seq![]);
    assert(boots_replayed(fresh.boots, ds.drop_last()) == fresh.boots);
}

/// A boots file reads back.
pub proof fn boots_file_reads_back(boots: u32)
    ensures
        boots_of(boots_text(boots)) == Some(boots),
{
    let d = decimal(boots as nat);
    let s = boots_text(boots);
    lemma_decimal(boots as nat);
    decimal_reads_back(boots as nat, u32::MAX as nat);
    assert('0' <= d[0] <= '9');
    assert('0' <= d[d.len() - 1] <= '9');
    assert(s[0] == d[0]);
    assert(s.drop_last() =~= d);
    assert(trim_start(s) == s);
    assert(trim_end(d) == d);
    assert(trim_end(s) == trim_end(d));
}

/// A quoted text is read up to its closing quote, and gives the text that was quoted.
pub proof fn quoted_text_reads_back(s: Seq<char>, rest: Seq<char>)
    ensures
        quoted(escaped(s) + seq!['"'] + rest, '"') == (s, rest),
    decreases s.len(),
{
    let t = escaped(s) + seq!['"'] + rest;
    if s.len() == 0 {
        assert(t =~= seq!['"'] + rest);
        assert(t.drop_first() =~= rest);
        assert(s =~= seq![]);
    } else {
        let more = escaped(s.drop_first()) + seq!['"'] + rest;
        quoted_text_reads_back(s.drop_first(), rest);
        if s[0] == '"' || s[0] == '\\' || s[0] == '\n' {
            assert(t =~= seq!['\\', s[0]] + more);
            assert(t.skip(2) =~= more);
        } else {
            assert(t =~= seq![s[0]] + more);
            assert(t.drop_first() =~= more);
        }
        assert(seq![s[0]] + s.drop_first() =~= s);
    }
}

/// A word that needs no quotes is read up to the next whitespace.
pub proof fn bare_text_reads_back(s: Seq<char>, rest: Seq<char>)
    requires
        forall|i: int| 0 <= i < s.len() ==> !is_special(#[trigger] s[i]),
        rest.len() > 0 ==> is_space(rest[0]),
    ensures
        bare(s + rest) == (s, rest),
    decreases s.len(),
{
    let t = s + rest;
    if s.len() == 0 {
        assert(t =~= rest);
        assert(s =~= seq![]);
    } else {
        assert(!is_special(s[0]));
        assert(t[0] == s[0]);
        let u = s.drop_first();
        assert forall|i: int| 0 <= i < u.len() implies !is_special(#[trigger] u[i]) by {
            assert(u[i] == s[i + 1]);
        }
        bare_text_reads_back(u, rest);
        assert(t.drop_first() =~= u + rest);
        assert(seq![s[0]] + u =~= s);
    }
}

/// A written word reads back, when whitespace or nothing follows it.
pub proof fn written_word_reads_back(s: Seq<char>, rest: Seq<char>)
    requires
        rest.len() > 0 ==> is_space(rest[0]),
    ensures
        word_at(quote(s) + rest) == (s, rest),
        quote(s).len() > 0,
        !is_space(quote(s)[0]),
        !is_space(quote(s).last()),
{
    let t = quote(s) + rest;
    if needs_quote(s) {
        quoted_text_reads_back(s, rest);
        assert(t[0] == '"');
        assert(t.drop_first() =~= escaped(s) + seq!['"'] + rest);
    } else {
        assert(t[0] == s[0]);
        assert(!is_special(s[0]));
        assert(!is_special(s[s.len() - 1]));
        bare_text_reads_back(s, rest);
    }
}

proof fn lemma_blank_and_word(body: Seq<char>, w: Seq<char>, rest: Seq<char>)
    requires
        body.len() > 0,
        !is_space(body[0]),
        word_at(body) == (w, rest),
    ensures
        line_words(seq![' '] + body) == seq![w] + line_words(rest),
{
    let t = seq![' '] + body;
    assert(t[0] == ' ');
    assert(t.drop_first() =~= body);
    assert(line_words(t) == line_words(body));
}

/// Written arguments read back.
pub proof fn written_args_read_back(args: Seq<Seq<char>>)
    ensures
        line_words(args_text(args)) == args,
        args.len() > 0 ==> args_text(args).len() > 0 && args_text(args)[0] == ' ' && !is_space(
            args_text(args).last(),
        ),
    decreases args.len(),
{
    if args.len() == 0 {
        assert(args =~= seq![]);
    } else {
        let rest = args_text(args.drop_first());
        let t = args_text(args);
        written_args_read_back(args.drop_first());
        written_word_reads_back(args[0], rest);
        let body = quote(args[0]) + rest;
        assert(t =~= seq![' '] + body);
        assert(body[0] == quote(args[0])[0]);
        lemma_blank_and_word(body, args[0], rest);
        assert(seq![args[0]] + args.drop_first() =~= args);
        if args.len() == 1 {
            assert(args.drop_first() =~= seq![]);
            assert(rest =~= seq![]);
            assert(t.last() == quote(args[0]).last());
        } else {
            assert(t.last() == rest.last());
        }
    }
}

/// Whether a directive can be written on a line of its own: its token stands bare and opens
/// neither a comment nor a section, and no argument holds a line feed.
pub open spec fn is_writable(d: DirectiveView) -> bool {
    &&& !needs_quote(d.token)
    &&& d.token[0] != '#'
    &&& d.token[0] != '['
    &&& forall|i: int, j: int|
        0 <= i < d.args.len() && 0 <= j < d.args[i].len() ==> #[trigger] d.args[i][j] != '\n'
}

proof fn lemma_escaped_no_break(s: Seq<char>)
    requires
        forall|j: int| 0 <= j < s.len() ==> #[trigger] s[j] != '\n',
    ensures
        forall|j: int| 0 <= j < escaped(s).len() ==> #[trigger] escaped(s)[j] != '\n',
    decreases s.len(),
{
    if s.len() > 0 {
        let u = s.drop_first();
        assert(s[0] != '\n');
        assert forall|j: int| 0 <= j < u.len() implies #[trigger] u[j] != '\n' by {
            assert(u[j] == s[j + 1]);
        }
        lemma_escaped_no_break(u);
        let e = escaped(s);
        let k = e.len() - escaped(u).len();
        assert forall|j: int| 0 <= j < e.len() implies #[trigger] e[j] != '\n' by {
            if j >= k {
                assert(e[j] == escaped(u)[j - k]);
            }
        }
    }
}

proof fn lemma_args_no_break(args: Seq<Seq<char>>)
    requires
        forall|i: int, j: int|
            0 <= i < args.len() && 0 <= j < args[i].len() ==> #[trigger] args[i][j] != '\n',
    ensures
        forall|j: int| 0 <= j < args_text(args).len() ==> #[trigger] args_text(args)[j] != '\n',
    decreases args.len(),
{
    if args.len() > 0 {
        let rest = args.drop_first();
        assert forall|i: int, j: int| 0 <= i < rest.len() && 0 <= j < rest[i].len() implies
            #[trigger] rest[i][j] != '\n' by {
            assert(rest[i] == args[i + 1]);
            assert(args[i + 1][j] != '\n');
        }
        lemma_args_no_break(rest);
        let a = args[0];
        assert forall|j: int| 0 <= j < a.len() implies #[trigger] a[j] != '\n' by {
            assert(args[0][j] != '\n');
        }
        lemma_escaped_no_break(a);
        let q = quote(a);
        assert forall|j: int| 0 <= j < q.len() implies #[trigger] q[j] != '\n' by {
            if needs_quote(a) && 0 < j < q.len() - 1 {
                assert(q[j] == escaped(a)[j - 1]);
            }
        }
        let t = args_text(args);
        assert forall|j: int| 0 <= j < t.len() implies #[trigger] t[j] != '\n' by {
            if 1 <= j < 1 + q.len() {
                assert(t[j] == q[j - 1]);
            } else if j >= 1 + q.len() {
                assert(t[j] == args_text(rest)[j - 1 - q.len()]);
            }
        }
    }
}

/// A written directive is one line that is read back as it is: the same token, the same
/// arguments.
pub proof fn written_line_reads_back(d: DirectiveView)
    requires
        is_writable(d),
    ensures
        ({
            let t = line_text(d);
            &&& trim(t) == t
            &&& t.len() > 0
            &&& t.last() != '\r'
            &&& forall|j: int| 0 <= j < t.len() ==> #[trigger] t[j] != '\n'
            &&& line_kind(t) == LineKind::Words
            &&& word_at(t).0 == d.token
            &&& line_words(word_at(t).1) == d.args
        }),
{
    let t = line_text(d);
    let a = args_text(d.args);
    written_args_read_back(d.args);
    lemma_args_no_break(d.args);
    assert(!is_special(d.token[0]));
    assert(!is_special(d.token[d.token.len() - 1]));
    if d.args.len() == 0 {
        assert(a =~= seq![]);
    }
    bare_text_reads_back(d.token, a);
    assert(t[0] == d.token[0]);
    assert(t.last() == if d.args.len() == 0 {
        d.token.last()
    } else {
        a.last()
    });
    assert(trim_start(t) == t);
    assert(trim_end(t) == t);
    assert forall|j: int| 0 <= j < t.len() implies #[trigger] t[j] != '\n' by {
        if j < d.token.len() {
            assert(!is_special(d.token[j]));
            assert(t[j] == d.token[j]);
        } else {
            assert(t[j] == a[j - d.token.len()]);
        }
    }
}

/// What matters of a directive to the item that it belongs to.
pub open spec fn same_command(a: DirectiveView, b: DirectiveView) -> bool {
    a.token == b.token && a.args == b.args
}

/// A file of written directives reads back: as many directives, each with its token and its
/// arguments.
pub proof fn written_file_reads_back(ds: Seq<DirectiveView>)
    requires
        forall|i: int| 0 <= i < ds.len() ==> is_writable(#[trigger] ds[i]),
    ensures
        parse_text(lines_text(ds)).len() == ds.len(),
        forall|i: int|
            0 <= i < ds.len() ==> same_command(
                #[trigger] parse_text(lines_text(ds))[i],
                ds[i],
            ),
{
    lemma_lines_read_back(ds, 1);
}

proof fn lemma_lines_read_back(ds: Seq<DirectiveView>, n: nat)
    requires
        forall|i: int| 0 <= i < ds.len() ==> is_writable(#[trigger] ds[i]),
    ensures
        parse_lines(lines(lines_text(ds)), None, n).len() == ds.len(),
        forall|i: int|
            0 <= i < ds.len() ==> same_command(
                #[trigger] parse_lines(lines(lines_text(ds)), None, n)[i],
                ds[i],
            ),
    decreases ds.len(),
{
    if ds.len() > 0 {
        let t = line_text(ds[0]);
        let rest = ds.drop_first();
        let r = lines_text(rest);
        let all = lines_text(ds);
        assert(is_writable(ds[0]));
        written_line_reads_back(ds[0]);
        assert(all =~= t + seq!['\n'] + r);
        lemma_find_char(all, '\n');
        let k = find_char(all, '\n');
        assert(all[t.len() as int] == '\n');
        assert(k == t.len()) by {
            if k < t.len() {
                assert(all[k as int] == t[k as int]);
            }
        }
        assert(all.take(k as int) =~= t);
        assert(all.skip(k as int + 1) =~= r);
        assert(strip_cr(t) == t);
        let ls = lines(all);
        assert(ls =~= seq![t] + lines(r));
        assert(ls[0] == t);
        assert(ls.drop_first() =~= lines(r));
        assert forall|i: int| 0 <= i < rest.len() implies is_writable(#[trigger] rest[i]) by {
            assert(rest[i] == ds[i + 1]);
        }
        lemma_lines_read_back(rest, n + 1);
        let got = parse_lines(ls, None, n);
        let more = parse_lines(lines(r), None, n + 1);
        assert(got =~= seq![directive_of(t, None, n)] + more);
        assert forall|i: int| 0 <= i < ds.len() implies same_command(#[trigger] got[i], ds[i]) by {
            if i > 0 {
                assert(got[i] == more[i - 1]);
                assert(ds[i] == rest[i - 1]);
                assert(same_command(more[i - 1], rest[i - 1]));
            }
        }
    }
}

/// The directive of a scalar can be written on a line, whatever its value, when its key can.
pub proof fn scalar_directive_is_writable(s: ScalarKept)
    requires
        !needs_quote(s.key),
        s.key[0] != '#',
        s.key[0] != '[',
        is_storable(s.scalar.value),
    ensures
        forall|i: int|
            0 <= i < ScalarPersistable::snapshot_of(s).len() ==> is_writable(
                #[trigger] ScalarPersistable::snapshot_of(s)[i],
            ),
{
    let v = s.scalar.value;
    let p = value_pair(v);
    lemma_tags_differ();
    assert forall|j: int| 0 <= j < p.1.len() implies #[trigger] p.1[j] != '\n' by {
        lemma_payload_no_break(v);
    }
    let d = ScalarPersistable::snapshot_of(s)[0];
    assert forall|i: int, j: int| 0 <= i < d.args.len() && 0 <= j < d.args[i].len() implies
        #[trigger] d.args[i][j] != '\n' by {
        if i == 0 {
            assert(d.args[0] == p.0);
        } else {
            assert(d.args[1] == p.1);
        }
    }
}

proof fn lemma_payload_no_break(v: ValueView)
    requires
        is_storable(v),
    ensures
        forall|j: int| 0 <= j < value_pair(v).1.len() ==> #[trigger] value_pair(v).1[j] != '\n',
{
    match v {
        ValueView::OctetString(b) => {
            lemma_hex_no_break(b);
        },
        ValueView::Opaque(b) => {
            lemma_hex_no_break(b);
        },
        ValueView::Integer(n) => {
            lemma_decimal(
                if n < 0 {
                    (-(n as int)) as nat
                } else {
                    n as nat
                },
            );
        },
        ValueView::Counter32(n) => {
            lemma_decimal(n as nat);
        },
        ValueView::Gauge32(n) => {
            lemma_decimal(n as nat);
        },
        ValueView::TimeTicks(n) => {
            lemma_decimal(n as nat);
        },
        ValueView::Counter64(n) => {
            lemma_decimal(n as nat);
        },
        ValueView::Oid(o) => {
            lemma_oid_text_no_break(o);
        },
        ValueView::IpAddress(ip) => {
            lemma_decimal(ip.a as nat);
            lemma_decimal(ip.b as nat);
            lemma_decimal(ip.c as nat);
            lemma_decimal(ip.d as nat);
        },
        _ => {},
    }
}

proof fn lemma_hex_no_break(b: Seq<u8>)
    ensures
        forall|j: int| 0 <= j < hex_text(b).len() ==> #[trigger] hex_text(b)[j] != '\n',
    decreases b.len(),
{
    if b.len() > 0 {
        lemma_hex_no_break(b.drop_last());
        let h = hex_text(b.drop_last());
        assert forall|j: int| 0 <= j < hex_text(b).len() implies #[trigger] hex_text(b)[j]
            != '\n' by {
            if j < h.len() {
                assert(hex_text(b)[j] == h[j]);
            }
        }
    }
}

proof fn lemma_oid_text_no_break(o: Seq<u32>)
    ensures
        forall|j: int|
            0 <= j < oid_text(o).len() ==> #[trigger] oid_text(o)[j]
                != '\n',
    decreases o.len(),
{
    if o.len() > 0 {
        lemma_oid_text_no_break(o.drop_first());
        lemma_decimal(o[0] as nat);
        let d = decimal(o[0] as nat);
        let r = oid_text(o.drop_first());
        let t = oid_text(o);
        assert forall|j: int| 0 <= j < t.len() implies #[trigger] t[j] != '\n' by {
            if 1 <= j < 1 + d.len() {
                assert(t[j] == d[j - 1]);
            } else if j >= 1 + d.len() {
                assert(t[j] == r[j - 1 - d.len()]);
            }
        }
    }
}

/// Whether no two items have one key.
pub open spec fn keys_differ<P: Persistable>(items: Seq<P::Kept>) -> bool {
    forall|i: int, j: int|
        #![trigger items[i], items[j]]
        0 <= i < j < items.len() ==> P::key_of(items[i]) != P::key_of(items[j])
}

/// Registering an item keeps the keys apart, and the item is registered.
pub proof fn registered_keys_differ<P: Persistable>(items: Seq<P::Kept>, item: P::Kept)
    requires
        keys_differ::<P>(items),
    ensures
        keys_differ::<P>(put_item::<P>(items, item)),
        put_item::<P>(items, item).contains(item),
{
    lemma_put_item::<P>(items, item);
}

proof fn lemma_put_item<P: Persistable>(items: Seq<P::Kept>, item: P::Kept)
    requires
        keys_differ::<P>(items),
    ensures
        keys_differ::<P>(put_item::<P>(items, item)),
        put_item::<P>(items, item).contains(item),
        forall|i: int|
            0 <= i < put_item::<P>(items, item).len() ==> #[trigger] put_item::<P>(items, item)[i]
                == item || items.contains(put_item::<P>(items, item)[i]),
    decreases items.len(),
{
    let r = put_item::<P>(items, item);
    if items.len() == 0 {
        assert(r[0] == item);
    } else if P::key_of(items[0]) == P::key_of(item) {
        assert(r[0] == item);
        assert forall|i: int| 0 <= i < r.len() implies #[trigger] r[i] == item || items.contains(
            r[i],
        ) by {
            if i > 0 {
                assert(r[i] == items[i]);
            }
        }
        assert forall|i: int, j: int| #![trigger r[i], r[j]] 0 <= i < j < r.len() implies P::key_of(
            r[i],
        ) != P::key_of(r[j]) by {
            assert(P::key_of(items[i]) != P::key_of(items[j]));
        }
    } else {
        let t = items.drop_first();
        assert forall|i: int, j: int| #![trigger t[i], t[j]] 0 <= i < j < t.len() implies P::key_of(
            t[i],
        ) != P::key_of(t[j]) by {
            assert(t[i] == items[i + 1]);
            assert(t[j] == items[j + 1]);
        }
        lemma_put_item::<P>(t, item);
        let u = put_item::<P>(t, item);
        let k = choose|k: int| 0 <= k < u.len() && u[k] == item;
        assert(r[k + 1] == item);
        assert forall|i: int| 0 <= i < r.len() implies #[trigger] r[i] == item || items.contains(
            r[i],
        ) by {
            if i == 0 {
                assert(r[0] == items[0]);
            } else {
                assert(r[i] == u[i - 1]);
                if u[i - 1] != item {
                    let m = choose|m: int| 0 <= m < t.len() && t[m] == u[i - 1];
                    assert(items[m + 1] == u[i - 1]);
                }
            }
        }
        assert forall|i: int, j: int| #![trigger r[i], r[j]] 0 <= i < j < r.len() implies P::key_of(
            r[i],
        ) != P::key_of(r[j]) by {
            assert(r[j] == u[j - 1]);
            if i == 0 {
                if u[j - 1] != item {
                    let m = choose|m: int| 0 <= m < t.len() && t[m] == u[j - 1];
                    assert(items[m + 1] == u[j - 1]);
                    assert(P::key_of(items[0]) != P::key_of(items[m + 1]));
                }
            } else {
                assert(r[i] == u[i - 1]);
                assert(P::key_of(u[i - 1]) != P::key_of(u[j - 1]));
            }
        }
    }
}

/// Whether the key of a scalar can begin a line, and its value is stored as what it is.
pub open spec fn can_be_kept(s: ScalarKept) -> bool {
    &&& !needs_quote(s.key)
    &&& s.key[0] != '#'
    &&& s.key[0] != '['
    &&& is_storable(s.scalar.value)
}

/// Whether an item is written as one directive of its own, on one line.
pub open spec fn is_one_line<P: Persistable>(s: P::Kept) -> bool {
    let ds = P::snapshot_of(s);
    ds.len() == 1 && ds[0].token == P::key_of(s) && is_writable(ds[0])
}

proof fn lemma_one_directive_each<P: Persistable>(items: Seq<P::Kept>)
    requires
        forall|k: int| 0 <= k < items.len() ==> is_one_line::<P>(#[trigger] items[k]),
    ensures
        all_directives::<P>(items).len() == items.len(),
        forall|i: int|
            0 <= i < items.len() ==> #[trigger] all_directives::<P>(items)[i] == P::snapshot_of(
                items[i],
            )[0],
    decreases items.len(),
{
    if items.len() > 0 {
        let t = items.drop_first();
        assert(is_one_line::<P>(items[0]));
        assert forall|k: int| 0 <= k < t.len() implies is_one_line::<P>(#[trigger] t[k]) by {
            assert(t[k] == items[k + 1]);
        }
        lemma_one_directive_each::<P>(t);
        let r = all_directives::<P>(items);
        assert forall|i: int| 0 <= i < items.len() implies #[trigger] r[i] == P::snapshot_of(
            items[i],
        )[0] by {
            if i > 0 {
                assert(r[i] == all_directives::<P>(t)[i - 1]);
                assert(t[i - 1] == items[i]);
            }
        }
    }
}

proof fn lemma_filter_none(ds: Seq<DirectiveView>, pred: spec_fn(DirectiveView) -> bool)
    requires
        forall|k: int| 0 <= k < ds.len() ==> !pred(#[trigger] ds[k]),
    ensures
        ds.filter(pred) == Seq::<DirectiveView>::empty(),
    decreases ds.len(),
{
    reveal(Seq::filter);
    if ds.len() > 0 {
        let t = ds.drop_last();
        assert forall|k: int| 0 <= k < t.len() implies !pred(#[trigger] t[k]) by {
            assert(t[k] == ds[k]);
        }
        lemma_filter_none(t, pred);
        assert(!pred(ds[ds.len() - 1]));
    }
}

proof fn lemma_filter_one(ds: Seq<DirectiveView>, pred: spec_fn(DirectiveView) -> bool, i: int)
    requires
        0 <= i < ds.len(),
        forall|k: int| 0 <= k < ds.len() ==> (pred(#[trigger] ds[k]) <==> k == i),
    ensures
        ds.filter(pred) == seq![ds[i]],
    decreases ds.len(),
{
    reveal(Seq::filter);
    let t = ds.drop_last();
    assert(pred(ds[ds.len() - 1]) <==> ds.len() - 1 == i);
    assert forall|k: int| 0 <= k < t.len() implies (pred(#[trigger] t[k]) <==> k == i) by {
        assert(t[k] == ds[k]);
    }
    if i == ds.len() - 1 {
        lemma_filter_none(t, pred);
        assert(ds.filter(pred) =~= seq![ds[i]]);
    } else {
        lemma_filter_one(t, pred, i);
        assert(t[i] == ds[i]);
    }
}

/// An item that is registered under the key of a saved one replays the directive of that one from
/// the file, and no other.
proof fn lemma_replays_its_own<P: Persistable>(
    saved: Seq<P::Kept>,
    fresh: P::Kept,
    i: int,
) -> (d: DirectiveView)
    requires
        keys_differ::<P>(saved),
        forall|k: int| 0 <= k < saved.len() ==> is_one_line::<P>(#[trigger] saved[k]),
        0 <= i < saved.len(),
        P::key_of(fresh) == P::key_of(saved[i]),
    ensures
        same_command(d, P::snapshot_of(saved[i])[0]),
        replayed::<P>(fresh, parse_text(lines_text(all_directives::<P>(saved)))) == P::restored(
            fresh,
            seq![d],
        ),
{
    let ds = all_directives::<P>(saved);
    lemma_one_directive_each::<P>(saved);
    assert forall|k: int| 0 <= k < ds.len() implies is_writable(#[trigger] ds[k]) by {
        assert(is_one_line::<P>(saved[k]));
    }
    written_file_reads_back(ds);
    let got = parse_text(lines_text(ds));
    let pred = |d: DirectiveView| d.token == P::key_of(fresh);
    assert forall|k: int| 0 <= k < got.len() implies (pred(#[trigger] got[k]) <==> k == i) by {
        assert(same_command(got[k], ds[k]));
        assert(is_one_line::<P>(saved[k]));
        if k < i {
            assert(P::key_of(saved[k]) != P::key_of(saved[i]));
        } else if i < k {
            assert(P::key_of(saved[i]) != P::key_of(saved[k]));
        }
    }
    lemma_filter_one(got, pred, i);
    assert(same_command(got[i], ds[i]));
    got[i]
}

proof fn lemma_scalar_restored(saved: ScalarKept, fresh: ScalarKept, d: DirectiveView)
    requires
        is_storable(saved.scalar.value),
        same_command(d, scalar_directive(saved.key, saved.scalar.value)),
    ensures
        ScalarPersistable::restored(fresh, seq![d]) == (ScalarKept {
            scalar: ScalarState { value: saved.scalar.value, ..fresh.scalar },
            ..fresh
        }),
{
    stored_value_reads_back(saved.scalar.value);
    let own = seq![d];
    assert(own.drop_last() =~= Seq::<DirectiveView>::empty());
    assert(scalar_replayed(fresh.scalar.value, own.drop_last()) == fresh.scalar.value);
    assert(scalar_replayed(fresh.scalar.value, own) == scalar_after(fresh.scalar.value, d));
}

/// Whether an item is written on one line and its value is stored as what it is.
pub open spec fn is_keepable(k: AnyKept) -> bool {
    match k {
        AnyKept::Scalar(s) => can_be_kept(s),
        AnyKept::Boots(_) => true,
    }
}

proof fn lemma_keepable_is_one_line(k: AnyKept)
    requires
        is_keepable(k),
    ensures
        is_one_line::<KeptItem>(k),
{
    match k {
        AnyKept::Scalar(s) => {
            scalar_directive_is_writable(s);
            assert(is_writable(ScalarPersistable::snapshot_of(s)[0]));
        },
        AnyKept::Boots(b) => {
            let d = EngineBootsPersistable::snapshot_of(b)[0];
            reveal_strlit("engineBoots");
            let t = "engineBoots"@;
            assert(t.len() == 11);
            assert(!needs_quote(t));
            lemma_decimal(b.boots as nat);
            assert forall|i: int, j: int| 0 <= i < d.args.len() && 0 <= j
                < d.args[i].len() implies #[trigger] d.args[i][j] != '\n' by {
                assert(d.args[0] == decimal(b.boots as nat));
            }
        },
    }
}

/// The file that keeps a list of items.
pub open spec fn file_of(items: Seq<AnyKept>) -> Seq<char> {
    lines_text(all_directives::<KeptItem>(items))
}

/// What was saved comes back after a restart: a scalar that is registered under the key of a saved
/// one takes its value from the file, whatever its own value is.
pub proof fn restart_restores_values(
    saved: Seq<AnyKept>,
    fresh: ScalarKept,
    i: int,
    was: ScalarKept,
)
    requires
        keys_differ::<KeptItem>(saved),
        forall|k: int| 0 <= k < saved.len() ==> is_keepable(#[trigger] saved[k]),
        0 <= i < saved.len(),
        saved[i] == AnyKept::Scalar(was),
        fresh.key == was.key,
    ensures
        replayed::<KeptItem>(AnyKept::Scalar(fresh), parse_text(file_of(saved)))
            == AnyKept::Scalar(
            ScalarKept {
                scalar: ScalarState { value: was.scalar.value, ..fresh.scalar },
                ..fresh
            },
        ),
{
    assert forall|k: int| 0 <= k < saved.len() implies is_one_line::<KeptItem>(
        #[trigger] saved[k],
    ) by {
        lemma_keepable_is_one_line(saved[k]);
    }
    let d = lemma_replays_its_own::<KeptItem>(saved, AnyKept::Scalar(fresh), i);
    assert(is_keepable(saved[i]));
    lemma_scalar_restored(was, fresh, d);
}

/// The boots of an engine come back after a restart.
pub proof fn restart_restores_boots(
    saved: Seq<AnyKept>,
    fresh: BootsKept,
    i: int,
    was: BootsKept,
)
    requires
        keys_differ::<KeptItem>(saved),
        forall|k: int| 0 <= k < saved.len() ==> is_keepable(#[trigger] saved[k]),
        0 <= i < saved.len(),
        saved[i] == AnyKept::Boots(was),
    ensures
        replayed::<KeptItem>(AnyKept::Boots(fresh), parse_text(file_of(saved)))
            == AnyKept::Boots(BootsKept { boots: was.boots, ..fresh }),
{
    assert forall|k: int| 0 <= k < saved.len() implies is_one_line::<KeptItem>(
        #[trigger] saved[k],
    ) by {
        lemma_keepable_is_one_line(saved[k]);
    }
    let d = lemma_replays_its_own::<KeptItem>(saved, AnyKept::Boots(fresh), i);
    decimal_reads_back(was.boots as nat, u32::MAX as nat);
    let own = seq![d];
    assert(own.drop_last() =~= Seq::<DirectiveView>::empty());
    assert(boots_replayed(fresh.boots, own.drop_last()) == fresh.boots);
}

/// What was SET is what is saved: after a successful SET the item of a scalar takes over the last
/// value that was given for its instance.
pub proof fn set_value_is_kept<P: MibHandler>(
    hs: Seq<AnyState<P>>,
    vars: Seq<VarBindView>,
    i: int,
    item: ScalarKept,
)
    requires
        owners_are::<AnyHandler<P>>(hs, vars, |s: AnyState<P>| is_stored(s)),
        transact::<AnyHandler<P>>(hs, vars).1 is None,
        0 <= i < vars.len(),
        forall|j: int| i < j < vars.len() ==> (#[trigger] vars[j]).oid != vars[i].oid,
        vars[i].oid == item.scalar.instance(),
        is_storable(vars[i].value),
    ensures
        kept_from(transact::<AnyHandler<P>>(hs, vars).0, AnyKept::Scalar(item))
            == AnyKept::Scalar(
            ScalarKept {
                scalar: ScalarState { value: vars[i].value, ..item.scalar },
                ..item
            },
        ),
{
    stored_values_are_remembered::<P>();
    set_values_read_back::<AnyHandler<P>>(hs, vars, |s: AnyState<P>| is_stored(s), i);
}

/// Whether the scalar of an item is served: it answers for its instance.
pub open spec fn is_served<P: MibHandler>(hs: Seq<AnyState<P>>, item: ScalarKept) -> bool {
    served_at(hs, item.scalar.root) is Some
}

proof fn lemma_served_keeps_roots<P: MibHandler>(hs: Seq<AnyState<P>>, k: AnyKept)
    ensures
        same_roots::<AnyHandler<P>>(hs, served(hs, k)),
        served(hs, k).len() == hs.len(),
{
    if let AnyKept::Scalar(s) = k {
        lemma_owner_among::<AnyHandler<P>>(hs, s.scalar.instance(), hs.len());
    }
}

proof fn lemma_served_all_keeps<P: MibHandler>(
    hs: Seq<AnyState<P>>,
    items: Seq<AnyKept>,
    item: ScalarKept,
)
    requires
        is_served(hs, item),
    ensures
        is_served(served_all(hs, items), item),
    decreases items.len(),
{
    if items.len() > 0 {
        lemma_served_all_keeps(hs, items.drop_last(), item);
        lemma_served_keeps(served_all(hs, items.drop_last()), items.last(), item);
    }
}

proof fn lemma_served_keeps<P: MibHandler>(hs: Seq<AnyState<P>>, k: AnyKept, item: ScalarKept)
    requires
        is_served(hs, item),
    ensures
        is_served(served(hs, k), item),
        !(k matches AnyKept::Scalar(s) && s.scalar.root == item.scalar.root) ==> read::<
            AnyHandler<P>,
        >(served(hs, k), item.scalar.instance()) == read::<AnyHandler<P>>(
            hs,
            item.scalar.instance(),
        ),
        k matches AnyKept::Scalar(s) && s.scalar.root == item.scalar.root ==> read::<
            AnyHandler<P>,
        >(served(hs, k), item.scalar.instance()) == (k->Scalar_0).scalar.value,
{
    let inst = item.scalar.instance();
    lemma_served_keeps_roots(hs, k);
    lemma_owner_among::<AnyHandler<P>>(hs, inst, hs.len());
    lemma_owner_same_roots::<AnyHandler<P>>(hs, served(hs, k), inst, hs.len());
    if let AnyKept::Scalar(s) = k {
        lemma_owner_among::<AnyHandler<P>>(hs, s.scalar.instance(), hs.len());
    }
}

/// What was loaded is what GET answers: a scalar whose item has been put into service has the
/// value of the item, if no later item is for the same scalar.
pub proof fn loaded_value_is_answered<P: MibHandler>(
    hs: Seq<AnyState<P>>,
    items: Seq<AnyKept>,
    i: int,
    item: ScalarKept,
)
    requires
        0 <= i < items.len(),
        items[i] == AnyKept::Scalar(item),
        forall|j: int|
            i < j < items.len() ==> !((#[trigger] items[j]) matches AnyKept::Scalar(s)
                && s.scalar.root == item.scalar.root),
        is_served(hs, item),
    ensures
        read::<AnyHandler<P>>(served_all(hs, items), item.scalar.instance())
            == item.scalar.value,
    decreases items.len(),
{
    let t = items.drop_last();
    lemma_served_all_keeps(hs, t, item);
    lemma_served_keeps(served_all(hs, t), items.last(), item);
    if i < items.len() - 1 {
        assert(t[i] == items[i]);
        assert forall|j: int| i < j < t.len() implies !((#[trigger] t[j]) matches AnyKept::Scalar(
            s,
        ) && s.scalar.root == item.scalar.root) by {
            assert(t[j] == items[j]);
        }
        loaded_value_is_answered(hs, t, i, item);
        assert(items.last() == items[items.len() - 1]);
    }
}

/// A value that was SET survives a restart: what the items take over from the handlers after the
/// SET, and what they are then saved as, is what a GET answers once the file has been loaded into
/// the items of a new agent and these have been put into service.
pub proof fn set_survives_restart<P: MibHandler>(
    hs: Seq<AnyState<P>>,
    vars: Seq<VarBindView>,
    i: int,
    items: Seq<AnyKept>,
    k: int,
    item: ScalarKept,
    new_hs: Seq<AnyState<P>>,
    new_items: Seq<AnyKept>,
    m: int,
    new_item: ScalarKept,
)
    requires
        owners_are::<AnyHandler<P>>(hs, vars, |s: AnyState<P>| is_stored(s)),
        transact::<AnyHandler<P>>(hs, vars).1 is None,
        0 <= i < vars.len(),
        forall|j: int| i < j < vars.len() ==> (#[trigger] vars[j]).oid != vars[i].oid,
        is_storable(vars[i].value),
        0 <= k < items.len(),
        items[k] == AnyKept::Scalar(item),
        item.scalar.instance() == vars[i].oid,
        keys_differ::<KeptItem>(items),
        0 <= m < new_items.len(),
        new_items[m] == AnyKept::Scalar(new_item),
        new_item.key == item.key,
        new_item.scalar.instance() == vars[i].oid,
        forall|j: int|
            m < j < new_items.len() ==> !((#[trigger] new_items[j]) matches AnyKept::Scalar(s)
                && s.scalar.root == new_item.scalar.root),
        is_served(new_hs, new_item),
        forall|j: int|
            #![trigger items[j]]
            0 <= j < items.len() ==> is_keepable(
                kept_from(transact::<AnyHandler<P>>(hs, vars).0, items[j]),
            ),
    ensures
        ({
            let after = transact::<AnyHandler<P>>(hs, vars).0;
            let saved = items.map_values(|x: AnyKept| kept_from(after, x));
            let loaded = new_items.map_values(
                |x: AnyKept| replayed::<KeptItem>(x, parse_text(file_of(saved))),
            );
            read::<AnyHandler<P>>(served_all(new_hs, loaded), vars[i].oid) == vars[i].value
        }),
{
    let after = transact::<AnyHandler<P>>(hs, vars).0;
    let saved = items.map_values(|x: AnyKept| kept_from(after, x));
    let file = parse_text(file_of(saved));
    let loaded = new_items.map_values(|x: AnyKept| replayed::<KeptItem>(x, file));
    set_value_is_kept::<P>(hs, vars, i, item);
    let was = ScalarKept {
        scalar: ScalarState { value: vars[i].value, ..item.scalar },
        ..item
    };
    assert(saved[k] == AnyKept::Scalar(was));
    assert forall|j: int| 0 <= j < saved.len() implies is_keepable(#[trigger] saved[j]) by {
        assert(saved[j] == kept_from(after, items[j]));
    }
    assert forall|a: int, b: int| #![trigger saved[a], saved[b]]
        0 <= a < b < saved.len() implies KeptItem::key_of(saved[a]) != KeptItem::key_of(saved[b]) by {
        assert(KeptItem::key_of(saved[a]) == KeptItem::key_of(items[a]));
        assert(KeptItem::key_of(saved[b]) == KeptItem::key_of(items[b]));
    }
    restart_restores_values(saved, new_item, k, was);
    let got = ScalarKept {
        scalar: ScalarState { value: vars[i].value, ..new_item.scalar },
        ..new_item
    };
    assert(loaded[m] == AnyKept::Scalar(got));
    assert forall|j: int| m < j < loaded.len() implies !((#[trigger] loaded[j]) matches AnyKept::Scalar(
        s,
    ) && s.scalar.root == got.scalar.root) by {
        assert(loaded[j] == replayed::<KeptItem>(new_items[j], file));
        assert(!(new_items[j] matches AnyKept::Scalar(s) && s.scalar.root
            == new_item.scalar.root));
    }
    assert(is_served(new_hs, got));
    loaded_value_is_answered(new_hs, loaded, m, got);
}

} // verus!
